//! The asset index: a map from asset keys to locators.
use vstd::prelude::*;
use crate::order::{cmp_keys, compare_keys, lemma_cmp_keys_laws, lemma_cmp_keys_trans};
use crate::path::seqs_of;

verus! {

/// Where the bytes of an asset come from.
#[derive(Debug, PartialEq, Eq)]
pub enum AssetBody {
    /// Bytes held in the index itself.
    Memory(Vec<u8>),
    /// `size` bytes at `offset` in the listed file number `source`.
    Slice { source: usize, offset: u64, size: u64 },
}

/// The model of an [`AssetBody`].
pub enum BodyView {
    Memory(Seq<u8>),
    Slice { source: usize, offset: u64, size: u64 },
}

/// An asset's checksum and where its bytes come from.
#[derive(Debug, PartialEq, Eq)]
pub struct AssetLocator {
    pub crc: u32,
    pub body: AssetBody,
}

/// The model of an [`AssetLocator`].
pub struct LocatorView {
    pub crc: u32,
    pub body: BodyView,
}

impl AssetLocator {
    pub open spec fn view(&self) -> LocatorView {
        LocatorView {
            crc: self.crc,
            body: match self.body {
                AssetBody::Memory(d) => BodyView::Memory(d@),
                AssetBody::Slice { source, offset, size } => BodyView::Slice { source, offset, size },
            },
        }
    }
}

pub struct IndexEntry {
    pub key: Vec<Vec<u8>>,
    pub locator: AssetLocator,
}

impl IndexEntry {
    pub open spec fn key_view(&self) -> Seq<Seq<u8>> {
        seqs_of(self.key@)
    }
}

/// The map that the first `n` entries describe.
pub open spec fn map_of(es: Seq<IndexEntry>, n: int) -> Map<Seq<Seq<u8>>, LocatorView>
    decreases n,
{
    if n <= 0 {
        Map::empty()
    } else {
        map_of(es, n - 1).insert(es[n - 1].key_view(), es[n - 1].locator@)
    }
}

/// Keys in strictly increasing order.
pub open spec fn keys_sorted(es: Seq<IndexEntry>) -> bool {
    forall|i: int, j: int|
        0 <= i < j < es.len() ==> cmp_keys(#[trigger] es[i].key_view(), #[trigger] es[j].key_view()) < 0
}

proof fn lemma_sorted_unique(es: Seq<IndexEntry>)
    requires
        keys_sorted(es),
    ensures
        keys_unique(es),
{
    assert forall|i: int, j: int| 0 <= i < j < es.len() implies #[trigger] es[i].key_view()
        != #[trigger] es[j].key_view() by {
        lemma_cmp_keys_laws(es[i].key_view(), es[j].key_view());
    }
}

pub open spec fn keys_unique(es: Seq<IndexEntry>) -> bool {
    forall|i: int, j: int|
        0 <= i < j < es.len() ==> #[trigger] es[i].key_view() != #[trigger] es[j].key_view()
}

/// An index from asset keys to locators, its entries kept in increasing
/// order of key.
pub struct AssetIndex {
    entries: Vec<IndexEntry>,
}

proof fn lemma_map_of_has(es: Seq<IndexEntry>, n: int, k: Seq<Seq<u8>>)
    requires
        0 <= n <= es.len(),
    ensures
        map_of(es, n).contains_key(k) <==> exists|i: int| 0 <= i < n && #[trigger] es[i].key_view() == k,
    decreases n,
{
    if n > 0 {
        lemma_map_of_has(es, n - 1, k);
        if es[n - 1].key_view() == k {
            assert(es[n - 1].key_view() == k);
        }
    }
}

proof fn lemma_map_of_at(es: Seq<IndexEntry>, n: int, i: int)
    requires
        0 <= i < n <= es.len(),
        keys_unique(es),
    ensures
        map_of(es, n).contains_key(es[i].key_view()),
        map_of(es, n)[es[i].key_view()] == es[i].locator@,
    decreases n,
{
    if i < n - 1 {
        lemma_map_of_at(es, n - 1, i);
        assert(es[i].key_view() != es[n - 1].key_view());
    }
}

proof fn lemma_map_of_update(es: Seq<IndexEntry>, n: int, i: int, e: IndexEntry)
    requires
        0 <= i < n <= es.len(),
        e.key_view() == es[i].key_view(),
        keys_unique(es),
    ensures
        map_of(es.update(i, e), n) == map_of(es, n).insert(e.key_view(), e.locator@),
    decreases n,
{
    let es2 = es.update(i, e);
    if n - 1 == i {
        if i > 0 {
            lemma_map_of_same_prefix(es, es2, i);
        }
        assert(map_of(es2, n - 1) == map_of(es, n - 1));
        assert(map_of(es2, n) =~= map_of(es, n).insert(e.key_view(), e.locator@));
    } else {
        lemma_map_of_update(es, n - 1, i, e);
        assert(es[n - 1].key_view() != e.key_view());
        assert(map_of(es2, n) =~= map_of(es, n).insert(e.key_view(), e.locator@));
    }
}

proof fn lemma_map_of_same_prefix(a: Seq<IndexEntry>, b: Seq<IndexEntry>, n: int)
    requires
        0 <= n <= a.len(),
        n <= b.len(),
        forall|j: int| 0 <= j < n ==> a[j] == b[j],
    ensures
        map_of(a, n) == map_of(b, n),
    decreases n,
{
    if n > 0 {
        lemma_map_of_same_prefix(a, b, n - 1);
    }
}

proof fn lemma_absent(es: Seq<IndexEntry>, k: Seq<Seq<u8>>)
    requires
        forall|j: int| 0 <= j < es.len() ==> cmp_keys(#[trigger] es[j].key_view(), k) != 0,
    ensures
        !map_of(es, es.len() as int).contains_key(k),
        forall|j: int| 0 <= j < es.len() ==> #[trigger] es[j].key_view() != k,
{
    assert forall|j: int| 0 <= j < es.len() implies #[trigger] es[j].key_view() != k by {
        lemma_cmp_keys_laws(es[j].key_view(), k);
    }
    lemma_map_of_has(es, es.len() as int, k);
}

proof fn lemma_map_of_insert(es: Seq<IndexEntry>, p: int, e: IndexEntry)
    requires
        0 <= p <= es.len(),
        keys_unique(es),
        keys_unique(es.insert(p, e)),
        forall|j: int| 0 <= j < es.len() ==> #[trigger] es[j].key_view() != e.key_view(),
    ensures
        map_of(es.insert(p, e), es.len() + 1int) == map_of(es, es.len() as int).insert(
            e.key_view(),
            e.locator@,
        ),
{
    let ns = es.insert(p, e);
    let n = es.len() as int;
    let a = map_of(ns, n + 1);
    let b = map_of(es, n).insert(e.key_view(), e.locator@);
    assert forall|k: Seq<Seq<u8>>| a.contains_key(k) <==> b.contains_key(k) by {
        lemma_map_of_has(ns, n + 1, k);
        lemma_map_of_has(es, n, k);
        if a.contains_key(k) {
            let i = choose|i: int| 0 <= i < n + 1 && #[trigger] ns[i].key_view() == k;
            if i < p {
                assert(es[i].key_view() == k);
            } else if i > p {
                assert(es[i - 1].key_view() == k);
            }
        }
        if map_of(es, n).contains_key(k) {
            let j = choose|j: int| 0 <= j < n && #[trigger] es[j].key_view() == k;
            if j < p {
                assert(ns[j].key_view() == k);
            } else {
                assert(ns[j + 1].key_view() == k);
            }
        }
        if k == e.key_view() {
            assert(ns[p].key_view() == k);
        }
    }
    assert forall|k: Seq<Seq<u8>>| a.contains_key(k) implies a[k] == b[k] by {
        lemma_map_of_has(ns, n + 1, k);
        let i = choose|i: int| 0 <= i < n + 1 && #[trigger] ns[i].key_view() == k;
        lemma_map_of_at(ns, n + 1, i);
        if i < p {
            lemma_map_of_at(es, n, i);
        } else if i > p {
            lemma_map_of_at(es, n, i - 1);
        }
    }
    assert(a =~= b);
}

impl AssetIndex {
    /// What the index maps each key to.
    pub closed spec fn view(&self) -> Map<Seq<Seq<u8>>, LocatorView> {
        map_of(self.entries@, self.entries@.len() as int)
    }

    pub closed spec fn wf(&self) -> bool {
        keys_sorted(self.entries@)
    }

    /// An index that maps nothing.
    pub fn new() -> (r: AssetIndex)
        ensures
            r.wf(),
            r@ == Map::<Seq<Seq<u8>>, LocatorView>::empty(),
    {
        AssetIndex { entries: Vec::new() }
    }

    /// The position of the entry for `key`, or where it would stand: every
    /// entry before it has a smaller key and every entry from it on a larger
    /// one.
    fn position(&self, key: &Vec<Vec<u8>>) -> (r: Result<usize, usize>)
        requires
            self.wf(),
        ensures
            match r {
                Ok(i) => i < self.entries@.len() && self.entries@[i as int].key_view() == seqs_of(key@),
                Err(p) => p <= self.entries@.len() && (forall|j: int|
                    0 <= j < p ==> cmp_keys(#[trigger] self.entries@[j].key_view(), seqs_of(key@)) < 0)
                    && (forall|j: int|
                    p <= j < self.entries@.len() ==> cmp_keys(
                        #[trigger] self.entries@[j].key_view(),
                        seqs_of(key@),
                    ) > 0),
            },
    {
        let ghost k = seqs_of(key@);
        let n = self.entries.len();
        let mut lo: usize = 0;
        let mut hi: usize = n;
        while lo < hi
            invariant
                lo <= hi <= n,
                n == self.entries@.len(),
                k == seqs_of(key@),
                keys_sorted(self.entries@),
                forall|j: int| 0 <= j < lo ==> cmp_keys(#[trigger] self.entries@[j].key_view(), k) < 0,
                forall|j: int| hi <= j < n ==> cmp_keys(#[trigger] self.entries@[j].key_view(), k) >= 0,
            decreases hi - lo,
        {
            let mid = lo + (hi - lo) / 2;
            let c = compare_keys(&self.entries[mid].key, key);
            let ghost km = self.entries@[mid as int].key_view();
            if c < 0 {
                proof {
                    assert forall|j: int| 0 <= j < mid + 1 implies cmp_keys(
                        #[trigger] self.entries@[j].key_view(),
                        k,
                    ) < 0 by {
                        if j < mid {
                            lemma_cmp_keys_trans(self.entries@[j].key_view(), km, k);
                        }
                    }
                }
                lo = mid + 1;
            } else {
                proof {
                    assert forall|j: int| mid <= j < n implies cmp_keys(
                        #[trigger] self.entries@[j].key_view(),
                        k,
                    ) >= 0 by {
                        let kj = self.entries@[j].key_view();
                        if j > mid {
                            lemma_cmp_keys_laws(km, kj);
                            lemma_cmp_keys_laws(k, km);
                            lemma_cmp_keys_laws(k, kj);
                            if cmp_keys(km, k) == 0 {
                                assert(km == k);
                            } else {
                                lemma_cmp_keys_trans(k, km, kj);
                            }
                        }
                    }
                }
                hi = mid;
            }
        }
        if lo < n && compare_keys(&self.entries[lo].key, key) == 0 {
            proof {
                lemma_cmp_keys_laws(self.entries@[lo as int].key_view(), k);
            }
            return Ok(lo);
        }
        proof {
            assert forall|j: int| lo <= j < n implies cmp_keys(#[trigger] self.entries@[j].key_view(), k)
                > 0 by {
                let kj = self.entries@[j].key_view();
                lemma_cmp_keys_laws(kj, k);
                if j > lo {
                    let kl = self.entries@[lo as int].key_view();
                    lemma_cmp_keys_laws(kl, kj);
                    lemma_cmp_keys_laws(kl, k);
                    if cmp_keys(kj, k) == 0 {
                        assert(kj == k);
                        assert(cmp_keys(kl, kj) < 0);
                    }
                }
            }
        }
        Err(lo)
    }

    /// The locator for `key`, if the index has one.
    pub fn get(&self, key: &Vec<Vec<u8>>) -> (r: Option<&AssetLocator>)
        requires
            self.wf(),
        ensures
            match r {
                Some(l) => self@.contains_key(seqs_of(key@)) && self@[seqs_of(key@)] == l@,
                None => !self@.contains_key(seqs_of(key@)),
            },
    {
        proof {
            lemma_sorted_unique(self.entries@);
        }
        match self.position(key) {
            Ok(i) => {
                proof {
                    lemma_map_of_at(self.entries@, self.entries@.len() as int, i as int);
                }
                Some(&self.entries[i].locator)
            },
            Err(_) => {
                proof {
                    lemma_absent(self.entries@, seqs_of(key@));
                }
                None
            },
        }
    }

    /// Maps `key` to `locator`, replacing what it mapped to before.
    pub fn put(&mut self, key: Vec<Vec<u8>>, locator: AssetLocator)
        requires
            old(self).wf(),
        ensures
            final(self).wf(),
            final(self)@ == old(self)@.insert(seqs_of(key@), locator@),
    {
        proof {
            lemma_sorted_unique(self.entries@);
        }
        let e = IndexEntry { key, locator };
        match self.position(&e.key) {
            Ok(i) => {
                proof {
                    lemma_map_of_update(self.entries@, self.entries@.len() as int, i as int, e);
                }
                let ghost before = self.entries@;
                self.entries.set(i, e);
                assert(self.entries@ == before.update(i as int, e));
                assert(keys_sorted(self.entries@)) by {
                    assert forall|a: int, b: int| 0 <= a < b < self.entries@.len() implies cmp_keys(
                        #[trigger] self.entries@[a].key_view(),
                        #[trigger] self.entries@[b].key_view(),
                    ) < 0 by {
                        assert(cmp_keys(before[a].key_view(), before[b].key_view()) < 0);
                    }
                }
            },
            Err(p) => {
                let ghost before = self.entries@;
                proof {
                    lemma_absent(before, e.key_view());
                }
                self.entries.insert(p, e);
                assert(self.entries@ == before.insert(p as int, e));
                assert(keys_sorted(self.entries@)) by {
                    assert forall|a: int, b: int| 0 <= a < b < self.entries@.len() implies cmp_keys(
                        #[trigger] self.entries@[a].key_view(),
                        #[trigger] self.entries@[b].key_view(),
                    ) < 0 by {
                        let ns = self.entries@;
                        if b < p {
                            assert(cmp_keys(before[a].key_view(), before[b].key_view()) < 0);
                        } else if b == p {
                            assert(cmp_keys(before[a].key_view(), e.key_view()) < 0);
                        } else if a == p {
                            assert(cmp_keys(before[b - 1].key_view(), e.key_view()) > 0);
                            lemma_cmp_keys_laws(before[b - 1].key_view(), e.key_view());
                        } else if a < p {
                            assert(cmp_keys(before[a].key_view(), before[b - 1].key_view()) < 0);
                        } else {
                            assert(cmp_keys(before[a - 1].key_view(), before[b - 1].key_view()) < 0);
                        }
                    }
                }
                proof {
                    lemma_sorted_unique(self.entries@);
                    lemma_map_of_insert(before, p as int, e);
                }
            },
        }
    }

    /// Maps `key` to `locator` unless the index maps `key` already.
    pub fn put_if_absent(&mut self, key: Vec<Vec<u8>>, locator: AssetLocator)
        requires
            old(self).wf(),
        ensures
            final(self).wf(),
            final(self)@ == if old(self)@.contains_key(seqs_of(key@)) {
                old(self)@
            } else {
                old(self)@.insert(seqs_of(key@), locator@)
            },
    {
        proof {
            lemma_sorted_unique(self.entries@);
        }
        match self.position(&key) {
            Ok(i) => {
                proof {
                    lemma_map_of_at(self.entries@, self.entries@.len() as int, i as int);
                }
            },
            Err(_) => {
                proof {
                    lemma_absent(self.entries@, seqs_of(key@));
                }
                self.put(key, locator);
            },
        }
    }
}

} // verus!
