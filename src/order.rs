//! The lexicographic order of byte strings and of component lists.
use vstd::prelude::*;
use crate::path::seqs_of;

verus! {

/// How `a` compares with `b` byte by byte: -1 before, 0 equal, 1 after; a
/// proper prefix comes first.
pub open spec fn cmp_bytes(a: Seq<u8>, b: Seq<u8>) -> int
    decreases a.len(),
{
    if a.len() == 0 && b.len() == 0 {
        0
    } else if a.len() == 0 {
        -1
    } else if b.len() == 0 {
        1
    } else if a[0] < b[0] {
        -1
    } else if a[0] > b[0] {
        1
    } else {
        cmp_bytes(a.drop_first(), b.drop_first())
    }
}

/// How `a` compares with `b` component by component.
pub open spec fn cmp_keys(a: Seq<Seq<u8>>, b: Seq<Seq<u8>>) -> int
    decreases a.len(),
{
    if a.len() == 0 && b.len() == 0 {
        0
    } else if a.len() == 0 {
        -1
    } else if b.len() == 0 {
        1
    } else if cmp_bytes(a[0], b[0]) != 0 {
        cmp_bytes(a[0], b[0])
    } else {
        cmp_keys(a.drop_first(), b.drop_first())
    }
}

pub proof fn lemma_cmp_bytes_laws(a: Seq<u8>, b: Seq<u8>)
    ensures
        -1 <= cmp_bytes(a, b) <= 1,
        (cmp_bytes(a, b) == 0) == (a == b),
        cmp_bytes(b, a) == -cmp_bytes(a, b),
    decreases a.len(),
{
    if a.len() > 0 && b.len() > 0 {
        lemma_cmp_bytes_laws(a.drop_first(), b.drop_first());
        if a[0] == b[0] && a.drop_first() == b.drop_first() {
            assert(a =~= seq![a[0]] + a.drop_first());
            assert(b =~= seq![b[0]] + b.drop_first());
        }
    }
    if a.len() == 0 && b.len() == 0 {
        assert(a =~= b);
    }
}

pub proof fn lemma_cmp_bytes_trans(a: Seq<u8>, b: Seq<u8>, c: Seq<u8>)
    requires
        cmp_bytes(a, b) < 0,
        cmp_bytes(b, c) < 0,
    ensures
        cmp_bytes(a, c) < 0,
    decreases a.len(),
{
    if a.len() > 0 && b.len() > 0 && c.len() > 0 && a[0] == b[0] && b[0] == c[0] {
        lemma_cmp_bytes_trans(a.drop_first(), b.drop_first(), c.drop_first());
    }
}

pub proof fn lemma_cmp_keys_laws(a: Seq<Seq<u8>>, b: Seq<Seq<u8>>)
    ensures
        -1 <= cmp_keys(a, b) <= 1,
        (cmp_keys(a, b) == 0) == (a == b),
        cmp_keys(b, a) == -cmp_keys(a, b),
    decreases a.len(),
{
    if a.len() > 0 && b.len() > 0 {
        lemma_cmp_bytes_laws(a[0], b[0]);
        lemma_cmp_keys_laws(a.drop_first(), b.drop_first());
        if a[0] == b[0] && a.drop_first() == b.drop_first() {
            assert(a =~= seq![a[0]] + a.drop_first());
            assert(b =~= seq![b[0]] + b.drop_first());
        }
    }
    if a.len() == 0 && b.len() == 0 {
        assert(a =~= b);
    }
}

pub proof fn lemma_cmp_keys_trans(a: Seq<Seq<u8>>, b: Seq<Seq<u8>>, c: Seq<Seq<u8>>)
    requires
        cmp_keys(a, b) < 0,
        cmp_keys(b, c) < 0,
    ensures
        cmp_keys(a, c) < 0,
    decreases a.len(),
{
    if a.len() > 0 && b.len() > 0 && c.len() > 0 {
        lemma_cmp_bytes_laws(a[0], b[0]);
        lemma_cmp_bytes_laws(b[0], c[0]);
        lemma_cmp_bytes_laws(a[0], c[0]);
        if cmp_bytes(a[0], b[0]) < 0 && cmp_bytes(b[0], c[0]) < 0 {
            lemma_cmp_bytes_trans(a[0], b[0], c[0]);
        }
        if a[0] == b[0] && b[0] == c[0] {
            lemma_cmp_keys_trans(a.drop_first(), b.drop_first(), c.drop_first());
        }
    }
}

/// How `a` compares with `b`.
pub fn compare_bytes(a: &[u8], b: &[u8]) -> (r: i8)
    ensures
        r as int == cmp_bytes(a@, b@),
{
    let mut i: usize = 0;
    assert(a@.subrange(0, a@.len() as int) =~= a@);
    assert(b@.subrange(0, b@.len() as int) =~= b@);
    while i < a.len() && i < b.len()
        invariant
            i <= a@.len(),
            i <= b@.len(),
            cmp_bytes(a@, b@) == cmp_bytes(
                a@.subrange(i as int, a@.len() as int),
                b@.subrange(i as int, b@.len() as int),
            ),
        decreases a.len() - i,
    {
        let ghost sa = a@.subrange(i as int, a@.len() as int);
        let ghost sb = b@.subrange(i as int, b@.len() as int);
        assert(sa[0] == a@[i as int]);
        assert(sb[0] == b@[i as int]);
        if a[i] < b[i] {
            return -1;
        }
        if a[i] > b[i] {
            return 1;
        }
        assert(sa.drop_first() =~= a@.subrange(i + 1, a@.len() as int));
        assert(sb.drop_first() =~= b@.subrange(i + 1, b@.len() as int));
        i = i + 1;
    }
    let ghost sa = a@.subrange(i as int, a@.len() as int);
    let ghost sb = b@.subrange(i as int, b@.len() as int);
    if i < a.len() {
        assert(sa.len() > 0 && sb.len() == 0);
        1
    } else if i < b.len() {
        assert(sa.len() == 0 && sb.len() > 0);
        -1
    } else {
        assert(sa.len() == 0 && sb.len() == 0);
        0
    }
}

/// How the component list `a` compares with `b`.
pub fn compare_keys(a: &Vec<Vec<u8>>, b: &Vec<Vec<u8>>) -> (r: i8)
    ensures
        r as int == cmp_keys(seqs_of(a@), seqs_of(b@)),
{
    let ghost xa = seqs_of(a@);
    let ghost xb = seqs_of(b@);
    let mut i: usize = 0;
    assert(xa.subrange(0, xa.len() as int) =~= xa);
    assert(xb.subrange(0, xb.len() as int) =~= xb);
    while i < a.len() && i < b.len()
        invariant
            i <= a@.len(),
            i <= b@.len(),
            xa == seqs_of(a@),
            xb == seqs_of(b@),
            cmp_keys(xa, xb) == cmp_keys(
                xa.subrange(i as int, xa.len() as int),
                xb.subrange(i as int, xb.len() as int),
            ),
        decreases a.len() - i,
    {
        let ghost sa = xa.subrange(i as int, xa.len() as int);
        let ghost sb = xb.subrange(i as int, xb.len() as int);
        assert(sa[0] == a@[i as int]@);
        assert(sb[0] == b@[i as int]@);
        let c = compare_bytes(a[i].as_slice(), b[i].as_slice());
        if c != 0 {
            return c;
        }
        assert(sa.drop_first() =~= xa.subrange(i + 1, xa.len() as int));
        assert(sb.drop_first() =~= xb.subrange(i + 1, xb.len() as int));
        i = i + 1;
    }
    let ghost sa = xa.subrange(i as int, xa.len() as int);
    let ghost sb = xb.subrange(i as int, xb.len() as int);
    if i < a.len() {
        assert(sa.len() > 0 && sb.len() == 0);
        1
    } else if i < b.len() {
        assert(sa.len() == 0 && sb.len() > 0);
        -1
    } else {
        assert(sa.len() == 0 && sb.len() == 0);
        0
    }
}

} // verus!
