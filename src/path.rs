//! Relative asset paths as sequences of components, read the way
//! `std::path` reads a path on Unix: `/` separates, empty pieces are no
//! components, and a leading `/` is a root.
use vstd::prelude::*;
use crate::name::copy_range;

verus! {

/// The contents of each buffer of a list.
pub open spec fn seqs_of(v: Seq<Vec<u8>>) -> Seq<Seq<u8>> {
    v.map_values(|c: Vec<u8>| c@)
}

pub open spec fn is_separator(b: u8) -> bool {
    b == 0x2f
}

/// The pieces of the first `n` bytes of `s` between separators, in order; `k`
/// separators give `k + 1` pieces, some of which may be empty.
pub open spec fn segments_upto(s: Seq<u8>, n: int) -> Seq<Seq<u8>>
    decreases n,
{
    if n <= 0 {
        seq![Seq::empty()]
    } else {
        let prev = segments_upto(s, n - 1);
        if is_separator(s[n - 1]) {
            prev.push(Seq::empty())
        } else {
            prev.update(prev.len() - 1, prev.last().push(s[n - 1]))
        }
    }
}

pub proof fn lemma_segments_nonempty(s: Seq<u8>, n: int)
    ensures
        segments_upto(s, n).len() >= 1,
    decreases n,
{
    if n > 0 {
        lemma_segments_nonempty(s, n - 1);
    }
}

/// The pieces of `s` between separators.
pub open spec fn segments(s: Seq<u8>) -> Seq<Seq<u8>> {
    segments_upto(s, s.len() as int)
}

/// A component that names an entry inside its parent: not empty, not `.` or
/// `..`.
pub open spec fn is_normal(c: Seq<u8>) -> bool {
    &&& c.len() > 0
    &&& c != seq![0x2eu8]
    &&& c != seq![0x2eu8, 0x2eu8]
}

/// The non-empty pieces among the first `n` of `segs`.
pub open spec fn nonempty_pieces(segs: Seq<Seq<u8>>, n: int) -> Seq<Seq<u8>>
    decreases n,
{
    if n <= 0 {
        Seq::empty()
    } else if segs[n - 1].len() == 0 {
        nonempty_pieces(segs, n - 1)
    } else {
        nonempty_pieces(segs, n - 1).push(segs[n - 1])
    }
}

/// The components of `s`: its non-empty pieces between separators.
pub open spec fn components(s: Seq<u8>) -> Seq<Seq<u8>> {
    nonempty_pieces(segments(s), segments(s).len() as int)
}

/// Whether `s` starts at the root.
pub open spec fn is_rooted(s: Seq<u8>) -> bool {
    s.len() > 0 && s[0] == 0x2f
}

/// A path relative to a folder that names an entry inside it: not rooted,
/// with at least one component, every one of them normal.
pub open spec fn is_entry_path(s: Seq<u8>) -> bool {
    !is_rooted(s) && components(s).len() > 0 && all_normal(components(s))
}

/// The last of the first `n` pieces that is neither empty nor `.`.
pub open spec fn last_name_piece(segs: Seq<Seq<u8>>, n: int) -> Option<Seq<u8>>
    decreases n,
{
    if n <= 0 {
        None
    } else if segs[n - 1].len() == 0 || segs[n - 1] == seq![0x2eu8] {
        last_name_piece(segs, n - 1)
    } else {
        Some(segs[n - 1])
    }
}

/// The file name of `s`, as `Path::file_name` gives it: its last component
/// once trailing separators and `.` are passed over; none when that is `..`
/// or there is none.
pub open spec fn file_name(s: Seq<u8>) -> Option<Seq<u8>> {
    match last_name_piece(segments(s), segments(s).len() as int) {
        Some(p) => if p == seq![0x2eu8, 0x2eu8] {
            None
        } else {
            Some(p)
        },
        None => None,
    }
}

pub open spec fn all_normal(cs: Seq<Seq<u8>>) -> bool {
    forall|i: int| 0 <= i < cs.len() ==> is_normal(#[trigger] cs[i])
}

/// Splits `s` at every separator.
pub fn split_segments(s: &[u8]) -> (r: Vec<Vec<u8>>)
    ensures
        seqs_of(r@) == segments(s@),
{
    let n = s.len();
    let mut r: Vec<Vec<u8>> = Vec::new();
    let mut cur: Vec<u8> = Vec::new();
    let mut i: usize = 0;
    while i < n
        invariant
            n == s@.len(),
            i <= n,
            seqs_of(r@).push(cur@) == segments_upto(s@, i as int),
        decreases n - i,
    {
        let b = s[i];
        proof {
            lemma_segments_nonempty(s@, i as int);
        }
        let ghost prev = segments_upto(s@, i as int);
        if b == 0x2f {
            let ghost old_r = seqs_of(r@);
            r.push(cur);
            cur = Vec::new();
            assert(seqs_of(r@) =~= old_r.push(prev.last()));
            assert(seqs_of(r@) =~= prev);
            assert(seqs_of(r@).push(cur@) =~= segments_upto(s@, i + 1));
        } else {
            cur.push(b);
            assert(seqs_of(r@).push(cur@) =~= prev.update(prev.len() - 1, prev.last().push(b)));
        }
        i = i + 1;
    }
    r.push(cur);
    assert(seqs_of(r@) =~= segments(s@));
    r
}

/// The components of `s`.
pub fn split_components(s: &[u8]) -> (r: Vec<Vec<u8>>)
    ensures
        seqs_of(r@) == components(s@),
{
    let segs = split_segments(s);
    let mut r: Vec<Vec<u8>> = Vec::new();
    let mut i: usize = 0;
    while i < segs.len()
        invariant
            i <= segs@.len(),
            seqs_of(segs@) == segments(s@),
            seqs_of(r@) == nonempty_pieces(seqs_of(segs@), i as int),
        decreases segs.len() - i,
    {
        if segs[i].len() > 0 {
            let c = copy_range(segs[i].as_slice(), 0, segs[i].len());
            assert(c@ =~= seqs_of(segs@)[i as int]);
            let ghost before = seqs_of(r@);
            r.push(c);
            assert(seqs_of(r@) =~= before.push(seqs_of(segs@)[i as int]));
        }
        i = i + 1;
    }
    r
}

/// Whether `s` starts at the root.
pub fn check_rooted(s: &[u8]) -> (r: bool)
    ensures
        r == is_rooted(s@),
{
    s.len() > 0 && s[0] == 0x2f
}

/// Whether `s` names an entry inside the folder it is relative to.
pub fn check_entry_path(s: &[u8]) -> (r: bool)
    ensures
        r == is_entry_path(s@),
{
    if check_rooted(s) {
        return false;
    }
    let cs = split_components(s);
    cs.len() > 0 && check_all_normal(&cs)
}

/// The file name of `s`.
pub fn find_file_name(s: &[u8]) -> (r: Option<Vec<u8>>)
    ensures
        match r {
            Some(n) => file_name(s@) == Some(n@),
            None => file_name(s@) is None,
        },
{
    let segs = split_segments(s);
    let mut i: usize = segs.len();
    while i > 0
        invariant
            i <= segs@.len(),
            seqs_of(segs@) == segments(s@),
            last_name_piece(seqs_of(segs@), i as int) == last_name_piece(
                seqs_of(segs@),
                segs@.len() as int,
            ),
        decreases i,
    {
        let p = segs[i - 1].as_slice();
        let is_dot = p.len() == 1 && p[0] == 0x2e;
        assert(is_dot <==> p@ == seq![0x2eu8]) by {
            if p@ == seq![0x2eu8] {
                assert(p@[0] == 0x2e);
            }
            if is_dot {
                assert(p@ =~= seq![0x2eu8]);
            }
        }
        if p.len() != 0 && !is_dot {
            if p.len() == 2 && p[0] == 0x2e && p[1] == 0x2e {
                assert(p@ =~= seq![0x2eu8, 0x2eu8]);
                return None;
            }
            assert(p@ != seq![0x2eu8, 0x2eu8]) by {
                if p@.len() == 2 {
                    if p@[0] == 0x2e {
                        assert(p@[1] != seq![0x2eu8, 0x2eu8][1]);
                    } else {
                        assert(p@[0] != seq![0x2eu8, 0x2eu8][0]);
                    }
                }
            }
            let name = copy_range(p, 0, p.len());
            assert(name@ =~= p@);
            return Some(name);
        }
        i = i - 1;
    }
    None
}

/// Whether `c` is a normal component.
pub fn check_normal(c: &[u8]) -> (r: bool)
    ensures
        r == is_normal(c@),
{
    let n = c.len();
    if n == 0 {
        return false;
    }
    if n == 1 && c[0] == 0x2e {
        assert(c@ =~= seq![0x2eu8]);
        return false;
    }
    if n == 2 && c[0] == 0x2e && c[1] == 0x2e {
        assert(c@ =~= seq![0x2eu8, 0x2eu8]);
        return false;
    }
    assert(c@ != seq![0x2eu8]) by {
        if n == 1 {
            assert(c@[0] != seq![0x2eu8][0]);
        }
    }
    assert(c@ != seq![0x2eu8, 0x2eu8]) by {
        if n == 2 {
            if c@[0] == 0x2e {
                assert(c@[1] != seq![0x2eu8, 0x2eu8][1]);
            } else {
                assert(c@[0] != seq![0x2eu8, 0x2eu8][0]);
            }
        }
    }
    true
}

/// Whether every component of `cs` is normal.
pub fn check_all_normal(cs: &Vec<Vec<u8>>) -> (r: bool)
    ensures
        r == all_normal(seqs_of(cs@)),
{
    let mut i: usize = 0;
    while i < cs.len()
        invariant
            i <= cs.len(),
            forall|j: int| 0 <= j < i ==> is_normal(#[trigger] seqs_of(cs@)[j]),
        decreases cs.len() - i,
    {
        if !check_normal(cs[i].as_slice()) {
            assert(!is_normal(seqs_of(cs@)[i as int]));
            return false;
        }
        i = i + 1;
    }
    true
}

/// Whether two byte strings are equal.
pub fn bytes_equal(a: &[u8], b: &[u8]) -> (r: bool)
    ensures
        r == (a@ == b@),
{
    if a.len() != b.len() {
        return false;
    }
    let mut i: usize = 0;
    while i < a.len()
        invariant
            a@.len() == b@.len(),
            i <= a@.len(),
            forall|j: int| 0 <= j < i ==> a@[j] == b@[j],
        decreases a.len() - i,
    {
        if a[i] != b[i] {
            return false;
        }
        i = i + 1;
    }
    assert(a@ =~= b@);
    true
}

} // verus!
