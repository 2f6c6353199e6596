//! File names: extensions and suffixes, read the way `std::path` reads them.
use vstd::prelude::*;

verus! {

/// The position of the last `b` among the first `n` bytes of `s`, or -1.
pub open spec fn last_index_before(s: Seq<u8>, b: u8, n: int) -> int
    decreases n,
{
    if n <= 0 {
        -1
    } else if s[n - 1] == b {
        n - 1
    } else {
        last_index_before(s, b, n - 1)
    }
}

pub open spec fn last_index_of(s: Seq<u8>, b: u8) -> int {
    last_index_before(s, b, s.len() as int)
}

/// The position of the dot that starts the extension of `name`: the last dot,
/// when it is neither the first byte nor part of `..`.
pub open spec fn extension_dot(name: Seq<u8>) -> Option<int> {
    let d = last_index_of(name, 0x2e);
    if d <= 0 || name == seq![0x2eu8, 0x2eu8] {
        None
    } else {
        Some(d)
    }
}

/// The extension of `name`: what follows its extension dot.
pub open spec fn extension_of(name: Seq<u8>) -> Option<Seq<u8>> {
    match extension_dot(name) {
        Some(d) => Some(name.subrange(d + 1, name.len() as int)),
        None => None,
    }
}

/// `name` with its extension replaced by `ext`; an empty `ext` drops the dot
/// too.
pub open spec fn with_extension(name: Seq<u8>, ext: Seq<u8>) -> Seq<u8> {
    let stem = match extension_dot(name) {
        Some(d) => name.subrange(0, d),
        None => name,
    };
    if ext.len() == 0 {
        stem
    } else {
        stem.push(0x2eu8) + ext
    }
}

pub open spec fn ends_with(s: Seq<u8>, suffix: Seq<u8>) -> bool {
    suffix.len() <= s.len() && s.subrange(s.len() - suffix.len(), s.len() as int) == suffix
}

/// The position of the last `b` in `s`.
pub fn find_last(s: &[u8], b: u8) -> (r: Option<usize>)
    ensures
        match r {
            Some(i) => i as int == last_index_of(s@, b) && i < s@.len(),
            None => last_index_of(s@, b) == -1,
        },
{
    let mut i: usize = s.len();
    while i > 0
        invariant
            i <= s@.len(),
            last_index_before(s@, b, i as int) == last_index_of(s@, b),
        decreases i,
    {
        if s[i - 1] == b {
            return Some(i - 1);
        }
        i = i - 1;
    }
    None
}

/// The position of the extension dot of `name`.
pub fn find_extension_dot(name: &[u8]) -> (r: Option<usize>)
    ensures
        match r {
            Some(d) => extension_dot(name@) == Some(d as int) && d < name@.len(),
            None => extension_dot(name@) is None,
        },
{
    match find_last(name, 0x2e) {
        Some(d) => {
            if d == 0 {
                return None;
            }
            if name.len() == 2 && name[0] == 0x2e && name[1] == 0x2e {
                assert(name@ =~= seq![0x2eu8, 0x2eu8]);
                return None;
            }
            assert(name@ != seq![0x2eu8, 0x2eu8]) by {
                if name@.len() == 2 {
                    if name@[0] == 0x2e {
                        assert(name@[1] != seq![0x2eu8, 0x2eu8][1]);
                    } else {
                        assert(name@[0] != seq![0x2eu8, 0x2eu8][0]);
                    }
                }
            }
            Some(d)
        },
        None => None,
    }
}

/// Copies `s[from..to]`.
pub fn copy_range(s: &[u8], from: usize, to: usize) -> (r: Vec<u8>)
    requires
        from <= to <= s@.len(),
    ensures
        r@ == s@.subrange(from as int, to as int),
{
    let mut r: Vec<u8> = Vec::new();
    let mut i: usize = from;
    while i < to
        invariant
            from <= i <= to <= s@.len(),
            r@ == s@.subrange(from as int, i as int),
        decreases to - i,
    {
        r.push(s[i]);
        i = i + 1;
        assert(r@ =~= s@.subrange(from as int, i as int));
    }
    r
}

/// Appends `tail` to `v`.
pub fn append_bytes(v: &mut Vec<u8>, tail: &[u8])
    ensures
        final(v)@ == old(v)@ + tail@,
{
    let ghost start = v@;
    let mut i: usize = 0;
    while i < tail.len()
        invariant
            i <= tail@.len(),
            v@ == start + tail@.subrange(0, i as int),
        decreases tail.len() - i,
    {
        v.push(tail[i]);
        i = i + 1;
        assert(v@ =~= start + tail@.subrange(0, i as int));
    }
    assert(tail@.subrange(0, tail@.len() as int) =~= tail@);
}

/// `name` with its extension replaced by `ext`.
pub fn replace_extension(name: &[u8], ext: &[u8]) -> (r: Vec<u8>)
    ensures
        r@ == with_extension(name@, ext@),
{
    let end = match find_extension_dot(name) {
        Some(d) => d,
        None => name.len(),
    };
    let mut r = copy_range(name, 0, end);
    assert(extension_dot(name@) is None ==> name@.subrange(0, end as int) =~= name@);
    if ext.len() > 0 {
        r.push(0x2e);
        append_bytes(&mut r, ext);
    }
    r
}

/// Whether `s` ends with `suffix`.
pub fn has_suffix(s: &[u8], suffix: &[u8]) -> (r: bool)
    ensures
        r == ends_with(s@, suffix@),
{
    if suffix.len() > s.len() {
        return false;
    }
    let off = s.len() - suffix.len();
    let mut i: usize = 0;
    while i < suffix.len()
        invariant
            off + suffix@.len() == s@.len(),
            s@.len() == s.len(),
            i <= suffix@.len(),
            forall|j: int| 0 <= j < i ==> s@[off + j] == suffix@[j],
        decreases suffix.len() - i,
    {
        if s[off + i] != suffix[i] {
            assert(s@.subrange(off as int, s@.len() as int)[i as int] != suffix@[i as int]);
            return false;
        }
        i = i + 1;
    }
    assert(s@.subrange(off as int, s@.len() as int) =~= suffix@);
    true
}

} // verus!
