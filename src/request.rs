//! Decoding the path of an asset request into the key it asks for.
use vstd::prelude::*;
use crate::decimal::{decimal_value, parse_u32, u32_of};
use crate::name::{
    copy_range, extension_of, find_extension_dot, find_last, last_index_of, replace_extension,
    with_extension,
};
use crate::path::{all_normal, check_all_normal, check_rooted, components, is_rooted, seqs_of, split_components};

verus! {

/// What a request asks for: the asset key, whether the compressed envelope is
/// wanted, and the checksum that the client expects, if it named one.
#[derive(Debug, PartialEq, Eq)]
pub struct AssetRequest {
    pub key: Vec<Vec<u8>>,
    pub compress: bool,
    pub crc: Option<u32>,
}

impl AssetRequest {
    pub open spec fn view(&self) -> (Seq<Seq<u8>>, bool, Option<u32>) {
        (seqs_of(self.key@), self.compress, self.crc)
    }
}

/// A sharding prefix: three characters that read as a decimal number that
/// fits in 16 bits.
pub open spec fn is_name_hash(c: Seq<u8>) -> bool {
    c.len() == 3 && match decimal_value(c) {
        Some(v) => v <= 65535,
        None => false,
    }
}

pub open spec fn without_name_hash(cs: Seq<Seq<u8>>) -> Seq<Seq<u8>> {
    if cs.len() > 0 && is_name_hash(cs[0]) {
        cs.drop_first()
    } else {
        cs
    }
}

/// A file name with a `_<crc>` suffix taken off its extension, and that crc.
/// The extension is split at its last `_`, and only a part that reads as a
/// `u32` counts as a crc.
pub open spec fn split_crc(name: Seq<u8>) -> (Seq<u8>, Option<u32>) {
    match extension_of(name) {
        Some(ext) => {
            let u = last_index_of(ext, 0x5f);
            if u >= 0 {
                match u32_of(ext.subrange(u + 1, ext.len() as int)) {
                    Some(c) => (with_extension(name, ext.subrange(0, u)), Some(c)),
                    None => (name, None),
                }
            } else {
                (name, None)
            }
        },
        None => (name, None),
    }
}

/// A file name with a `.z` extension taken off, and whether it had one.
pub open spec fn split_compressed(name: Seq<u8>) -> (Seq<u8>, bool) {
    if extension_of(name) == Some(seq![0x7au8]) {
        (with_extension(name, Seq::empty()), true)
    } else {
        (name, false)
    }
}

/// The components that a request path names once a sharding prefix is
/// dropped.
pub open spec fn request_components(path: Seq<u8>) -> Seq<Seq<u8>> {
    without_name_hash(components(path))
}

/// An asset name with the crc suffix and then the `.z` extension taken off
/// its file name, whether it had that extension, and the crc.
pub open spec fn decomposed(cs: Seq<Seq<u8>>) -> (Seq<Seq<u8>>, bool, Option<u32>) {
    if cs.len() == 0 {
        (cs, false, None)
    } else {
        let (plain, crc) = split_crc(cs.last());
        let (name, compress) = split_compressed(plain);
        (cs.drop_last().push(name), compress, crc)
    }
}

/// What a request path decodes to: `None` when it starts at the root or a
/// component is not normal, else its components decomposed.
pub open spec fn decoded(path: Seq<u8>) -> Option<(Seq<Seq<u8>>, bool, Option<u32>)> {
    let cs = request_components(path);
    if is_rooted(path) || !all_normal(cs) {
        None
    } else {
        Some(decomposed(cs))
    }
}

/// Whether `c` is a sharding prefix.
pub fn check_name_hash(c: &[u8]) -> (r: bool)
    ensures
        r == is_name_hash(c@),
{
    if c.len() != 3 {
        return false;
    }
    match parse_u32(c) {
        Some(v) => v <= 65535,
        None => false,
    }
}

/// Takes a `_<crc>` suffix off the extension of `name`.
pub fn strip_crc(name: &[u8]) -> (r: (Vec<u8>, Option<u32>))
    ensures
        (r.0@, r.1) == split_crc(name@),
{
    let n = name.len();
    match find_extension_dot(name) {
        Some(d) => {
            let ext = &name[d + 1..n];
            match find_last(ext, 0x5f) {
                Some(u) => {
                    let digits = &ext[u + 1..ext.len()];
                    match parse_u32(digits) {
                        Some(c) => {
                            let base_ext = &ext[0..u];
                            (replace_extension(name, base_ext), Some(c))
                        },
                        None => (copy_range(name, 0, n), None),
                    }
                },
                None => (copy_range(name, 0, n), None),
            }
        },
        None => (copy_range(name, 0, n), None),
    }
}

/// Takes a `.z` extension off `name`.
pub fn strip_compressed(name: &[u8]) -> (r: (Vec<u8>, bool))
    ensures
        (r.0@, r.1) == split_compressed(name@),
{
    let n = name.len();
    match find_extension_dot(name) {
        Some(d) => {
            if n - d == 2 && name[d + 1] == 0x7a {
                assert(name@.subrange(d + 1, n as int) =~= seq![0x7au8]);
                let empty: Vec<u8> = Vec::new();
                (replace_extension(name, empty.as_slice()), true)
            } else {
                assert(name@.subrange(d + 1, n as int) != seq![0x7au8]) by {
                    if n - d == 2 {
                        assert(name@.subrange(d + 1, n as int)[0] != seq![0x7au8][0]);
                    } else {
                        assert(name@.subrange(d + 1, n as int).len() != 1);
                    }
                }
                (copy_range(name, 0, n), false)
            }
        },
        None => (copy_range(name, 0, n), false),
    }
}

/// Takes the crc suffix and then the `.z` extension off the file name of an
/// asset name.
pub fn decompose_extension(asset_name: Vec<Vec<u8>>) -> (r: (Vec<Vec<u8>>, bool, Option<u32>))
    ensures
        (seqs_of(r.0@), r.1, r.2) == decomposed(seqs_of(asset_name@)),
{
    let mut cs = asset_name;
    match cs.pop() {
        None => {
            assert(seqs_of(cs@) =~= Seq::<Seq<u8>>::empty());
            (cs, false, None)
        },
        Some(last) => {
            let ghost full = seqs_of(cs@).push(last@);
            assert(full =~= seqs_of(asset_name@));
            let (plain, crc) = strip_crc(last.as_slice());
            let (name, compress) = strip_compressed(plain.as_slice());
            let ghost prefix = seqs_of(cs@);
            cs.push(name);
            proof {
                assert(full.drop_last() =~= prefix);
                assert(seqs_of(cs@) =~= prefix.push(name@));
            }
            (cs, compress, crc)
        },
    }
}

/// Decodes the path of an asset request (what follows `/assets/`). `None`
/// means that the path starts at the root or a component is not normal, and
/// the request is refused.
pub fn decode_request(path: &[u8]) -> (r: Option<AssetRequest>)
    ensures
        match r {
            Some(q) => decoded(path@) == Some(q@),
            None => decoded(path@) is None,
        },
{
    if check_rooted(path) {
        return None;
    }
    let mut cs = split_components(path);
    if cs.len() > 0 && check_name_hash(cs[0].as_slice()) {
        let ghost before = cs@;
        let _prefix = cs.remove(0);
        assert(seqs_of(cs@) =~= seqs_of(before).drop_first());
    }
    assert(seqs_of(cs@) == request_components(path@));
    if !check_all_normal(&cs) {
        return None;
    }
    let (key, compress, crc) = decompose_extension(cs);
    Some(AssetRequest { key, compress, crc })
}

} // verus!
