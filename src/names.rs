//! The fixed file names that indexing and requests rely on.
use vstd::prelude::*;

verus! {

/// `manifest.txt`
pub open spec fn manifest_txt() -> Seq<u8> {
    seq![0x6du8, 0x61, 0x6e, 0x69, 0x66, 0x65, 0x73, 0x74, 0x2e, 0x74, 0x78, 0x74]
}

/// `manifest.crc`
pub open spec fn manifest_crc() -> Seq<u8> {
    seq![0x6du8, 0x61, 0x6e, 0x69, 0x66, 0x65, 0x73, 0x74, 0x2e, 0x63, 0x72, 0x63]
}

/// `_manifest.txt`, the ending of a manifest that is merged with its remote
/// counterpart.
pub open spec fn manifest_suffix() -> Seq<u8> {
    seq![0x5fu8].add(manifest_txt())
}

/// `manifest.txt.z`, the name under which the remote manifest is asked for.
pub open spec fn remote_manifest() -> Seq<u8> {
    manifest_txt().push(0x2e).push(0x7a)
}

/// `pack`, the extension of pack archives.
pub open spec fn pack_extension() -> Seq<u8> {
    seq![0x70u8, 0x61, 0x63, 0x6b]
}

/// `/assets/`, the prefix of the one route.
pub open spec fn assets_prefix() -> Seq<u8> {
    seq![0x2fu8, 0x61, 0x73, 0x73, 0x65, 0x74, 0x73, 0x2f]
}

pub fn manifest_txt_bytes() -> (r: Vec<u8>)
    ensures
        r@ == manifest_txt(),
{
    let r: Vec<u8> = vec![0x6d, 0x61, 0x6e, 0x69, 0x66, 0x65, 0x73, 0x74, 0x2e, 0x74, 0x78, 0x74];
    assert(r@ =~= manifest_txt());
    r
}

pub fn manifest_crc_bytes() -> (r: Vec<u8>)
    ensures
        r@ == manifest_crc(),
{
    let r: Vec<u8> = vec![0x6d, 0x61, 0x6e, 0x69, 0x66, 0x65, 0x73, 0x74, 0x2e, 0x63, 0x72, 0x63];
    assert(r@ =~= manifest_crc());
    r
}

pub fn manifest_suffix_bytes() -> (r: Vec<u8>)
    ensures
        r@ == manifest_suffix(),
{
    let r: Vec<u8> = vec![0x5f, 0x6d, 0x61, 0x6e, 0x69, 0x66, 0x65, 0x73, 0x74, 0x2e, 0x74, 0x78, 0x74];
    assert(r@ =~= manifest_suffix());
    r
}

pub fn remote_manifest_bytes() -> (r: Vec<u8>)
    ensures
        r@ == remote_manifest(),
{
    let r: Vec<u8> = vec![0x6d, 0x61, 0x6e, 0x69, 0x66, 0x65, 0x73, 0x74, 0x2e, 0x74, 0x78, 0x74, 0x2e, 0x7a];
    assert(r@ =~= remote_manifest());
    r
}

pub fn pack_extension_bytes() -> (r: Vec<u8>)
    ensures
        r@ == pack_extension(),
{
    let r: Vec<u8> = vec![0x70, 0x61, 0x63, 0x6b];
    assert(r@ =~= pack_extension());
    r
}

pub fn assets_prefix_bytes() -> (r: Vec<u8>)
    ensures
        r@ == assets_prefix(),
{
    let r: Vec<u8> = vec![0x2f, 0x61, 0x73, 0x73, 0x65, 0x74, 0x73, 0x2f];
    assert(r@ =~= assets_prefix());
    r
}

} // verus!
