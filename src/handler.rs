//! Answering an asset request from the index.
//!
//! [`handle_request`] decides; the caller carries the decision out. Bytes of a
//! file slice are read by the caller and wrapped with
//! [`crate::envelope::build_response`]; when that read fails the caller
//! forwards to the fallback that the decision names.
use vstd::prelude::*;
use crate::envelope::{build_response, response_bytes};
use crate::index::{AssetBody, AssetIndex, BodyView, LocatorView};
use crate::name::copy_range;
use crate::names::{assets_prefix, assets_prefix_bytes};
use crate::indexing::{index_of, lemma_loose_files_shadow_packs, sole_loose_file, SummaryView};
use crate::path::{all_normal, bytes_equal, components, is_rooted};
use crate::request::{decode_request, decoded, request_components};

verus! {

/// What to do with a request.
#[derive(Debug, PartialEq, Eq)]
pub enum Action {
    /// Answer 400: the path leaves the asset tree.
    Refuse,
    /// Answer 200 with these bytes.
    Serve(Vec<u8>),
    /// Read `size` bytes at `offset` of the listed file `source` and answer
    /// 200 with them, in the envelope when `compress` is set; when the read
    /// fails, forward as [`Action::Forward`] does, to `fallback`.
    ReadSlice { source: usize, offset: u64, size: u64, compress: bool, fallback: Vec<u8> },
    /// Ask the origin for `assets/` followed by these bytes, and pass its
    /// answer on.
    Forward(Vec<u8>),
}

/// The model of an [`Action`].
pub enum ActionView {
    Refuse,
    Serve(Seq<u8>),
    ReadSlice { source: usize, offset: u64, size: u64, compress: bool, fallback: Seq<u8> },
    Forward(Seq<u8>),
}

impl Action {
    pub open spec fn view(&self) -> ActionView {
        match self {
            Action::Refuse => ActionView::Refuse,
            Action::Serve(b) => ActionView::Serve(b@),
            Action::ReadSlice { source, offset, size, compress, fallback } => ActionView::ReadSlice {
                source: *source,
                offset: *offset,
                size: *size,
                compress: *compress,
                fallback: fallback@,
            },
            Action::Forward(t) => ActionView::Forward(t@),
        }
    }
}

/// What follows `/assets/` in a request's path and query.
pub open spec fn upstream_path(path_and_query: Seq<u8>) -> Seq<u8> {
    if path_and_query.len() >= 8 && path_and_query.subrange(0, 8) == assets_prefix() {
        path_and_query.subrange(8, path_and_query.len() as int)
    } else {
        path_and_query
    }
}

/// Whether a request that names checksum `crc` may be answered with `loc`.
pub open spec fn crc_accepts(crc: Option<u32>, loc: LocatorView) -> bool {
    match crc {
        Some(c) => c == loc.crc,
        None => true,
    }
}

/// What a request for `path` (decoded, after `/assets/`) with raw path and
/// query `path_and_query` gets from an index `index`.
pub open spec fn action_for(
    index: Map<Seq<Seq<u8>>, LocatorView>,
    path: Seq<u8>,
    path_and_query: Seq<u8>,
) -> ActionView {
    match decoded(path) {
        None => ActionView::Refuse,
        Some((key, compress, crc)) => if index.contains_key(key) && crc_accepts(crc, index[key]) {
            match index[key].body {
                BodyView::Memory(d) => ActionView::Serve(response_bytes(d, compress)),
                BodyView::Slice { source, offset, size } => ActionView::ReadSlice {
                    source,
                    offset,
                    size,
                    compress,
                    fallback: upstream_path(path_and_query),
                },
            }
        } else {
            ActionView::Forward(upstream_path(path_and_query))
        },
    }
}

/// The path, relative to the origin's `assets/`, that a request is forwarded
/// to: its path and query after `/assets/`.
pub fn upstream_target(path_and_query: &[u8]) -> (r: Vec<u8>)
    ensures
        r@ == upstream_path(path_and_query@),
{
    let n = path_and_query.len();
    if n >= 8 && bytes_equal(&path_and_query[0..8], assets_prefix_bytes().as_slice()) {
        copy_range(path_and_query, 8, n)
    } else {
        let r = copy_range(path_and_query, 0, n);
        assert(r@ =~= path_and_query@);
        r
    }
}

/// Decides what to do with a request for `path`, the decoded part of the URL
/// after `/assets/`; `path_and_query` is the request's raw path and query.
pub fn handle_request(index: &AssetIndex, path: &[u8], path_and_query: &[u8]) -> (r: Action)
    requires
        index.wf(),
    ensures
        r@ == action_for(index@, path@, path_and_query@),
{
    match decode_request(path) {
        None => Action::Refuse,
        Some(q) => {
            let local = match index.get(&q.key) {
                Some(loc) => {
                    let accepted = match q.crc {
                        Some(c) => c == loc.crc,
                        None => true,
                    };
                    if accepted {
                        match &loc.body {
                            AssetBody::Memory(d) => Some(Action::Serve(build_response(d.as_slice(), q.compress))),
                            AssetBody::Slice { source, offset, size } => Some(
                                Action::ReadSlice {
                                    source: *source,
                                    offset: *offset,
                                    size: *size,
                                    compress: q.compress,
                                    fallback: upstream_target(path_and_query),
                                },
                            ),
                        }
                    } else {
                        None
                    }
                },
                None => None,
            };
            match local {
                Some(a) => a,
                None => Action::Forward(upstream_target(path_and_query)),
            }
        },
    }
}

/// A request whose path starts at the root or holds a component that is not
/// normal is refused, and so touches neither a file nor the origin.
pub proof fn lemma_path_safety(
    index: Map<Seq<Seq<u8>>, LocatorView>,
    path: Seq<u8>,
    path_and_query: Seq<u8>,
)
    requires
        is_rooted(path) || !all_normal(request_components(path)),
    ensures
        action_for(index, path, path_and_query) == ActionView::Refuse,
{
}

/// Every request that decodes but is not answered from the index (its key is
/// missing, or the crc it names is not the indexed one) is forwarded once, to
/// what followed `/assets/` in its path and query; a request that is to be
/// read from a file names that same target for when the read fails.
pub proof fn lemma_fallback_totality(
    index: Map<Seq<Seq<u8>>, LocatorView>,
    path: Seq<u8>,
    path_and_query: Seq<u8>,
    key: Seq<Seq<u8>>,
    compress: bool,
    crc: Option<u32>,
)
    requires
        decoded(path) == Some((key, compress, crc)),
    ensures
        !(index.contains_key(key) && crc_accepts(crc, index[key])) ==> action_for(
            index,
            path,
            path_and_query,
        ) == ActionView::Forward(upstream_path(path_and_query)),
        action_for(index, path, path_and_query) is ReadSlice ==> action_for(
            index,
            path,
            path_and_query,
        )->ReadSlice_fallback == upstream_path(path_and_query),
{
}

/// A request for the key of a loose file, naming no crc, reads that whole
/// loose file, whatever the packs hold under the same key.
pub proof fn lemma_loose_file_served(
    fs: Seq<(Seq<u8>, SummaryView)>,
    i: int,
    path: Seq<u8>,
    path_and_query: Seq<u8>,
    compress: bool,
)
    requires
        sole_loose_file(fs, i),
        decoded(path) == Some((components(fs[i].0), compress, None::<u32>)),
    ensures
        action_for(index_of(fs), path, path_and_query) == (ActionView::ReadSlice {
            source: i as usize,
            offset: 0,
            size: fs[i].1->Loose_size,
            compress,
            fallback: upstream_path(path_and_query),
        }),
{
    lemma_loose_files_shadow_packs(fs, i);
}

} // verus!
