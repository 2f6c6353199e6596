//! Building the asset index from the files of a client folder.
//!
//! The caller lists the folder, asks [`file_role`] what each file is, and hands
//! over a summary of each: the directory of a pack, the length and crc of a
//! loose file, or the merged bytes of a manifest. [`build_index`] then indexes
//! every loose file and manifest, and after that the entries of every pack
//! whose key is still free, so that loose files shadow packed ones.
use vstd::prelude::*;
use crate::codec::{crc32, crc32_of, utf8_check};
use vstd::utf8::valid_utf8;
use crate::decimal::{decimal_digits, format_u32};
use crate::envelope::{open_envelope, unwrap_envelope};
use crate::index::{AssetBody, AssetIndex, AssetLocator, BodyView, LocatorView};
use crate::name::{append_bytes, copy_range, ends_with, extension_of, find_extension_dot, has_suffix};
use crate::names::{
    manifest_crc, manifest_crc_bytes, manifest_suffix, manifest_suffix_bytes, manifest_txt,
    manifest_txt_bytes, pack_extension, pack_extension_bytes, remote_manifest,
    remote_manifest_bytes,
};
use crate::pack::{entries_view, PackEntry};
use crate::path::{
    bytes_equal, check_entry_path, components, file_name, find_file_name, is_entry_path,
    seqs_of, split_components,
};

verus! {

/// What indexing does with a file.
#[derive(PartialEq, Eq, Structural, Clone, Copy, Debug)]
pub enum FileRole {
    /// A pack archive: its directory is read.
    Pack,
    /// Left out: a stray `manifest.txt`, or a `manifest.crc` that indexing
    /// makes itself.
    Ignored,
    /// A `*_manifest.txt`: merged with its remote counterpart.
    Manifest,
    /// Any other file, served whole.
    Loose,
}

/// What the caller learnt of a listed file.
#[derive(Debug, PartialEq, Eq)]
pub enum FileSummary {
    Skipped,
    /// The directory of a pack.
    Pack(Vec<PackEntry>),
    /// The length and crc of a loose file.
    Loose { size: u64, crc: u32 },
    /// The merged bytes of a manifest.
    Manifest(Vec<u8>),
}

/// The model of a [`FileSummary`].
pub enum SummaryView {
    Skipped,
    Pack(Seq<(Seq<u8>, u32, u32, u32)>),
    Loose { size: u64, crc: u32 },
    Manifest(Seq<u8>),
}

impl FileSummary {
    pub open spec fn view(&self) -> SummaryView {
        match self {
            FileSummary::Skipped => SummaryView::Skipped,
            FileSummary::Pack(es) => SummaryView::Pack(entries_view(es@)),
            FileSummary::Loose { size, crc } => SummaryView::Loose { size: *size, crc: *crc },
            FileSummary::Manifest(m) => SummaryView::Manifest(m@),
        }
    }
}

/// A file of the client folder: its path relative to the folder, and its
/// summary. Its position in the listing is how locators name it.
pub struct ListedFile {
    pub path: Vec<u8>,
    pub summary: FileSummary,
}

pub open spec fn files_view(fs: Seq<ListedFile>) -> Seq<(Seq<u8>, SummaryView)> {
    fs.map_values(|f: ListedFile| (f.path@, f.summary@))
}

/// Whether the file name of `path` is UTF-8 text that ends with `suffix`.
pub open spec fn name_ends_with(path: Seq<u8>, suffix: Seq<u8>) -> bool {
    match file_name(path) {
        Some(name) => valid_utf8(name) && ends_with(name, suffix),
        None => false,
    }
}

/// What indexing does with the file at `path`.
pub open spec fn role_of(path: Seq<u8>) -> FileRole {
    match file_name(path) {
        None => FileRole::Loose,
        Some(name) => if extension_of(name) == Some(pack_extension()) {
            FileRole::Pack
        } else if name == manifest_txt() {
            FileRole::Ignored
        } else if name_ends_with(path, manifest_suffix()) {
            FileRole::Manifest
        } else if name_ends_with(path, manifest_crc()) {
            FileRole::Ignored
        } else {
            FileRole::Loose
        },
    }
}

/// The key of a sibling of `path` called `name`.
pub open spec fn sibling_key(path: Seq<u8>, name: Seq<u8>) -> Seq<Seq<u8>> {
    if components(path).len() == 0 {
        seq![name]
    } else {
        components(path).drop_last().push(name)
    }
}

/// Components joined with `/`.
pub open spec fn join_slash(cs: Seq<Seq<u8>>) -> Seq<u8>
    decreases cs.len(),
{
    if cs.len() == 0 {
        Seq::empty()
    } else if cs.len() == 1 {
        cs[0]
    } else {
        join_slash(cs.drop_last()).push(0x2f) + cs.last()
    }
}

/// The path, relative to the remote `assets/`, of the compressed remote
/// counterpart of the manifest at `path`.
pub open spec fn remote_manifest_key(path: Seq<u8>) -> Seq<u8> {
    join_slash(sibling_key(path, remote_manifest()))
}

/// A manifest merged with what the remote side sent: the local bytes alone
/// when nothing came, the local bytes and then the decoded envelope when one
/// came, and `None` when what came does not decode.
pub open spec fn merged_manifest(local: Seq<u8>, remote: Option<Seq<u8>>) -> Option<Seq<u8>> {
    match remote {
        None => Some(local),
        Some(r) => match unwrap_envelope(r) {
            Some(d) => Some(local + d),
            None => None,
        },
    }
}

/// The text of the `manifest.crc` that goes with manifest bytes `m`.
pub open spec fn crc_text(m: Seq<u8>) -> Seq<u8> {
    decimal_digits(crc32_of(m) as nat)
}

/// The index after the loose file or manifest listed at `i` is added to `m`.
pub open spec fn loose_step(m: Map<Seq<Seq<u8>>, LocatorView>, f: (Seq<u8>, SummaryView), i: int) -> Map<
    Seq<Seq<u8>>,
    LocatorView,
> {
    if !is_entry_path(f.0) {
        m
    } else {
        match (role_of(f.0), f.1) {
            (FileRole::Loose, SummaryView::Loose { size, crc }) => m.insert(
                components(f.0),
                LocatorView { crc, body: BodyView::Slice { source: i as usize, offset: 0, size } },
            ),
            (FileRole::Manifest, SummaryView::Manifest(merged)) => m.insert(
                sibling_key(f.0, manifest_txt()),
                LocatorView { crc: crc32_of(merged), body: BodyView::Memory(merged) },
            ).insert(
                sibling_key(f.0, manifest_crc()),
                LocatorView {
                    crc: crc32_of(crc_text(merged)),
                    body: BodyView::Memory(crc_text(merged)),
                },
            ),
            _ => m,
        }
    }
}

/// The index after the loose files and manifests among the first `n` listed
/// files are added, in order.
pub open spec fn loose_pass(fs: Seq<(Seq<u8>, SummaryView)>, n: int) -> Map<Seq<Seq<u8>>, LocatorView>
    decreases n,
{
    if n <= 0 {
        Map::empty()
    } else {
        loose_step(loose_pass(fs, n - 1), fs[n - 1], n - 1)
    }
}

/// The locator of a pack entry of the pack listed at `i`.
pub open spec fn pack_locator(e: (Seq<u8>, u32, u32, u32), i: int) -> LocatorView {
    LocatorView {
        crc: e.3,
        body: BodyView::Slice { source: i as usize, offset: e.1 as u64, size: e.2 as u64 },
    }
}

/// `m` after the first `k` entries of the pack listed at `i` are added where
/// their name is an entry path and their key is free.
pub open spec fn pack_entries_step(
    m: Map<Seq<Seq<u8>>, LocatorView>,
    es: Seq<(Seq<u8>, u32, u32, u32)>,
    i: int,
    k: int,
) -> Map<Seq<Seq<u8>>, LocatorView>
    decreases k,
{
    if k <= 0 {
        m
    } else {
        let prev = pack_entries_step(m, es, i, k - 1);
        let key = components(es[k - 1].0);
        if is_entry_path(es[k - 1].0) && !prev.contains_key(key) {
            prev.insert(key, pack_locator(es[k - 1], i))
        } else {
            prev
        }
    }
}

/// `m` after the packs among the first `n` listed files are added, in order.
pub open spec fn pack_pass(
    m: Map<Seq<Seq<u8>>, LocatorView>,
    fs: Seq<(Seq<u8>, SummaryView)>,
    n: int,
) -> Map<Seq<Seq<u8>>, LocatorView>
    decreases n,
{
    if n <= 0 {
        m
    } else {
        let prev = pack_pass(m, fs, n - 1);
        match (role_of(fs[n - 1].0), fs[n - 1].1) {
            (FileRole::Pack, SummaryView::Pack(es)) => pack_entries_step(prev, es, n - 1, es.len() as int),
            _ => prev,
        }
    }
}

/// The index of a listed folder: loose files and manifests first, then the
/// entries of the packs.
pub open spec fn index_of(fs: Seq<(Seq<u8>, SummaryView)>) -> Map<Seq<Seq<u8>>, LocatorView> {
    pack_pass(loose_pass(fs, fs.len() as int), fs, fs.len() as int)
}

/// Whether the file name of `path` is UTF-8 text that ends with `suffix`;
/// `false` when `path` has no file name.
pub fn file_name_ends_with(path: &[u8], suffix: &[u8]) -> (r: bool)
    ensures
        r == name_ends_with(path@, suffix@),
{
    match find_file_name(path) {
        Some(name) => utf8_check(name.as_slice()) && has_suffix(name.as_slice(), suffix),
        None => false,
    }
}

/// What indexing does with the file at `path` (relative to the client
/// folder).
pub fn file_role(path: &[u8]) -> (r: FileRole)
    ensures
        r == role_of(path@),
{
    let name = match find_file_name(path) {
        Some(name) => name,
        None => {
            return FileRole::Loose;
        },
    };
    let is_pack = match find_extension_dot(name.as_slice()) {
        Some(d) => {
            assert(d < name.len());
            let ext = &name.as_slice()[d + 1..name.len()];
            let p = pack_extension_bytes();
            bytes_equal(ext, p.as_slice())
        },
        None => false,
    };
    if is_pack {
        return FileRole::Pack;
    }
    if bytes_equal(name.as_slice(), manifest_txt_bytes().as_slice()) {
        return FileRole::Ignored;
    }
    if file_name_ends_with(path, manifest_suffix_bytes().as_slice()) {
        return FileRole::Manifest;
    }
    if file_name_ends_with(path, manifest_crc_bytes().as_slice()) {
        return FileRole::Ignored;
    }
    FileRole::Loose
}

/// The summary of a loose file with contents `data`.
pub fn summarize_loose(data: &[u8]) -> (r: FileSummary)
    ensures
        r@ == (SummaryView::Loose { size: data@.len() as u64, crc: crc32_of(data@) }),
{
    FileSummary::Loose { size: data.len() as u64, crc: crc32(data) }
}

/// Merges a local manifest with the body of the remote reply, if one came;
/// `None` when that body is not a valid envelope.
pub fn merge_manifest(local: &[u8], remote: Option<&[u8]>) -> (r: Option<Vec<u8>>)
    ensures
        match r {
            Some(m) => merged_manifest(local@, match remote {
                Some(b) => Some(b@),
                None => None,
            }) == Some(m@),
            None => merged_manifest(local@, match remote {
                Some(b) => Some(b@),
                None => None,
            }) is None,
        },
{
    let mut merged = copy_range(local, 0, local.len());
    assert(merged@ =~= local@);
    match remote {
        None => Some(merged),
        Some(b) => match open_envelope(b) {
            Some(d) => {
                append_bytes(&mut merged, d.as_slice());
                Some(merged)
            },
            None => None,
        },
    }
}

/// The path, relative to the remote `assets/`, under which the remote
/// counterpart of the manifest at `path` is asked for.
pub fn remote_manifest_path(path: &[u8]) -> (r: Vec<u8>)
    ensures
        r@ == remote_manifest_key(path@),
{
    let mut segs = split_components(path);
    let ghost full = seqs_of(segs@);
    let _name = segs.pop();
    assert(full.len() > 0 ==> seqs_of(segs@) =~= full.drop_last());
    assert(full.len() == 0 ==> seqs_of(segs@) =~= Seq::<Seq<u8>>::empty());
    let ghost dir = seqs_of(segs@);
    segs.push(remote_manifest_bytes());
    assert(seqs_of(segs@) =~= sibling_key(path@, remote_manifest()));
    let mut out: Vec<u8> = Vec::new();
    let mut i: usize = 0;
    while i < segs.len()
        invariant
            i <= segs@.len(),
            segs@.len() >= 1,
            out@ == join_slash(seqs_of(segs@).subrange(0, i as int)),
        decreases segs.len() - i,
    {
        let ghost prev = seqs_of(segs@).subrange(0, i as int);
        let ghost next = seqs_of(segs@).subrange(0, i + 1);
        assert(next.drop_last() =~= prev);
        if i > 0 {
            out.push(0x2f);
        }
        append_bytes(&mut out, segs[i].as_slice());
        i = i + 1;
        proof {
            if next.len() == 1 {
                assert(out@ =~= next[0]);
            }
        }
    }
    assert(seqs_of(segs@).subrange(0, segs@.len() as int) =~= seqs_of(segs@));
    out
}

/// The components of `path` with the last one replaced by `name`.
fn sibling(segs: &Vec<Vec<u8>>, name: Vec<u8>) -> (r: Vec<Vec<u8>>)
    requires
        segs@.len() >= 1,
    ensures
        seqs_of(r@) == seqs_of(segs@).drop_last().push(name@),
{
    let mut r: Vec<Vec<u8>> = Vec::new();
    let mut i: usize = 0;
    let last = segs.len() - 1;
    while i < last
        invariant
            last + 1 == segs@.len(),
            i <= last,
            seqs_of(r@) == seqs_of(segs@).subrange(0, i as int),
        decreases last - i,
    {
        let c = copy_range(segs[i].as_slice(), 0, segs[i].len());
        assert(c@ =~= seqs_of(segs@)[i as int]);
        let ghost before = seqs_of(r@);
        r.push(c);
        assert(seqs_of(r@) =~= before.push(c@));
        i = i + 1;
        assert(seqs_of(r@) =~= seqs_of(segs@).subrange(0, i as int));
    }
    r.push(name);
    assert(seqs_of(r@) =~= seqs_of(segs@).drop_last().push(name@));
    r
}

/// Adds the loose file or manifest listed at `i` to the index.
fn add_loose(index: &mut AssetIndex, f: &ListedFile, i: usize)
    requires
        old(index).wf(),
    ensures
        final(index).wf(),
        final(index)@ == loose_step(old(index)@, (f.path@, f.summary@), i as int),
{
    if !check_entry_path(f.path.as_slice()) {
        return;
    }
    let segs = split_components(f.path.as_slice());
    let role = file_role(f.path.as_slice());
    match (role, &f.summary) {
        (FileRole::Loose, FileSummary::Loose { size, crc }) => {
            index.put(
                segs,
                AssetLocator { crc: *crc, body: AssetBody::Slice { source: i, offset: 0, size: *size } },
            );
        },
        (FileRole::Manifest, FileSummary::Manifest(merged)) => {
            let crc = crc32(merged.as_slice());
            let text = format_u32(crc);
            let text_crc = crc32(text.as_slice());
            let data = copy_range(merged.as_slice(), 0, merged.len());
            assert(data@ =~= merged@);
            let txt_key = sibling(&segs, manifest_txt_bytes());
            let crc_key = sibling(&segs, manifest_crc_bytes());
            index.put(txt_key, AssetLocator { crc, body: AssetBody::Memory(data) });
            index.put(crc_key, AssetLocator { crc: text_crc, body: AssetBody::Memory(text) });
        },
        _ => {},
    }
}

/// Adds the entries of the pack listed at `i` whose key is normal and free.
fn add_pack(index: &mut AssetIndex, es: &Vec<PackEntry>, i: usize)
    requires
        old(index).wf(),
    ensures
        final(index).wf(),
        final(index)@ == pack_entries_step(old(index)@, entries_view(es@), i as int, es@.len() as int),
{
    let ghost start = index@;
    let mut k: usize = 0;
    while k < es.len()
        invariant
            k <= es@.len(),
            index.wf(),
            index@ == pack_entries_step(start, entries_view(es@), i as int, k as int),
        decreases es.len() - k,
    {
        let e = &es[k];
        let key = split_components(e.name.as_slice());
        assert(entries_view(es@)[k as int] == e@);
        if check_entry_path(e.name.as_slice()) {
            index.put_if_absent(
                key,
                AssetLocator {
                    crc: e.crc,
                    body: AssetBody::Slice { source: i, offset: e.offset as u64, size: e.size as u64 },
                },
            );
        }
        k = k + 1;
    }
}

/// Builds the index of a listed folder.
pub fn build_index(files: &Vec<ListedFile>) -> (r: AssetIndex)
    ensures
        r.wf(),
        r@ == index_of(files_view(files@)),
{
    let ghost fs = files_view(files@);
    let mut index = AssetIndex::new();
    let mut i: usize = 0;
    while i < files.len()
        invariant
            i <= files@.len(),
            fs == files_view(files@),
            index.wf(),
            index@ == loose_pass(fs, i as int),
        decreases files.len() - i,
    {
        add_loose(&mut index, &files[i], i);
        i = i + 1;
    }
    let ghost loose = index@;
    let mut j: usize = 0;
    while j < files.len()
        invariant
            j <= files@.len(),
            fs == files_view(files@),
            loose == loose_pass(fs, fs.len() as int),
            index.wf(),
            index@ == pack_pass(loose, fs, j as int),
        decreases files.len() - j,
    {
        let f = &files[j];
        let role = file_role(f.path.as_slice());
        match (role, &f.summary) {
            (FileRole::Pack, FileSummary::Pack(es)) => {
                add_pack(&mut index, es, j);
            },
            _ => {},
        }
        j = j + 1;
    }
    index
}

/// The bytes that a locator stands for, given the contents of the listed
/// files.
pub open spec fn body_bytes(contents: Seq<Seq<u8>>, loc: LocatorView) -> Seq<u8> {
    match loc.body {
        BodyView::Memory(d) => d,
        BodyView::Slice { source, offset, size } => contents[source as int].subrange(
            offset as int,
            offset + size,
        ),
    }
}

/// Each loose-file summary gives the length and crc of that file's contents.
pub open spec fn summaries_match(fs: Seq<(Seq<u8>, SummaryView)>, contents: Seq<Seq<u8>>) -> bool {
    &&& fs.len() == contents.len()
    &&& forall|i: int|
        0 <= i < fs.len() ==> match #[trigger] fs[i].1 {
            SummaryView::Loose { size, crc } => size as int == contents[i].len() && crc
                == crc32_of(contents[i]),
            _ => true,
        }
}

/// Whether `loc` points into a listed pack.
pub open spec fn from_pack(fs: Seq<(Seq<u8>, SummaryView)>, loc: LocatorView) -> bool {
    match loc.body {
        BodyView::Slice { source, .. } => role_of(fs[source as int].0) == FileRole::Pack,
        BodyView::Memory(_) => false,
    }
}

/// The locator of the loose file listed at `i`.
pub open spec fn loose_locator(fs: Seq<(Seq<u8>, SummaryView)>, i: int) -> LocatorView {
    match fs[i].1 {
        SummaryView::Loose { size, crc } => LocatorView {
            crc,
            body: BodyView::Slice { source: i as usize, offset: 0, size },
        },
        _ => arbitrary(),
    }
}

/// Every locator of `m` is a memory blob with its own crc, the whole of a
/// loose file with the crc of its summary, or a slice of a pack.
pub open spec fn locators_sound(fs: Seq<(Seq<u8>, SummaryView)>, m: Map<Seq<Seq<u8>>, LocatorView>) -> bool {
    forall|k: Seq<Seq<u8>>|
        #[trigger] m.contains_key(k) ==> match m[k].body {
            BodyView::Memory(d) => m[k].crc == crc32_of(d),
            BodyView::Slice { source, .. } => 0 <= source < fs.len() && (role_of(fs[source as int].0)
                == FileRole::Pack || (role_of(fs[source as int].0) == FileRole::Loose
                && fs[source as int].1 is Loose && m[k] == loose_locator(fs, source as int))),
        }
}

proof fn lemma_loose_pass_sound(fs: Seq<(Seq<u8>, SummaryView)>, n: int)
    requires
        0 <= n <= fs.len(),
        fs.len() <= usize::MAX,
    ensures
        locators_sound(fs, loose_pass(fs, n)),
    decreases n,
{
    if n > 0 {
        lemma_loose_pass_sound(fs, n - 1);
        let m = loose_pass(fs, n - 1);
        let m2 = loose_pass(fs, n);
        assert forall|k: Seq<Seq<u8>>| #[trigger] m2.contains_key(k) implies match m2[k].body {
            BodyView::Memory(d) => m2[k].crc == crc32_of(d),
            BodyView::Slice { source, .. } => 0 <= source < fs.len() && (role_of(fs[source as int].0)
                == FileRole::Pack || (role_of(fs[source as int].0) == FileRole::Loose
                && fs[source as int].1 is Loose && m2[k] == loose_locator(fs, source as int))),
        } by {
            if m.contains_key(k) {
                assert(m.contains_key(k));
            }
        }
    }
}

proof fn lemma_pack_entries_sound(
    fs: Seq<(Seq<u8>, SummaryView)>,
    m: Map<Seq<Seq<u8>>, LocatorView>,
    es: Seq<(Seq<u8>, u32, u32, u32)>,
    i: int,
    k: int,
)
    requires
        0 <= i < fs.len() <= usize::MAX,
        role_of(fs[i].0) == FileRole::Pack,
        locators_sound(fs, m),
    ensures
        locators_sound(fs, pack_entries_step(m, es, i, k)),
    decreases k,
{
    if k > 0 {
        lemma_pack_entries_sound(fs, m, es, i, k - 1);
        let prev = pack_entries_step(m, es, i, k - 1);
        let m2 = pack_entries_step(m, es, i, k);
        assert forall|key: Seq<Seq<u8>>| #[trigger] m2.contains_key(key) implies match m2[key].body {
            BodyView::Memory(d) => m2[key].crc == crc32_of(d),
            BodyView::Slice { source, .. } => 0 <= source < fs.len() && (role_of(fs[source as int].0)
                == FileRole::Pack || (role_of(fs[source as int].0) == FileRole::Loose
                && fs[source as int].1 is Loose && m2[key] == loose_locator(fs, source as int))),
        } by {
            if prev.contains_key(key) {
                assert(prev.contains_key(key));
            }
        }
    }
}

proof fn lemma_pack_pass_sound(fs: Seq<(Seq<u8>, SummaryView)>, m: Map<Seq<Seq<u8>>, LocatorView>, n: int)
    requires
        0 <= n <= fs.len() <= usize::MAX,
        locators_sound(fs, m),
    ensures
        locators_sound(fs, pack_pass(m, fs, n)),
    decreases n,
{
    if n > 0 {
        lemma_pack_pass_sound(fs, m, n - 1);
        match (role_of(fs[n - 1].0), fs[n - 1].1) {
            (FileRole::Pack, SummaryView::Pack(es)) => {
                lemma_pack_entries_sound(fs, pack_pass(m, fs, n - 1), es, n - 1, es.len() as int);
            },
            _ => {},
        }
    }
}

/// Every locator that indexing makes from a loose file or a manifest carries
/// the crc of the bytes it stands for; only pack entries carry the crc that
/// their pack records.
pub proof fn lemma_crc_consistency(fs: Seq<(Seq<u8>, SummaryView)>, contents: Seq<Seq<u8>>)
    requires
        summaries_match(fs, contents),
        fs.len() <= usize::MAX,
    ensures
        forall|k: Seq<Seq<u8>>|
            #[trigger] index_of(fs).contains_key(k) && !from_pack(fs, index_of(fs)[k])
                ==> index_of(fs)[k].crc == crc32_of(body_bytes(contents, index_of(fs)[k])),
{
    lemma_loose_pass_sound(fs, fs.len() as int);
    lemma_pack_pass_sound(fs, loose_pass(fs, fs.len() as int), fs.len() as int);
    let m = index_of(fs);
    assert forall|k: Seq<Seq<u8>>|
        #[trigger] m.contains_key(k) && !from_pack(fs, m[k]) implies m[k].crc == crc32_of(
            body_bytes(contents, m[k]),
        ) by {
        match m[k].body {
            BodyView::Slice { source, offset, size } => {
                let s = source as int;
                assert(fs[s].1 is Loose);
                assert(contents[s].subrange(0, size as int) =~= contents[s]);
            },
            BodyView::Memory(_) => {},
        }
    }
}

proof fn lemma_pack_entries_keep(
    m: Map<Seq<Seq<u8>>, LocatorView>,
    es: Seq<(Seq<u8>, u32, u32, u32)>,
    i: int,
    k: int,
    key: Seq<Seq<u8>>,
)
    requires
        m.contains_key(key),
    ensures
        pack_entries_step(m, es, i, k).contains_key(key),
        pack_entries_step(m, es, i, k)[key] == m[key],
    decreases k,
{
    if k > 0 {
        lemma_pack_entries_keep(m, es, i, k - 1, key);
    }
}

proof fn lemma_pack_pass_keep(
    m: Map<Seq<Seq<u8>>, LocatorView>,
    fs: Seq<(Seq<u8>, SummaryView)>,
    n: int,
    key: Seq<Seq<u8>>,
)
    requires
        m.contains_key(key),
    ensures
        pack_pass(m, fs, n).contains_key(key),
        pack_pass(m, fs, n)[key] == m[key],
    decreases n,
{
    if n > 0 {
        lemma_pack_pass_keep(m, fs, n - 1, key);
        match (role_of(fs[n - 1].0), fs[n - 1].1) {
            (FileRole::Pack, SummaryView::Pack(es)) => {
                lemma_pack_entries_keep(pack_pass(m, fs, n - 1), es, n - 1, es.len() as int, key);
            },
            _ => {},
        }
    }
}

/// A loose file whose key no other listed file gives, as a loose file or as
/// the pair that a manifest adds.
pub open spec fn sole_loose_file(fs: Seq<(Seq<u8>, SummaryView)>, i: int) -> bool {
    &&& 0 <= i < fs.len()
    &&& role_of(fs[i].0) == FileRole::Loose
    &&& fs[i].1 is Loose
    &&& is_entry_path(fs[i].0)
    &&& forall|j: int|
        0 <= j < fs.len() && j != i ==> {
            &&& components(#[trigger] fs[j].0) != components(fs[i].0)
            &&& sibling_key(fs[j].0, manifest_txt()) != components(fs[i].0)
            &&& sibling_key(fs[j].0, manifest_crc()) != components(fs[i].0)
        }
}

proof fn lemma_loose_pass_keeps_file(fs: Seq<(Seq<u8>, SummaryView)>, n: int, i: int)
    requires
        sole_loose_file(fs, i),
        i < n <= fs.len(),
    ensures
        loose_pass(fs, n).contains_key(components(fs[i].0)),
        loose_pass(fs, n)[components(fs[i].0)] == loose_locator(fs, i),
    decreases n,
{
    if n > i + 1 {
        lemma_loose_pass_keeps_file(fs, n - 1, i);
        let j = n - 1;
        assert(components(fs[j].0) != components(fs[i].0));
    }
}

/// A loose file shadows every pack entry with the same key: the index maps
/// that key to the whole of the loose file, so a request for it reads the
/// loose file.
pub proof fn lemma_loose_files_shadow_packs(fs: Seq<(Seq<u8>, SummaryView)>, i: int)
    requires
        sole_loose_file(fs, i),
    ensures
        index_of(fs).contains_key(components(fs[i].0)),
        index_of(fs)[components(fs[i].0)] == loose_locator(fs, i),
{
    lemma_loose_pass_keeps_file(fs, fs.len() as int, i);
    lemma_pack_pass_keep(
        loose_pass(fs, fs.len() as int),
        fs,
        fs.len() as int,
        components(fs[i].0),
    );
}

/// Indexing the same listing twice gives the same index: the index depends on
/// the listed paths and summaries alone.
pub proof fn lemma_indexing_idempotent(a: Seq<ListedFile>, b: Seq<ListedFile>)
    requires
        files_view(a) == files_view(b),
    ensures
        index_of(files_view(a)) == index_of(files_view(b)),
{
}

/// The pair that indexing adds for a merged manifest: `manifest.txt` holds
/// the merged bytes with their crc, and the `manifest.crc` beside it holds the
/// decimal text of that crc, with the crc of that text.
pub proof fn lemma_manifest_pair(
    m: Map<Seq<Seq<u8>>, LocatorView>,
    f: (Seq<u8>, SummaryView),
    i: int,
)
    requires
        is_entry_path(f.0),
        role_of(f.0) == FileRole::Manifest,
        f.1 is Manifest,
    ensures
        ({
            let r = loose_step(m, f, i);
            let txt = r[sibling_key(f.0, manifest_txt())];
            let crc = r[sibling_key(f.0, manifest_crc())];
            &&& r.contains_key(sibling_key(f.0, manifest_txt()))
            &&& r.contains_key(sibling_key(f.0, manifest_crc()))
            &&& txt.body == BodyView::Memory(f.1->Manifest_0)
            &&& txt.crc == crc32_of(f.1->Manifest_0)
            &&& crc.body == BodyView::Memory(decimal_digits(txt.crc as nat))
            &&& crc.crc == crc32_of(decimal_digits(txt.crc as nat))
        }),
{
    let kt = sibling_key(f.0, manifest_txt());
    let kc = sibling_key(f.0, manifest_crc());
    assert(kt.last() == manifest_txt());
    assert(kc.last() == manifest_crc());
    assert(manifest_txt()[9] != manifest_crc()[9]);
    assert(kt != kc);
}

/// Every blob that the index holds in memory carries the crc of its own
/// bytes, whatever the listed files hold.
pub proof fn lemma_memory_crcs(fs: Seq<(Seq<u8>, SummaryView)>)
    requires
        fs.len() <= usize::MAX,
    ensures
        forall|k: Seq<Seq<u8>>|
            #[trigger] index_of(fs).contains_key(k) && index_of(fs)[k].body is Memory ==> index_of(
                fs,
            )[k].crc == crc32_of(index_of(fs)[k].body->Memory_0),
{
    lemma_loose_pass_sound(fs, fs.len() as int);
    lemma_pack_pass_sound(fs, loose_pass(fs, fs.len() as int), fs.len() as int);
}

/// No locator of the loose pass points into a pack, and every key that a
/// loose file listed before `n` gives is mapped.
proof fn lemma_loose_pass_keys(fs: Seq<(Seq<u8>, SummaryView)>, n: int, i: int)
    requires
        0 <= n <= fs.len(),
        fs.len() <= usize::MAX,
        0 <= i < fs.len(),
        role_of(fs[i].0) == FileRole::Loose,
        fs[i].1 is Loose,
        is_entry_path(fs[i].0),
    ensures
        forall|k: Seq<Seq<u8>>|
            #[trigger] loose_pass(fs, n).contains_key(k) ==> !from_pack(fs, loose_pass(fs, n)[k]),
        i < n ==> loose_pass(fs, n).contains_key(components(fs[i].0)),
    decreases n,
{
    if n > 0 {
        lemma_loose_pass_keys(fs, n - 1, i);
        let m = loose_pass(fs, n - 1);
        let m2 = loose_pass(fs, n);
        assert forall|k: Seq<Seq<u8>>| #[trigger] m2.contains_key(k) implies !from_pack(fs, m2[k]) by {
            if m.contains_key(k) {
                assert(m.contains_key(k));
            }
        }
    }
}

/// A key that a loose file gives is never served from a pack: the index maps
/// it to a loose file or a memory blob, whatever the packs list under it.
pub proof fn lemma_loose_keys_not_from_packs(fs: Seq<(Seq<u8>, SummaryView)>, i: int)
    requires
        0 <= i < fs.len(),
        fs.len() <= usize::MAX,
        role_of(fs[i].0) == FileRole::Loose,
        fs[i].1 is Loose,
        is_entry_path(fs[i].0),
    ensures
        index_of(fs).contains_key(components(fs[i].0)),
        !from_pack(fs, index_of(fs)[components(fs[i].0)]),
{
    let n = fs.len() as int;
    lemma_loose_pass_keys(fs, n, i);
    let k = components(fs[i].0);
    assert(loose_pass(fs, n).contains_key(k));
    lemma_pack_pass_keep(loose_pass(fs, n), fs, n, k);
}

} // verus!
