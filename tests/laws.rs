use asset_proxy::envelope::build_response;
use asset_proxy::handler::{handle_request, Action};
use asset_proxy::index::{AssetBody, AssetLocator};
use asset_proxy::indexing::{
    build_index, file_role, merge_manifest, remote_manifest_path, summarize_loose, FileRole,
    FileSummary, ListedFile,
};
use asset_proxy::pack::PackEntry;

fn entry(name: &str, offset: u32, size: u32, crc: u32) -> PackEntry {
    PackEntry { name: name.as_bytes().to_vec(), offset, size, crc }
}

fn folder() -> Vec<ListedFile> {
    vec![
        ListedFile {
            path: b"a.pack".to_vec(),
            summary: FileSummary::Pack(vec![
                entry("ui/logo.dds", 100, 11, 7),
                entry("maps/b.bin", 200, 3, 9),
                entry("maps/b.bin", 300, 5, 10),
            ]),
        },
        ListedFile { path: b"ui/logo.dds".to_vec(), summary: summarize_loose(b"loose bytes") },
        ListedFile { path: b"ui/manifest.txt".to_vec(), summary: FileSummary::Skipped },
        ListedFile {
            path: b"ui/x_manifest.txt".to_vec(),
            summary: FileSummary::Manifest(b"m".to_vec()),
        },
    ]
}

fn get(files: &Vec<ListedFile>, tail: &str) -> Action {
    let index = build_index(files);
    handle_request(&index, tail.as_bytes(), format!("/assets/{}", tail).as_bytes())
}

#[test]
fn refuses_paths_that_leave_the_tree() {
    let files = folder();
    for tail in [
        "../secret",
        "/etc/passwd",
        "//etc/passwd",
        "ui/../../x",
        "ui/./logo.dds",
        "./ui/logo.dds",
        "ui/logo.dds/.",
        "042/../x",
        "..",
    ] {
        assert_eq!(get(&files, tail), Action::Refuse, "{}", tail);
    }
}

#[test]
fn loose_and_manifest_crcs_match_their_bytes() {
    let index = build_index(&folder());
    let key = |s: &str| -> Vec<Vec<u8>> { s.split('/').map(|c| c.as_bytes().to_vec()).collect() };
    let logo = index.get(&key("ui/logo.dds")).unwrap();
    assert_eq!(logo.crc, crc32fast::hash(b"loose bytes"));
    let manifest = index.get(&key("ui/manifest.txt")).unwrap();
    assert_eq!(manifest, &AssetLocator { crc: crc32fast::hash(b"m"), body: AssetBody::Memory(b"m".to_vec()) });
    let crc_file = index.get(&key("ui/manifest.crc")).unwrap();
    let text = crc32fast::hash(b"m").to_string().into_bytes();
    assert_eq!(crc_file, &AssetLocator { crc: crc32fast::hash(&text), body: AssetBody::Memory(text) });
    let packed = index.get(&key("maps/b.bin")).unwrap();
    assert_eq!(packed.crc, 9);
}

#[test]
fn loose_file_shadows_pack_entry() {
    let files = folder();
    assert_eq!(
        get(&files, "ui/logo.dds"),
        Action::ReadSlice {
            source: 1,
            offset: 0,
            size: 11,
            compress: false,
            fallback: b"ui/logo.dds".to_vec(),
        }
    );
    assert_eq!(
        get(&files, "ui/logo.dds_7"),
        Action::Forward(b"ui/logo.dds_7".to_vec())
    );
}

#[test]
fn first_pack_entry_wins() {
    let files = folder();
    assert!(matches!(
        get(&files, "maps/b.bin"),
        Action::ReadSlice { source: 0, offset: 200, size: 3, compress: false, .. }
    ));
    let mut two_packs = folder();
    two_packs.push(ListedFile {
        path: b"z.pack".to_vec(),
        summary: FileSummary::Pack(vec![entry("maps/c.bin", 1, 1, 1), entry("maps/b.bin", 2, 2, 2)]),
    });
    assert!(matches!(
        get(&two_packs, "maps/c.bin"),
        Action::ReadSlice { source: 4, offset: 1, size: 1, compress: false, .. }
    ));
    assert!(matches!(
        get(&two_packs, "maps/b.bin"),
        Action::ReadSlice { source: 0, offset: 200, size: 3, compress: false, .. }
    ));
}

#[test]
fn indexing_twice_gives_the_same_index() {
    let a = build_index(&folder());
    let b = build_index(&folder());
    for tail in ["ui/logo.dds", "maps/b.bin", "ui/manifest.txt", "ui/manifest.crc", "nope", "ui/manifest.txt.z"] {
        let pq = format!("/assets/{}", tail);
        assert_eq!(
            handle_request(&a, tail.as_bytes(), pq.as_bytes()),
            handle_request(&b, tail.as_bytes(), pq.as_bytes())
        );
    }
}

#[test]
fn names_are_read_as_std_reads_them_on_unix() {
    let files = vec![
        ListedFile { path: b"ui/a:b.dds".to_vec(), summary: summarize_loose(b"colon") },
        ListedFile { path: b"ui/c\\d.dds".to_vec(), summary: summarize_loose(b"backslash") },
        ListedFile {
            path: b"p.pack".to_vec(),
            summary: FileSummary::Pack(vec![entry("maps//e.bin", 5, 6, 7)]),
        },
    ];
    assert!(matches!(get(&files, "ui/a:b.dds"), Action::ReadSlice { source: 0, .. }));
    assert!(matches!(get(&files, "ui/c\\d.dds"), Action::ReadSlice { source: 1, .. }));
    assert_eq!(get(&files, "ui/c/d.dds"), Action::Forward(b"ui/c/d.dds".to_vec()));
    assert!(matches!(get(&files, "maps/e.bin"), Action::ReadSlice { source: 2, offset: 5, .. }));
}

#[test]
fn pack_entries_with_unsafe_names_are_not_indexed() {
    let files = vec![ListedFile {
        path: b"p.pack".to_vec(),
        summary: FileSummary::Pack(vec![entry("../evil", 0, 1, 1), entry("ok", 0, 1, 1)]),
    }];
    let index = build_index(&files);
    assert!(index.get(&vec![b"..".to_vec(), b"evil".to_vec()]).is_none());
    assert!(index.get(&vec![b"ok".to_vec()]).is_some());
}

#[test]
fn file_roles() {
    assert_eq!(file_role(b"data/world.pack"), FileRole::Pack);
    assert_eq!(file_role(b"data/manifest.txt"), FileRole::Ignored);
    assert_eq!(file_role(b"data/foo_manifest.txt"), FileRole::Manifest);
    assert_eq!(file_role(b"data/manifest.crc"), FileRole::Ignored);
    assert_eq!(file_role(b"data/old_manifest.crc"), FileRole::Ignored);
    assert_eq!(file_role(b"data\\ui\\logo.dds"), FileRole::Loose);
    assert_eq!(file_role(b"data/world.pack/"), FileRole::Pack);
    assert_eq!(file_role(b"data/x_manifest.txt/."), FileRole::Manifest);
    assert_eq!(file_role(b"data/\xff_manifest.txt"), FileRole::Loose);
    assert_eq!(file_role(b"data/.."), FileRole::Loose);
    assert_eq!(file_role(b".pack"), FileRole::Loose);
    assert_eq!(file_role(b"packs/x.pack.bak"), FileRole::Loose);
}

#[test]
fn stray_manifest_files_are_not_served() {
    let files = vec![
        ListedFile { path: b"d/manifest.txt".to_vec(), summary: summarize_loose(b"stray") },
        ListedFile { path: b"d/manifest.crc".to_vec(), summary: summarize_loose(b"1") },
    ];
    assert_eq!(get(&files, "d/manifest.txt"), Action::Forward(b"d/manifest.txt".to_vec()));
    assert_eq!(get(&files, "d/manifest.crc"), Action::Forward(b"d/manifest.crc".to_vec()));
}

#[test]
fn remote_manifest_paths() {
    assert_eq!(remote_manifest_path(b"data/foo_manifest.txt"), b"data/manifest.txt.z".to_vec());
    assert_eq!(remote_manifest_path(b"foo_manifest.txt"), b"manifest.txt.z".to_vec());
    assert_eq!(remote_manifest_path(b"a//b/foo_manifest.txt"), b"a/b/manifest.txt.z".to_vec());
}

#[test]
fn manifest_merging() {
    assert_eq!(merge_manifest(b"L", None), Some(b"L".to_vec()));
    let remote = build_response(b"R1\nR2\n", true);
    assert_eq!(merge_manifest(b"L\n", Some(&remote)), Some(b"L\nR1\nR2\n".to_vec()));
    assert_eq!(merge_manifest(b"L", Some(b"short")), None);
    assert_eq!(merge_manifest(b"L", Some(b"\xa1\xb2\xc3\xd4\0\0\0\x01not zlib")), None);
}

#[test]
fn loose_summary_uses_crc32() {
    assert_eq!(
        summarize_loose(b"123456789"),
        FileSummary::Loose { size: 9, crc: 0xcbf43926 }
    );
    assert_eq!(summarize_loose(b""), FileSummary::Loose { size: 0, crc: 0 });
}

#[test]
fn many_keys_in_any_order_are_all_found() {
    let mut entries = Vec::new();
    for n in (0..300u32).rev() {
        entries.push(entry(&format!("d{}/f{}.bin", n % 7, (n * 37) % 300), n, 1, n));
    }
    entries.push(entry("d1/f1.bin", 9999, 1, 1));
    let files = vec![
        ListedFile { path: b"p.pack".to_vec(), summary: FileSummary::Pack(entries) },
        ListedFile { path: b"d3/f3.bin".to_vec(), summary: summarize_loose(b"loose") },
    ];
    let index = build_index(&files);
    for n in 0..300u32 {
        let name = format!("d{}/f{}.bin", n % 7, (n * 37) % 300);
        let key: Vec<Vec<u8>> = name.split('/').map(|c| c.as_bytes().to_vec()).collect();
        let loc = index.get(&key).unwrap();
        if name == "d3/f3.bin" {
            assert_eq!(loc.crc, crc32fast::hash(b"loose"));
        } else {
            assert_eq!(loc.crc, n, "{}", name);
        }
    }
    assert!(index.get(&vec![b"d1".to_vec()]).is_none());
    assert!(index.get(&vec![b"d1".to_vec(), b"f1.bin".to_vec(), b"x".to_vec()]).is_none());
    assert!(index.get(&vec![]).is_none());
}
