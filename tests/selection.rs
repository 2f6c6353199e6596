use asset_proxy::client::{is_web_downloaded_pack, should_copy};
use asset_proxy::indexing::file_name_ends_with;
use asset_proxy::request::decompose_extension;

fn comps(s: &str) -> Vec<Vec<u8>> {
    s.split('/').map(|c| c.as_bytes().to_vec()).collect()
}

#[test]
fn file_name_suffixes() {
    assert!(file_name_ends_with(b"data/foo_manifest.txt", b"_manifest.txt"));
    assert!(!file_name_ends_with(b"data/manifest.txt", b"_manifest.txt"));
    assert!(file_name_ends_with(b"a\\b\\x.crc", b".crc"));
    assert!(!file_name_ends_with(b"a/..", b"."));
    assert!(!file_name_ends_with(b"", b""));
    assert!(file_name_ends_with(b"a/b", b""));
    assert!(file_name_ends_with(b"x_manifest.txt/", b"_manifest.txt"));
    assert!(file_name_ends_with(b"d/x_manifest.txt/.", b"_manifest.txt"));
    assert!(!file_name_ends_with(b"d/\xff_manifest.txt", b"_manifest.txt"));
    assert!(!file_name_ends_with(b"/", b""));
}

#[test]
fn decomposes_the_file_name_only() {
    assert_eq!(decompose_extension(comps("ui.z/logo.dds.z_5")), (comps("ui.z/logo.dds"), true, Some(5)));
    assert_eq!(decompose_extension(comps("a_1/b")), (comps("a_1/b"), false, None));
    assert_eq!(decompose_extension(vec![]), (vec![], false, None));
}

#[test]
fn web_downloaded_packs() {
    assert!(is_web_downloaded_pack(b"Assets_W_000.pack"));
    assert!(is_web_downloaded_pack(b"W_.pack"));
    assert!(!is_web_downloaded_pack(b"Assets_000.pack"));
    assert!(!is_web_downloaded_pack(b"Assets_W_000.pak"));
    assert!(!is_web_downloaded_pack(b"w_000.pack"));
}

#[test]
fn files_to_copy() {
    assert!(should_copy(b"Resources/Assets_000.pack"));
    assert!(!should_copy(b"CloneWars.exe"));
    assert!(!should_copy(b"ClientConfig.ini"));
    assert!(!should_copy(b"sub/UserOptions.ini"));
    assert!(!should_copy(b"Resources\\Assets_W_001.pack"));
    assert!(should_copy(b"clonewars.exe"));
    assert!(should_copy(b"a/.."));
    assert!(!should_copy(b"CloneWars.exe/"));
    assert!(!should_copy(b"bin/ClientConfig.ini/."));
    assert!(should_copy(b"bin/\xffW_1.pack"));
}
