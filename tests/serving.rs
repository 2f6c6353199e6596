use asset_proxy::envelope::{build_response, open_envelope};
use asset_proxy::handler::{handle_request, upstream_target, Action};
use asset_proxy::index::AssetIndex;
use asset_proxy::indexing::{build_index, merge_manifest, summarize_loose, FileSummary, ListedFile};
use asset_proxy::pack::parse_pack_directory;

fn loose(path: &str, data: &[u8]) -> ListedFile {
    ListedFile { path: path.as_bytes().to_vec(), summary: summarize_loose(data) }
}

fn logo() -> Vec<u8> {
    vec![b'A'; 11]
}

fn logo_index() -> AssetIndex {
    build_index(&vec![loose("ui/logo.dds", &logo())])
}

fn be32(v: u32) -> Vec<u8> {
    v.to_be_bytes().to_vec()
}

/// A pack with one group holding `maps/a.bin`, whose four bytes follow the
/// directory.
fn world_pack() -> Vec<u8> {
    let name = b"maps/a.bin";
    let data_offset = (8 + 4 + name.len() + 12) as u32;
    let crc = crc32fast::hash(&[0xde, 0xad, 0xbe, 0xef]);
    let mut p = Vec::new();
    p.extend(be32(0));
    p.extend(be32(1));
    p.extend(be32(name.len() as u32));
    p.extend_from_slice(name);
    p.extend(be32(data_offset));
    p.extend(be32(4));
    p.extend(be32(crc));
    p.extend_from_slice(&[0xde, 0xad, 0xbe, 0xef]);
    p
}

fn pack_index(pack: &[u8]) -> AssetIndex {
    let entries = parse_pack_directory(pack).unwrap();
    build_index(&vec![ListedFile {
        path: b"world.pack".to_vec(),
        summary: FileSummary::Pack(entries),
    }])
}

/// Carries out an action against the listed contents, as the server does.
fn serve(action: Action, contents: &[Vec<u8>]) -> Option<Vec<u8>> {
    match action {
        Action::Serve(b) => Some(b),
        Action::ReadSlice { source, offset, size, compress, .. } => {
            let file = &contents[source];
            let start = offset as usize;
            let end = start + size as usize;
            if end > file.len() {
                return None;
            }
            Some(build_response(&file[start..end], compress))
        },
        _ => None,
    }
}

fn get(index: &AssetIndex, tail: &str) -> Action {
    let pq = format!("/assets/{}", tail);
    handle_request(index, tail.as_bytes(), pq.as_bytes())
}

#[test]
fn loose_file_hit() {
    let index = logo_index();
    let crc = crc32fast::hash(&logo());
    let tail = format!("ui/logo.dds_{}", crc);
    let action = get(&index, &tail);
    assert_eq!(
        action,
        Action::ReadSlice { source: 0, offset: 0, size: 11, compress: false, fallback: tail.into_bytes() }
    );
    assert_eq!(serve(action, &[logo()]), Some(logo()));
}

#[test]
fn compressed_delivery() {
    let index = logo_index();
    let crc = crc32fast::hash(&logo());
    let tail = format!("ui/logo.dds.z_{}", crc);
    let action = get(&index, &tail);
    assert_eq!(
        action,
        Action::ReadSlice { source: 0, offset: 0, size: 11, compress: true, fallback: tail.into_bytes() }
    );
    let body = serve(action, &[logo()]).unwrap();
    assert_eq!(&body[0..8], &[0xa1, 0xb2, 0xc3, 0xd4, 0x00, 0x00, 0x00, 0x0b]);
    assert_eq!(&body[8..], miniz_oxide::deflate::compress_to_vec_zlib(&logo(), 6).as_slice());
    assert_eq!(miniz_oxide::inflate::decompress_to_vec_zlib(&body[8..]).unwrap(), logo());
}

#[test]
fn pack_slice() {
    let pack = world_pack();
    let index = pack_index(&pack);
    let action = get(&index, "maps/a.bin");
    assert_eq!(
        action,
        Action::ReadSlice {
            source: 0,
            offset: 34,
            size: 4,
            compress: false,
            fallback: b"maps/a.bin".to_vec(),
        }
    );
    assert_eq!(serve(action, &[pack]), Some(vec![0xde, 0xad, 0xbe, 0xef]));
}

#[test]
fn name_hash_prefix_ignored() {
    let pack = world_pack();
    let index = pack_index(&pack);
    let direct = get(&index, "maps/a.bin");
    let hashed = get(&index, "042/maps/a.bin");
    match (direct, hashed) {
        (
            Action::ReadSlice { source: s1, offset: o1, size: z1, compress: c1, .. },
            Action::ReadSlice { source: s2, offset: o2, size: z2, compress: c2, fallback },
        ) => {
            assert_eq!((s1, o1, z1, c1), (s2, o2, z2, c2));
            assert_eq!(fallback, b"042/maps/a.bin".to_vec());
        }
        other => panic!("unexpected {:?}", other),
    }
    assert_eq!(serve(get(&index, "042/maps/a.bin"), &[pack]), Some(vec![0xde, 0xad, 0xbe, 0xef]));
}

#[test]
fn traversal_rejection() {
    let index = logo_index();
    assert_eq!(get(&index, "../secret"), Action::Refuse);
}

#[test]
fn crc_miss_goes_upstream() {
    let index = logo_index();
    assert_ne!(crc32fast::hash(&logo()), 99999999);
    assert_eq!(
        get(&index, "ui/logo.dds_99999999"),
        Action::Forward(b"ui/logo.dds_99999999".to_vec())
    );
}

#[test]
fn manifest_merge() {
    let remote = build_response(b"R", true);
    let merged = merge_manifest(b"L", Some(&remote)).unwrap();
    assert_eq!(merged, b"LR".to_vec());
    let index = build_index(&vec![ListedFile {
        path: b"data/foo_manifest.txt".to_vec(),
        summary: FileSummary::Manifest(merged),
    }]);
    assert_eq!(get(&index, "data/manifest.txt"), Action::Serve(b"LR".to_vec()));
    let crc_text = crc32fast::hash(b"LR").to_string().into_bytes();
    assert_eq!(get(&index, "data/manifest.crc"), Action::Serve(crc_text.clone()));
    let crc_of_text = crc32fast::hash(&crc_text);
    assert_eq!(
        get(&index, &format!("data/manifest.crc_{}", crc_of_text)),
        Action::Serve(crc_text)
    );
}

#[test]
fn envelope_round_trip_values() {
    for body in [Vec::new(), b"x".to_vec(), logo(), (0..=255u8).cycle().take(5000).collect()] {
        let env = build_response(&body, true);
        assert_eq!(&env[0..4], &[0xa1, 0xb2, 0xc3, 0xd4]);
        assert_eq!(&env[4..8], &(body.len() as u32).to_be_bytes());
        assert_eq!(open_envelope(&env), Some(body.clone()));
        assert_eq!(build_response(&body, false), body);
    }
}

#[test]
fn upstream_keeps_query_string() {
    let index = logo_index();
    let action = handle_request(
        &index,
        b"ui/logo.dds_99999999",
        b"/assets/ui/logo.dds_99999999?v=3&x=y",
    );
    assert_eq!(action, Action::Forward(b"ui/logo.dds_99999999?v=3&x=y".to_vec()));
    assert_eq!(upstream_target(b"/assets/a/b?q"), b"a/b?q".to_vec());
    assert_eq!(upstream_target(b"a/b"), b"a/b".to_vec());
}

#[test]
fn missing_key_goes_upstream() {
    let index = logo_index();
    assert_eq!(get(&index, "ui/other.dds"), Action::Forward(b"ui/other.dds".to_vec()));
    assert_eq!(get(&index, "042"), Action::Forward(b"042".to_vec()));
}

#[test]
fn uncompressed_memory_asset_with_z() {
    let index = build_index(&vec![ListedFile {
        path: b"foo_manifest.txt".to_vec(),
        summary: FileSummary::Manifest(b"hello".to_vec()),
    }]);
    match get(&index, "manifest.txt.z") {
        Action::Serve(b) => assert_eq!(open_envelope(&b), Some(b"hello".to_vec())),
        other => panic!("unexpected {:?}", other),
    }
}

#[test]
fn empty_pieces_are_no_components() {
    let index = logo_index();
    for tail in ["ui//logo.dds", "ui/logo.dds/", "042//ui/logo.dds"] {
        match get(&index, tail) {
            Action::ReadSlice { source: 0, offset: 0, size: 11, compress: false, fallback } => {
                assert_eq!(fallback, tail.as_bytes().to_vec())
            }
            other => panic!("unexpected {:?} for {}", other, tail),
        }
    }
}

#[test]
fn eight_byte_reply_is_no_envelope() {
    assert_eq!(open_envelope(&[0xa1, 0xb2, 0xc3, 0xd4, 0, 0, 0, 0]), None);
    assert_eq!(merge_manifest(b"L", Some(&[0xa1, 0xb2, 0xc3, 0xd4, 0, 0, 0, 0])), None);
}
