use asset_proxy::decimal::{format_u32, parse_u32};
use asset_proxy::pack::{parse_pack_directory, PackEntry, PackError};
use asset_proxy::pack_reader::{PackReader, PackStep};
use asset_proxy::path::{split_components, split_segments};
use asset_proxy::request::{decode_request, AssetRequest};

fn key(s: &str) -> Vec<Vec<u8>> {
    s.split('/').map(|c| c.as_bytes().to_vec()).collect()
}

fn req(k: &str, compress: bool, crc: Option<u32>) -> Option<AssetRequest> {
    Some(AssetRequest { key: key(k), compress, crc })
}

#[test]
fn decodes_crc_and_compression_suffixes() {
    assert_eq!(decode_request(b"ui/logo.dds"), req("ui/logo.dds", false, None));
    assert_eq!(decode_request(b"ui/logo.dds_123"), req("ui/logo.dds", false, Some(123)));
    assert_eq!(decode_request(b"ui/logo.dds.z"), req("ui/logo.dds", true, None));
    assert_eq!(decode_request(b"ui/logo.dds.z_42"), req("ui/logo.dds", true, Some(42)));
    assert_eq!(decode_request(b"ui/logo.dds_abc"), req("ui/logo.dds_abc", false, None));
    assert_eq!(decode_request(b"ui/logo.dds_4294967296"), req("ui/logo.dds_4294967296", false, None));
    assert_eq!(decode_request(b"a/b_c.dds_7"), req("a/b_c.dds", false, Some(7)));
    assert_eq!(decode_request(b"x._5"), req("x", false, Some(5)));
    assert_eq!(decode_request(b"a.z._5"), req("a", true, Some(5)));
    assert_eq!(decode_request(b"noext_5"), req("noext_5", false, None));
    assert_eq!(decode_request(b".z"), req(".z", false, None));
    assert_eq!(decode_request(b"file.z.z"), req("file.z", true, None));
    assert_eq!(decode_request(b"file_1.z"), req("file_1", true, None));
}

#[test]
fn drops_a_name_hash_prefix() {
    assert_eq!(decode_request(b"042/maps/a.bin"), req("maps/a.bin", false, None));
    assert_eq!(decode_request(b"999/a"), req("a", false, None));
    assert_eq!(decode_request(b"+12/a"), req("a", false, None));
    assert_eq!(decode_request(b"1234/a"), req("1234/a", false, None));
    assert_eq!(decode_request(b"04/a"), req("04/a", false, None));
    assert_eq!(decode_request(b"0x1/a"), req("0x1/a", false, None));
    assert_eq!(decode_request(b"042/123/a"), req("123/a", false, None));
    assert_eq!(decode_request(b"042"), Some(AssetRequest { key: vec![], compress: false, crc: None }));
}

#[test]
fn refuses_components_that_are_not_normal() {
    for p in ["..", "../x", "a/..", ".", "a/./b", "/a", "//a", "./a", "a/."] {
        assert_eq!(decode_request(p.as_bytes()), None, "{}", p);
    }
    assert_eq!(decode_request(b"a//b"), req("a/b", false, None));
    assert_eq!(decode_request(b"a/"), req("a", false, None));
    assert_eq!(decode_request(b""), Some(AssetRequest { key: vec![], compress: false, crc: None }));
    assert_eq!(decode_request(b"c:/x"), req("c:/x", false, None));
    assert_eq!(decode_request(b"a\\b"), Some(AssetRequest { key: vec![b"a\\b".to_vec()], compress: false, crc: None }));
    assert_eq!(decode_request(b"...z"), req("..", true, None));
}

#[test]
fn splits_on_both_separators() {
    assert_eq!(split_segments(b""), vec![b"".to_vec()]);
    assert_eq!(split_segments(b"a/b\\c"), vec![b"a".to_vec(), b"b\\c".to_vec()]);
    assert_eq!(split_components(b"//a//b/"), key("a/b"));
    assert_eq!(split_segments(b"/a/"), vec![b"".to_vec(), b"a".to_vec(), b"".to_vec()]);
}

#[test]
fn decimal_numbers() {
    assert_eq!(parse_u32(b"0"), Some(0));
    assert_eq!(parse_u32(b"+7"), Some(7));
    assert_eq!(parse_u32(b"007"), Some(7));
    assert_eq!(parse_u32(b"4294967295"), Some(u32::MAX));
    assert_eq!(parse_u32(b"4294967296"), None);
    assert_eq!(parse_u32(b"99999999999999999999"), None);
    assert_eq!(parse_u32(b""), None);
    assert_eq!(parse_u32(b"+"), None);
    assert_eq!(parse_u32(b"-1"), None);
    assert_eq!(parse_u32(b"12a"), None);
    assert_eq!(format_u32(0), b"0".to_vec());
    assert_eq!(format_u32(10), b"10".to_vec());
    assert_eq!(format_u32(u32::MAX), b"4294967295".to_vec());
}

fn be32(v: u32) -> [u8; 4] {
    v.to_be_bytes()
}

fn push_entry(p: &mut Vec<u8>, name: &[u8], offset: u32, size: u32, crc: u32) {
    p.extend(be32(name.len() as u32));
    p.extend_from_slice(name);
    p.extend(be32(offset));
    p.extend(be32(size));
    p.extend(be32(crc));
}

fn e(name: &str, offset: u32, size: u32, crc: u32) -> PackEntry {
    PackEntry { name: name.as_bytes().to_vec(), offset, size, crc }
}

#[test]
fn reads_a_chain_of_groups() {
    let mut p = Vec::new();
    p.extend(be32(0));
    p.extend(be32(2));
    push_entry(&mut p, b"a", 1, 2, 3);
    push_entry(&mut p, b"dir/b", 4, 5, 6);
    p.extend_from_slice(b"padding");
    let second = p.len() as u32;
    p[0..4].copy_from_slice(&be32(second));
    p.extend(be32(0));
    p.extend(be32(1));
    push_entry(&mut p, b"c", 7, 8, 9);
    assert_eq!(
        parse_pack_directory(&p),
        Ok(vec![e("a", 1, 2, 3), e("dir/b", 4, 5, 6), e("c", 7, 8, 9)])
    );
}

#[test]
fn empty_group_and_pack_errors() {
    let mut p = Vec::new();
    p.extend(be32(0));
    p.extend(be32(0));
    assert_eq!(parse_pack_directory(&p), Ok(vec![]));
    assert_eq!(parse_pack_directory(&p[0..7]), Err(PackError::UnexpectedEof));
    assert_eq!(parse_pack_directory(b""), Err(PackError::UnexpectedEof));

    let mut truncated = Vec::new();
    truncated.extend(be32(0));
    truncated.extend(be32(1));
    push_entry(&mut truncated, b"name", 1, 2, 3);
    truncated.pop();
    assert_eq!(parse_pack_directory(&truncated), Err(PackError::UnexpectedEof));

    let mut long_name = Vec::new();
    long_name.extend(be32(0));
    long_name.extend(be32(1));
    long_name.extend(be32(1000));
    long_name.extend_from_slice(b"abc");
    assert_eq!(parse_pack_directory(&long_name), Err(PackError::UnexpectedEof));

    let mut bad = Vec::new();
    bad.extend(be32(0));
    bad.extend(be32(1));
    push_entry(&mut bad, &[0xff, 0xfe], 1, 2, 3);
    assert_eq!(parse_pack_directory(&bad), Err(PackError::InvalidData));

    let mut past_end = Vec::new();
    past_end.extend(be32(500));
    past_end.extend(be32(0));
    assert_eq!(parse_pack_directory(&past_end), Err(PackError::UnexpectedEof));
}

#[test]
fn refuses_a_circular_chain() {
    let mut p = Vec::new();
    p.extend(be32(8));
    p.extend(be32(0));
    p.extend(be32(0));
    p.extend(be32(0));
    let mut cycle = p.clone();
    cycle[8..12].copy_from_slice(&be32(8));
    assert_eq!(parse_pack_directory(&p), Ok(vec![]));
    assert_eq!(parse_pack_directory(&cycle), Err(PackError::InvalidData));
}

/// Reads a directory through a `PackReader`, answering its reads from `data`.
fn read_directory(data: &[u8]) -> Result<Vec<PackEntry>, PackError> {
    let mut reader = PackReader::new(data.len() as u64);
    let mut reads = 0;
    loop {
        match reader.next_read() {
            PackStep::Read { offset, len } => {
                let start = offset as usize;
                let end = start + len as usize;
                assert!(end <= data.len());
                reader.supply(&data[start..end]);
                reads += 1;
                assert!(reads < 10_000);
            }
            PackStep::Finished(result) => return result,
        }
    }
}

#[test]
fn reader_agrees_with_the_whole_pack_parser() {
    let mut chain = Vec::new();
    chain.extend(be32(0));
    chain.extend(be32(2));
    push_entry(&mut chain, b"a", 1, 2, 3);
    push_entry(&mut chain, b"dir/b", 4, 5, 6);
    chain.extend_from_slice(&[0u8; 100]);
    let second = chain.len() as u32;
    chain[0..4].copy_from_slice(&be32(second));
    chain.extend(be32(0));
    chain.extend(be32(1));
    push_entry(&mut chain, b"c", 7, 8, 9);

    let mut cycle = Vec::new();
    cycle.extend(be32(8));
    cycle.extend(be32(0));
    cycle.extend(be32(8));
    cycle.extend(be32(0));

    let mut bad_name = Vec::new();
    bad_name.extend(be32(0));
    bad_name.extend(be32(1));
    push_entry(&mut bad_name, &[0xff], 1, 2, 3);

    let mut truncated = chain.clone();
    truncated.truncate(chain.len() - 3);

    for pack in [chain.clone(), cycle, bad_name, truncated, Vec::new(), chain[0..30].to_vec()] {
        assert_eq!(read_directory(&pack), parse_pack_directory(&pack));
    }
    assert_eq!(
        read_directory(&chain),
        Ok(vec![e("a", 1, 2, 3), e("dir/b", 4, 5, 6), e("c", 7, 8, 9)])
    );
}

#[test]
fn reader_skips_the_assets() {
    let mut pack = Vec::new();
    pack.extend(be32(0));
    pack.extend(be32(1));
    push_entry(&mut pack, b"big.bin", 29, 1_000_000, 0);
    pack.extend(vec![0xaa; 1_000_000]);
    let mut reader = PackReader::new(pack.len() as u64);
    let mut read = 0u64;
    let result = loop {
        match reader.next_read() {
            PackStep::Read { offset, len } => {
                read += len;
                reader.supply(&pack[offset as usize..(offset + len) as usize]);
            }
            PackStep::Finished(result) => break result,
        }
    };
    assert_eq!(result, Ok(vec![e("big.bin", 29, 1_000_000, 0)]));
    assert_eq!(read, 8 + 4 + 7 + 12);
}
