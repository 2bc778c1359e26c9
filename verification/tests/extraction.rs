use asset_extractor::driver::{extract_bundle, BundleError};
use asset_extractor::materialize::{
    materialize, AssetKind, FailureReason, TagKind,
};
use asset_extractor::symbols::{build_symbol_table, trim_qualified_name, SymbolError};
use asset_extractor::tags::{read_tag_stream, ReadError, TagRecord};
use std::io::Write;

fn le16(v: u16) -> [u8; 2] {
    [(v & 0xFF) as u8, (v >> 8) as u8]
}

fn le32(v: u32) -> [u8; 4] {
    [
        (v & 0xFF) as u8,
        ((v >> 8) & 0xFF) as u8,
        ((v >> 16) & 0xFF) as u8,
        ((v >> 24) & 0xFF) as u8,
    ]
}

fn tag(code: u16, body: &[u8]) -> Vec<u8> {
    let mut out = Vec::new();
    if body.len() < 63 {
        out.extend_from_slice(&le16(code * 64 + body.len() as u16));
    } else {
        out.extend_from_slice(&le16(code * 64 + 63));
        out.extend_from_slice(&le32(body.len() as u32));
    }
    out.extend_from_slice(body);
    out
}

fn symbol_class(entries: &[(u16, &str)]) -> Vec<u8> {
    let mut body = Vec::new();
    body.extend_from_slice(&le16(entries.len() as u16));
    for (id, name) in entries {
        body.extend_from_slice(&le16(*id));
        body.extend_from_slice(name.as_bytes());
        body.push(0);
    }
    tag(76, &body)
}

fn binary_data(id: u16, payload: &[u8]) -> Vec<u8> {
    let mut body = Vec::new();
    body.extend_from_slice(&le16(id));
    body.extend_from_slice(&[0, 0, 0, 0]);
    body.extend_from_slice(payload);
    tag(87, &body)
}

fn lossless_bitmap(id: u16, format: u8, width: u16, height: u16, packed: &[u8]) -> Vec<u8> {
    let mut body = Vec::new();
    body.extend_from_slice(&le16(id));
    body.push(format);
    body.extend_from_slice(&le16(width));
    body.extend_from_slice(&le16(height));
    body.extend_from_slice(packed);
    tag(36, &body)
}

fn movie(tags: &[Vec<u8>]) -> Vec<u8> {
    let mut body = vec![0u8, 0, 0, 0, 0];
    for t in tags {
        body.extend_from_slice(t);
    }
    let mut out = Vec::new();
    out.extend_from_slice(b"FWS");
    out.push(6);
    out.extend_from_slice(&le32(8 + body.len() as u32));
    out.extend_from_slice(&body);
    out
}

fn zlib_compress(data: &[u8]) -> Vec<u8> {
    let mut enc = flate2::write::ZlibEncoder::new(Vec::new(), flate2::Compression::default());
    enc.write_all(data).unwrap();
    enc.finish().unwrap()
}

#[test]
fn end_to_end_single_binary_asset() {
    let bundle = movie(&[
        symbol_class(&[(7, "base_name_door")]),
        binary_data(7, b"<xml/>"),
    ]);
    let existing: Vec<(String, AssetKind)> = Vec::new();
    let (assets, outcome) = extract_bundle(&bundle, "base_name", &existing).unwrap();
    assert_eq!(assets.len(), 1);
    assert_eq!(assets[0].name, "door");
    assert_eq!(assets[0].kind, AssetKind::Xml);
    assert_eq!(assets[0].bytes, b"<xml/>".to_vec());
    assert_eq!(outcome.written, 1);
    assert_eq!(outcome.skipped, 0);
    assert_eq!(outcome.failed.len(), 0);
}

#[test]
fn no_declarations_every_asset_unregistered() {
    let bundle = movie(&[
        binary_data(3, b"abc"),
        lossless_bitmap(4, 5, 1, 1, &zlib_compress(&[0xAA, 0x11, 0x22, 0x33])),
    ]);
    let tags = read_tag_stream(&bundle).unwrap();
    let table = build_symbol_table(&tags, "base").unwrap();
    assert!(table.get(3).is_none());
    assert!(table.get(4).is_none());
    let existing: Vec<(String, AssetKind)> = Vec::new();
    let (assets, outcome) = materialize(&tags, &table, &existing);
    assert_eq!(assets.len(), 0);
    assert_eq!(outcome.written, 0);
    assert_eq!(outcome.skipped, 0);
    assert_eq!(outcome.failed.len(), 2);
    assert_eq!(outcome.failed[0].asset_id, 3);
    assert_eq!(outcome.failed[0].tag_kind, TagKind::Binary);
    assert!(matches!(
        outcome.failed[0].reason,
        FailureReason::UnregisteredAsset { .. }
    ));
    assert_eq!(outcome.failed[1].asset_id, 4);
    assert_eq!(outcome.failed[1].tag_kind, TagKind::Bitmap);
    assert!(matches!(
        outcome.failed[1].reason,
        FailureReason::UnregisteredAsset { .. }
    ));
}

#[test]
fn unregistered_sample_is_capped_at_hundred_bytes() {
    let payload = vec![0x5Au8; 150];
    let bundle = movie(&[binary_data(9, &payload)]);
    let tags = read_tag_stream(&bundle).unwrap();
    let table = build_symbol_table(&tags, "base").unwrap();
    let existing: Vec<(String, AssetKind)> = Vec::new();
    let (_, outcome) = materialize(&tags, &table, &existing);
    assert_eq!(outcome.failed.len(), 1);
    match &outcome.failed[0].reason {
        FailureReason::UnregisteredAsset { sample_bytes } => {
            assert_eq!(sample_bytes.len(), 100);
            assert_eq!(sample_bytes[..], payload[..100]);
        }
        _ => panic!("expected an unregistered failure"),
    }
}

#[test]
fn exact_prefix_trims_to_empty_string() {
    let trimmed = trim_qualified_name("base_name_", "base_name").unwrap();
    assert_eq!(trimmed, "");
    let bundle = movie(&[symbol_class(&[(1, "base_name_")])]);
    let tags = read_tag_stream(&bundle).unwrap();
    let table = build_symbol_table(&tags, "base_name").unwrap();
    assert_eq!(table.get(1).unwrap(), "");
}

#[test]
fn short_qualified_name_is_name_too_short() {
    assert!(trim_qualified_name("base", "base_name").is_none());
    let bundle = movie(&[symbol_class(&[(5, "base")])]);
    let tags = read_tag_stream(&bundle).unwrap();
    match build_symbol_table(&tags, "base_name") {
        Err(SymbolError::NameTooShort { asset_id }) => assert_eq!(asset_id, 5),
        _ => panic!("expected NameTooShort"),
    }
    let existing: Vec<(String, AssetKind)> = Vec::new();
    match extract_bundle(&bundle, "base_name", &existing) {
        Err(BundleError::NameTooShort { asset_id }) => assert_eq!(asset_id, 5),
        _ => panic!("expected a fatal NameTooShort"),
    }
}

#[test]
fn duplicate_asset_id_first_name_wins() {
    let bundle = movie(&[symbol_class(&[(7, "bn_first"), (7, "bn_second")])]);
    let tags = read_tag_stream(&bundle).unwrap();
    let table = build_symbol_table(&tags, "bn").unwrap();
    assert_eq!(table.get(7).unwrap(), "first");
}

#[test]
fn duplicate_across_declaration_tags_first_wins() {
    let bundle = movie(&[
        symbol_class(&[(7, "bn_one")]),
        symbol_class(&[(7, "bn_two"), (8, "bn_other")]),
    ]);
    let tags = read_tag_stream(&bundle).unwrap();
    let table = build_symbol_table(&tags, "bn").unwrap();
    assert_eq!(table.get(7).unwrap(), "one");
    assert_eq!(table.get(8).unwrap(), "other");
}

#[test]
fn unsupported_format_fails_while_others_succeed() {
    let bundle = movie(&[
        symbol_class(&[(1, "bn_pic"), (2, "bn_data")]),
        lossless_bitmap(1, 3, 2, 2, &zlib_compress(&[0u8; 16])),
        binary_data(2, b"payload"),
    ]);
    let existing: Vec<(String, AssetKind)> = Vec::new();
    let (assets, outcome) = extract_bundle(&bundle, "bn", &existing).unwrap();
    assert_eq!(outcome.written, 1);
    assert_eq!(outcome.skipped, 0);
    assert_eq!(outcome.failed.len(), 1);
    assert_eq!(outcome.failed[0].asset_id, 1);
    assert!(matches!(
        outcome.failed[0].reason,
        FailureReason::Codec {
            error: asset_extractor::codec::CodecError::UnsupportedPixelFormat
        }
    ));
    assert_eq!(assets.len(), 1);
    assert_eq!(assets[0].name, "data");
    assert_eq!(assets[0].kind, AssetKind::Xml);
}

#[test]
fn corrupt_packed_data_is_decompression_failed() {
    let bundle = movie(&[
        symbol_class(&[(1, "bn_pic")]),
        lossless_bitmap(1, 5, 1, 1, &[1, 2, 3, 4]),
    ]);
    let existing: Vec<(String, AssetKind)> = Vec::new();
    let (assets, outcome) = extract_bundle(&bundle, "bn", &existing).unwrap();
    assert_eq!(assets.len(), 0);
    assert_eq!(outcome.failed.len(), 1);
    assert!(matches!(
        outcome.failed[0].reason,
        FailureReason::Codec {
            error: asset_extractor::codec::CodecError::DecompressionFailed
        }
    ));
}

#[test]
fn second_run_skips_everything_and_writes_nothing() {
    let bundle = movie(&[
        symbol_class(&[(1, "bn_pic"), (2, "bn_data")]),
        lossless_bitmap(1, 5, 1, 1, &zlib_compress(&[0xAA, 0x11, 0x22, 0x33])),
        binary_data(2, b"payload"),
    ]);
    let existing: Vec<(String, AssetKind)> = Vec::new();
    let (assets1, outcome1) = extract_bundle(&bundle, "bn", &existing).unwrap();
    assert_eq!(outcome1.written, 2);
    assert_eq!(outcome1.failed.len(), 0);
    let after_first: Vec<(String, AssetKind)> = assets1
        .iter()
        .map(|a| (a.name.clone(), a.kind))
        .collect();
    let (assets2, outcome2) = extract_bundle(&bundle, "bn", &after_first).unwrap();
    assert_eq!(assets2.len(), 0);
    assert_eq!(outcome2.written, 0);
    assert_eq!(outcome2.skipped, outcome1.written + outcome1.skipped);
    assert_eq!(outcome2.failed.len(), 0);
}

#[test]
fn existing_file_is_a_skip_not_an_overwrite() {
    let bundle = movie(&[
        symbol_class(&[(7, "bn_door")]),
        binary_data(7, b"<xml/>"),
    ]);
    let existing = vec![(String::from("door"), AssetKind::Xml)];
    let (assets, outcome) = extract_bundle(&bundle, "bn", &existing).unwrap();
    assert_eq!(assets.len(), 0);
    assert_eq!(outcome.written, 0);
    assert_eq!(outcome.skipped, 1);
    assert_eq!(outcome.failed.len(), 0);
}

#[test]
fn duplicate_asset_tags_in_one_run_skip_the_second() {
    let bundle = movie(&[
        symbol_class(&[(7, "bn_door")]),
        binary_data(7, b"first"),
        binary_data(7, b"second"),
    ]);
    let existing: Vec<(String, AssetKind)> = Vec::new();
    let (assets, outcome) = extract_bundle(&bundle, "bn", &existing).unwrap();
    assert_eq!(assets.len(), 1);
    assert_eq!(assets[0].bytes, b"first".to_vec());
    assert_eq!(outcome.written, 1);
    assert_eq!(outcome.skipped, 1);
}

#[test]
fn truncated_container_is_malformed() {
    let existing: Vec<(String, AssetKind)> = Vec::new();
    let short = vec![0x46u8, 0x57, 0x53];
    assert!(matches!(
        read_tag_stream(&short),
        Err(ReadError::MalformedContainer { .. })
    ));
    assert!(matches!(
        extract_bundle(&short, "bn", &existing),
        Err(BundleError::MalformedContainer { .. })
    ));
}

#[test]
fn wrong_declared_length_is_malformed() {
    let mut bundle = movie(&[binary_data(1, b"x")]);
    bundle[4] = bundle[4].wrapping_add(1);
    assert!(matches!(
        read_tag_stream(&bundle),
        Err(ReadError::MalformedContainer { .. })
    ));
}

#[test]
fn truncated_tag_reports_its_offset() {
    let mut bundle = movie(&[binary_data(1, b"payload")]);
    let cut = bundle.len() - 3;
    bundle.truncate(cut);
    let declared = (bundle.len() as u32).to_le_bytes();
    bundle[4..8].copy_from_slice(&declared);
    match read_tag_stream(&bundle) {
        Err(ReadError::MalformedContainer { offset }) => assert_eq!(offset, 5),
        _ => panic!("expected a malformed container"),
    }
}

#[test]
fn compressed_container_reads_like_the_plain_one() {
    let plain = movie(&[
        symbol_class(&[(7, "bn_door")]),
        binary_data(7, b"<xml/>"),
    ]);
    let body = &plain[8..];
    let mut compressed = Vec::new();
    compressed.extend_from_slice(b"CWS");
    compressed.push(6);
    compressed.extend_from_slice(&((8 + body.len()) as u32).to_le_bytes());
    compressed.extend_from_slice(&zlib_compress(body));
    let existing: Vec<(String, AssetKind)> = Vec::new();
    let (assets, outcome) = extract_bundle(&compressed, "bn", &existing).unwrap();
    assert_eq!(assets.len(), 1);
    assert_eq!(assets[0].name, "door");
    assert_eq!(assets[0].bytes, b"<xml/>".to_vec());
    assert_eq!(outcome.written, 1);
}

#[test]
fn unknown_tags_are_ignored() {
    let bundle = movie(&[
        tag(9, &[1, 2, 3]),
        symbol_class(&[(7, "bn_door")]),
        tag(1, &[]),
        binary_data(7, b"<xml/>"),
        tag(0, &[]),
    ]);
    let tags = read_tag_stream(&bundle).unwrap();
    assert_eq!(tags.len(), 5);
    assert!(matches!(tags[0], TagRecord::Other));
    assert!(matches!(tags[2], TagRecord::Other));
    assert!(matches!(tags[4], TagRecord::Other));
    let existing: Vec<(String, AssetKind)> = Vec::new();
    let (assets, _) = extract_bundle(&bundle, "bn", &existing).unwrap();
    assert_eq!(assets.len(), 1);
}

#[test]
fn long_tag_uses_extended_length() {
    let payload = vec![0x42u8; 120];
    let bundle = movie(&[
        symbol_class(&[(7, "bn_big")]),
        binary_data(7, &payload),
    ]);
    let existing: Vec<(String, AssetKind)> = Vec::new();
    let (assets, outcome) = extract_bundle(&bundle, "bn", &existing).unwrap();
    assert_eq!(outcome.written, 1);
    assert_eq!(assets[0].name, "big");
    assert_eq!(assets[0].bytes, payload);
}

#[test]
fn declaration_body_with_trailing_bytes_is_malformed() {
    let mut body = Vec::new();
    body.extend_from_slice(&le16(1));
    body.extend_from_slice(&le16(7));
    body.extend_from_slice(b"bn_door");
    body.push(0);
    body.push(0xEE);
    let bundle = movie(&[tag(76, &body)]);
    assert!(matches!(
        read_tag_stream(&bundle),
        Err(ReadError::MalformedContainer { .. })
    ));
}

#[test]
fn non_ascii_symbol_name_is_malformed() {
    let mut body = Vec::new();
    body.extend_from_slice(&le16(1));
    body.extend_from_slice(&le16(7));
    body.extend_from_slice(&[b'b', b'n', b'_', 0xC3, 0xA9]);
    body.push(0);
    let bundle = movie(&[tag(76, &body)]);
    assert!(matches!(
        read_tag_stream(&bundle),
        Err(ReadError::MalformedContainer { .. })
    ));
}

#[test]
fn extension_names_match_kinds() {
    assert_eq!(AssetKind::Xml.extension(), "xml");
    assert_eq!(AssetKind::Png.extension(), "png");
}
