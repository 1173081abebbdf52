use mp4tree::boxtype::BoxType;
use mp4tree::mangle::AmountError;
use mp4tree::error::Mp4Error;
use mp4tree::header::{read_header, BoxHeader};
use mp4tree::bytes::{push_be_u32, push_be_u64, push_decimal, read_be_u32, read_be_u64};
use mp4tree::inspect::{extract, inspect_tree};
use mp4tree::source::ByteSource;

/// An 8-byte-header box: 32-bit size, four-character code, content.
fn bx(name: &[u8; 4], content: &[u8]) -> Vec<u8> {
    let size = (content.len() + 8) as u32;
    let mut v = Vec::new();
    v.extend_from_slice(&size.to_be_bytes());
    v.extend_from_slice(name);
    v.extend_from_slice(content);
    v
}

fn cat(parts: &[Vec<u8>]) -> Vec<u8> {
    let mut v = Vec::new();
    for p in parts {
        v.extend_from_slice(p);
    }
    v
}

#[test]
fn tree_print_indents_nested_boxes() {
    // 00000008 ftyp | 00000010 moov [ 00000008 mdat ]
    let file = cat(&[bx(b"ftyp", &[]), bx(b"moov", &bx(b"mdat", &[]))]);
    assert_eq!(file.len(), 24);
    let out = inspect_tree(file, false, false).unwrap();
    assert_eq!(out, b"ftyp\nmoov\n  mdat\n".to_vec());
}

#[test]
fn path_print_joins_ancestry() {
    let file = cat(&[bx(b"ftyp", &[]), bx(b"moov", &bx(b"mdat", &[]))]);
    let out = inspect_tree(file, true, false).unwrap();
    assert_eq!(out, b"ftyp\nmoov\nmoov/mdat\n".to_vec());
}

#[test]
fn tree_print_with_sizes() {
    let file = bx(b"ftyp", &[1, 2, 3, 4]);
    let out = inspect_tree(file, false, true).unwrap();
    assert_eq!(out, b"ftyp (12 B)\n".to_vec());
}

#[test]
fn tree_print_reports_corrected_size() {
    // declared size 32 overflows the 12-byte file: clamped to 12
    let mut file = bx(b"ftyp", &[9, 9, 9, 9]);
    file[0..4].copy_from_slice(&32u32.to_be_bytes());
    let out = inspect_tree(file, false, true).unwrap();
    assert_eq!(out, b"ftyp (32 B declared, 12 B corrected)\n".to_vec());
}

#[test]
fn extract_copies_leaf_payload() {
    let payload = [0xAAu8, 0xBB, 0xCC];
    let file = cat(&[bx(b"ftyp", &[]), bx(b"mdat", &payload), bx(b"free", &[1])]);
    let out = extract(file, BoxType::MdatBox).unwrap();
    assert_eq!(out, payload.to_vec());
}

#[test]
fn extract_takes_first_match_only() {
    let file = cat(&[bx(b"mdat", &[1]), bx(b"mdat", &[2])]);
    let out = extract(file, BoxType::MdatBox).unwrap();
    assert_eq!(out, vec![1]);
}

#[test]
fn extract_of_container_takes_first_leaf_inside() {
    // moov is a container: the copy armed at its start fires on the first
    // leaf payload inside it
    let mvhd = bx(b"mvhd", &[7, 7]);
    let trak = bx(b"trak", &bx(b"tkhd", &[8]));
    let moov = bx(b"moov", &cat(&[mvhd, trak]));
    let file = cat(&[bx(b"ftyp", &[]), moov, bx(b"mdat", &[9])]);
    let out = extract(file, BoxType::MoovBox).unwrap();
    assert_eq!(out, vec![7, 7]);
}

#[test]
fn size_zero_box_runs_to_end_of_file() {
    // mdat with declared size 0: its payload is everything to EOF
    let mut file = cat(&[bx(b"ftyp", &[]), bx(b"mdat", &[5, 6, 7])]);
    let mdat_at = 8;
    file[mdat_at..mdat_at + 4].copy_from_slice(&0u32.to_be_bytes());
    let out = extract(file, BoxType::MdatBox).unwrap();
    assert_eq!(out, vec![5, 6, 7]);
}

#[test]
fn largesize_sixteen_is_legal_and_empty() {
    // 16-byte header, largesize 16: a box with no payload
    let mut file = Vec::new();
    file.extend_from_slice(&1u32.to_be_bytes());
    file.extend_from_slice(b"mdat");
    file.extend_from_slice(&16u64.to_be_bytes());
    let out = inspect_tree(file, false, true).unwrap();
    assert_eq!(out, b"mdat (16 B)\n".to_vec());
}

#[test]
fn largesize_below_sixteen_is_invalid_data() {
    let mut file = Vec::new();
    file.extend_from_slice(&1u32.to_be_bytes());
    file.extend_from_slice(b"mdat");
    file.extend_from_slice(&8u64.to_be_bytes());
    let err = inspect_tree(file, false, false).unwrap_err();
    assert_eq!(err, Mp4Error::InvalidData);
}

#[test]
fn largesize_zero_is_content_to_end_sentinel() {
    let mut file = Vec::new();
    file.extend_from_slice(&1u32.to_be_bytes());
    file.extend_from_slice(b"mdat");
    file.extend_from_slice(&0u64.to_be_bytes());
    file.extend_from_slice(&[1, 2, 3, 4]);
    let out = extract(file, BoxType::MdatBox).unwrap();
    assert_eq!(out, vec![1, 2, 3, 4]);
}

#[test]
fn truncated_header_is_unexpected_eof() {
    let file = vec![0u8, 0, 0, 12, b'f'];
    let err = inspect_tree(file, false, false).unwrap_err();
    assert_eq!(err, Mp4Error::UnexpectedEof);
}

#[test]
fn empty_file_traverses_to_nothing() {
    let out = inspect_tree(Vec::new(), false, false).unwrap();
    assert_eq!(out, Vec::<u8>::new());
}

#[test]
fn overflowing_container_is_clamped_and_traversal_continues() {
    // trak declares 64 bytes but only 8 + tkhd fit inside moov
    let tkhd = bx(b"tkhd", &[1]);
    let mut trak = bx(b"trak", &tkhd);
    trak[0..4].copy_from_slice(&64u32.to_be_bytes());
    let moov = bx(b"moov", &trak);
    let file = cat(&[moov, bx(b"mdat", &[2])]);
    let out = inspect_tree(file, false, false).unwrap();
    assert_eq!(out, b"moov\n  trak\n    tkhd\nmdat\n".to_vec());
}

#[test]
fn invalid_unknown_code_skips_rest_of_level_only() {
    // an unknown code with an uppercase byte inside moov: the rest of the
    // moov level is skipped, but the top level carries on
    let bogus = bx(b"AbcD", &[1, 2]);
    let moov = bx(b"moov", &cat(&[bx(b"mvhd", &[3]), bogus]));
    let file = cat(&[moov, bx(b"mdat", &[4])]);
    let out = inspect_tree(file, false, false).unwrap();
    assert_eq!(out, b"moov\n  mvhd\nmdat\n".to_vec());
}

#[test]
fn lowercase_unknown_code_is_traversed_as_container() {
    let inner = bx(b"mdat", &[1]);
    let file = bx(b"abcd", &inner);
    let out = inspect_tree(file, false, false).unwrap();
    assert_eq!(out, b"abcd\n  mdat\n".to_vec());
}

#[test]
fn copyright_names_display_with_replacement_character() {
    // a known name whose first byte is not ASCII; it is a container, so it
    // is left empty here
    let name = [0xA9u8, b'n', b'a', b'm'];
    let file = bx(&name, &[]);
    let out = inspect_tree(file, false, false).unwrap();
    assert_eq!(out, "\u{FFFD}nam\n".as_bytes().to_vec());
}

#[test]
fn read_header_parses_short_form() {
    let mut src = ByteSource::new(bx(b"ftyp", &[1, 2]));
    let h = read_header(&mut src).unwrap();
    assert_eq!(h.name, BoxType::FtypBox);
    assert_eq!(h.size, 10);
    assert!(!h.longsize);
    assert_eq!(src.position(), 8);
}

#[test]
fn read_header_parses_largesize_form() {
    let mut file = Vec::new();
    file.extend_from_slice(&1u32.to_be_bytes());
    file.extend_from_slice(b"mdat");
    file.extend_from_slice(&100u64.to_be_bytes());
    let mut src = ByteSource::new(file);
    let h = read_header(&mut src).unwrap();
    assert_eq!(h.name, BoxType::MdatBox);
    assert_eq!(h.size, 100);
    assert!(h.longsize);
    assert_eq!(src.position(), 16);
}

#[test]
fn set_size_switches_to_long_form_past_u32() {
    let mut h = BoxHeader { name: BoxType::MdatBox, size: 0, longsize: false };
    h.set_size(100);
    assert_eq!(h.size, 108);
    let mut big = BoxHeader { name: BoxType::MdatBox, size: 0, longsize: false };
    big.set_size(u32::MAX as u64);
    assert_eq!(big.size, u32::MAX as u64 + 16);
}

#[test]
fn box_type_codes_round_trip() {
    assert_eq!(BoxType::from_code(0x66747970), BoxType::FtypBox);
    assert_eq!(BoxType::FtypBox.code(), 0x66747970);
    let unknown = BoxType::from_code(0x61626364);
    assert_eq!(unknown, BoxType::UnknownBox(0x61626364));
    assert_eq!(unknown.code(), 0x61626364);
}

#[test]
fn box_type_validity_gate() {
    assert!(BoxType::FtypBox.validate());
    assert!(BoxType::UnknownBox(0x61626364).validate());
    assert!(!BoxType::UnknownBox(0x41626364).validate());
    assert!(!BoxType::UnknownBox(0x6162631).validate());
}

#[test]
fn leaf_classification_matches_catalog() {
    assert!(BoxType::MdatBox.is_leaf());
    assert!(BoxType::MetaBox.is_leaf());
    assert!(BoxType::UdtaBox.is_leaf());
    assert!(!BoxType::MoovBox.is_leaf());
    assert!(!BoxType::TrakBox.is_leaf());
    assert!(!BoxType::UnknownBox(0x61626364).is_leaf());
}

#[test]
fn amount_error_messages() {
    assert_eq!(AmountError::MissingValue.message(), "no value provided for amount");
    assert_eq!(
        AmountError::PercentRange.message(),
        "percent range should be between 0 and 1"
    );
}

#[test]
fn path_print_with_sizes() {
    let file = bx(b"moov", &bx(b"mdat", &[1, 2]));
    let out = inspect_tree(file, true, true).unwrap();
    assert_eq!(out, b"moov (18 B)\nmoov/mdat (10 B)\n".to_vec());
}

#[test]
fn big_endian_helpers_round_trip() {
    let mut v = Vec::new();
    push_be_u32(&mut v, 0xA1B2C3D4);
    push_be_u64(&mut v, 0x0102030405060708);
    assert_eq!(v, vec![0xA1, 0xB2, 0xC3, 0xD4, 1, 2, 3, 4, 5, 6, 7, 8]);
    assert_eq!(read_be_u32(&v, 0), 0xA1B2C3D4);
    assert_eq!(read_be_u64(&v, 4), 0x0102030405060708);
}

#[test]
fn decimal_rendering() {
    let mut v = Vec::new();
    push_decimal(&mut v, 0);
    v.push(b' ');
    push_decimal(&mut v, 1048576);
    assert_eq!(v, b"0 1048576".to_vec());
}
