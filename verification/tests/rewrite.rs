use mp4tree::boxtype::BoxType;
use mp4tree::error::Mp4Error;
use mp4tree::header::BoxHeader;
use mp4tree::moov_transplant::{transplant, MoovLocatorVisitor};
use mp4tree::recover::recover;
use mp4tree::strip::strip;
use mp4tree::tree::{BoxData, Mp4Box};
use mp4tree::visitor::Mp4Visitor;

/// An 8-byte-header box: 32-bit size, four-character code, content.
fn bx(name: &[u8; 4], content: &[u8]) -> Vec<u8> {
    let size = (content.len() + 8) as u32;
    let mut v = Vec::new();
    v.extend_from_slice(&size.to_be_bytes());
    v.extend_from_slice(name);
    v.extend_from_slice(content);
    v
}

fn cat(parts: &[Vec<u8>]) -> Vec<u8> {
    let mut v = Vec::new();
    for p in parts {
        v.extend_from_slice(p);
    }
    v
}

/// A counted table payload: version/flags, entry count, records.
fn table(count: u32, records: &[u8]) -> Vec<u8> {
    let mut v = vec![0, 0, 0, 0];
    v.extend_from_slice(&count.to_be_bytes());
    v.extend_from_slice(records);
    v
}

#[test]
fn strip_with_empty_ignore_is_identity_on_consistent_file() {
    let stco = bx(b"stco", &table(1, &[0, 0, 0, 42]));
    let stbl = bx(b"stbl", &stco);
    let moov = bx(b"moov", &cat(&[bx(b"mvhd", &[1, 2, 3]), stbl]));
    let file = cat(&[bx(b"ftyp", &[0; 4]), moov, bx(b"mdat", &[9; 10])]);
    let out = strip(file.clone(), Vec::new()).unwrap();
    assert_eq!(out, file);
}

#[test]
fn strip_corrects_overstated_stco_count() {
    // stco declares 1000 entries but only 4 records fit
    let records = [0u8, 0, 0, 1, 0, 0, 0, 2, 0, 0, 0, 3, 0, 0, 0, 4];
    let stco = bx(b"stco", &table(1000, &records));
    let file = cat(&[bx(b"ftyp", &[7; 4]), stco.clone(), bx(b"mdat", &[9; 3])]);
    let out = strip(file.clone(), Vec::new()).unwrap();

    let fixed_stco = bx(b"stco", &table(4, &records));
    let expected = cat(&[bx(b"ftyp", &[7; 4]), fixed_stco, bx(b"mdat", &[9; 3])]);
    assert_eq!(out, expected);
}

#[test]
fn strip_blanks_ignored_box_as_free_of_same_size() {
    let udta_payload = vec![0x5A; 1_048_576 - 8];
    let udta = bx(b"udta", &udta_payload);
    let file = cat(&[bx(b"ftyp", &[1]), udta, bx(b"mdat", &[2, 3])]);
    let out = strip(file.clone(), vec![BoxType::UdtaBox]).unwrap();

    let free = bx(b"free", &vec![0u8; 1_048_576 - 8]);
    let expected = cat(&[bx(b"ftyp", &[1]), free, bx(b"mdat", &[2, 3])]);
    assert_eq!(out.len(), file.len());
    assert_eq!(out, expected);
}

#[test]
fn strip_fails_on_short_sample_table() {
    // a 4-byte stts payload cannot hold its version/flags and count
    let stts = bx(b"stts", &[0, 0, 0, 0]);
    let err = strip(stts, Vec::new()).unwrap_err();
    assert_eq!(err, Mp4Error::UnexpectedEof);
}

#[test]
fn strip_corrects_stsc_record_size_twelve() {
    // one full 12-byte record plus 5 stray bytes, count overstated
    let mut records = vec![0u8, 0, 0, 1, 0, 0, 0, 2, 0, 0, 0, 3];
    records.extend_from_slice(&[9, 9, 9, 9, 9]);
    let stsc = bx(b"stsc", &table(7, &records));
    let out = strip(stsc, Vec::new()).unwrap();
    let expected = bx(b"stsc", &table(1, &records[0..12]));
    assert_eq!(out, expected);
}

#[test]
fn recover_corrects_ctts_count() {
    let records = [0u8, 0, 0, 1, 0, 0, 0, 2];
    let ctts = bx(b"ctts", &table(99, &records));
    let out = recover(cat(&[bx(b"ftyp", &[]), ctts])).unwrap();
    let expected = cat(&[bx(b"ftyp", &[]), bx(b"ctts", &table(1, &records))]);
    assert_eq!(out, expected);
}

#[test]
fn recover_zeroes_stsz_count_when_sample_size_is_fixed() {
    // sample_size != 0: the table carries no records, the count becomes 0
    let mut payload = vec![0, 0, 0, 0];
    payload.extend_from_slice(&512u32.to_be_bytes());
    payload.extend_from_slice(&7u32.to_be_bytes());
    let stsz = bx(b"stsz", &payload);
    let out = recover(stsz).unwrap();
    let mut fixed = vec![0, 0, 0, 0];
    fixed.extend_from_slice(&512u32.to_be_bytes());
    fixed.extend_from_slice(&0u32.to_be_bytes());
    assert_eq!(out, bx(b"stsz", &fixed));
}

#[test]
fn recover_counts_variable_stsz_records() {
    // sample_size == 0: records are 4 bytes each
    let mut payload = vec![0, 0, 0, 0];
    payload.extend_from_slice(&0u32.to_be_bytes());
    payload.extend_from_slice(&9u32.to_be_bytes());
    payload.extend_from_slice(&[0, 0, 0, 5, 0, 0, 0, 6]);
    let out = recover(bx(b"stsz", &payload)).unwrap();
    let mut fixed = vec![0, 0, 0, 0];
    fixed.extend_from_slice(&0u32.to_be_bytes());
    fixed.extend_from_slice(&2u32.to_be_bytes());
    fixed.extend_from_slice(&[0, 0, 0, 5, 0, 0, 0, 6]);
    assert_eq!(out, bx(b"stsz", &fixed));
}

#[test]
fn recover_leaves_stts_verbatim() {
    // recovery repairs ctts, stsz and stco only; stts is copied as-is
    let stts = bx(b"stts", &table(1000, &[0, 0, 0, 1, 0, 0, 0, 2]));
    let out = recover(stts.clone()).unwrap();
    assert_eq!(out, stts);
}

#[test]
fn transplant_replaces_corrupted_moov() {
    let donor_moov = bx(b"moov", &cat(&[bx(b"mvhd", &[1, 2]), bx(b"trak", &bx(b"tkhd", &[3]))]));
    let donor = cat(&[bx(b"ftyp", &[0]), donor_moov.clone()]);

    // subject's moov declares a size far past EOF
    let mut bad_moov = bx(b"moov", &bx(b"mvhd", &[9]));
    bad_moov[0..4].copy_from_slice(&10_000u32.to_be_bytes());
    let subject = cat(&[bx(b"ftyp", &[5, 5]), bad_moov]);

    let out = transplant(donor, subject).unwrap();
    let expected = cat(&[bx(b"ftyp", &[5, 5]), donor_moov]);
    assert_eq!(out, expected);
}

#[test]
fn transplant_appends_moov_when_subject_lacks_one() {
    let donor_moov = bx(b"moov", &bx(b"mvhd", &[1, 2, 3]));
    let donor = donor_moov.clone();
    let subject = cat(&[bx(b"ftyp", &[4]), bx(b"mdat", &[5, 6])]);
    let out = transplant(donor, subject.clone()).unwrap();
    let expected = cat(&[subject, donor_moov]);
    assert_eq!(out, expected);
}

#[test]
fn transplant_without_donor_moov_is_refused() {
    let donor = bx(b"ftyp", &[1]);
    let subject = bx(b"mdat", &[2]);
    let err = transplant(donor, subject).unwrap_err();
    assert_eq!(err, Mp4Error::MissingMoov);
}

#[test]
fn transplant_keeps_longsize_encoding_of_subject_boxes() {
    // a 16-byte-header mdat in the subject keeps its encoding
    let mut long_mdat = Vec::new();
    long_mdat.extend_from_slice(&1u32.to_be_bytes());
    long_mdat.extend_from_slice(b"mdat");
    long_mdat.extend_from_slice(&19u64.to_be_bytes());
    long_mdat.extend_from_slice(&[7, 7, 7]);
    let donor = bx(b"moov", &bx(b"mvhd", &[1]));
    let subject = long_mdat.clone();
    let out = transplant(donor.clone(), subject).unwrap();
    let expected = cat(&[long_mdat, donor]);
    assert_eq!(out, expected);
}

#[test]
fn locator_current_path_names_open_boxes() {
    let mut v = MoovLocatorVisitor::new();
    assert_eq!(v.current_path(), Vec::<u8>::new());
    v.start_box(&BoxHeader { name: BoxType::MoovBox, size: 100, longsize: false }, None).unwrap();
    v.start_box(&BoxHeader { name: BoxType::TrakBox, size: 50, longsize: false }, None).unwrap();
    assert_eq!(v.current_path(), b"moov/trak".to_vec());
}

#[test]
fn tree_serializer_round_trips_through_write_to() {
    let leaf = Mp4Box {
        name: BoxType::MvhdBox,
        data: BoxData::Raw(vec![1, 2, 3]),
        force_longsize: false,
    };
    let root = Mp4Box {
        name: BoxType::MoovBox,
        data: BoxData::Children(vec![leaf]),
        force_longsize: false,
    };
    let mut out = Vec::new();
    let n = root.write_to(&mut out);
    assert_eq!(n, out.len() as u64);
    assert_eq!(out, cat(&[bx(b"moov", &bx(b"mvhd", &[1, 2, 3]))]));
    let again = Mp4Box::new(BoxHeader { name: BoxType::MoovBox, size: 19, longsize: false });
    let mut out2 = Vec::new();
    let n2 = again.write_to(&mut out2);
    assert_eq!(n2, 8);
    assert_eq!(out2, bx(b"moov", &[]));
}

#[test]
fn forced_longsize_serializes_sixteen_byte_header() {
    let b = Mp4Box { name: BoxType::MdatBox, data: BoxData::Raw(vec![9]), force_longsize: true };
    let mut out = Vec::new();
    let n = b.write_to(&mut out);
    assert_eq!(n, 17);
    let mut expected = Vec::new();
    expected.extend_from_slice(&1u32.to_be_bytes());
    expected.extend_from_slice(b"mdat");
    expected.extend_from_slice(&17u64.to_be_bytes());
    expected.push(9);
    assert_eq!(out, expected);
}

#[test]
fn strip_zeroes_ignored_table_instead_of_repairing_it() {
    // an ignored stco is blanked, not count-corrected
    let stco = bx(b"stco", &table(1000, &[0, 0, 0, 1]));
    let out = strip(stco.clone(), vec![BoxType::StcoBox]).unwrap();
    let expected = bx(b"free", &vec![0u8; stco.len() - 8]);
    assert_eq!(out, expected);
}

#[test]
fn recover_fails_on_short_ctts() {
    let ctts = bx(b"ctts", &[0, 0, 0]);
    let err = recover(ctts).unwrap_err();
    assert_eq!(err, Mp4Error::UnexpectedEof);
}

#[test]
fn transplant_replaces_every_moov_occurrence() {
    let donor_moov = bx(b"moov", &bx(b"mvhd", &[1]));
    let subject = cat(&[bx(b"moov", &bx(b"mvhd", &[8])), bx(b"free", &[0]), bx(
        b"moov",
        &bx(b"mvhd", &[9]),
    )]);
    let out = transplant(donor_moov.clone(), subject).unwrap();
    let expected = cat(&[donor_moov.clone(), bx(b"free", &[0]), donor_moov]);
    assert_eq!(out, expected);
}
