use patch_fixer::header::UASSET_MAGIC;
use patch_fixer::scan::{classify, contains_chars, is_skippable, scan_materials, Candidate};
use patch_fixer::{Logger, PatchError, PatchFixer};

struct QuietLogger;

impl Logger for QuietLogger {
    fn log(&self, _buf: String) {}
}

fn fixer() -> PatchFixer<QuietLogger> {
    PatchFixer { logger: QuietLogger }
}

fn put_u32(b: &mut Vec<u8>, v: u32) {
    b.extend_from_slice(&v.to_le_bytes());
}

fn put_i32(b: &mut Vec<u8>, v: i32) {
    b.extend_from_slice(&v.to_le_bytes());
}

fn put_name(b: &mut Vec<u8>, s: &str) {
    put_u32(b, s.len() as u32 + 1);
    b.extend_from_slice(s.as_bytes());
    b.push(0);
}

/// A header with the given legacy version; returns the bytes and the
/// position of the bulk-data start field.
fn header(legacy: i32, export_count: u32, export_offset: u32) -> (Vec<u8>, usize) {
    let mut b = Vec::new();
    put_u32(&mut b, UASSET_MAGIC);
    put_i32(&mut b, legacy);
    if legacy != -4 {
        put_u32(&mut b, 0x1234);
    }
    put_i32(&mut b, 0);
    if legacy <= -8 {
        put_i32(&mut b, 1009);
    }
    put_i32(&mut b, 0);
    if legacy <= -2 {
        put_i32(&mut b, 2);
        b.extend_from_slice(&[0xAB; 40]);
    }
    put_u32(&mut b, 0x99);
    put_name(&mut b, "None");
    // package flags, name count/offset, soft paths, gatherable text
    for v in [1u32, 2, 3, 4, 5, 6, 7] {
        put_u32(&mut b, v);
    }
    put_u32(&mut b, export_count);
    put_u32(&mut b, export_offset);
    for v in [8u32, 9, 10, 11, 12, 13, 14] {
        put_u32(&mut b, v);
    }
    b.extend_from_slice(&[0xCD; 16]);
    put_u32(&mut b, 2);
    b.extend_from_slice(&[0xEF; 16]);
    b.extend_from_slice(&[0; 10]);
    put_name(&mut b, "++UE5+Release");
    b.extend_from_slice(&[0; 10]);
    put_name(&mut b, "Engine");
    b.extend_from_slice(&[0; 12]);
    put_u32(&mut b, 2);
    put_name(&mut b, "/Game/A");
    put_name(&mut b, "/Game/BB");
    put_u32(&mut b, 0x55);
    let bulk = b.len();
    b.extend_from_slice(&4096i64.to_le_bytes());
    b.extend_from_slice(&[0x77; 8]);
    (b, bulk)
}

#[test]
fn header_fields_legacy_minus_four() {
    let (b, bulk) = header(-4, 3, 0x1C0);
    let d = fixer().read_uasset(&b).unwrap();
    assert_eq!(d.export_count, 3);
    assert_eq!(d.export_table_offset, 0x1C0);
    assert_eq!(d.bulk_data_field_offset, bulk);
}

#[test]
fn header_fields_with_engine_five_version() {
    let (b, bulk) = header(-8, 12, 0x2A0);
    let d = fixer().read_uasset(&b).unwrap();
    assert_eq!(d.export_count, 12);
    assert_eq!(d.export_table_offset, 0x2A0);
    assert_eq!(d.bulk_data_field_offset, bulk);
}

#[test]
fn header_fields_without_custom_versions() {
    let (b, bulk) = header(-1, 1, 0x80);
    let d = fixer().read_uasset(&b).unwrap();
    assert_eq!(d.export_count, 1);
    assert_eq!(d.export_table_offset, 0x80);
    assert_eq!(d.bulk_data_field_offset, bulk);
}

#[test]
fn header_bad_magic() {
    let (mut b, _) = header(-4, 3, 0x1C0);
    b[0] = 0;
    assert_eq!(fixer().read_uasset(&b), Err(PatchError::BadMagic));
}

#[test]
fn header_unsupported_version() {
    let (mut b, _) = header(-4, 3, 0x1C0);
    b[8] = 1;
    assert_eq!(fixer().read_uasset(&b), Err(PatchError::UnsupportedVersion));
}

#[test]
fn header_truncated() {
    let (b, bulk) = header(-4, 3, 0x1C0);
    assert_eq!(fixer().read_uasset(&b[..bulk + 7]), Err(PatchError::Io));
    assert_eq!(fixer().read_uasset(&b[..2]), Err(PatchError::Io));
    assert!(fixer().read_uasset(&b[..bulk + 8]).is_ok());
}

fn export_table(base: usize, records: &[(i64, i64)]) -> Vec<u8> {
    let mut b = vec![0xEE; base];
    for (size, offset) in records {
        b.extend_from_slice(&[0x01; 28]);
        b.extend_from_slice(&size.to_le_bytes());
        b.extend_from_slice(&offset.to_le_bytes());
        b.extend_from_slice(&[0x02; 52]);
    }
    b.extend_from_slice(&[0x03; 8]);
    b
}

#[test]
fn exports_in_table_order() {
    let b = export_table(10, &[(100, 2000), (-5, 3000), (70000, 4500)]);
    let mut sizes = vec![42];
    let mut offsets = Vec::new();
    let r = fixer().read_exports(&b, &mut sizes, &mut offsets, 10, 3);
    assert_eq!(r, Ok(Some(10 + 96 * 2 + 28)));
    assert_eq!(sizes, vec![42, 100, -5, 70000]);
    assert_eq!(offsets, vec![2000, 3000, 4500]);
}

#[test]
fn exports_empty_table() {
    let b = export_table(10, &[]);
    let mut sizes = Vec::new();
    let mut offsets = Vec::new();
    assert_eq!(fixer().read_exports(&b, &mut sizes, &mut offsets, 10, 0), Ok(None));
    assert!(sizes.is_empty() && offsets.is_empty());
}

#[test]
fn exports_truncated() {
    let b = export_table(10, &[(100, 2000), (7, 3000)]);
    let mut sizes = Vec::new();
    let mut offsets = Vec::new();
    assert_eq!(fixer().read_exports(&b, &mut sizes, &mut offsets, 10, 3), Err(PatchError::Io));
    assert_eq!(sizes, vec![100, 7]);
    assert_eq!(offsets, vec![2000, 3000]);
}

#[test]
fn exports_cut_inside_record() {
    let b = export_table(10, &[(100, 2000), (7, 3000), (9, 4000)]);
    // the second record's pair is present, the third record's is not
    let cut = &b[..10 + 96 + 44 + 30];
    let mut sizes = vec![1];
    let mut offsets = vec![2];
    assert_eq!(fixer().read_exports(cut, &mut sizes, &mut offsets, 10, 3), Err(PatchError::Io));
    assert_eq!(sizes, vec![1, 100, 7]);
    assert_eq!(offsets, vec![2, 2000, 3000]);
    let cut = &b[..10 + 96 + 43];
    let mut sizes = Vec::new();
    let mut offsets = Vec::new();
    assert_eq!(fixer().read_exports(cut, &mut sizes, &mut offsets, 10, 3), Err(PatchError::Io));
    assert_eq!(sizes, vec![100]);
    assert_eq!(offsets, vec![2000]);
    let mut sizes = Vec::new();
    let mut offsets = Vec::new();
    assert_eq!(fixer().read_exports(&b[..5], &mut sizes, &mut offsets, 10, 3), Err(PatchError::Io));
    assert!(sizes.is_empty() && offsets.is_empty());
}

const FILE_SIZE: u64 = 100;

/// A payload: `prefix` bytes, then `gap` filler bytes, then a count field,
/// one byte, the sentinel and `count` 40-byte records each with its padding
/// (the first record starts at the byte after the count field), then a tail.
fn payload(prefix: usize, gap: usize, count: i32, records: usize) -> (Vec<u8>, usize) {
    let mut b = vec![0x11; prefix];
    b.extend(std::iter::repeat(0x22).take(gap));
    put_i32(&mut b, count);
    let end = b.len();
    for i in 0..records {
        let mut rec = vec![0x30 + (i % 7) as u8; 40];
        if i == 0 {
            rec[0] = 0x00;
            rec[1] = 0xFF;
            rec[2] = 0xFF;
            rec[3] = 0xFF;
            rec[4] = 0x07;
        }
        b.extend_from_slice(&rec);
        b.extend_from_slice(&[0, 0, 0, 0]);
    }
    b.extend_from_slice(&[0x44; 6]);
    (b, end)
}

fn without_padding(b: &[u8], end: usize, records: usize) -> Vec<u8> {
    let mut out = b[..end].to_vec();
    let mut q = end;
    for _ in 0..records {
        out.extend_from_slice(&b[q..q + 40]);
        q += 44;
    }
    out.extend_from_slice(&b[q..]);
    out
}

#[test]
fn scan_finds_count_one() {
    let (b, end) = payload(10, 20, 1, 1);
    let mut o = Vec::new();
    let r = fixer().read_uexp(&b, FILE_SIZE, "SK_Body", &mut o, &vec![FILE_SIZE as i64 + 10]);
    assert_eq!(r, Ok(1));
    assert_eq!(o, without_padding(&b, end, 1));
    assert_eq!(o.len(), b.len() - 4);
}

#[test]
fn scan_finds_count_254() {
    let (b, end) = payload(10, 20, 254, 254);
    let mut o = vec![9, 9];
    let r = fixer().read_uexp(&b, FILE_SIZE, "SK_Body", &mut o, &vec![FILE_SIZE as i64 + 10]);
    assert_eq!(r, Ok(254));
    let mut expected = vec![9, 9];
    expected.extend(without_padding(&b, end, 254));
    assert_eq!(o, expected);
    assert_eq!(o.len(), 2 + b.len() - 4 * 254);
}

#[test]
fn scan_rejects_count_zero() {
    let (b, _) = payload(10, 20, 0, 1);
    let mut o = Vec::new();
    let r = fixer().read_uexp(&b, FILE_SIZE, "SK_Body", &mut o, &vec![FILE_SIZE as i64 + 10]);
    assert_eq!(r, Err(PatchError::InvalidData));
    assert_eq!(o, b[..10].to_vec());
}

#[test]
fn scan_rejects_count_255() {
    let (b, _) = payload(10, 20, 255, 1);
    let mut o = Vec::new();
    let r = fixer().read_uexp(&b, FILE_SIZE, "Skeleton_Body", &mut o, &vec![FILE_SIZE as i64 + 10]);
    assert_eq!(r, Err(PatchError::Skip));
}

#[test]
fn scan_continues_after_rejected_count() {
    // a rejected candidate first, then an accepted one further on
    let mut b = vec![0x11; 4];
    put_i32(&mut b, 255);
    b.extend_from_slice(&[0x00, 0xFF, 0xFF, 0xFF, 0x05]);
    b.extend_from_slice(&[0x22; 8]);
    let (rest, end) = payload(0, 0, 2, 2);
    let shift = b.len();
    b.extend_from_slice(&rest);
    let mut o = Vec::new();
    let r = fixer().read_uexp(&b, FILE_SIZE, "SK_Body", &mut o, &vec![FILE_SIZE as i64]);
    assert_eq!(r, Ok(2));
    assert_eq!(o, without_padding(&b, shift + end, 2));
}

#[test]
fn classify_boundaries() {
    for (count, expected) in [
        (0, Candidate::Rejected),
        (1, Candidate::Found(1)),
        (254, Candidate::Found(254)),
        (255, Candidate::Rejected),
        (-3, Candidate::Rejected),
    ] {
        let mut b = Vec::new();
        put_i32(&mut b, count);
        b.extend_from_slice(&[0x00, 0xFF, 0xFF, 0xFF, 0x01]);
        assert_eq!(classify(&b, 5), Ok(expected));
    }
    assert_eq!(classify(&[0xFF, 0xFF, 0xFF, 0xFF], 0), Ok(Candidate::Run));
    assert_eq!(classify(&[0x01, 0xFF, 0xFF, 0xFF], 0), Ok(Candidate::Slide));
    assert_eq!(classify(&[0xFF, 0xFF, 0xFF], 0), Err(PatchError::Io));
    assert_eq!(classify(&[0xFF, 0xFF, 0xFF, 0x00], 0), Err(PatchError::Io));
}

#[test]
fn sentinel_run_is_no_match() {
    let mut b = vec![0x11; 4];
    put_i32(&mut b, 5);
    b.push(0x00);
    b.extend_from_slice(&[0xFF; 7]);
    b.extend_from_slice(&[0x01; 60]);
    assert_eq!(scan_materials(&b, 4, 0), Ok(None));
    let mut o = Vec::new();
    let r = fixer().read_uexp(&b, FILE_SIZE, "SK_Body", &mut o, &vec![FILE_SIZE as i64 + 4]);
    assert_eq!(r, Err(PatchError::InvalidData));
}

#[test]
fn scan_beyond_initial_budget() {
    let (b, end) = payload(10, 600_000, 3, 3);
    assert_eq!(scan_materials(&b, 10, 0), Ok(Some((end, 3))));
    let mut o = Vec::new();
    let r = fixer().read_uexp(&b, FILE_SIZE, "SK_Body", &mut o, &vec![FILE_SIZE as i64 + 10]);
    assert_eq!(r, Ok(3));
    assert_eq!(o.len(), b.len() - 12);
}

#[test]
fn scan_no_match_anywhere() {
    let b = vec![0x22; 700_000];
    let mut o = Vec::new();
    let r = fixer().read_uexp(&b, FILE_SIZE, "SK_Body", &mut o, &vec![FILE_SIZE as i64]);
    assert_eq!(r, Err(PatchError::InvalidData));
    let r = fixer().read_uexp(&b, FILE_SIZE, "Rig_Body", &mut o, &vec![FILE_SIZE as i64]);
    assert_eq!(r, Err(PatchError::Skip));
}

#[test]
fn scan_stops_when_budget_reaches_remaining() {
    // the budget may not grow past the remaining size, so a match beyond it is missed
    let (b, _) = payload(0, 600_000, 3, 3);
    assert_eq!(scan_materials(&b, 0, 500_000), Ok(None));
    assert_eq!(scan_materials(&b, 0, 700_000).map(|f| f.map(|x| x.1)), Ok(Some(3)));
}

#[test]
fn prefix_outside_payload() {
    let (b, _) = payload(10, 20, 1, 1);
    let mut o = Vec::new();
    let r = fixer().read_uexp(&b, FILE_SIZE, "SK_Body", &mut o, &vec![FILE_SIZE as i64 - 1]);
    assert_eq!(r, Err(PatchError::Io));
    let r = fixer().read_uexp(&b, FILE_SIZE, "SK_Body", &mut o, &vec![FILE_SIZE as i64 + 10_000]);
    assert_eq!(r, Err(PatchError::Io));
    assert!(o.is_empty());
}

#[test]
fn padding_mismatch_stops_after_record() {
    let (mut b, end) = payload(10, 20, 2, 2);
    b[end + 44 + 40 + 2] = 1;
    let mut o = Vec::new();
    let r = fixer().read_uexp(&b, FILE_SIZE, "SK_Body", &mut o, &vec![FILE_SIZE as i64 + 10]);
    assert_eq!(r, Err(PatchError::PaddingMismatch));
    let mut expected = b[..end + 40].to_vec();
    expected.extend_from_slice(&b[end + 44..end + 44 + 40]);
    assert_eq!(o, expected);
}

#[test]
fn records_cut_short() {
    let (b, end) = payload(10, 20, 3, 3);
    let cut = &b[..end + 44 + 44 + 20];
    let mut o = Vec::new();
    let r = fixer().read_uexp(cut, FILE_SIZE, "SK_Body", &mut o, &vec![FILE_SIZE as i64 + 10]);
    assert_eq!(r, Err(PatchError::Io));
    assert_eq!(o, without_padding(&b[..end + 88], end, 2));
}

#[test]
fn skip_heuristic() {
    assert!(is_skippable("Skeleton_Hero"));
    assert!(is_skippable("SK_Hero_Physics"));
    assert!(is_skippable("SK_Hero_Anim"));
    assert!(is_skippable("SK_Rig"));
    assert!(is_skippable("SK_BP_Hero"));
    assert!(is_skippable("MeshHero"));
    assert!(!is_skippable("SK_Something"));
    assert!(is_skippable(""));
    assert!(contains_chars(&vec!['a', 'b', 'c'], &vec!['b', 'c']));
    assert!(!contains_chars(&vec!['a', 'b'], &vec!['b', 'c']));
    assert!(contains_chars(&vec![], &vec![]));
}

fn header_with_fields(final_at: usize, bulk_at: usize, bulk: i64) -> Vec<u8> {
    let mut h: Vec<u8> = (0..64u8).collect();
    h[final_at..final_at + 8].copy_from_slice(&123i64.to_le_bytes());
    h[bulk_at..bulk_at + 8].copy_from_slice(&bulk.to_le_bytes());
    h
}

fn field(h: &[u8], at: usize) -> i64 {
    i64::from_le_bytes(h[at..at + 8].try_into().unwrap())
}

#[test]
fn patch_adds_four_bytes_per_material() {
    let mut h = header_with_fields(8, 40, 1000);
    let before = h.clone();
    assert_eq!(fixer().clean_uasset(&mut h, &[5, 700], 3, 8, 40), Ok(()));
    assert_eq!(field(&h, 8), 712);
    assert_eq!(field(&h, 40), 1012);
    for i in (0..64).filter(|i| !(8..16).contains(i) && !(40..48).contains(i)) {
        assert_eq!(h[i], before[i]);
    }
    assert_eq!(h.len(), 64);
}

#[test]
fn patch_twice_double_counts() {
    let mut h = header_with_fields(8, 40, 1000);
    fixer().clean_uasset(&mut h, &[700], 3, 8, 40).unwrap();
    fixer().clean_uasset(&mut h, &[700], 3, 8, 40).unwrap();
    assert_eq!(field(&h, 8), 712);
    assert_eq!(field(&h, 40), 1024);
}

#[test]
fn patch_negative_and_field_outside() {
    let mut h = header_with_fields(0, 56, -20);
    fixer().clean_uasset(&mut h, &[-1], 2, 0, 56).unwrap();
    assert_eq!(field(&h, 0), 7);
    assert_eq!(field(&h, 56), -12);
    let before = h.clone();
    assert_eq!(fixer().clean_uasset(&mut h, &[1], 2, 57, 0), Err(PatchError::Io));
    assert_eq!(h, before);
}

#[test]
fn round_trip_accounting() {
    let (b, _) = payload(10, 20, 4, 4);
    let mut o = Vec::new();
    let m = fixer().read_uexp(&b, FILE_SIZE, "SK_Body", &mut o, &vec![FILE_SIZE as i64 + 10]).unwrap();
    assert_eq!(o.len() as i64, b.len() as i64 - 4 * m as i64);
    let mut h = header_with_fields(16, 32, 9000);
    fixer().clean_uasset(&mut h, &[300], m, 16, 32).unwrap();
    assert_eq!(field(&h, 16), 300 + 4 * 4);
    assert_eq!(field(&h, 32), 9000 + 4 * 4);
}
