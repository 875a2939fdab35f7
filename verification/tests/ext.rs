use bsv::error::IoError;
use bsv::ext::{ByteReader, ReadExt};

fn reader(bytes: &[u8]) -> ByteReader {
    ByteReader::new(bytes.to_vec())
}

#[test]
fn vlq_reads_seven_bits_per_byte() {
    let mut r = reader(&[0x84, 0x30, 0x07]);
    assert_eq!(r.read_vlq(8).unwrap(), 560);
    assert_eq!(r.read_u8().unwrap(), 7);
}

#[test]
fn vlq_of_one_byte() {
    let mut r = reader(&[0x7f]);
    assert_eq!(r.read_vlq(1).unwrap(), 127);
}

#[test]
fn vlq_longer_than_allowed_fails_after_max_bytes() {
    let mut r = reader(&[0x81, 0x82, 0x03, 0x09]);
    assert!(matches!(r.read_vlq(2), Err(IoError::VlqExceedsMaxSize)));
    // the two bytes allowed were taken; the rest is left
    assert_eq!(r.read_u8().unwrap(), 0x03);
}

#[test]
fn vlq_without_limit_reads_to_its_end() {
    let mut r = reader(&[0x81, 0x80, 0x80, 0x00]);
    assert_eq!(r.read_vlq(0).unwrap(), 1 << 21);
}

#[test]
fn vlq_cut_short_is_unexpected_eof() {
    let mut r = reader(&[0x81, 0x82]);
    assert!(matches!(r.read_vlq(8), Err(IoError::UnexpectedEof)));
    assert!(matches!(r.read_u8(), Err(IoError::UnexpectedEof)));
}

#[test]
fn vlq_keeps_low_64_bits() {
    // ten bytes of 0x7f groups: 70 bits of ones, of which the low 64 remain
    let mut bytes = vec![0xffu8; 9];
    bytes.push(0x7f);
    let mut r = ByteReader::new(bytes);
    assert_eq!(r.read_vlq(0).unwrap(), u64::MAX);
}

#[test]
fn u16_is_big_endian() {
    let mut r = reader(&[0x12, 0x34, 0x56]);
    assert_eq!(r.read_u16_be().unwrap(), 0x1234);
    assert!(matches!(r.read_u16_be(), Err(IoError::UnexpectedEof)));
}

#[test]
fn unum_is_big_endian() {
    let mut r = reader(&[0x01, 0x02, 0x03, 0xff]);
    assert_eq!(r.read_unum(3).unwrap(), 0x010203);
    assert_eq!(r.read_unum(0).unwrap(), 0);
    assert_eq!(r.read_u8().unwrap(), 0xff);
}

#[test]
fn unum_keeps_low_64_bits() {
    let mut r = reader(&[0xaa, 0x01, 0x02, 0x03, 0x04, 0x05, 0x06, 0x07, 0x08]);
    assert_eq!(r.read_unum(9).unwrap(), 0x0102030405060708);
}

#[test]
fn unum_cut_short_takes_everything() {
    let mut r = reader(&[0x01, 0x02]);
    assert!(matches!(r.read_unum(3), Err(IoError::UnexpectedEof)));
    assert!(matches!(r.read_u8(), Err(IoError::UnexpectedEof)));
}

#[test]
fn blob_reads_the_bytes() {
    let mut r = reader(&[1, 2, 3, 4]);
    assert_eq!(r.read_blob(3).unwrap(), vec![1, 2, 3]);
    assert_eq!(r.read_blob(1).unwrap(), vec![4]);
    assert!(matches!(r.read_blob(1), Err(IoError::UnexpectedEof)));
}

#[test]
fn null_terminated_string_stops_at_zero() {
    let mut r = reader(b"iOS\0rest");
    assert_eq!(r.read_null_terminated_string().unwrap(), "iOS");
    assert_eq!(r.read_u8().unwrap(), b'r');
}

#[test]
fn null_terminated_string_decodes_utf8() {
    let mut r = reader(&[0xc3, 0xa9, 0x00]);
    assert_eq!(r.read_null_terminated_string().unwrap(), "\u{e9}");
}

#[test]
fn null_terminated_string_without_zero_is_unexpected_eof() {
    let mut r = reader(b"abc");
    assert!(matches!(r.read_null_terminated_string(), Err(IoError::UnexpectedEof)));
}

#[test]
fn null_terminated_string_not_utf8() {
    let mut r = reader(&[0x61, 0xff, 0x00, 0x05]);
    match r.read_null_terminated_string() {
        Err(IoError::InvalidUtf8(e)) => assert_eq!(e.into_bytes(), vec![0x61, 0xff]),
        other => panic!("unexpected {:?}", other),
    }
    // the zero byte was taken
    assert_eq!(r.read_u8().unwrap(), 5);
}

#[test]
fn skip_takes_nothing() {
    let mut r = reader(&[9, 8]);
    assert!(r.skip(1).is_ok());
    assert_eq!(r.read_u8().unwrap(), 9);
}

#[test]
fn read_exact_past_the_end_empties_the_reader() {
    let mut r = reader(&[1, 2, 3]);
    assert!(matches!(r.read_exact(4), Err(IoError::UnexpectedEof)));
    assert_eq!(r.read_exact(0).unwrap(), Vec::<u8>::new());
    assert!(matches!(r.read_u8(), Err(IoError::UnexpectedEof)));
}
