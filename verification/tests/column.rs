use bsv::column::{Schema, Value, ValueType};
use bsv::error::IoError;
use bsv::ext::{ByteReader, ReadExt};
use bsv::Error;

fn reader(bytes: &[u8]) -> ByteReader {
    ByteReader::new(bytes.to_vec())
}

const ALL_TYPES: [ValueType; 10] = [
    ValueType::UShort,
    ValueType::UInt,
    ValueType::ULong,
    ValueType::Unknown19,
    ValueType::UNum,
    ValueType::UNumFixed,
    ValueType::Blob,
    ValueType::BlobFixed,
    ValueType::Text,
    ValueType::TextFixed,
];

#[test]
fn type_codes() {
    assert_eq!(ValueType::UShort.code(), 16);
    assert_eq!(ValueType::TextFixed.code(), 65);
    assert_eq!(ValueType::try_from_code(48), Some(ValueType::Blob));
    assert_eq!(ValueType::try_from_code(20), None);
    for t in ALL_TYPES {
        assert_eq!(ValueType::try_from_code(t.code()), Some(t));
    }
    for c in 0..=255u8 {
        if let Some(t) = ValueType::try_from_code(c) {
            assert_eq!(t.code(), c);
        }
    }
}

#[test]
fn fixed_types() {
    let fixed: Vec<ValueType> = ALL_TYPES.iter().copied().filter(|t| t.is_fixed()).collect();
    assert_eq!(fixed, vec![ValueType::UNumFixed, ValueType::BlobFixed, ValueType::TextFixed]);
}

#[test]
fn parse_plain_schema() {
    let mut r = reader(&[0x40, 0x99]);
    let s = Schema::parse(&mut r).unwrap();
    assert_eq!(s, Schema { value_type: ValueType::Text, fixed_size: None });
    assert_eq!(r.read_u8().unwrap(), 0x99);
}

#[test]
fn parse_fixed_schema() {
    let mut r = reader(&[0x21, 0x08]);
    let s = Schema::parse(&mut r).unwrap();
    assert_eq!(s, Schema { value_type: ValueType::UNumFixed, fixed_size: Some(8) });
}

#[test]
fn parse_unknown_type() {
    let mut r = reader(&[0x22]);
    assert!(matches!(Schema::parse(&mut r), Err(Error::InvalidSchemaType(0x22))));
}

#[test]
fn parse_empty() {
    let mut r = reader(&[]);
    assert!(matches!(Schema::parse(&mut r), Err(Error::IoError(IoError::UnexpectedEof))));
}

#[test]
fn parse_fixed_size_too_long() {
    let mut r = reader(&[0x31, 0x80, 0x80, 0x80, 0x80, 0x80, 0x80, 0x80, 0x80, 0x01]);
    assert!(matches!(
        Schema::parse(&mut r),
        Err(Error::IoError(IoError::VlqExceedsMaxSize))
    ));
}

fn schema(value_type: ValueType, fixed_size: Option<u64>) -> Schema {
    Schema { value_type, fixed_size }
}

#[test]
fn read_numbers() {
    let mut r = reader(&[0x81, 0x00, 0x82, 0x80, 0x01, 0x84, 0x30]);
    assert_eq!(schema(ValueType::UShort, None).read_value(&mut r).unwrap(), Value::UShort(128));
    assert_eq!(schema(ValueType::UInt, None).read_value(&mut r).unwrap(), Value::UInt(32769));
    assert_eq!(schema(ValueType::ULong, None).read_value(&mut r).unwrap(), Value::ULong(560));
}

#[test]
fn read_ushort_limited_to_two_bytes() {
    let mut r = reader(&[0x81, 0x81, 0x01]);
    assert!(matches!(
        schema(ValueType::UShort, None).read_value(&mut r),
        Err(Error::IoError(IoError::VlqExceedsMaxSize))
    ));
}

#[test]
fn read_unum_unsized_is_unimplemented() {
    let mut r = reader(&[0x01]);
    match schema(ValueType::UNum, None).read_value(&mut r) {
        Err(Error::Unimplemented(msg)) => assert_eq!(msg, "reading non-fixed UNum value"),
        other => panic!("unexpected {:?}", other),
    }
    // nothing was read
    assert_eq!(r.read_u8().unwrap(), 0x01);
}

#[test]
fn read_fixed_unum() {
    let mut r = reader(&[0x01, 0x00, 0x02]);
    assert_eq!(
        schema(ValueType::UNumFixed, Some(2)).read_value(&mut r).unwrap(),
        Value::UNumFixed(256)
    );
}

#[test]
fn read_fixed_types_without_size_is_invalid_schema() {
    for t in [ValueType::UNumFixed, ValueType::BlobFixed, ValueType::TextFixed] {
        let mut r = reader(&[1, 2, 3]);
        assert!(matches!(schema(t, None).read_value(&mut r), Err(Error::InvalidSchema)));
    }
}

#[test]
fn read_blobs() {
    let mut r = reader(&[0x02, 0xaa, 0xbb, 0xcc, 0xdd, 0xee]);
    assert_eq!(
        schema(ValueType::Blob, None).read_value(&mut r).unwrap(),
        Value::Blob(vec![0xaa, 0xbb])
    );
    assert_eq!(
        schema(ValueType::BlobFixed, Some(3)).read_value(&mut r).unwrap(),
        Value::BlobFixed(vec![0xcc, 0xdd, 0xee])
    );
}

#[test]
fn read_blob_longer_than_data() {
    let mut r = reader(&[0x05, 0xaa]);
    assert!(matches!(
        schema(ValueType::Blob, None).read_value(&mut r),
        Err(Error::IoError(IoError::UnexpectedEof))
    ));
}

#[test]
fn read_texts() {
    let mut r = reader(b"Windows\0abc");
    assert_eq!(
        schema(ValueType::Text, None).read_value(&mut r).unwrap(),
        Value::Text("Windows".to_string())
    );
    assert_eq!(
        schema(ValueType::TextFixed, Some(3)).read_value(&mut r).unwrap(),
        Value::TextFixed("abc".to_string())
    );
}

#[test]
fn read_fixed_text_not_utf8() {
    let mut r = reader(&[0xff, 0xfe]);
    match schema(ValueType::TextFixed, Some(2)).read_value(&mut r) {
        Err(Error::FromUtf8Error(e)) => assert_eq!(e.into_bytes(), vec![0xff, 0xfe]),
        other => panic!("unexpected {:?}", other),
    }
}

#[test]
fn read_unknown19_takes_eight_bytes() {
    let mut r = reader(&[1, 2, 3, 4, 5, 6, 7, 8, 9]);
    assert_eq!(schema(ValueType::Unknown19, None).read_value(&mut r).unwrap(), Value::Unknown19);
    assert_eq!(r.read_u8().unwrap(), 9);
}

#[test]
fn number_accessors() {
    assert_eq!(Value::UShort(7).u16(), Some(7));
    assert_eq!(Value::UShort(7).u32(), None);
    assert_eq!(Value::UShort(7).u64(), None);
    assert_eq!(Value::UShort(7).unum(), Some(7));
    assert_eq!(Value::UInt(70000).u32(), Some(70000));
    assert_eq!(Value::UInt(70000).unum(), Some(70000));
    assert_eq!(Value::ULong(1 << 40).u64(), Some(1 << 40));
    assert_eq!(Value::ULong(1 << 40).u32(), None);
    assert_eq!(Value::UNum(65535).u16(), Some(65535));
    assert_eq!(Value::UNum(65536).u16(), None);
    assert_eq!(Value::UNumFixed(65536).u32(), Some(65536));
    assert_eq!(Value::UNumFixed(1 << 32).u32(), None);
    assert_eq!(Value::UNumFixed(1 << 32).u64(), Some(1 << 32));
    assert_eq!(Value::UNum(5).unum(), Some(5));
    assert_eq!(Value::Text("x".to_string()).unum(), None);
    assert_eq!(Value::Unknown19.u16(), None);
}

#[test]
fn unum_agrees_with_narrower_accessors() {
    let values = [
        Value::UShort(3),
        Value::UInt(300000),
        Value::ULong(u64::MAX),
        Value::UNum(65535),
        Value::UNumFixed(1 << 33),
        Value::Blob(vec![1]),
    ];
    for v in values.iter() {
        if let Some(x) = v.u16() {
            assert_eq!(v.unum(), Some(x as u64));
        }
        if let Some(x) = v.u32() {
            assert_eq!(v.unum(), Some(x as u64));
        }
        if let Some(x) = v.u64() {
            assert_eq!(v.unum(), Some(x));
        }
    }
}

#[test]
fn blob_and_text_accessors() {
    assert_eq!(Value::Blob(vec![1, 2]).blob(), Some(&[1u8, 2][..]));
    assert_eq!(Value::BlobFixed(vec![3]).blob(), Some(&[3u8][..]));
    assert_eq!(Value::Text("a".to_string()).blob(), None);
    assert_eq!(Value::Text("a".to_string()).text(), Some("a"));
    assert_eq!(Value::TextFixed("bc".to_string()).text(), Some("bc"));
    assert_eq!(Value::UShort(1).text(), None);
}

#[test]
fn clone_keeps_the_value() {
    let v = Value::BlobFixed(vec![1, 2, 3]);
    assert_eq!(v.clone(), v);
    let t = Value::Text("t".to_string());
    assert_eq!(t.clone(), t);
}

#[test]
fn csv_fields() {
    assert_eq!(Value::UShort(5).csv_field(), "5");
    assert_eq!(Value::UInt(0).csv_field(), "0");
    assert_eq!(Value::UNumFixed(12122584966572332828).csv_field(), "12122584966572332828");
    assert_eq!(Value::Blob(vec![]).csv_field(), "");
    assert_eq!(Value::Blob(vec![7]).csv_field(), "7");
    assert_eq!(Value::BlobFixed(vec![1, 200, 30]).csv_field(), "1,200,30");
    assert_eq!(Value::Text("Windows".to_string()).csv_field(), "Windows");
    assert_eq!(Value::TextFixed("a,b".to_string()).csv_field(), "a,b");
    assert_eq!(Value::Unknown19.csv_field(), "[Unknown]");
}
