use bsv::column::{Schema, Value, ValueType};
use bsv::ext::{ByteReader, ReadExt};
use bsv::error::IoError;
use bsv::reader::BsvReader;

// this is not a real manifest file! contains dummy values
const ROOT_MANIFEST_BSV: &[u8] = &[
    0xbf, 0x11, 0x00, 0x08, 0x03, 0x18, 0x20, 0x03, 0x40,
    0x12, 0x21, 0x08, 0x57, 0x69, 0x6e, 0x64, 0x6f, 0x77,
    0x73, 0x00, 0x84, 0x30, 0xa8, 0x3c, 0x12, 0xcc, 0x84,
    0x08, 0xd7, 0x1c, 0x69, 0x4f, 0x53, 0x00, 0x84, 0x31,
    0xab, 0xed, 0x7d, 0x96, 0x12, 0xce, 0xcd, 0x51, 0x41,
    0x6e, 0x64, 0x72, 0x6f, 0x69, 0x64, 0x00, 0x84, 0x32,
    0x40, 0xe3, 0x5b, 0x38, 0x80, 0x31, 0x31, 0x6f
];

#[test]
fn read_root_manifest() {
    let mut r = ByteReader::new(ROOT_MANIFEST_BSV.to_vec());
    let mut reader = BsvReader::new(&mut r).unwrap();
    assert_eq!(reader.header().schemas, vec![
        Schema { value_type: ValueType::Text, fixed_size: None },
        Schema { value_type: ValueType::ULong, fixed_size: None },
        Schema { value_type: ValueType::UNumFixed, fixed_size: Some(8) }
    ]);

    let rows = reader.read_all().unwrap();
    assert_eq!(rows, vec![
        [Value::Text("Windows".to_string()), Value::ULong(560), Value::UNumFixed(12122584966572332828)],
        [Value::Text("iOS".to_string()), Value::ULong(561), Value::UNumFixed(12388696233480211793)],
        [Value::Text("Android".to_string()), Value::ULong(562), Value::UNumFixed(4675681136367710575)]
    ]);

    // check if reader stopped correctly
    assert!(reader.next().is_ok_and(|opt| opt.is_none()));
}

fn source(bytes: &[u8]) -> ByteReader {
    ByteReader::new(bytes.to_vec())
}

// one UShort column, two rows: 5 and 128
const TWO_SHORTS: &[u8] = &[0xbf, 0x01, 0x00, 0x05, 0x02, 0x00, 0x00, 0x01, 0x10, 0x05, 0x81, 0x00];

#[test]
fn rows_one_at_a_time() {
    let mut r = source(TWO_SHORTS);
    let mut reader = BsvReader::new(&mut r).unwrap();
    let h = reader.header();
    assert_eq!(h.size, 5);
    assert_eq!(h.row_count, 2);
    assert_eq!(h.schema_count, 1);
    assert_eq!(reader.next().unwrap().unwrap(), &vec![Value::UShort(5)]);
    assert_eq!(reader.next().unwrap().unwrap(), &vec![Value::UShort(128)]);
    assert!(reader.next().unwrap().is_none());
    assert!(reader.next().unwrap().is_none());
    assert_eq!(reader.read_all().unwrap(), Vec::<Vec<Value>>::new());
}

#[test]
fn read_all_after_next_reads_the_rest() {
    let mut r = source(TWO_SHORTS);
    let mut reader = BsvReader::new(&mut r).unwrap();
    reader.next().unwrap();
    assert_eq!(reader.read_all().unwrap(), vec![vec![Value::UShort(128)]]);
}

#[test]
fn header_reads_exactly_its_size() {
    // the header declares 6 bytes, of which the last is not needed
    let data = [0xbf, 0x01, 0x00, 0x06, 0x01, 0x00, 0x00, 0x01, 0x10, 0xee, 0x07];
    let mut r = source(&data);
    let mut reader = BsvReader::new(&mut r).unwrap();
    assert_eq!(reader.header().size, 6);
    assert_eq!(reader.read_all().unwrap(), vec![vec![Value::UShort(7)]]);
}

#[test]
fn header_fields() {
    let data = [0xbf, 0x21, 0x00, 0x07, 0x00, 0x81, 0x00, 0x03, 0x02, 0x12, 0x40];
    let mut r = source(&data);
    let reader = BsvReader::new(&mut r).unwrap();
    let h = reader.header();
    assert_eq!(h.row_count, 0);
    assert_eq!(h.max_row_size, 128);
    assert_eq!(h.schema_version, 3);
    assert_eq!(h.schema_count, 2);
    assert_eq!(h.schemas, vec![
        Schema { value_type: ValueType::ULong, fixed_size: None },
        Schema { value_type: ValueType::Text, fixed_size: None },
    ]);
}

#[test]
fn wrong_magic() {
    assert!(matches!(BsvReader::new(&mut source(&[0xbe, 0x01, 0x00, 0x00])), Err(bsv::Error::InvalidMagic)));
}

#[test]
fn apriori_schema_is_unimplemented() {
    match BsvReader::new(&mut source(&[0xbf, 0x12, 0x00, 0x00])) {
        Err(bsv::Error::Unimplemented(msg)) => assert_eq!(msg, "apriori BSV"),
        Err(e) => panic!("unexpected {:?}", e),
        Ok(_) => panic!("unexpected success"),
    }
}

#[test]
fn empty_data() {
    assert!(matches!(BsvReader::new(&mut source(&[])), Err(bsv::Error::IoError(IoError::UnexpectedEof))));
}

#[test]
fn header_shorter_than_its_size() {
    assert!(matches!(
        BsvReader::new(&mut source(&[0xbf, 0x01, 0x00, 0x09, 0x00])),
        Err(bsv::Error::IoError(IoError::UnexpectedEof))
    ));
}

#[test]
fn header_with_fewer_schemas_than_declared() {
    assert!(matches!(
        BsvReader::new(&mut source(&[0xbf, 0x01, 0x00, 0x05, 0x00, 0x00, 0x00, 0x02, 0x10])),
        Err(bsv::Error::IoError(IoError::UnexpectedEof))
    ));
}

#[test]
fn header_with_unknown_schema_type() {
    assert!(matches!(
        BsvReader::new(&mut source(&[0xbf, 0x01, 0x00, 0x05, 0x00, 0x00, 0x00, 0x01, 0x22])),
        Err(bsv::Error::InvalidSchemaType(0x22))
    ));
}

#[test]
fn failed_row_breaks_the_reader() {
    // one UShort column, two rows, the first of which runs past two bytes
    let data = [0xbf, 0x01, 0x00, 0x05, 0x02, 0x00, 0x00, 0x01, 0x10, 0x81, 0x81, 0x01, 0x05];
    let mut r = source(&data);
    let mut reader = BsvReader::new(&mut r).unwrap();
    assert!(matches!(
        reader.next(),
        Err(bsv::Error::IoError(IoError::VlqExceedsMaxSize))
    ));
    assert!(matches!(reader.next(), Err(bsv::Error::BrokenReader)));
    assert!(matches!(reader.read_all(), Err(bsv::Error::BrokenReader)));
}

#[test]
fn read_all_stops_at_the_first_error() {
    // two rows declared, one present
    let data = [0xbf, 0x01, 0x00, 0x05, 0x02, 0x00, 0x00, 0x01, 0x10, 0x05];
    let mut r = source(&data);
    let mut reader = BsvReader::new(&mut r).unwrap();
    assert!(matches!(
        reader.read_all(),
        Err(bsv::Error::IoError(IoError::UnexpectedEof))
    ));
    assert!(matches!(reader.next(), Err(bsv::Error::BrokenReader)));
}

#[test]
fn wrong_magic_leaves_the_source_two_bytes_on() {
    let mut r = source(&[0x00, 0x02, 0x77]);
    assert!(matches!(BsvReader::new(&mut r), Err(bsv::Error::InvalidMagic)));
    assert_eq!(r.read_u8().unwrap(), 0x77);
}

#[test]
fn apriori_leaves_the_source_two_bytes_on() {
    let mut r = source(&[0xbf, 0x10, 0x66]);
    assert!(matches!(BsvReader::new(&mut r), Err(bsv::Error::Unimplemented(_))));
    assert_eq!(r.read_u8().unwrap(), 0x66);
}

#[test]
fn format_byte_is_read_by_its_low_four_bits() {
    for format in [0x01u8, 0x11, 0xf1] {
        let data = [0xbf, format, 0x00, 0x05, 0x00, 0x00, 0x00, 0x01, 0x10];
        let mut r = source(&data);
        assert!(BsvReader::new(&mut r).is_ok());
    }
    for format in [0x10u8, 0x02] {
        let data = [0xbf, format, 0x00, 0x05, 0x00, 0x00, 0x00, 0x01, 0x10];
        let mut r = source(&data);
        assert!(matches!(BsvReader::new(&mut r), Err(bsv::Error::Unimplemented(_))));
    }
}

#[test]
fn source_is_left_after_the_rows() {
    let mut data = TWO_SHORTS.to_vec();
    data.push(0x42);
    let mut r = source(&data);
    {
        let mut reader = BsvReader::new(&mut r).unwrap();
        assert_eq!(reader.read_all().unwrap().len(), 2);
    }
    assert_eq!(r.read_u8().unwrap(), 0x42);
}
