use bsv::error::IoError;
use bsv::ext::{ByteReader, ReadExt};
use bsv::Error;

#[test]
fn messages() {
    assert_eq!(Error::InvalidMagic.message(), "Invalid magic number");
    assert_eq!(Error::Unimplemented("apriori BSV").message(), "Unimplemented: apriori BSV");
    assert_eq!(Error::InvalidSchema.message(), "Invalid schema");
    assert_eq!(Error::InvalidSchemaType(7).message(), "Invalid schema type: 7");
    assert_eq!(Error::InvalidSchemaType(200).message(), "Invalid schema type: 200");
    assert_eq!(
        Error::BrokenReader.message(),
        "Reader encountered an error and cannot continue"
    );
    assert_eq!(
        Error::IoError(IoError::UnexpectedEof).message(),
        "failed to fill whole buffer"
    );
    assert_eq!(Error::IoError(IoError::VlqExceedsMaxSize).message(), "VLQ exceeds max size");
}

#[test]
fn utf8_error_messages() {
    let e = String::from_utf8(vec![0x61, 0xff]).unwrap_err();
    let expected = e.to_string();
    assert_eq!(Error::FromUtf8Error(e).message(), expected);

    let mut r = ByteReader::new(vec![0xff, 0x00]);
    let io = r.read_null_terminated_string().unwrap_err();
    assert_eq!(
        io.message(),
        String::from_utf8(vec![0xff]).unwrap_err().to_string()
    );
}

#[test]
fn conversions() {
    assert!(matches!(Error::from(IoError::UnexpectedEof), Error::IoError(IoError::UnexpectedEof)));
    let e = String::from_utf8(vec![0xff]).unwrap_err();
    assert!(matches!(Error::from(e), Error::FromUtf8Error(_)));
}
