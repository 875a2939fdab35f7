use vstd::prelude::*;

use std::string::FromUtf8Error;

verus! {

/// The error that `String::from_utf8` gives back for bytes that are not UTF-8.
/// Nothing of what it holds is read here; it is handed on to the caller.
#[verifier::external_type_specification]
#[verifier::external_body]
pub struct ExFromUtf8Error(FromUtf8Error);

/// The decimal digits of `n`, most significant first, without leading zeros.
pub open spec fn decimal(n: nat) -> Seq<char>
    decreases n,
{
    if n < 10 {
        seq![(48 + n) as char]
    } else {
        decimal(n / 10).push((48 + n % 10) as char)
    }
}

/// Calls `ToString::to_string` on a `u8`, whose `Display` writes the number in
/// decimal. The contract claims that the text is the digits of `decimal`.
#[verifier::external_body]
pub(crate) fn u8_to_decimal(n: u8) -> (r: String)
    ensures
        r@ == decimal(n as nat),
{
    n.to_string()
}

/// Calls `ToString::to_string` on a `u64`, whose `Display` writes the number in
/// decimal. The contract claims that the text is the digits of `decimal`.
#[verifier::external_body]
pub(crate) fn u64_to_decimal(n: u64) -> (r: String)
    ensures
        r@ == decimal(n as nat),
{
    n.to_string()
}

/// Calls `ToString::to_string` on a `FromUtf8Error`, whose `Display` describes
/// where the bytes stopped being UTF-8. Nothing is claimed of the text.
#[verifier::external_body]
fn utf8_error_message(e: &FromUtf8Error) -> String {
    e.to_string()
}

/// What can go wrong while taking bytes from a source.
#[derive(Debug)]
pub enum IoError {
    /// The source ended before the requested bytes were available.
    UnexpectedEof,
    /// A variable-length quantity went on past the number of bytes allowed to it.
    VlqExceedsMaxSize,
    /// A null-terminated string was not valid UTF-8.
    InvalidUtf8(FromUtf8Error),
}

/// The kind of an [`IoError`], as contracts speak of it.
#[derive(PartialEq, Eq, Structural, Clone, Copy, Debug)]
pub enum IoErrorKind {
    UnexpectedEof,
    VlqExceedsMaxSize,
    InvalidUtf8,
}

impl View for IoError {
    type V = IoErrorKind;

    open spec fn view(&self) -> IoErrorKind {
        match self {
            IoError::UnexpectedEof => IoErrorKind::UnexpectedEof,
            IoError::VlqExceedsMaxSize => IoErrorKind::VlqExceedsMaxSize,
            IoError::InvalidUtf8(_) => IoErrorKind::InvalidUtf8,
        }
    }
}

impl IoError {
    /// A description of the error: std's text for the same error.
    pub fn message(&self) -> (r: String)
        ensures
            self matches IoError::UnexpectedEof ==> r@ == "failed to fill whole buffer"@,
            self matches IoError::VlqExceedsMaxSize ==> r@ == "VLQ exceeds max size"@,
    {
        match self {
            IoError::UnexpectedEof => String::from_str("failed to fill whole buffer"),
            IoError::VlqExceedsMaxSize => String::from_str("VLQ exceeds max size"),
            IoError::InvalidUtf8(e) => utf8_error_message(e),
        }
    }
}

/// The errors of reading BSV data.
#[derive(Debug)]
pub enum Error {
    /// The data does not start with the BSV magic byte.
    InvalidMagic,
    /// The data asks for something that is not read here; the text says what.
    Unimplemented(&'static str),
    /// Taking bytes from the source failed.
    IoError(IoError),
    /// A schema's type needs a fixed size that the schema does not hold.
    InvalidSchema,
    /// A schema's type byte names no known type.
    InvalidSchemaType(u8),
    /// A fixed-size text was not valid UTF-8.
    FromUtf8Error(FromUtf8Error),
    /// An earlier read failed and left the reader in the middle of a row.
    BrokenReader,
}

impl Error {
    /// A description of the error, for people.
    pub fn message(&self) -> (r: String)
        ensures
            self matches Error::InvalidMagic ==> r@ == "Invalid magic number"@,
            self matches Error::Unimplemented(reason) ==> r@ == "Unimplemented: "@ + reason@,
            self matches Error::IoError(IoError::UnexpectedEof) ==> r@
                == "failed to fill whole buffer"@,
            self matches Error::IoError(IoError::VlqExceedsMaxSize) ==> r@
                == "VLQ exceeds max size"@,
            self matches Error::InvalidSchema ==> r@ == "Invalid schema"@,
            self matches Error::InvalidSchemaType(t) ==> r@ == "Invalid schema type: "@ + decimal(
                t as nat,
            ),
            self matches Error::BrokenReader ==> r@
                == "Reader encountered an error and cannot continue"@,
    {
        match self {
            Error::InvalidMagic => String::from_str("Invalid magic number"),
            Error::Unimplemented(reason) => String::from_str("Unimplemented: ").concat(reason),
            Error::IoError(e) => e.message(),
            Error::InvalidSchema => String::from_str("Invalid schema"),
            Error::InvalidSchemaType(t) => String::from_str("Invalid schema type: ").concat(
                u8_to_decimal(*t).as_str(),
            ),
            Error::FromUtf8Error(e) => utf8_error_message(e),
            Error::BrokenReader => String::from_str(
                "Reader encountered an error and cannot continue",
            ),
        }
    }
}

impl From<IoError> for Error {
    fn from(value: IoError) -> (r: Error) {
        Error::IoError(value)
    }
}

impl vstd::std_specs::convert::FromSpecImpl<IoError> for Error {
    open spec fn obeys_from_spec() -> bool {
        true
    }

    open spec fn from_spec(v: IoError) -> Error {
        Error::IoError(v)
    }
}

impl From<FromUtf8Error> for Error {
    fn from(value: FromUtf8Error) -> (r: Error) {
        Error::FromUtf8Error(value)
    }
}

impl vstd::std_specs::convert::FromSpecImpl<FromUtf8Error> for Error {
    open spec fn obeys_from_spec() -> bool {
        true
    }

    open spec fn from_spec(v: FromUtf8Error) -> Error {
        Error::FromUtf8Error(v)
    }
}

/// An [`Error`] as contracts speak of it: what it holds, but for the UTF-8
/// errors that std gives back, which are opaque here.
pub enum ErrorView {
    InvalidMagic,
    Unimplemented(Seq<char>),
    IoError(IoErrorKind),
    InvalidSchema,
    InvalidSchemaType(u8),
    FromUtf8Error,
    BrokenReader,
}

impl View for Error {
    type V = ErrorView;

    open spec fn view(&self) -> ErrorView {
        match self {
            Error::InvalidMagic => ErrorView::InvalidMagic,
            Error::Unimplemented(msg) => ErrorView::Unimplemented(msg@),
            Error::IoError(e) => ErrorView::IoError(e@),
            Error::InvalidSchema => ErrorView::InvalidSchema,
            Error::InvalidSchemaType(t) => ErrorView::InvalidSchemaType(*t),
            Error::FromUtf8Error(_) => ErrorView::FromUtf8Error,
            Error::BrokenReader => ErrorView::BrokenReader,
        }
    }
}

/// What a fallible step gives back, as contracts speak of it: the value's view,
/// or the view of the error.
pub open spec fn outcome<T: View>(r: Result<T, Error>) -> Result<T::V, ErrorView> {
    match r {
        Ok(v) => Ok(v@),
        Err(e) => Err(e@),
    }
}

/// A read of the byte source, with its failure turned into an [`ErrorView`]
/// and its value passed through `f`.
pub open spec fn lift<A, B>(
    step: (Result<A, IoErrorKind>, Seq<u8>),
    f: spec_fn(A) -> B,
) -> (Result<B, ErrorView>, Seq<u8>) {
    match step.0 {
        Ok(a) => (Ok(f(a)), step.1),
        Err(e) => (Err(ErrorView::IoError(e)), step.1),
    }
}

} // verus!
