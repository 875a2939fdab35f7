//! Reading of BSV files: a binary table format of a header that declares a
//! schema per column, followed by rows of values encoded as the schemas say.
pub mod column;
pub mod error;
pub mod ext;
pub mod reader;

pub use error::Error;
