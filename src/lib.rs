//! Incremental decoding of ZIP archives from a stream of byte chunks.
//!
//! The archive arrives in pieces of any size; [`ZipReader`] accumulates them,
//! recognizes the records of the ZIP format as soon as their bytes are on
//! hand, and queues each file entry once its compressed body is delimited.
//! The result does not depend on how the stream was cut into chunks.
mod error;
pub mod machine;
mod reader;
pub mod record;
mod trusted;

pub use error::{Error, FormatError};
pub use reader::{DeflatedEntry, DeflatedView, ZipEntry, ZipReader};
pub use record::{
    decode_record, CentralDirectoryHeader, DataDescriptor, Decoded, EndOfCentralDirectory,
    LocalFileHeader, Record,
};
