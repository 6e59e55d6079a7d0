use vstd::prelude::*;

verus! {

/// Any zip-related error, from invalid archives to encoding problems.
#[derive(Debug, Clone, Copy, PartialEq, Eq, Structural)]
pub enum Error {
    /// Not a valid zip file, or a variant that is unsupported.
    Format(FormatError),
    /// A fixed-width field could not be extracted.
    BadHeader,
    /// The compressed body of an entry is not a valid deflate stream.
    Decompress,
}

/// Specific zip format errors, mostly due to invalid zip archives but that could also stem from
/// implementation shortcomings.
#[derive(Debug, Clone, Copy, PartialEq, Eq, Structural)]
#[allow(inconsistent_fields)]
pub enum FormatError {
    /// The end of central directory record was not found.
    DirectoryEndSignatureNotFound,
    /// The zip64 end of central directory record could not be parsed.
    Directory64EndRecordInvalid,
    /// The offset found for the central directory points outside of the archive.
    DirectoryOffsetPointsOutsideFile,
    /// The end of central directory record advertises a number of files that
    /// differs from the number of central directory headers that were read.
    InvalidCentralRecord { expected: u16, actual: u16 },
    /// An extra field was not decoded correctly.
    InvalidExtraField,
    /// The end of central directory record claims more files than the archive can hold.
    ImpossibleNumberOfFiles { claimed_records_count: u64, zip_size: u64 },
    /// The local file header (before the file data) could not be parsed correctly.
    InvalidLocalHeader,
    /// The data descriptor (after the file data) could not be parsed correctly.
    InvalidDataDescriptor,
    /// The uncompressed size did not match.
    WrongSize { expected: u64, actual: u64 },
    /// The CRC-32 checksum did not match.
    WrongChecksum { expected: u32, actual: u32 },
}

impl Error {
    /// A short description of the error.
    pub fn message(&self) -> (r: String)
        ensures
            self is Format ==> r@ == "Invalid or unsupported zip format"@,
            self is BadHeader ==> r@ == "Bad header format"@,
            self is Decompress ==> r@ == "Invalid compressed data"@,
    {
        proof {
            reveal_strlit("Invalid or unsupported zip format");
            reveal_strlit("Bad header format");
            reveal_strlit("Invalid compressed data");
        }
        match self {
            Error::Format(_) => String::from_str("Invalid or unsupported zip format"),
            Error::BadHeader => String::from_str("Bad header format"),
            Error::Decompress => String::from_str("Invalid compressed data"),
        }
    }
}

impl From<FormatError> for Error {
    fn from(e: FormatError) -> (r: Error)
        ensures
            r == Error::Format(e),
    {
        Error::Format(e)
    }
}

impl vstd::std_specs::convert::FromSpecImpl<FormatError> for Error {
    open spec fn obeys_from_spec() -> bool {
        true
    }

    open spec fn from_spec(e: FormatError) -> Error {
        Error::Format(e)
    }
}

} // verus!
