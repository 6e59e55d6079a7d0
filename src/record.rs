//! The binary records of the ZIP format that can be met in a forward-only
//! byte stream, and a decoder that recognizes them at the front of a buffer.
use vstd::prelude::*;
use vstd::slice::{slice_subrange, slice_to_vec};

verus! {

/// Third byte of the signature of a local file header, `PK\x03\x04`.
pub const TAG_LOCAL_FILE: u8 = 0x03;

/// Third byte of the signature of a data descriptor, `PK\x07\x08`.
pub const TAG_DATA_DESCRIPTOR: u8 = 0x07;

/// Third byte of the signature of a central directory header, `PK\x01\x02`.
pub const TAG_CENTRAL_DIRECTORY: u8 = 0x01;

/// Third byte of the signature of the end of central directory record, `PK\x05\x06`.
pub const TAG_END_OF_CENTRAL_DIRECTORY: u8 = 0x05;

/// The little-endian 16-bit integer stored at `i`.
pub open spec fn le16(b: Seq<u8>, i: int) -> u16 {
    (b[i] as int + 256 * b[i + 1] as int) as u16
}

/// The little-endian 32-bit integer stored at `i`.
pub open spec fn le32(b: Seq<u8>, i: int) -> u32 {
    (b[i] as int + 256 * b[i + 1] as int + 65536 * b[i + 2] as int + 16777216 * b[i
        + 3] as int) as u32
}

/// Whether `b` starts with the four-byte signature `P K tag tag+1`.
pub open spec fn has_signature(b: Seq<u8>, tag: u8) -> bool {
    &&& b.len() >= 4
    &&& b[0] == 0x50u8
    &&& b[1] == 0x4bu8
    &&& b[2] == tag
    &&& b[3] as int == tag as int + 1
}

fn read_u16_le(b: &[u8], i: usize) -> (r: u16)
    requires
        i + 2 <= b@.len(),
    ensures
        r == le16(b@, i as int),
{
    let lo = b[i] as u32;
    let hi = b[i + 1] as u32;
    (lo + 256 * hi) as u16
}

fn read_u32_le(b: &[u8], i: usize) -> (r: u32)
    requires
        i + 4 <= b@.len(),
    ensures
        r == le32(b@, i as int),
{
    let b0 = b[i] as u64;
    let b1 = b[i + 1] as u64;
    let b2 = b[i + 2] as u64;
    let b3 = b[i + 3] as u64;
    (b0 + 256 * b1 + 65536 * b2 + 16777216 * b3) as u32
}

fn signature_at(b: &[u8], at: usize, tag: u8) -> (r: bool)
    requires
        at + 4 <= b@.len(),
        tag < 255,
    ensures
        r == has_signature(from_offset(b@, at), tag),
{
    b[at] == 0x50u8 && b[at + 1] == 0x4bu8 && b[at + 2] == tag && b[at + 3] == tag + 1
}


/// A local file header: the record in front of each entry's compressed body.
#[derive(Debug, Clone)]
pub struct LocalFileHeader {
    pub version: u16,
    pub flags: u16,
    pub compression: u16,
    pub last_mod_time: u16,
    pub last_mod_date: u16,
    pub crc32: u32,
    pub compressed_size: u32,
    pub uncompressed_size: u32,
    pub file_name_length: u16,
    pub extra_field_length: u16,
    /// The raw bytes of the file name, as stored in the archive.
    pub filename: Vec<u8>,
    pub extra_field: Vec<u8>,
}

/// The mathematical value of a [`LocalFileHeader`].
pub struct LocalHeaderView {
    pub version: u16,
    pub flags: u16,
    pub compression: u16,
    pub last_mod_time: u16,
    pub last_mod_date: u16,
    pub crc32: u32,
    pub compressed_size: u32,
    pub uncompressed_size: u32,
    pub file_name_length: u16,
    pub extra_field_length: u16,
    pub filename: Seq<u8>,
    pub extra_field: Seq<u8>,
}

impl View for LocalFileHeader {
    type V = LocalHeaderView;

    open spec fn view(&self) -> LocalHeaderView {
        LocalHeaderView {
            version: self.version,
            flags: self.flags,
            compression: self.compression,
            last_mod_time: self.last_mod_time,
            last_mod_date: self.last_mod_date,
            crc32: self.crc32,
            compressed_size: self.compressed_size,
            uncompressed_size: self.uncompressed_size,
            file_name_length: self.file_name_length,
            extra_field_length: self.extra_field_length,
            filename: self.filename@,
            extra_field: self.extra_field@,
        }
    }
}

impl LocalFileHeader {
    /// Length of the fixed part of the record, after its signature.
    pub fn size() -> (r: usize)
        ensures
            r == 26,
    {
        26
    }
}

/// A data descriptor: sizes and checksum written after an entry's body.
#[derive(Debug, Clone, Copy, PartialEq, Eq, Structural)]
pub struct DataDescriptor {
    pub crc32: u32,
    pub compressed_size: u32,
    pub uncompressed_size: u32,
}

impl DataDescriptor {
    /// Length of the record, after its signature.
    pub fn size() -> (r: usize)
        ensures
            r == 12,
    {
        12
    }
}

/// The fixed part of a central directory header.
#[derive(Debug, Clone, Copy, PartialEq, Eq, Structural)]
pub struct CentralDirectoryHeader {
    pub version_made_by: u16,
    pub version_needed_to_extract: u16,
    pub flags: u16,
    pub compression: u16,
    pub last_mod_time: u16,
    pub last_mod_date: u16,
    pub crc32: u32,
    pub compressed_size: u32,
    pub uncompressed_size: u32,
    pub file_name_length: u16,
    pub extra_field_length: u16,
    pub file_comment_length: u16,
    pub disk_number_start: u16,
    pub internal_file_attributes: u16,
    pub external_file_attributes: u32,
    pub relative_offset_of_local_header: u32,
}

impl CentralDirectoryHeader {
    /// Length of the fixed part of the record, after its signature.
    pub fn size() -> (r: usize)
        ensures
            r == 42,
    {
        42
    }
}

/// The fixed part of the end of central directory record.
#[derive(Debug, Clone, Copy, PartialEq, Eq, Structural)]
pub struct EndOfCentralDirectory {
    pub disk_number: u16,
    pub disk_with_central_directory: u16,
    pub number_of_entries_on_disk: u16,
    pub number_of_entries: u16,
    pub size_of_central_directory: u32,
    pub offset_of_start_of_central_directory: u32,
    pub zip_file_comment_length: u16,
}

impl EndOfCentralDirectory {
    /// Length of the fixed part of the record, after its signature.
    pub fn size() -> (r: usize)
        ensures
            r == 18,
    {
        18
    }
}


/// One decoded record.
#[derive(Debug, Clone)]
pub enum Record {
    LocalFile(LocalFileHeader),
    DataDescriptor(DataDescriptor),
    CentralDirectory(CentralDirectoryHeader),
    EndOfCentralDirectory(EndOfCentralDirectory),
}

/// The mathematical value of a [`Record`].
pub enum RecordView {
    LocalFile(LocalHeaderView),
    DataDescriptor(DataDescriptor),
    CentralDirectory(CentralDirectoryHeader),
    EndOfCentralDirectory(EndOfCentralDirectory),
}

impl View for Record {
    type V = RecordView;

    open spec fn view(&self) -> RecordView {
        match self {
            Record::LocalFile(h) => RecordView::LocalFile(h@),
            Record::DataDescriptor(d) => RecordView::DataDescriptor(*d),
            Record::CentralDirectory(c) => RecordView::CentralDirectory(*c),
            Record::EndOfCentralDirectory(e) => RecordView::EndOfCentralDirectory(*e),
        }
    }
}

/// What the decoder finds at the front of a buffer.
#[derive(Debug)]
pub enum Decoded {
    /// A whole record, which takes the first `consumed` bytes.
    Found { record: Record, consumed: usize },
    /// The bytes on hand start a record, or may, but do not hold all of it yet.
    NeedMoreBytes,
    /// No known signature starts here.
    NoSignatureHere,
}

/// The mathematical value of a [`Decoded`].
pub enum DecodedView {
    Found { record: RecordView, consumed: nat },
    NeedMoreBytes,
    NoSignatureHere,
}

impl View for Decoded {
    type V = DecodedView;

    open spec fn view(&self) -> DecodedView {
        match self {
            Decoded::Found { record, consumed } => DecodedView::Found {
                record: record@,
                consumed: *consumed as nat,
            },
            Decoded::NeedMoreBytes => DecodedView::NeedMoreBytes,
            Decoded::NoSignatureHere => DecodedView::NoSignatureHere,
        }
    }
}

/// Length of a local file header whose fixed part starts `b`, names included.
pub open spec fn local_header_len(b: Seq<u8>) -> nat {
    (30 + le16(b, 26) + le16(b, 28)) as nat
}

/// The local file header that starts `b`.
pub open spec fn local_header_of(b: Seq<u8>) -> LocalHeaderView {
    let n = le16(b, 26) as int;
    let m = le16(b, 28) as int;
    LocalHeaderView {
        version: le16(b, 4),
        flags: le16(b, 6),
        compression: le16(b, 8),
        last_mod_time: le16(b, 10),
        last_mod_date: le16(b, 12),
        crc32: le32(b, 14),
        compressed_size: le32(b, 18),
        uncompressed_size: le32(b, 22),
        file_name_length: le16(b, 26),
        extra_field_length: le16(b, 28),
        filename: b.subrange(30, 30 + n),
        extra_field: b.subrange(30 + n, 30 + n + m),
    }
}

/// The data descriptor that starts `b`.
pub open spec fn data_descriptor_of(b: Seq<u8>) -> DataDescriptor {
    DataDescriptor { crc32: le32(b, 4), compressed_size: le32(b, 8), uncompressed_size: le32(b, 12) }
}

/// The central directory header that starts `b`.
pub open spec fn central_directory_of(b: Seq<u8>) -> CentralDirectoryHeader {
    CentralDirectoryHeader {
        version_made_by: le16(b, 4),
        version_needed_to_extract: le16(b, 6),
        flags: le16(b, 8),
        compression: le16(b, 10),
        last_mod_time: le16(b, 12),
        last_mod_date: le16(b, 14),
        crc32: le32(b, 16),
        compressed_size: le32(b, 20),
        uncompressed_size: le32(b, 24),
        file_name_length: le16(b, 28),
        extra_field_length: le16(b, 30),
        file_comment_length: le16(b, 32),
        disk_number_start: le16(b, 34),
        internal_file_attributes: le16(b, 36),
        external_file_attributes: le32(b, 38),
        relative_offset_of_local_header: le32(b, 42),
    }
}

/// The end of central directory record that starts `b`.
pub open spec fn end_of_central_directory_of(b: Seq<u8>) -> EndOfCentralDirectory {
    EndOfCentralDirectory {
        disk_number: le16(b, 4),
        disk_with_central_directory: le16(b, 6),
        number_of_entries_on_disk: le16(b, 8),
        number_of_entries: le16(b, 10),
        size_of_central_directory: le32(b, 12),
        offset_of_start_of_central_directory: le32(b, 16),
        zip_file_comment_length: le16(b, 20),
    }
}

/// What starts `b`: a record of one of the four known shapes, once all of its
/// bytes are there; otherwise whether more bytes could still make one.
pub open spec fn decode_spec(b: Seq<u8>) -> DecodedView {
    if b.len() < 4 {
        DecodedView::NeedMoreBytes
    } else if has_signature(b, TAG_LOCAL_FILE) {
        if b.len() < 30 || b.len() < local_header_len(b) {
            DecodedView::NeedMoreBytes
        } else {
            DecodedView::Found {
                record: RecordView::LocalFile(local_header_of(b)),
                consumed: local_header_len(b),
            }
        }
    } else if has_signature(b, TAG_DATA_DESCRIPTOR) {
        if b.len() < 16 {
            DecodedView::NeedMoreBytes
        } else {
            DecodedView::Found {
                record: RecordView::DataDescriptor(data_descriptor_of(b)),
                consumed: 16,
            }
        }
    } else if has_signature(b, TAG_END_OF_CENTRAL_DIRECTORY) {
        if b.len() < 22 {
            DecodedView::NeedMoreBytes
        } else {
            DecodedView::Found {
                record: RecordView::EndOfCentralDirectory(end_of_central_directory_of(b)),
                consumed: 22,
            }
        }
    } else if has_signature(b, TAG_CENTRAL_DIRECTORY) {
        if b.len() < 46 {
            DecodedView::NeedMoreBytes
        } else {
            DecodedView::Found {
                record: RecordView::CentralDirectory(central_directory_of(b)),
                consumed: 46,
            }
        }
    } else {
        DecodedView::NoSignatureHere
    }
}

/// The bytes of `b` from `at` on.
pub open spec fn from_offset(b: Seq<u8>, at: usize) -> Seq<u8> {
    b.subrange(at as int, b.len() as int)
}

fn decode_local_file(b: &[u8], at: usize) -> (r: Decoded)
    requires
        at + 4 <= b@.len(),
        has_signature(from_offset(b@, at), TAG_LOCAL_FILE),
    ensures
        r@ == decode_spec(from_offset(b@, at)),
{
    let ghost s = from_offset(b@, at);
    let avail = b.len() - at;
    if avail < 30 {
        return Decoded::NeedMoreBytes;
    }
    let file_name_length = read_u16_le(b, at + 26);
    let extra_field_length = read_u16_le(b, at + 28);
    assert(le16(s, 26) == file_name_length && le16(s, 28) == extra_field_length);
    let total = 30 + file_name_length as usize + extra_field_length as usize;
    if avail < total {
        return Decoded::NeedMoreBytes;
    }
    let name_end = at + 30 + file_name_length as usize;
    let filename = slice_to_vec(slice_subrange(b, at + 30, name_end));
    let extra_field = slice_to_vec(slice_subrange(b, name_end, at + total));
    let header = LocalFileHeader {
        version: read_u16_le(b, at + 4),
        flags: read_u16_le(b, at + 6),
        compression: read_u16_le(b, at + 8),
        last_mod_time: read_u16_le(b, at + 10),
        last_mod_date: read_u16_le(b, at + 12),
        crc32: read_u32_le(b, at + 14),
        compressed_size: read_u32_le(b, at + 18),
        uncompressed_size: read_u32_le(b, at + 22),
        file_name_length,
        extra_field_length,
        filename,
        extra_field,
    };
    assert(header@.filename =~= local_header_of(s).filename);
    assert(header@.extra_field =~= local_header_of(s).extra_field);
    Decoded::Found { record: Record::LocalFile(header), consumed: total }
}

fn decode_data_descriptor(b: &[u8], at: usize) -> (r: Decoded)
    requires
        at + 4 <= b@.len(),
        has_signature(from_offset(b@, at), TAG_DATA_DESCRIPTOR),
    ensures
        r@ == decode_spec(from_offset(b@, at)),
{
    if b.len() - at < 16 {
        return Decoded::NeedMoreBytes;
    }
    let d = DataDescriptor {
        crc32: read_u32_le(b, at + 4),
        compressed_size: read_u32_le(b, at + 8),
        uncompressed_size: read_u32_le(b, at + 12),
    };
    Decoded::Found { record: Record::DataDescriptor(d), consumed: 16 }
}

fn decode_end_of_central_directory(b: &[u8], at: usize) -> (r: Decoded)
    requires
        at + 4 <= b@.len(),
        has_signature(from_offset(b@, at), TAG_END_OF_CENTRAL_DIRECTORY),
    ensures
        r@ == decode_spec(from_offset(b@, at)),
{
    if b.len() - at < 22 {
        return Decoded::NeedMoreBytes;
    }
    let e = EndOfCentralDirectory {
        disk_number: read_u16_le(b, at + 4),
        disk_with_central_directory: read_u16_le(b, at + 6),
        number_of_entries_on_disk: read_u16_le(b, at + 8),
        number_of_entries: read_u16_le(b, at + 10),
        size_of_central_directory: read_u32_le(b, at + 12),
        offset_of_start_of_central_directory: read_u32_le(b, at + 16),
        zip_file_comment_length: read_u16_le(b, at + 20),
    };
    Decoded::Found { record: Record::EndOfCentralDirectory(e), consumed: 22 }
}

fn decode_central_directory(b: &[u8], at: usize) -> (r: Decoded)
    requires
        at + 4 <= b@.len(),
        has_signature(from_offset(b@, at), TAG_CENTRAL_DIRECTORY),
    ensures
        r@ == decode_spec(from_offset(b@, at)),
{
    if b.len() - at < 46 {
        return Decoded::NeedMoreBytes;
    }
    let c = CentralDirectoryHeader {
        version_made_by: read_u16_le(b, at + 4),
        version_needed_to_extract: read_u16_le(b, at + 6),
        flags: read_u16_le(b, at + 8),
        compression: read_u16_le(b, at + 10),
        last_mod_time: read_u16_le(b, at + 12),
        last_mod_date: read_u16_le(b, at + 14),
        crc32: read_u32_le(b, at + 16),
        compressed_size: read_u32_le(b, at + 20),
        uncompressed_size: read_u32_le(b, at + 24),
        file_name_length: read_u16_le(b, at + 28),
        extra_field_length: read_u16_le(b, at + 30),
        file_comment_length: read_u16_le(b, at + 32),
        disk_number_start: read_u16_le(b, at + 34),
        internal_file_attributes: read_u16_le(b, at + 36),
        external_file_attributes: read_u32_le(b, at + 38),
        relative_offset_of_local_header: read_u32_le(b, at + 42),
    };
    Decoded::Found { record: Record::CentralDirectory(c), consumed: 46 }
}

/// Decodes the record that starts at offset `at` of `b`, consuming nothing:
/// the caller drops `consumed` bytes on `Found`, skips one byte on
/// `NoSignatureHere`, and waits for more input on `NeedMoreBytes`.
pub fn decode_record(b: &[u8], at: usize) -> (r: Decoded)
    requires
        at <= b@.len(),
    ensures
        r@ == decode_spec(b@.subrange(at as int, b@.len() as int)),
{
    if b.len() - at < 4 {
        Decoded::NeedMoreBytes
    } else if signature_at(b, at, TAG_LOCAL_FILE) {
        decode_local_file(b, at)
    } else if signature_at(b, at, TAG_DATA_DESCRIPTOR) {
        decode_data_descriptor(b, at)
    } else if signature_at(b, at, TAG_END_OF_CENTRAL_DIRECTORY) {
        decode_end_of_central_directory(b, at)
    } else if signature_at(b, at, TAG_CENTRAL_DIRECTORY) {
        decode_central_directory(b, at)
    } else {
        Decoded::NoSignatureHere
    }
}

} // verus!
