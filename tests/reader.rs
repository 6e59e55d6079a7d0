use bytes::Bytes;
use stream_unzip::{Error, FormatError, ZipEntry, ZipReader};

fn push16(v: &mut Vec<u8>, x: u16) {
    v.extend_from_slice(&x.to_le_bytes());
}

fn push32(v: &mut Vec<u8>, x: u32) {
    v.extend_from_slice(&x.to_le_bytes());
}

fn local_header(name: &[u8], compression: u16, crc: u32, csize: u32, usize_: u32) -> Vec<u8> {
    let mut v = vec![b'P', b'K', 3, 4];
    push16(&mut v, 20);
    push16(&mut v, 0);
    push16(&mut v, compression);
    push16(&mut v, 0x6000);
    push16(&mut v, 0x5821);
    push32(&mut v, crc);
    push32(&mut v, csize);
    push32(&mut v, usize_);
    push16(&mut v, name.len() as u16);
    push16(&mut v, 0);
    v.extend_from_slice(name);
    v
}

fn central_header(name: &[u8], compression: u16, csize: u32, usize_: u32, offset: u32) -> Vec<u8> {
    let mut v = vec![b'P', b'K', 1, 2];
    push16(&mut v, 20);
    push16(&mut v, 20);
    push16(&mut v, 0);
    push16(&mut v, compression);
    push16(&mut v, 0x6000);
    push16(&mut v, 0x5821);
    push32(&mut v, 0);
    push32(&mut v, csize);
    push32(&mut v, usize_);
    push16(&mut v, name.len() as u16);
    push16(&mut v, 0);
    push16(&mut v, 0);
    push16(&mut v, 0);
    push16(&mut v, 0);
    push32(&mut v, 0);
    push32(&mut v, offset);
    v.extend_from_slice(name);
    v
}

fn end_record(count: u16, cd_size: u32, cd_offset: u32) -> Vec<u8> {
    let mut v = vec![b'P', b'K', 5, 6];
    push16(&mut v, 0);
    push16(&mut v, 0);
    push16(&mut v, count);
    push16(&mut v, count);
    push32(&mut v, cd_size);
    push32(&mut v, cd_offset);
    push16(&mut v, 0);
    v
}

/// An archive of entries given as (name, compression, body, uncompressed size).
fn archive(entries: &[(&str, u16, Vec<u8>, u32)]) -> Vec<u8> {
    let mut out = Vec::new();
    let mut offsets = Vec::new();
    for (name, compression, body, usize_) in entries {
        offsets.push(out.len() as u32);
        out.extend(local_header(name.as_bytes(), *compression, 0, body.len() as u32, *usize_));
        out.extend_from_slice(body);
    }
    let cd_start = out.len() as u32;
    for (i, (name, compression, body, usize_)) in entries.iter().enumerate() {
        out.extend(central_header(name.as_bytes(), *compression, body.len() as u32, *usize_, offsets[i]));
    }
    let cd_size = out.len() as u32 - cd_start;
    out.extend(end_record(entries.len() as u16, cd_size, cd_start));
    out
}

fn stored(entries: &[(&str, &[u8])]) -> Vec<u8> {
    let list: Vec<(&str, u16, Vec<u8>, u32)> =
        entries.iter().map(|(n, b)| (*n, 0u16, b.to_vec(), b.len() as u32)).collect();
    archive(&list)
}

fn feed(data: &[u8], chunk: usize) -> Vec<ZipEntry> {
    let mut reader = ZipReader::new();
    for piece in data.chunks(chunk) {
        reader.update(Bytes::from(piece.to_vec()));
    }
    reader.finish();
    reader.drain_entries()
}

fn summary(entries: &[ZipEntry]) -> Vec<(String, Vec<u8>, u32, u32)> {
    entries
        .iter()
        .map(|e| {
            (
                e.name().unwrap(),
                e.compressed_data().to_vec(),
                e.header().compressed_size,
                e.header().uncompressed_size,
            )
        })
        .collect()
}

fn big_body(len: usize, seed: u8) -> Vec<u8> {
    (0..len).map(|i| (i as u8).wrapping_mul(31).wrapping_add(seed)).collect()
}

/// "Hello, world" as a raw deflate stream with fixed Huffman codes.
const HELLO_WORLD_DEFLATED: [u8; 14] = [243, 72, 205, 201, 201, 215, 81, 40, 207, 47, 202, 73, 1, 0];

#[test]
fn single_stored_entry_in_one_chunk() {
    let data = stored(&[("hello.txt", b"HELLO")]);
    let mut reader = ZipReader::new();
    reader.update(Bytes::from(data));
    let entries = reader.drain_entries();
    assert_eq!(entries.len(), 1);
    assert_eq!(entries[0].name().unwrap(), "hello.txt");
    assert_eq!(entries[0].header().compressed_size, 5);
    assert_eq!(&entries[0].compressed_data()[..], b"HELLO");
    reader.finish();
    assert!(reader.drain_entries().is_empty());
}

#[test]
fn two_entries_one_byte_at_a_time() {
    let data = stored(&[("a.txt", b"first body"), ("dir/b.bin", b"second")]);
    let entries = feed(&data, 1);
    let s = summary(&entries);
    assert_eq!(s.len(), 2);
    assert_eq!(s[0].0, "a.txt");
    assert_eq!(s[0].1, b"first body".to_vec());
    assert_eq!(s[1].0, "dir/b.bin");
    assert_eq!(s[1].1, b"second".to_vec());
}

#[test]
fn chunk_size_does_not_matter() {
    let data = stored(&[
        ("one", &big_body(700, 1)),
        ("two", &big_body(1500, 7)),
        ("three", &big_body(3, 9)),
        ("four", b""),
    ]);
    let whole = summary(&feed(&data, data.len()));
    assert_eq!(whole.len(), 4);
    assert_eq!(whole[1].1, big_body(1500, 7));
    for chunk in [1usize, 10, 300, 1024] {
        assert_eq!(summary(&feed(&data, chunk)), whole);
    }
}

#[test]
fn uneven_chunks_match_one_chunk() {
    let data = stored(&[("x", &big_body(100, 3)), ("y", &big_body(50, 4))]);
    let whole = summary(&feed(&data, data.len()));
    let mut reader = ZipReader::new();
    let cuts = [0usize, 3, 29, 31, 140, 141, 200, data.len()];
    for w in cuts.windows(2) {
        reader.update(Bytes::from(data[w[0]..w[1]].to_vec()));
    }
    reader.finish();
    assert_eq!(summary(&reader.drain_entries()), whole);
}

#[test]
fn inflate_matches_known_output() {
    let data = archive(&[
        ("greeting.txt", 8, HELLO_WORLD_DEFLATED.to_vec(), 12),
        ("stored_block.txt", 8, vec![0x01, 0x05, 0x00, 0xfa, 0xff, b'H', b'E', b'L', b'L', b'O'], 5),
    ]);
    for chunk in [1usize, 10, data.len()] {
        let entries = feed(&data, chunk);
        assert_eq!(entries.len(), 2);
        let mut it = entries.into_iter();
        let first = it.next().unwrap().inflate().unwrap();
        assert_eq!(first.name(), "greeting.txt");
        assert_eq!(&first.data()[..], b"Hello, world");
        assert_eq!(first.uncompressed_size(), 12);
        assert_eq!(first.compressed_size(), 14);
        let second = it.next().unwrap().inflate().unwrap();
        assert_eq!(second.uncompressed_size() as usize, second.data().len());
        let (header, bytes) = second.into_parts();
        assert_eq!(header.filename, b"stored_block.txt".to_vec());
        assert_eq!(&bytes[..], b"HELLO");
    }
}

#[test]
fn drain_order_follows_local_headers() {
    let names = ["z", "a", "m", "b"];
    let list: Vec<(&str, &[u8])> = names.iter().map(|n| (*n, n.as_bytes())).collect();
    let entries = feed(&stored(&list), 7);
    let got: Vec<String> = entries.iter().map(|e| e.name().unwrap()).collect();
    assert_eq!(got, names.to_vec());
}

#[test]
fn drain_twice_and_peek() {
    let data = stored(&[("a", b"1"), ("b", b"22")]);
    let mut reader = ZipReader::new();
    reader.update(Bytes::from(data));
    reader.finish();
    assert_eq!(reader.entries().len(), 2);
    assert_eq!(reader.entries().len(), 2);
    let first = reader.drain_entries();
    assert_eq!(first.len(), 2);
    assert!(reader.drain_entries().is_empty());
    assert!(reader.entries().is_empty());
}

#[test]
fn take_entry_pops_front() {
    let data = stored(&[("a", b"1"), ("b", b"22")]);
    let mut reader = ZipReader::default();
    reader.update(Bytes::from(data));
    assert_eq!(reader.take_entry().unwrap().name().unwrap(), "a");
    assert_eq!(reader.take_entry().unwrap().name().unwrap(), "b");
    assert!(reader.take_entry().is_none());
}

#[test]
fn flush_drops_queue() {
    let data = stored(&[("a", b"1"), ("b", b"22")]);
    let mut reader = ZipReader::new();
    reader.update(Bytes::from(data));
    reader.flush();
    assert!(reader.entries().is_empty());
    assert!(reader.drain_entries().is_empty());
}

#[test]
fn truncated_stream_keeps_partial_body() {
    let body = big_body(400, 5);
    let data = stored(&[("first", b"complete"), ("second", &body)]);
    let header_len = 30 + "first".len() + 8 + 30 + "second".len();
    for keep in [header_len, header_len + 1, header_len + 123, header_len + 399] {
        for chunk in [1usize, 64, keep] {
            let entries = feed(&data[..keep], chunk);
            let s = summary(&entries);
            assert_eq!(s.len(), 2);
            assert_eq!(s[0].1, b"complete".to_vec());
            assert_eq!(s[1].0, "second");
            assert_eq!(s[1].2, 400);
            assert_eq!(s[1].1, body[..keep - header_len].to_vec());
        }
    }
}

#[test]
fn truncated_inside_header_drops_nothing_queued() {
    let data = stored(&[("first", b"complete"), ("second", b"body")]);
    let cut = 30 + 5 + 8 + 10;
    let entries = feed(&data[..cut], 4);
    assert_eq!(summary(&entries).len(), 1);
    assert_eq!(entries[0].name().unwrap(), "first");
}

#[test]
fn empty_stream_yields_nothing() {
    let mut reader = ZipReader::new();
    reader.update(Bytes::new());
    reader.finish();
    assert!(reader.drain_entries().is_empty());
}

#[test]
fn stray_bytes_before_archive_are_skipped() {
    let mut data = b"garbage PK no record".to_vec();
    data.extend(stored(&[("a", b"xyz")]));
    let s = summary(&feed(&data, 3));
    assert_eq!(s.len(), 1);
    assert_eq!(s[0].0, "a");
    assert_eq!(s[0].1, b"xyz".to_vec());
}

#[test]
fn data_descriptor_patches_open_entry() {
    let mut data = local_header(b"late.bin", 0, 0, 4, 0);
    data.extend_from_slice(b"abcd");
    data.extend_from_slice(&[b'P', b'K', 7, 8]);
    data.extend_from_slice(&0xdeadbeefu32.to_le_bytes());
    data.extend_from_slice(&4u32.to_le_bytes());
    data.extend_from_slice(&9u32.to_le_bytes());
    data.extend(end_record(1, 0, 0));
    for chunk in [1usize, 5, data.len()] {
        let entries = feed(&data, chunk);
        assert_eq!(entries.len(), 1);
        let h = entries[0].header();
        assert_eq!(h.crc32, 0xdeadbeef);
        assert_eq!(h.compressed_size, 4);
        assert_eq!(h.uncompressed_size, 9);
        assert_eq!(&entries[0].compressed_data()[..], b"abcd");
    }
}

#[test]
fn open_entry_state_transitions() {
    let data = stored(&[("a", b"12345")]);
    let mut reader = ZipReader::new();
    assert!(!reader.has_open_entry());
    reader.update(Bytes::from(data[..33].to_vec()));
    assert!(reader.has_open_entry());
    assert!(reader.entries().is_empty());
    reader.update(Bytes::from(data[33..].to_vec()));
    assert!(!reader.has_open_entry());
    assert_eq!(reader.entries().len(), 1);
}

#[test]
fn finish_queues_open_entry() {
    let data = stored(&[("a", b"12345")]);
    let mut reader = ZipReader::new();
    reader.update(Bytes::from(data[..36].to_vec()));
    assert!(reader.has_open_entry());
    reader.finish();
    assert!(!reader.has_open_entry());
    let entries = reader.drain_entries();
    assert_eq!(entries.len(), 1);
    assert_eq!(&entries[0].compressed_data()[..], b"12345");
}

#[test]
fn invalid_utf8_name_fails_at_inflate() {
    let data = archive(&[(
        "placeholder",
        8,
        HELLO_WORLD_DEFLATED.to_vec(),
        12,
    )]);
    let mut bad = data.clone();
    bad[30] = 0xff;
    let entries = feed(&bad, 16);
    assert_eq!(entries.len(), 1);
    assert_eq!(entries[0].name(), Err(Error::Format(FormatError::InvalidLocalHeader)));
    assert_eq!(
        entries.into_iter().next().unwrap().inflate().err(),
        Some(Error::Format(FormatError::InvalidLocalHeader))
    );
}

#[test]
fn invalid_deflate_body_fails_at_inflate() {
    let data = archive(&[("bad.bin", 8, vec![0xff, 0xff, 0xff, 0xff], 4), ("ok", 8, HELLO_WORLD_DEFLATED.to_vec(), 12)]);
    let entries = feed(&data, 5);
    assert_eq!(entries.len(), 2);
    let mut it = entries.into_iter();
    assert_eq!(it.next().unwrap().inflate().err(), Some(Error::Decompress));
    assert_eq!(&it.next().unwrap().inflate().unwrap().data()[..], b"Hello, world");
}

#[test]
fn error_conversion_and_messages() {
    let e: Error = FormatError::InvalidDataDescriptor.into();
    assert_eq!(e, Error::Format(FormatError::InvalidDataDescriptor));
    assert_eq!(Error::BadHeader.message(), "Bad header format");
    assert_eq!(Error::Decompress.message(), "Invalid compressed data");
    assert_eq!(e.message(), "Invalid or unsupported zip format");
}

fn descriptor_archive(flags: u16) -> Vec<u8> {
    let mut data = local_header(b"late.bin", 0, 0, 4, 0);
    data[6..8].copy_from_slice(&flags.to_le_bytes());
    data.extend_from_slice(b"abcd");
    data.extend_from_slice(&[b'P', b'K', 7, 8]);
    data.extend_from_slice(&0x01020304u32.to_le_bytes());
    data.extend_from_slice(&4u32.to_le_bytes());
    data.extend_from_slice(&9u32.to_le_bytes());
    data.extend(end_record(1, 0, 0));
    data
}

fn first_header_with_check(data: &[u8], check: bool) -> (u32, u32) {
    let mut reader = ZipReader::with_descriptor_flag_check(check);
    for piece in data.chunks(3) {
        reader.update(Bytes::from(piece.to_vec()));
    }
    reader.finish();
    let entries = reader.drain_entries();
    assert_eq!(entries.len(), 1);
    assert_eq!(&entries[0].compressed_data()[..], b"abcd");
    (entries[0].header().crc32, entries[0].header().uncompressed_size)
}

#[test]
fn descriptor_check_honours_flag_bit() {
    assert_eq!(first_header_with_check(&descriptor_archive(0), true), (0, 0));
    assert_eq!(first_header_with_check(&descriptor_archive(0), false), (0x01020304, 9));
    assert_eq!(first_header_with_check(&descriptor_archive(8), true), (0x01020304, 9));
    assert_eq!(first_header_with_check(&descriptor_archive(8 | 1), true), (0x01020304, 9));
    assert_eq!(first_header_with_check(&descriptor_archive(0xfff7), true), (0, 0));
}

#[test]
fn incomplete_header_stays_buffered() {
    let data = stored(&[("name.txt", b"body")]);
    let mut reader = ZipReader::new();
    reader.update(Bytes::from(data[..3].to_vec()));
    assert_eq!(reader.buffered_len(), 3);
    reader.update(Bytes::from(data[3..20].to_vec()));
    assert_eq!(reader.buffered_len(), 20);
    assert!(!reader.has_open_entry());
    reader.update(Bytes::from(data[20..40].to_vec()));
    assert_eq!(reader.buffered_len(), 0);
    assert!(reader.has_open_entry());
    reader.update(Bytes::from(data[40..].to_vec()));
    assert_eq!(reader.entries().len(), 1);
}
