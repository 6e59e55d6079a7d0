//! The outside code that the library relies on, each item with the contract
//! that the library assumes of it.
use vstd::prelude::*;
use bytes::{Buf, Bytes, BytesMut};

verus! {

#[verifier::external_type_specification]
#[verifier::external_body]
pub struct ExBytesMut(BytesMut);

#[verifier::external_type_specification]
#[verifier::external_body]
pub struct ExBytes(Bytes);

/// The bytes that a growable buffer holds, in order.
pub uninterp spec fn buffer_contents(b: BytesMut) -> Seq<u8>;

/// The bytes that an immutable byte string holds, in order.
pub uninterp spec fn bytes_contents(b: Bytes) -> Seq<u8>;

/// What inflating a raw deflate stream yields, or `None` where the stream is invalid.
pub uninterp spec fn inflated(data: Seq<u8>) -> Option<Seq<u8>>;

/// The text that a byte string encodes as UTF-8, or `None` where it is not valid UTF-8.
pub uninterp spec fn utf8_text(b: Seq<u8>) -> Option<Seq<char>>;

/// Relies on `BytesMut::new`: an empty buffer.
#[verifier::external_body]
pub(crate) fn buffer_new() -> (r: BytesMut)
    ensures
        buffer_contents(r) == Seq::<u8>::empty(),
{
    BytesMut::new()
}

/// Relies on `BytesMut`'s `AsRef<[u8]>`: a view of the bytes it holds.
#[verifier::external_body]
pub(crate) fn buffer_as_slice(b: &BytesMut) -> (r: &[u8])
    ensures
        r@ == buffer_contents(*b),
{
    b.as_ref()
}

/// Relies on `BytesMut::extend_from_slice`: appends the bytes of `s` at the end.
/// It panics only where the new length overflows `usize`.
#[verifier::external_body]
pub(crate) fn buffer_extend(b: &mut BytesMut, s: &[u8])
    requires
        buffer_contents(*old(b)).len() + s@.len() <= usize::MAX,
    ensures
        buffer_contents(*final(b)) == buffer_contents(*old(b)) + s@,
{
    b.extend_from_slice(s)
}

/// Relies on `Buf::advance` for `BytesMut`: drops the first `n` bytes.
/// It panics only where `n` exceeds the length.
#[verifier::external_body]
pub(crate) fn buffer_advance(b: &mut BytesMut, n: usize)
    requires
        n <= buffer_contents(*old(b)).len(),
    ensures
        buffer_contents(*final(b)) == buffer_contents(*old(b)).subrange(
            n as int,
            buffer_contents(*old(b)).len() as int,
        ),
{
    b.advance(n)
}

/// Relies on `Bytes`'s `AsRef<[u8]>`: a view of the bytes it holds.
#[verifier::external_body]
pub(crate) fn bytes_as_slice(b: &Bytes) -> (r: &[u8])
    ensures
        r@ == bytes_contents(*b),
{
    b.as_ref()
}

/// Relies on `Bytes::from(Vec<u8>)`: a byte string holding the same bytes.
#[verifier::external_body]
pub(crate) fn bytes_from_vec(v: Vec<u8>) -> (r: Bytes)
    ensures
        bytes_contents(r) == v@,
{
    Bytes::from(v)
}

/// Relies on `inflate::inflate_bytes`: decompresses a raw deflate stream, or
/// fails on an invalid one; the outcome depends on the bytes alone.
#[verifier::external_body]
pub(crate) fn inflate_raw(data: &[u8]) -> (r: Option<Vec<u8>>)
    ensures
        r is Some <==> inflated(data@) is Some,
        r matches Some(v) ==> inflated(data@) == Some(v@),
{
    inflate::inflate_bytes(data).ok()
}

/// Relies on `String::from_utf8`: succeeds exactly on valid UTF-8, with the
/// text that the bytes encode.
#[verifier::external_body]
pub(crate) fn utf8_string(b: Vec<u8>) -> (r: Option<String>)
    ensures
        r is Some <==> utf8_text(b@) is Some,
        r matches Some(s) ==> utf8_text(b@) == Some(s@),
{
    String::from_utf8(b).ok()
}

} // verus!
