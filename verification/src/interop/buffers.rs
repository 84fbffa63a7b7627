//! The byte buffers of the `bytes` crate, and lossy text.

use bytes::{Bytes, BytesMut};
use vstd::prelude::*;
use vstd::utf8::{decode_utf8, valid_utf8};

verus! {

/// `bytes::Bytes`, a cheaply shared immutable run of bytes.
#[verifier::external_type_specification]
#[verifier::external_body]
pub struct ExBytes(Bytes);

/// `bytes::BytesMut`, a growing run of bytes.
#[verifier::external_type_specification]
#[verifier::external_body]
pub struct ExBytesMut(BytesMut);

/// The bytes that a `Bytes` holds.
pub uninterp spec fn bytes_content(bytes: Bytes) -> Seq<u8>;

/// The bytes that a `BytesMut` holds.
pub uninterp spec fn buffer_content(buffer: BytesMut) -> Seq<u8>;

/// The text that replaces each maximal ill-formed part of a byte string by
/// U+FFFD and keeps the rest.
pub uninterp spec fn lossy_text(bytes: Seq<u8>) -> Seq<char>;

/// A length that a buffer can grow to: a quarter of the address range, which
/// leaves room for the offset and the doubling of a `BytesMut`.
pub open spec fn fits_buffer(len: nat) -> bool {
    len <= isize::MAX / 4
}

/// `BytesMut::new` makes an empty buffer.
#[verifier::external_body]
pub(crate) fn buffer_new() -> (buffer: BytesMut)
    ensures
        buffer_content(buffer) == Seq::<u8>::empty(),
{
    BytesMut::new()
}

/// `BytesMut::extend_from_slice` appends the slice. It panics where the buffer
/// would outgrow the address range.
#[verifier::external_body]
pub(crate) fn buffer_extend(buffer: &mut BytesMut, slice: &[u8])
    requires
        fits_buffer(buffer_content(*old(buffer)).len() + slice@.len()),
    ensures
        buffer_content(*final(buffer)) == buffer_content(*old(buffer)) + slice@,
{
    buffer.extend_from_slice(slice)
}

/// `BytesMut::as_ref` lends the bytes of the buffer.
#[verifier::external_body]
pub(crate) fn buffer_slice(buffer: &BytesMut) -> (slice: &[u8])
    ensures
        slice@ == buffer_content(*buffer),
{
    buffer.as_ref()
}

/// `BytesMut::split_to` takes the first `at` bytes off the buffer and returns
/// them. It panics where the buffer holds fewer.
#[verifier::external_body]
pub(crate) fn buffer_split_to(buffer: &mut BytesMut, at: usize) -> (head: BytesMut)
    requires
        at <= buffer_content(*old(buffer)).len(),
    ensures
        buffer_content(head) == buffer_content(*old(buffer)).take(at as int),
        buffer_content(*final(buffer)) == buffer_content(*old(buffer)).skip(at as int),
{
    buffer.split_to(at)
}

/// `BytesMut::split` takes all bytes off the buffer and returns them.
#[verifier::external_body]
pub(crate) fn buffer_split(buffer: &mut BytesMut) -> (all: BytesMut)
    ensures
        buffer_content(all) == buffer_content(*old(buffer)),
        buffer_content(*final(buffer)) == Seq::<u8>::empty(),
{
    buffer.split()
}

/// `BytesMut::freeze` makes the buffer immutable, with the same bytes.
#[verifier::external_body]
pub(crate) fn buffer_freeze(buffer: BytesMut) -> (bytes: Bytes)
    ensures
        bytes_content(bytes) == buffer_content(buffer),
{
    buffer.freeze()
}

/// `Bytes::clone` shares the bytes: the copy holds the same ones.
pub assume_specification[ <Bytes as Clone>::clone ](bytes: &Bytes) -> (copy: Bytes)
    ensures
        bytes_content(copy) == bytes_content(*bytes),
;

/// `Bytes::as_ref` lends the bytes.
#[verifier::external_body]
pub(crate) fn bytes_slice(bytes: &Bytes) -> (slice: &[u8])
    ensures
        slice@ == bytes_content(*bytes),
{
    bytes.as_ref()
}

/// `String::from_utf8_lossy` reads bytes as UTF-8 and never fails. Well-formed
/// input is decoded as it stands.
#[verifier::external_body]
pub(crate) fn text_from_utf8_lossy(bytes: &[u8]) -> (text: String)
    ensures
        text@ == lossy_text(bytes@),
        valid_utf8(bytes@) ==> text@ == decode_utf8(bytes@),
{
    String::from_utf8_lossy(bytes).into_owned()
}

}
