//! The byte buffer that a stream is read into and written from.
//!
//! The buffer is `bytes::BytesMut`. Nothing of it is verified here: what
//! follows states what its methods do to the bytes it holds, and the rest of
//! the library is proved against these statements.

use vstd::prelude::*;
use bytes::BytesMut;

verus! {

/// `bytes::BytesMut`, a growable buffer of bytes. Its inside is not
/// visible to the verifier.
#[verifier::external_type_specification]
#[verifier::external_body]
pub struct ExBytesMut(bytes::BytesMut);

/// The bytes that a buffer holds, first to last.
pub uninterp spec fn buffered(buf: BytesMut) -> Seq<u8>;

/// `BytesMut::len` returns the number of bytes that the buffer holds.
pub assume_specification[ bytes::BytesMut::len ](buf: &BytesMut) -> (len: usize)
    ensures
        len == buffered(*buf).len(),
;

/// `BytesMut::split_to` takes the first `at` bytes off the buffer and returns
/// them as a buffer of their own; the bytes from `at` on stay. It panics
/// where `at` exceeds the length, which the precondition rules out.
pub assume_specification[ bytes::BytesMut::split_to ](buf: &mut BytesMut, at: usize) -> (head:
    BytesMut)
    requires
        at <= buffered(*old(buf)).len(),
    ensures
        buffered(head) == buffered(*old(buf)).take(at as int),
        buffered(*final(buf)) == buffered(*old(buf)).skip(at as int),
;

/// `BytesMut::extend_from_slice` appends the given bytes to the buffer,
/// growing it as needed. It panics where the new length overflows `usize`,
/// which the precondition rules out.
pub assume_specification[ bytes::BytesMut::extend_from_slice ](buf: &mut BytesMut, extend: &[u8])
    requires
        buffered(*old(buf)).len() + extend@.len() <= usize::MAX,
    ensures
        buffered(*final(buf)) == buffered(*old(buf)) + extend@,
;

/// The bytes of the buffer as a slice, by `BytesMut`'s `as_ref`.
#[verifier::external_body]
pub(crate) fn as_slice(buf: &BytesMut) -> (bytes: &[u8])
    ensures
        bytes@ == buffered(*buf),
{
    buf.as_ref()
}

} // verus!
