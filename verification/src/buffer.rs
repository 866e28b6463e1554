//! The byte buffer that the codec reads from and writes to.
//!
//! `bytes::BytesMut` is used as it is. What Verus knows of it is stated here
//! and taken on trust: `buffer_bytes` names the bytes that a buffer holds, and
//! each function below says what one method of `BytesMut` does to them.

use vstd::prelude::*;
use bytes::{Buf, BufMut, BytesMut};
use std::ops::Deref;

verus! {

#[verifier::external_type_specification]
#[verifier::external_body]
pub struct ExBytesMut(bytes::BytesMut);

/// The bytes that a buffer holds, from the next one to be read to the last
/// one written.
pub uninterp spec fn buffer_bytes(buf: BytesMut) -> Seq<u8>;

/// `BytesMut::deref`: the buffer's contents as a slice.
#[verifier::external_body]
pub(crate) fn buffer_slice(buf: &BytesMut) -> (r: &[u8])
    ensures
        r@ == buffer_bytes(*buf),
{
    buf.deref()
}

/// `Buf::advance` on `BytesMut`: drops the first `cnt` bytes. It panics
/// where `cnt` is more than the buffer holds, which `requires` rules out.
#[verifier::external_body]
pub(crate) fn buffer_advance(buf: &mut BytesMut, cnt: usize)
    requires
        cnt <= buffer_bytes(*old(buf)).len(),
    ensures
        buffer_bytes(*final(buf)) == buffer_bytes(*old(buf)).skip(cnt as int),
{
    buf.advance(cnt)
}

/// `BytesMut::split_to`: hands out the first `at` bytes as a buffer of their
/// own and keeps the rest. It panics where `at` is more than the buffer
/// holds, which `requires` rules out.
#[verifier::external_body]
pub(crate) fn buffer_split_to(buf: &mut BytesMut, at: usize) -> (r: BytesMut)
    requires
        at <= buffer_bytes(*old(buf)).len(),
    ensures
        buffer_bytes(r) == buffer_bytes(*old(buf)).take(at as int),
        buffer_bytes(*final(buf)) == buffer_bytes(*old(buf)).skip(at as int),
{
    buf.split_to(at)
}

/// `BufMut::put_slice` on `BytesMut`: appends `src`, growing the buffer as
/// needed. It panics where the new length would pass what can be allocated,
/// which `requires` rules out.
#[verifier::external_body]
pub(crate) fn buffer_put_slice(buf: &mut BytesMut, src: &[u8])
    requires
        buffer_bytes(*old(buf)).len() + src@.len() <= isize::MAX,
    ensures
        buffer_bytes(*final(buf)) == buffer_bytes(*old(buf)) + src@,
{
    buf.put_slice(src)
}

} // verus!
