//! The byte buffer of a connection, which is a `bytes::BytesMut`.
//!
//! The buffer's own code is not verified here. What this library relies on is
//! stated in this file, over [`held`], and is taken on trust.

use bytes::BytesMut;
use vstd::prelude::*;

verus! {

/// Makes `bytes::BytesMut` known as a type whose inside is not looked at.
#[verifier::external_type_specification]
#[verifier::external_body]
pub struct ExBytesMut(BytesMut);

/// The bytes that a buffer holds, from the first to the last.
pub uninterp spec fn held(buffer: BytesMut) -> Seq<u8>;

/// `BytesMut::new`: the new buffer holds no bytes.
pub assume_specification[ BytesMut::new ]() -> (buffer: BytesMut)
    ensures
        held(buffer) == Seq::<u8>::empty(),
;

/// `BytesMut::len`: the number of bytes that the buffer holds.
pub assume_specification[ BytesMut::len ](buffer: &BytesMut) -> (n: usize)
    ensures
        n == held(*buffer).len(),
;

/// `<BytesMut as AsRef<[u8]>>::as_ref`: the bytes that the buffer holds, as a
/// slice.
#[verifier::external_body]
pub(crate) fn bytes_of(buffer: &BytesMut) -> (bytes: &[u8])
    ensures
        bytes@ == held(*buffer),
{
    buffer.as_ref()
}

/// The most bytes that a buffer is ever asked to hold: 64 MiB.
pub const BUFFER_LIMIT: usize = 0x0400_0000;

/// `BytesMut::extend_from_slice`: the bytes of `extend` are added behind
/// those that the buffer holds. The buffer reserves room for them first, and
/// panics where the capacity it then asks for overflows. A buffer that is
/// held within the limit stays far below that, also where the machine word
/// has 32 bits: what it asks for is at most a few times what it holds.
pub assume_specification[ BytesMut::extend_from_slice ](buffer: &mut BytesMut, extend: &[u8])
    requires
        held(*old(buffer)).len() + extend@.len() <= BUFFER_LIMIT,
    ensures
        held(*final(buffer)) == held(*old(buffer)) + extend@,
;

/// `<BytesMut as bytes::Buf>::advance`: the first `count` bytes leave the
/// buffer. It panics where the buffer holds fewer.
#[verifier::external_body]
pub(crate) fn drop_front(buffer: &mut BytesMut, count: usize)
    requires
        count <= held(*old(buffer)).len(),
    ensures
        held(*final(buffer)) == held(*old(buffer)).skip(count as int),
{
    bytes::Buf::advance(buffer, count)
}

} // verus!
