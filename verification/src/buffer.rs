//! The byte buffers of the `bytes` crate, as this library sees them.
//!
//! A `BytesMut` is opaque to the verifier. Its contents are named by
//! [`buf_bytes`], and every function here states over that name what the
//! corresponding `bytes` operation does. None of these contracts is proved.

use bytes::BufMut;
use bytes::BytesMut;
use vstd::prelude::*;

verus! {

/// `bytes::BytesMut`, made known as a type whose inside is not looked at.
#[verifier::external_type_specification]
#[verifier::external_body]
pub struct ExBytesMut(bytes::BytesMut);

/// The bytes that a buffer holds, first to last.
pub uninterp spec fn buf_bytes(b: BytesMut) -> Seq<u8>;

/// `BytesMut::from(&[u8])`: a fresh buffer holding a copy of `src`.
#[verifier::external_body]
pub(crate) fn buf_from_slice(src: &[u8]) -> (b: BytesMut)
    ensures
        buf_bytes(b) == src@,
{
    BytesMut::from(src)
}

/// `AsRef<[u8]>::as_ref` on a `BytesMut`: the whole contents as a slice.
#[verifier::external_body]
pub(crate) fn buf_as_slice(b: &BytesMut) -> (s: &[u8])
    ensures
        s@ == buf_bytes(*b),
{
    b.as_ref()
}

/// `Clone::clone` on a `BytesMut`: a fresh buffer with the same contents.
#[verifier::external_body]
pub(crate) fn buf_clone(b: &BytesMut) -> (c: BytesMut)
    ensures
        buf_bytes(c) == buf_bytes(*b),
{
    b.clone()
}

/// `BytesMut::with_capacity`: an empty buffer. The capacity is room set
/// aside and nothing more. The call is left out where the capacity is more
/// than an allocation can have.
#[verifier::external_body]
pub(crate) fn buf_with_capacity(capacity: usize) -> (b: BytesMut)
    requires
        capacity <= isize::MAX,
    ensures
        buf_bytes(b) == Seq::<u8>::empty(),
{
    BytesMut::with_capacity(capacity)
}

/// `BufMut::put_slice` on a `BytesMut`: appends `src`. The call is left out
/// where the new length would not fit the machine's word, which is where
/// `bytes` gives up.
#[verifier::external_body]
pub(crate) fn buf_put_slice(b: &mut BytesMut, src: &[u8])
    requires
        buf_bytes(*old(b)).len() + src@.len() <= usize::MAX,
    ensures
        buf_bytes(*final(b)) == buf_bytes(*old(b)) + src@,
{
    b.put_slice(src)
}

/// `BytesMut::split_to`: takes the first `at` bytes out of the buffer and
/// hands them back as a buffer of their own; the rest stays. The call is
/// left out where `at` is beyond the end, where `bytes` panics.
#[verifier::external_body]
pub(crate) fn buf_split_to(b: &mut BytesMut, at: usize) -> (head: BytesMut)
    requires
        at <= buf_bytes(*old(b)).len(),
    ensures
        buf_bytes(head) == buf_bytes(*old(b)).take(at as int),
        buf_bytes(*final(b)) == buf_bytes(*old(b)).skip(at as int),
{
    b.split_to(at)
}

} // verus!
