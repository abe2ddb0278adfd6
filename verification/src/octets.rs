//! The byte containers of the `bytes` crate, as the rest of the library sees
//! them: opaque values with contents.
use bytes::{Bytes, BytesMut};
use vstd::prelude::*;

verus! {

/// `bytes::Bytes`, a cheaply cloneable run of bytes.
#[verifier::external_type_specification]
#[verifier::external_body]
pub struct ExBytes(Bytes);

/// `bytes::BytesMut`, a growable run of bytes.
#[verifier::external_type_specification]
#[verifier::external_body]
pub struct ExBytesMut(BytesMut);

/// The bytes that a `Bytes` holds.
pub uninterp spec fn octets(b: Bytes) -> Seq<u8>;

/// The bytes that a `BytesMut` holds.
pub uninterp spec fn octets_mut(b: BytesMut) -> Seq<u8>;

/// `Bytes::copy_from_slice`: the result holds a copy of the slice.
pub assume_specification[ Bytes::copy_from_slice ](data: &[u8]) -> (b: Bytes)
    ensures
        octets(b) == data@,
;

/// `Bytes::len`: the number of bytes held.
pub assume_specification[ Bytes::len ](b: &Bytes) -> (n: usize)
    ensures
        n == octets(*b).len(),
;

/// `Bytes::split_to`: hands out the first `at` bytes and keeps the rest.
pub assume_specification[ Bytes::split_to ](b: &mut Bytes, at: usize) -> (head: Bytes)
    requires
        at <= octets(*old(b)).len(),
    ensures
        octets(head) == octets(*old(b)).take(at as int),
        octets(*final(b)) == octets(*old(b)).skip(at as int),
;

/// `Bytes` dereferenced: the slice of the bytes held.
pub assume_specification[ <Bytes as core::ops::Deref>::deref ](b: &Bytes) -> (s: &[u8])
    ensures
        s@ == octets(*b),
;

/// `Bytes::clone`: another handle to the same bytes.
pub assume_specification[ <Bytes as Clone>::clone ](b: &Bytes) -> (c: Bytes)
    ensures
        octets(c) == octets(*b),
;

/// `BytesMut::with_capacity`: an empty buffer. A capacity beyond
/// `isize::MAX` is more than an allocation can have.
pub assume_specification[ BytesMut::with_capacity ](capacity: usize) -> (b: BytesMut)
    requires
        capacity <= isize::MAX,
    ensures
        octets_mut(b) == Seq::<u8>::empty(),
;

/// `BytesMut::len`: the number of bytes held.
pub assume_specification[ BytesMut::len ](b: &BytesMut) -> (n: usize)
    ensures
        n == octets_mut(*b).len(),
;

/// `BytesMut::extend_from_slice`: appends the slice. The new length has to
/// be a `usize`; that memory runs out is left aside, as it is for `Vec`.
pub assume_specification[ BytesMut::extend_from_slice ](b: &mut BytesMut, extend: &[u8])
    requires
        octets_mut(*old(b)).len() + extend@.len() <= usize::MAX,
    ensures
        octets_mut(*final(b)) == octets_mut(*old(b)) + extend@,
;

/// `BytesMut::split`: hands out everything held and leaves the buffer empty.
pub assume_specification[ BytesMut::split ](b: &mut BytesMut) -> (all: BytesMut)
    ensures
        octets_mut(all) == octets_mut(*old(b)),
        octets_mut(*final(b)) == Seq::<u8>::empty(),
;

/// `BytesMut::split_to`: hands out the first `at` bytes and keeps the rest.
pub assume_specification[ BytesMut::split_to ](b: &mut BytesMut, at: usize) -> (head: BytesMut)
    requires
        at <= octets_mut(*old(b)).len(),
    ensures
        octets_mut(head) == octets_mut(*old(b)).take(at as int),
        octets_mut(*final(b)) == octets_mut(*old(b)).skip(at as int),
;

/// `BytesMut::freeze`: the same bytes, no longer growable.
pub assume_specification[ BytesMut::freeze ](b: BytesMut) -> (f: Bytes)
    ensures
        octets(f) == octets_mut(b),
;

/// `BytesMut` dereferenced: the slice of the bytes held.
pub assume_specification[ <BytesMut as core::ops::Deref>::deref ](b: &BytesMut) -> (s: &[u8])
    ensures
        s@ == octets_mut(*b),
;

} // verus!
