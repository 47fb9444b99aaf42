//! Byte buffers of the `bytes` crate, as the verified code sees them.
//!
//! `BytesMut` and `Bytes` are opaque to Verus; what they hold is named by
//! `bytes_mut_view` and `bytes_view`, and each operation the library calls
//! states over those names what the crate's source does.

use vstd::prelude::*;
use bytes::{Bytes, BytesMut};

verus! {

#[verifier::external_type_specification]
#[verifier::external_body]
pub struct ExBytesMut(bytes::BytesMut);

#[verifier::external_type_specification]
#[verifier::external_body]
pub struct ExBytes(bytes::Bytes);

/// The bytes held by a `BytesMut`, in order.
pub uninterp spec fn bytes_mut_view(b: BytesMut) -> Seq<u8>;

/// The bytes held by a `Bytes`, in order.
pub uninterp spec fn bytes_view(b: Bytes) -> Seq<u8>;

/// `BytesMut::with_capacity`: an empty buffer (only its capacity depends on
/// the argument). The allocation panics beyond `isize::MAX` bytes, which
/// `requires` rules out.
#[verifier::external_body]
pub(crate) fn bytes_mut_with_capacity(capacity: usize) -> (b: BytesMut)
    requires
        capacity <= isize::MAX,
    ensures
        bytes_mut_view(b) == Seq::<u8>::empty(),
{
    BytesMut::with_capacity(capacity)
}

/// `BytesMut::len`: the number of bytes held.
#[verifier::external_body]
pub(crate) fn bytes_mut_len(b: &BytesMut) -> (n: usize)
    ensures
        n == bytes_mut_view(*b).len(),
{
    b.len()
}

/// `BytesMut::is_empty`: whether no byte is held.
#[verifier::external_body]
pub(crate) fn bytes_mut_is_empty(b: &BytesMut) -> (e: bool)
    ensures
        e == (bytes_mut_view(*b).len() == 0),
{
    b.is_empty()
}

/// `BytesMut::split`: hands out every byte held and leaves the buffer empty.
#[verifier::external_body]
pub(crate) fn bytes_mut_split(b: &mut BytesMut) -> (taken: BytesMut)
    ensures
        bytes_mut_view(taken) == bytes_mut_view(*old(b)),
        bytes_mut_view(*final(b)) == Seq::<u8>::empty(),
{
    b.split()
}

/// `BytesMut::unsplit`: appends the bytes of `other` after those held. When
/// the two are not adjacent in memory the bytes are copied, which panics
/// beyond `isize::MAX` bytes; `requires` rules that out.
#[verifier::external_body]
pub(crate) fn bytes_mut_unsplit(b: &mut BytesMut, other: BytesMut)
    requires
        bytes_mut_view(*old(b)).len() + bytes_mut_view(other).len() <= isize::MAX,
    ensures
        bytes_mut_view(*final(b)) == bytes_mut_view(*old(b)) + bytes_mut_view(other),
{
    b.unsplit(other)
}

/// `BytesMut::reserve`: makes room for `additional` more bytes; the bytes
/// held stay as they are. It panics when the new capacity overflows, which
/// `requires` rules out.
#[verifier::external_body]
pub(crate) fn bytes_mut_reserve(b: &mut BytesMut, additional: usize)
    requires
        bytes_mut_view(*old(b)).len() + additional <= isize::MAX,
    ensures
        bytes_mut_view(*final(b)) == bytes_mut_view(*old(b)),
{
    b.reserve(additional)
}

/// `BytesMut::freeze`: the same bytes, as an immutable `Bytes`.
#[verifier::external_body]
pub(crate) fn bytes_mut_freeze(b: BytesMut) -> (frozen: Bytes)
    ensures
        bytes_view(frozen) == bytes_mut_view(b),
{
    b.freeze()
}

/// `BytesMut::clone`: a copy of the bytes held.
#[verifier::external_body]
pub(crate) fn bytes_mut_clone(b: &BytesMut) -> (c: BytesMut)
    ensures
        bytes_mut_view(c) == bytes_mut_view(*b),
{
    b.clone()
}

/// The bytes of a `Bytes`, as a slice (`Deref`).
#[verifier::external_body]
pub(crate) fn bytes_as_slice(b: &Bytes) -> (s: &[u8])
    ensures
        s@ == bytes_view(*b),
{
    &b[..]
}

/// `Bytes::new`: an empty `Bytes`.
#[verifier::external_body]
pub(crate) fn bytes_new() -> (b: Bytes)
    ensures
        bytes_view(b) == Seq::<u8>::empty(),
{
    Bytes::new()
}

/// `Bytes::len`: the number of bytes held.
#[verifier::external_body]
pub(crate) fn bytes_len(b: &Bytes) -> (n: usize)
    ensures
        n == bytes_view(*b).len(),
{
    b.len()
}

/// `Bytes::clone`: another handle on the same bytes.
#[verifier::external_body]
pub(crate) fn bytes_clone(b: &Bytes) -> (c: Bytes)
    ensures
        bytes_view(c) == bytes_view(*b),
{
    b.clone()
}

/// `Bytes::split_to`: hands out the first `at` bytes and keeps the rest.
/// The crate panics when `at` exceeds the length, which `requires` rules out.
#[verifier::external_body]
pub(crate) fn bytes_split_to(b: &mut Bytes, at: usize) -> (front: Bytes)
    requires
        at <= bytes_view(*old(b)).len(),
    ensures
        bytes_view(front) == bytes_view(*old(b)).take(at as int),
        bytes_view(*final(b)) == bytes_view(*old(b)).skip(at as int),
{
    b.split_to(at)
}

} // verus!
