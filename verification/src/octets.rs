//! Octet buffers that a name can live in.
//!
//! A name holds its wire format in some buffer. The buffer may be a
//! borrowed slice or a reference-counted [`Bytes`] value; taking a part
//! of either makes no copy of the octets.

use bytes::{Bytes, BytesMut};
use vstd::prelude::*;
use vstd::slice::slice_subrange;

verus! {

/// The reference-counted octet buffer `bytes::Bytes`. The library sees no
/// part of it but through the items below.
#[verifier::external_type_specification]
#[verifier::external_body]
pub struct ExBytes(Bytes);

/// The growable octet buffer `bytes::BytesMut`. The library sees no part
/// of it but through the items below.
#[verifier::external_type_specification]
#[verifier::external_body]
pub struct ExBytesMut(BytesMut);

/// The octets that a `Bytes` value holds, first to last.
pub uninterp spec fn bytes_content(bytes: Bytes) -> Seq<u8>;

/// The octets that a `BytesMut` value holds, first to last.
pub uninterp spec fn bytes_mut_content(bytes: BytesMut) -> Seq<u8>;

/// `Bytes::from_static` makes a buffer that holds the octets of the slice.
#[verifier::external_body]
fn bytes_from_static(slice: &'static [u8]) -> (r: Bytes)
    ensures
        bytes_content(r) == slice@,
{
    Bytes::from_static(slice)
}

/// `Bytes::len` is the number of octets held.
#[verifier::external_body]
fn bytes_len(bytes: &Bytes) -> (n: usize)
    ensures
        n == bytes_content(*bytes).len(),
{
    bytes.len()
}

/// `Bytes::slice` hands out the octets from `begin` up to `end`. It panics
/// unless `begin <= end <= len`.
#[verifier::external_body]
fn bytes_slice(bytes: &Bytes, begin: usize, end: usize) -> (r: Bytes)
    requires
        begin <= end <= bytes_content(*bytes).len(),
    ensures
        bytes_content(r) == bytes_content(*bytes).subrange(begin as int, end as int),
{
    bytes.slice(begin, end)
}

/// `Bytes::try_mut` turns the buffer into a mutable one if no other handle
/// shares its memory, and gives it back otherwise. The octets are the same
/// either way.
#[verifier::external_body]
pub(crate) fn bytes_try_mut(bytes: Bytes) -> (r: Result<BytesMut, Bytes>)
    ensures
        match r {
            Ok(m) => bytes_mut_content(m) == bytes_content(bytes),
            Err(b) => bytes_content(b) == bytes_content(bytes),
        },
{
    bytes.try_mut()
}

/// `Clone::clone` of `Bytes` makes a second handle on the same octets.
#[verifier::external_body]
fn bytes_clone(bytes: &Bytes) -> (r: Bytes)
    ensures
        bytes_content(r) == bytes_content(*bytes),
{
    bytes.clone()
}

/// `BytesMut::new` makes an empty buffer.
#[verifier::external_body]
pub(crate) fn bytes_mut_new() -> (r: BytesMut)
    ensures
        bytes_mut_content(r) == Seq::<u8>::empty(),
{
    BytesMut::new()
}

/// `BytesMut::len` is the number of octets held.
#[verifier::external_body]
pub(crate) fn bytes_mut_len(bytes: &BytesMut) -> (n: usize)
    ensures
        n == bytes_mut_content(*bytes).len(),
{
    bytes.len()
}

/// `BytesMut::extend_from_slice` makes room and appends the octets of the
/// slice. It panics where the new size overflows.
#[verifier::external_body]
pub(crate) fn bytes_mut_extend(bytes: &mut BytesMut, extend: &[u8])
    requires
        bytes_mut_content(*old(bytes)).len() + extend@.len() <= isize::MAX,
    ensures
        bytes_mut_content(*final(bytes)) == bytes_mut_content(*old(bytes)) + extend@,
{
    bytes.extend_from_slice(extend)
}

/// `BytesMut::freeze` makes the buffer immutable and keeps its octets.
#[verifier::external_body]
pub(crate) fn bytes_mut_freeze(bytes: BytesMut) -> (r: Bytes)
    ensures
        bytes_content(r) == bytes_mut_content(bytes),
{
    bytes.freeze()
}

/// `AsRef::<[u8]>::as_ref` of `Bytes` lends the octets held.
#[verifier::external_body]
fn bytes_as_slice(bytes: &Bytes) -> (s: &[u8])
    ensures
        s@ == bytes_content(*bytes),
{
    bytes.as_ref()
}

/// `From::<&[u8]>::from` for `Bytes` copies the octets of the slice into a
/// new buffer.
#[verifier::external_body]
fn bytes_from_slice(slice: &[u8]) -> (r: Bytes)
    ensures
        bytes_content(r) == slice@,
{
    Bytes::from(slice)
}

/// `From::<&[u8]>::from` for `BytesMut` copies the octets of the slice
/// into a new buffer.
#[verifier::external_body]
pub(crate) fn bytes_mut_from_slice(slice: &[u8]) -> (r: BytesMut)
    ensures
        bytes_mut_content(r) == slice@,
{
    BytesMut::from(slice)
}

/// `AsRef::<[u8]>::as_ref` of `BytesMut` lends the octets held.
#[verifier::external_body]
pub(crate) fn bytes_mut_as_slice(bytes: &BytesMut) -> (s: &[u8])
    ensures
        s@ == bytes_mut_content(*bytes),
{
    bytes.as_ref()
}

/// A buffer of octets that can hand out parts of itself.
pub trait Octets: Sized {
    /// The octets held, first to last.
    spec fn content(&self) -> Seq<u8>;

    /// A buffer over octets that live for the whole run of the program.
    fn from_static(slice: &'static [u8]) -> (r: Self)
        ensures
            r.content() == slice@,
    ;

    /// The octets as a slice.
    fn as_slice(&self) -> (s: &[u8])
        ensures
            s@ == self.content(),
    ;

    /// The number of octets.
    fn len(&self) -> (n: usize)
        ensures
            n == self.content().len(),
    ;

    /// The part from `start` up to `end`.
    fn range(&self, start: usize, end: usize) -> (r: Self)
        requires
            start <= end <= self.content().len(),
        ensures
            r.content() == self.content().subrange(start as int, end as int),
    ;

    /// The part from `start` on.
    fn range_from(&self, start: usize) -> (r: Self)
        requires
            start <= self.content().len(),
        ensures
            r.content() == self.content().subrange(start as int, self.content().len() as int),
    ;

    /// The part before `end`.
    fn range_to(&self, end: usize) -> (r: Self)
        requires
            end <= self.content().len(),
        ensures
            r.content() == self.content().subrange(0, end as int),
    ;

    /// A second handle on the same octets. The octets are not copied
    /// where the buffer can share them.
    fn duplicate(&self) -> (r: Self)
        ensures
            r.content() == self.content(),
    ;

    /// The same octets in a reference-counted buffer.
    fn to_bytes(&self) -> (r: Bytes)
        ensures
            bytes_content(r) == self.content(),
    ;
}

impl Octets for Bytes {
    open spec fn content(&self) -> Seq<u8> {
        bytes_content(*self)
    }

    fn from_static(slice: &'static [u8]) -> (r: Self) {
        bytes_from_static(slice)
    }

    fn as_slice(&self) -> (s: &[u8]) {
        bytes_as_slice(self)
    }

    fn len(&self) -> (n: usize) {
        bytes_len(self)
    }

    fn range(&self, start: usize, end: usize) -> (r: Self) {
        bytes_slice(self, start, end)
    }

    fn range_from(&self, start: usize) -> (r: Self) {
        bytes_slice(self, start, bytes_len(self))
    }

    fn range_to(&self, end: usize) -> (r: Self) {
        bytes_slice(self, 0, end)
    }

    fn duplicate(&self) -> (r: Self) {
        bytes_clone(self)
    }

    fn to_bytes(&self) -> (r: Bytes) {
        bytes_clone(self)
    }
}

impl<'a> Octets for &'a [u8] {
    open spec fn content(&self) -> Seq<u8> {
        self@
    }

    fn from_static(slice: &'static [u8]) -> (r: Self) {
        slice
    }

    fn as_slice(&self) -> (s: &[u8]) {
        *self
    }

    fn len(&self) -> (n: usize) {
        (*self).len()
    }

    fn range(&self, start: usize, end: usize) -> (r: Self) {
        slice_subrange(*self, start, end)
    }

    fn range_from(&self, start: usize) -> (r: Self) {
        slice_subrange(*self, start, (*self).len())
    }

    fn range_to(&self, end: usize) -> (r: Self) {
        slice_subrange(*self, 0, end)
    }

    fn duplicate(&self) -> (r: Self) {
        *self
    }

    fn to_bytes(&self) -> (r: Bytes) {
        bytes_from_slice(*self)
    }
}

} // verus!
