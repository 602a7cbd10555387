//! Raw views: borrowed and owned runs of bytes that can be split in two
//! without copying.

use bytes::{Bytes, BytesMut};
use core::fmt::Debug;
use core::hash::Hash;
use vstd::prelude::*;

verus! {

#[verifier::external_type_specification]
#[verifier::external_body]
pub struct ExBytes(Bytes);

#[verifier::external_type_specification]
#[verifier::external_body]
pub struct ExBytesMut(BytesMut);

/// The bytes that a shared buffer holds.
pub uninterp spec fn shared_contents(buffer: Bytes) -> Seq<u8>;

/// The bytes that a unique buffer holds.
pub uninterp spec fn unique_contents(buffer: BytesMut) -> Seq<u8>;

/// The part of `bytes` in front of `mid`.
pub open spec fn front(bytes: Seq<u8>, mid: usize) -> Seq<u8> {
    bytes.subrange(0, mid as int)
}

/// The part of `bytes` from `mid` on.
pub open spec fn back(bytes: Seq<u8>, mid: usize) -> Seq<u8> {
    bytes.subrange(mid as int, bytes.len() as int)
}

/// `std::mem::take`: hands out the value behind `dest`, which gets the
/// default value of its type in its place.
pub assume_specification<T: Default>[ core::mem::take::<T> ](dest: &mut T) -> (value: T)
    ensures
        value == *old(dest),
;

/// `<bytes::Bytes as AsRef<[u8]>>::as_ref`: the bytes of `buffer` as a slice.
#[verifier::external_body]
fn shared_as_slice(buffer: &Bytes) -> (bytes: &[u8])
    ensures
        bytes@ == shared_contents(*buffer),
{
    buffer.as_ref()
}

/// `bytes::Bytes::split_off`: `buffer` keeps the bytes in front of `mid`
/// and the bytes from `mid` on are returned. It panics where `mid` is
/// beyond the length.
#[verifier::external_body]
fn shared_split_off(buffer: &mut Bytes, mid: usize) -> (tail: Bytes)
    requires
        mid <= shared_contents(*old(buffer)).len(),
    ensures
        shared_contents(*final(buffer)) == front(shared_contents(*old(buffer)), mid),
        shared_contents(tail) == back(shared_contents(*old(buffer)), mid),
{
    buffer.split_off(mid)
}

/// `bytes::Bytes::split_to`: `buffer` keeps the bytes from `mid` on and the
/// bytes in front of `mid` are returned. It panics where `mid` is beyond
/// the length.
#[verifier::external_body]
fn shared_split_to(buffer: &mut Bytes, mid: usize) -> (head: Bytes)
    requires
        mid <= shared_contents(*old(buffer)).len(),
    ensures
        shared_contents(*final(buffer)) == back(shared_contents(*old(buffer)), mid),
        shared_contents(head) == front(shared_contents(*old(buffer)), mid),
{
    buffer.split_to(mid)
}

/// `<bytes::BytesMut as AsRef<[u8]>>::as_ref`: the bytes of `buffer` as a
/// slice.
#[verifier::external_body]
fn unique_as_slice(buffer: &BytesMut) -> (bytes: &[u8])
    ensures
        bytes@ == unique_contents(*buffer),
{
    buffer.as_ref()
}

/// `<bytes::BytesMut as AsMut<[u8]>>::as_mut`: the bytes of `buffer` as a
/// mutable slice of the same length. What is written through it is what
/// `buffer` holds afterwards.
#[verifier::external_body]
fn unique_as_mut_slice(buffer: &mut BytesMut) -> (bytes: &mut [u8])
    ensures
        bytes@ == unique_contents(*old(buffer)),
        unique_contents(*final(buffer)) == final(bytes)@,
{
    buffer.as_mut()
}

/// `bytes::BytesMut::split_off`: `buffer` keeps the bytes in front of `mid`
/// and the bytes from `mid` on are returned. It panics where `mid` is
/// beyond the capacity, which is not below the length.
#[verifier::external_body]
fn unique_split_off(buffer: &mut BytesMut, mid: usize) -> (tail: BytesMut)
    requires
        mid <= unique_contents(*old(buffer)).len(),
    ensures
        unique_contents(*final(buffer)) == front(unique_contents(*old(buffer)), mid),
        unique_contents(tail) == back(unique_contents(*old(buffer)), mid),
{
    buffer.split_off(mid)
}

/// `bytes::BytesMut::split_to`: `buffer` keeps the bytes from `mid` on and
/// the bytes in front of `mid` are returned. It panics where `mid` is
/// beyond the length.
#[verifier::external_body]
fn unique_split_to(buffer: &mut BytesMut, mid: usize) -> (head: BytesMut)
    requires
        mid <= unique_contents(*old(buffer)).len(),
    ensures
        unique_contents(*final(buffer)) == back(unique_contents(*old(buffer)), mid),
        unique_contents(head) == front(unique_contents(*old(buffer)), mid),
{
    buffer.split_to(mid)
}

/// Abstracts immutable as well as mutable generic bytes view types like
/// `&[u8]` and `&mut [u8]` as immutable views, and the shared and unique
/// buffers `Bytes` and `BytesMut` as well.
///
/// Requires some standard nice-to-have but easy-to-get traits, so a wrapper
/// can just derive them. Requires methods to be implemented to split views
/// into subviews.
pub trait Raw: Sized + Default + PartialEq + Eq + PartialOrd + Ord + Debug + Hash {
    /// The bytes of the view.
    spec fn raw(&self) -> Seq<u8>;

    /// The bytes of the view as a slice.
    fn as_raw(&self) -> (bytes: &[u8])
        ensures
            bytes@ == self.raw(),
    ;

    /// Splits the bytes into two at the given index.
    ///
    /// Afterwards, `self` contains elements `[0, at)`, and the returned
    /// [`Self`] contains elements `[at, len)`.
    #[must_use]
    fn split_off(&mut self, at: usize) -> (tail: Self)
        requires
            at <= old(self).raw().len(),
        ensures
            final(self).raw() == front(old(self).raw(), at),
            tail.raw() == back(old(self).raw(), at),
    ;

    /// Splits the bytes into two at the given index.
    ///
    /// Afterwards, `self` contains elements `[at, len)`, and the returned
    /// [`Self`] contains elements `[0, at)`.
    #[must_use]
    fn split_to(&mut self, at: usize) -> (head: Self)
        requires
            at <= old(self).raw().len(),
        ensures
            final(self).raw() == back(old(self).raw(), at),
            head.raw() == front(old(self).raw(), at),
    ;
}

/// Abstracts mutable generic bytes view types like `&mut [u8]` as mutable
/// view, and the unique buffer `BytesMut` as well.
pub trait RawMut: Raw {
    /// The bytes of the view as a mutable slice. What is written through it
    /// is what the view holds afterwards.
    fn as_raw_mut(&mut self) -> (bytes: &mut [u8])
        ensures
            bytes@ == old(self).raw(),
            final(self).raw() == final(bytes)@,
    ;
}

impl<'a> Raw for &'a [u8] {
    open spec fn raw(&self) -> Seq<u8> {
        (*self)@
    }

    fn as_raw(&self) -> (bytes: &[u8]) {
        *self
    }

    fn split_off(&mut self, at: usize) -> (tail: Self) {
        let (l, r) = self.split_at(at);
        *self = l;
        r
    }

    fn split_to(&mut self, at: usize) -> (head: Self) {
        let (l, r) = self.split_at(at);
        *self = r;
        l
    }
}

impl<'a> Raw for &'a mut [u8] {
    open spec fn raw(&self) -> Seq<u8> {
        (*self)@
    }

    fn as_raw(&self) -> (bytes: &[u8]) {
        &**self
    }

    fn split_off(&mut self, at: usize) -> (tail: Self) {
        let slice = core::mem::take(self);
        let (l, r) = slice.split_at_mut(at);
        *self = l;
        r
    }

    fn split_to(&mut self, at: usize) -> (head: Self) {
        let slice = core::mem::take(self);
        let (l, r) = slice.split_at_mut(at);
        *self = r;
        l
    }
}

impl<'a> RawMut for &'a mut [u8] {
    fn as_raw_mut(&mut self) -> (bytes: &mut [u8]) {
        &mut **self
    }
}

impl Raw for Bytes {
    open spec fn raw(&self) -> Seq<u8> {
        shared_contents(*self)
    }

    fn as_raw(&self) -> (bytes: &[u8]) {
        shared_as_slice(self)
    }

    fn split_off(&mut self, at: usize) -> (tail: Self) {
        shared_split_off(self, at)
    }

    fn split_to(&mut self, at: usize) -> (head: Self) {
        shared_split_to(self, at)
    }
}

impl Raw for BytesMut {
    open spec fn raw(&self) -> Seq<u8> {
        unique_contents(*self)
    }

    fn as_raw(&self) -> (bytes: &[u8]) {
        unique_as_slice(self)
    }

    fn split_off(&mut self, at: usize) -> (tail: Self) {
        unique_split_off(self, at)
    }

    fn split_to(&mut self, at: usize) -> (head: Self) {
        unique_split_to(self, at)
    }
}

impl RawMut for BytesMut {
    fn as_raw_mut(&mut self) -> (bytes: &mut [u8]) {
        unique_as_mut_slice(self)
    }
}

/// Split law: the two parts of a view split at `mid` put together, front
/// first, are the view as it was. They share no byte and leave none out:
/// each byte of a part is the byte of the view at its own place, in front of
/// `mid` for the front part and from `mid` on for the back part.
pub proof fn lemma_split_rejoins(bytes: Seq<u8>, mid: usize)
    requires
        mid <= bytes.len(),
    ensures
        front(bytes, mid) + back(bytes, mid) == bytes,
        front(bytes, mid).len() == mid,
        back(bytes, mid).len() == bytes.len() - mid,
        forall|i: int| 0 <= i < mid ==> #[trigger] front(bytes, mid)[i] == bytes[i],
        forall|i: int| 0 <= i < bytes.len() - mid ==> #[trigger] back(bytes, mid)[i] == bytes[mid + i],
{
    assert(front(bytes, mid) + back(bytes, mid) =~= bytes);
}

} // verus!
