//! A view wrapper: a raw view together with its byte order and its swap
//! window.

use crate::insitu::{InSitu, InSituMut, Order};
use crate::raw::{Raw, RawMut};
use vstd::prelude::*;

verus! {

/// A raw view with a declared byte order and swap window. The two are fixed
/// when the wrapper is made and stay as they are for its life.
pub struct Wrapper<R: Raw> {
    raw: R,
    be: bool,
    swap: usize,
}

impl<R: Raw> Wrapper<R> {
    /// Wraps `raw` as a view of the byte order `order` with a swap window of
    /// `swap_size` bytes.
    pub fn new(raw: R, order: Order, swap_size: usize) -> (view: Self)
        ensures
            view.bytes() == raw.raw(),
            view.spec_is_be() == (order == Order::BE),
            view.spec_swap_size() == swap_size,
    {
        let be = match order {
            Order::BE => true,
            Order::LE => false,
        };
        Wrapper { raw, be, swap: swap_size }
    }

    /// The raw view inside the wrapper.
    pub fn raw(&self) -> (raw: &R)
        ensures
            raw.raw() == self.bytes(),
    {
        &self.raw
    }

    /// Unwraps the raw view.
    pub fn into_raw(self) -> (raw: R)
        ensures
            raw.raw() == self.bytes(),
    {
        self.raw
    }
}

impl<R: Raw> InSitu for Wrapper<R> {
    closed spec fn bytes(&self) -> Seq<u8> {
        self.raw.raw()
    }

    closed spec fn spec_swap_size(&self) -> usize {
        self.swap
    }

    closed spec fn spec_is_be(&self) -> bool {
        self.be
    }

    fn as_bytes(&self) -> (bytes: &[u8]) {
        self.raw.as_raw()
    }

    fn swap_size(&self) -> (size: usize) {
        self.swap
    }

    fn is_be(&self) -> (be: bool) {
        self.be
    }
}

impl<R: RawMut> InSituMut for Wrapper<R> {
    fn as_mut_bytes(&mut self) -> (bytes: &mut [u8]) {
        self.raw.as_raw_mut()
    }
}

} // verus!
