//! In-situ, endian-independent access to fields of a byte buffer.
//!
//! Field offsets are always given as if the buffer were big-endian. For a
//! little-endian buffer the offset is reflected inside the buffer's swap
//! window before the bytes are read or written, so the same field
//! description serves both byte orders without copying the buffer.

pub mod codec;
mod endian;
pub mod geometry;
pub mod insitu;
pub mod raw;
pub mod text;
pub mod wrapper;

pub use bstr;
pub use byteorder;
pub use bytes;

pub use geometry::{aligned, at, padding};
pub use insitu::{
    probe_is_native, InSitu, InSituMut, Order, Take, F32, F64, I128, I16, I24, I32, I64, I8, U128,
    U16, U24, U32, U64, U8,
};
pub use raw::{Raw, RawMut};
pub use text::DecodeError;
pub use wrapper::Wrapper;
