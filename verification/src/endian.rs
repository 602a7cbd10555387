//! The byte-order codec: one trusted function for each routine of the
//! `byteorder` crate that the accessors call.
//!
//! Nothing here is proved. Each contract restates, over the model of
//! [`crate::codec`], what `byteorder` documents and does: which bytes a
//! routine reads or overwrites, the value they stand for, and the inputs on
//! which it would panic, which `requires` leaves out.

use crate::codec::{as_signed, be_bytes, be_value, le_bytes, le_value, splice, word_range};
use byteorder::{ByteOrder, NativeEndian, BE, LE};
use vstd::prelude::*;

verus! {

/// `byteorder::BigEndian::read_u16`: the value of the first 2 bytes of
/// `buf`, most significant byte first. It panics on a shorter `buf`.
#[verifier::external_body]
pub(crate) fn be_read_u16(buf: &[u8]) -> (value: u16)
    requires
        buf@.len() >= 2,
    ensures
        value == be_value(buf@.subrange(0, 2)),
{
    BE::read_u16(buf)
}

/// `byteorder::BigEndian::read_u24`: the value of the first 3 bytes of
/// `buf`, most significant byte first. It panics on a shorter `buf`.
#[verifier::external_body]
pub(crate) fn be_read_u24(buf: &[u8]) -> (value: u32)
    requires
        buf@.len() >= 3,
    ensures
        value == be_value(buf@.subrange(0, 3)),
{
    BE::read_u24(buf)
}

/// `byteorder::BigEndian::read_u32`: the value of the first 4 bytes of
/// `buf`, most significant byte first. It panics on a shorter `buf`.
#[verifier::external_body]
pub(crate) fn be_read_u32(buf: &[u8]) -> (value: u32)
    requires
        buf@.len() >= 4,
    ensures
        value == be_value(buf@.subrange(0, 4)),
{
    BE::read_u32(buf)
}

/// `byteorder::BigEndian::read_u64`: the value of the first 8 bytes of
/// `buf`, most significant byte first. It panics on a shorter `buf`.
#[verifier::external_body]
pub(crate) fn be_read_u64(buf: &[u8]) -> (value: u64)
    requires
        buf@.len() >= 8,
    ensures
        value == be_value(buf@.subrange(0, 8)),
{
    BE::read_u64(buf)
}

/// `byteorder::BigEndian::read_u128`: the value of the first 16 bytes of
/// `buf`, most significant byte first. It panics on a shorter `buf`.
#[verifier::external_body]
pub(crate) fn be_read_u128(buf: &[u8]) -> (value: u128)
    requires
        buf@.len() >= 16,
    ensures
        value == be_value(buf@.subrange(0, 16)),
{
    BE::read_u128(buf)
}

/// `byteorder::BigEndian::read_uint`: the value of the first `nbytes` bytes
/// of `buf`, most significant byte first. It panics unless `nbytes` is between
/// 1 and 8 and `buf` holds that many bytes.
#[verifier::external_body]
pub(crate) fn be_read_uint(buf: &[u8], nbytes: usize) -> (value: u64)
    requires
        1 <= nbytes <= 8,
        nbytes <= buf@.len(),
    ensures
        value == be_value(buf@.subrange(0, nbytes as int)),
{
    BE::read_uint(buf, nbytes)
}

/// `byteorder::BigEndian::read_uint128`: the value of the first `nbytes` bytes
/// of `buf`, most significant byte first. It panics unless `nbytes` is between
/// 1 and 16 and `buf` holds that many bytes.
#[verifier::external_body]
pub(crate) fn be_read_uint128(buf: &[u8], nbytes: usize) -> (value: u128)
    requires
        1 <= nbytes <= 16,
        nbytes <= buf@.len(),
    ensures
        value == be_value(buf@.subrange(0, nbytes as int)),
{
    BE::read_uint128(buf, nbytes)
}

/// `byteorder::BigEndian::read_i16`: the first 2 bytes of `buf`,
/// most significant byte first, read as a two's complement number. It
/// panics on a shorter `buf`.
#[verifier::external_body]
pub(crate) fn be_read_i16(buf: &[u8]) -> (value: i16)
    requires
        buf@.len() >= 2,
    ensures
        value == as_signed(be_value(buf@.subrange(0, 2)), 2),
{
    BE::read_i16(buf)
}

/// `byteorder::BigEndian::read_i24`: the first 3 bytes of `buf`,
/// most significant byte first, read as a two's complement number. It
/// panics on a shorter `buf`.
#[verifier::external_body]
pub(crate) fn be_read_i24(buf: &[u8]) -> (value: i32)
    requires
        buf@.len() >= 3,
    ensures
        value == as_signed(be_value(buf@.subrange(0, 3)), 3),
{
    BE::read_i24(buf)
}

/// `byteorder::BigEndian::read_i32`: the first 4 bytes of `buf`,
/// most significant byte first, read as a two's complement number. It
/// panics on a shorter `buf`.
#[verifier::external_body]
pub(crate) fn be_read_i32(buf: &[u8]) -> (value: i32)
    requires
        buf@.len() >= 4,
    ensures
        value == as_signed(be_value(buf@.subrange(0, 4)), 4),
{
    BE::read_i32(buf)
}

/// `byteorder::BigEndian::read_i64`: the first 8 bytes of `buf`,
/// most significant byte first, read as a two's complement number. It
/// panics on a shorter `buf`.
#[verifier::external_body]
pub(crate) fn be_read_i64(buf: &[u8]) -> (value: i64)
    requires
        buf@.len() >= 8,
    ensures
        value == as_signed(be_value(buf@.subrange(0, 8)), 8),
{
    BE::read_i64(buf)
}

/// `byteorder::BigEndian::read_i128`: the first 16 bytes of `buf`,
/// most significant byte first, read as a two's complement number. It
/// panics on a shorter `buf`.
#[verifier::external_body]
pub(crate) fn be_read_i128(buf: &[u8]) -> (value: i128)
    requires
        buf@.len() >= 16,
    ensures
        value == as_signed(be_value(buf@.subrange(0, 16)), 16),
{
    BE::read_i128(buf)
}

/// `byteorder::BigEndian::read_int`: the first `nbytes` bytes of `buf`,
/// most significant byte first, read as a two's complement number of that
/// width. It panics unless `nbytes` is between 1 and 8 and `buf` holds
/// that many bytes.
#[verifier::external_body]
pub(crate) fn be_read_int(buf: &[u8], nbytes: usize) -> (value: i64)
    requires
        1 <= nbytes <= 8,
        nbytes <= buf@.len(),
    ensures
        value == as_signed(be_value(buf@.subrange(0, nbytes as int)), nbytes as nat),
{
    BE::read_int(buf, nbytes)
}

/// `byteorder::BigEndian::read_int128`: the first `nbytes` bytes of `buf`,
/// most significant byte first, read as a two's complement number of that
/// width. It panics unless `nbytes` is between 1 and 16 and `buf` holds
/// that many bytes.
#[verifier::external_body]
pub(crate) fn be_read_int128(buf: &[u8], nbytes: usize) -> (value: i128)
    requires
        1 <= nbytes <= 16,
        nbytes <= buf@.len(),
    ensures
        value == as_signed(be_value(buf@.subrange(0, nbytes as int)), nbytes as nat),
{
    BE::read_int128(buf, nbytes)
}

/// `byteorder::BigEndian::write_u16`: overwrites the first 2 bytes of
/// `buf` with `value`, most significant byte first, and leaves the rest of
/// `buf` as it was. It panics on a shorter `buf`.
#[verifier::external_body]
pub(crate) fn be_write_u16(buf: &mut [u8], value: u16)
    requires
        old(buf)@.len() >= 2,
    ensures
        final(buf)@ == splice(old(buf)@, 0, be_bytes(value as int, 2)),
{
    BE::write_u16(buf, value)
}

/// `byteorder::BigEndian::write_u24`: overwrites the first 3 bytes of
/// `buf` with `value`, most significant byte first, and leaves the rest of
/// `buf` as it was. It panics on a shorter `buf` and on a
/// `value` that 3 bytes cannot hold.
#[verifier::external_body]
pub(crate) fn be_write_u24(buf: &mut [u8], value: u32)
    requires
        old(buf)@.len() >= 3,
        value < 0x100_0000,
    ensures
        final(buf)@ == splice(old(buf)@, 0, be_bytes(value as int, 3)),
{
    BE::write_u24(buf, value)
}

/// `byteorder::BigEndian::write_u32`: overwrites the first 4 bytes of
/// `buf` with `value`, most significant byte first, and leaves the rest of
/// `buf` as it was. It panics on a shorter `buf`.
#[verifier::external_body]
pub(crate) fn be_write_u32(buf: &mut [u8], value: u32)
    requires
        old(buf)@.len() >= 4,
    ensures
        final(buf)@ == splice(old(buf)@, 0, be_bytes(value as int, 4)),
{
    BE::write_u32(buf, value)
}

/// `byteorder::BigEndian::write_u64`: overwrites the first 8 bytes of
/// `buf` with `value`, most significant byte first, and leaves the rest of
/// `buf` as it was. It panics on a shorter `buf`.
#[verifier::external_body]
pub(crate) fn be_write_u64(buf: &mut [u8], value: u64)
    requires
        old(buf)@.len() >= 8,
    ensures
        final(buf)@ == splice(old(buf)@, 0, be_bytes(value as int, 8)),
{
    BE::write_u64(buf, value)
}

/// `byteorder::BigEndian::write_u128`: overwrites the first 16 bytes of
/// `buf` with `value`, most significant byte first, and leaves the rest of
/// `buf` as it was. It panics on a shorter `buf`.
#[verifier::external_body]
pub(crate) fn be_write_u128(buf: &mut [u8], value: u128)
    requires
        old(buf)@.len() >= 16,
    ensures
        final(buf)@ == splice(old(buf)@, 0, be_bytes(value as int, 16)),
{
    BE::write_u128(buf, value)
}

/// `byteorder::BigEndian::write_uint`: overwrites the first `nbytes` bytes of
/// `buf` with `value`, most significant byte first, and leaves the rest of
/// `buf` as it was. It panics unless `nbytes` is between 1 and 8, `buf`
/// holds that many bytes and they can hold `value`.
#[verifier::external_body]
pub(crate) fn be_write_uint(buf: &mut [u8], value: u64, nbytes: usize)
    requires
        1 <= nbytes <= 8,
        nbytes <= old(buf)@.len(),
        value < word_range(nbytes as nat),
    ensures
        final(buf)@ == splice(old(buf)@, 0, be_bytes(value as int, nbytes as nat)),
{
    BE::write_uint(buf, value, nbytes)
}

/// `byteorder::BigEndian::write_uint128`: overwrites the first `nbytes` bytes of
/// `buf` with `value`, most significant byte first, and leaves the rest of
/// `buf` as it was. It panics unless `nbytes` is between 1 and 16, `buf`
/// holds that many bytes and they can hold `value`.
#[verifier::external_body]
pub(crate) fn be_write_uint128(buf: &mut [u8], value: u128, nbytes: usize)
    requires
        1 <= nbytes <= 16,
        nbytes <= old(buf)@.len(),
        value < word_range(nbytes as nat),
    ensures
        final(buf)@ == splice(old(buf)@, 0, be_bytes(value as int, nbytes as nat)),
{
    BE::write_uint128(buf, value, nbytes)
}

/// `byteorder::BigEndian::write_i16`: overwrites the first 2 bytes of
/// `buf` with the two's complement of `value`, most significant byte first,
/// and leaves the rest of `buf` as it was. It panics on a shorter
/// `buf`.
#[verifier::external_body]
pub(crate) fn be_write_i16(buf: &mut [u8], value: i16)
    requires
        old(buf)@.len() >= 2,
    ensures
        final(buf)@ == splice(old(buf)@, 0, be_bytes(value as int, 2)),
{
    BE::write_i16(buf, value)
}

/// `byteorder::BigEndian::write_i24`: overwrites the first 3 bytes of
/// `buf` with the two's complement of `value`, most significant byte first,
/// and leaves the rest of `buf` as it was. The value is
/// masked to 3 bytes before its size is checked, so that of a `value` that
/// 3 bytes cannot hold the 3 low bytes are written. It panics on a shorter
/// `buf`.
#[verifier::external_body]
pub(crate) fn be_write_i24(buf: &mut [u8], value: i32)
    requires
        old(buf)@.len() >= 3,
    ensures
        final(buf)@ == splice(old(buf)@, 0, be_bytes(value as int, 3)),
{
    BE::write_i24(buf, value)
}

/// `byteorder::BigEndian::write_i32`: overwrites the first 4 bytes of
/// `buf` with the two's complement of `value`, most significant byte first,
/// and leaves the rest of `buf` as it was. It panics on a shorter
/// `buf`.
#[verifier::external_body]
pub(crate) fn be_write_i32(buf: &mut [u8], value: i32)
    requires
        old(buf)@.len() >= 4,
    ensures
        final(buf)@ == splice(old(buf)@, 0, be_bytes(value as int, 4)),
{
    BE::write_i32(buf, value)
}

/// `byteorder::BigEndian::write_i64`: overwrites the first 8 bytes of
/// `buf` with the two's complement of `value`, most significant byte first,
/// and leaves the rest of `buf` as it was. It panics on a shorter
/// `buf`.
#[verifier::external_body]
pub(crate) fn be_write_i64(buf: &mut [u8], value: i64)
    requires
        old(buf)@.len() >= 8,
    ensures
        final(buf)@ == splice(old(buf)@, 0, be_bytes(value as int, 8)),
{
    BE::write_i64(buf, value)
}

/// `byteorder::BigEndian::write_i128`: overwrites the first 16 bytes of
/// `buf` with the two's complement of `value`, most significant byte first,
/// and leaves the rest of `buf` as it was. It panics on a shorter
/// `buf`.
#[verifier::external_body]
pub(crate) fn be_write_i128(buf: &mut [u8], value: i128)
    requires
        old(buf)@.len() >= 16,
    ensures
        final(buf)@ == splice(old(buf)@, 0, be_bytes(value as int, 16)),
{
    BE::write_i128(buf, value)
}

/// `byteorder::BigEndian::write_int`: overwrites the first `nbytes` bytes of
/// `buf` with the `nbytes` low bytes of the two's complement of `value`,
/// most significant byte first, and leaves the rest of `buf` as it was. The
/// value is masked to `nbytes` bytes before its size is checked, so that no
/// `value` makes it panic. It panics unless `nbytes` is between 1 and 8
/// and `buf` holds that many bytes.
#[verifier::external_body]
pub(crate) fn be_write_int(buf: &mut [u8], value: i64, nbytes: usize)
    requires
        1 <= nbytes <= 8,
        nbytes <= old(buf)@.len(),
    ensures
        final(buf)@ == splice(old(buf)@, 0, be_bytes(value as int, nbytes as nat)),
{
    BE::write_int(buf, value, nbytes)
}

/// `byteorder::BigEndian::write_int128`: overwrites the first `nbytes` bytes of
/// `buf` with the `nbytes` low bytes of the two's complement of `value`,
/// most significant byte first, and leaves the rest of `buf` as it was. The
/// value is masked to `nbytes` bytes before its size is checked, so that no
/// `value` makes it panic. It panics unless `nbytes` is between 1 and 16
/// and `buf` holds that many bytes.
#[verifier::external_body]
pub(crate) fn be_write_int128(buf: &mut [u8], value: i128, nbytes: usize)
    requires
        1 <= nbytes <= 16,
        nbytes <= old(buf)@.len(),
    ensures
        final(buf)@ == splice(old(buf)@, 0, be_bytes(value as int, nbytes as nat)),
{
    BE::write_int128(buf, value, nbytes)
}

/// `byteorder::LittleEndian::read_u16`: the value of the first 2 bytes of
/// `buf`, least significant byte first. It panics on a shorter `buf`.
#[verifier::external_body]
pub(crate) fn le_read_u16(buf: &[u8]) -> (value: u16)
    requires
        buf@.len() >= 2,
    ensures
        value == le_value(buf@.subrange(0, 2)),
{
    LE::read_u16(buf)
}

/// `byteorder::LittleEndian::read_u24`: the value of the first 3 bytes of
/// `buf`, least significant byte first. It panics on a shorter `buf`.
#[verifier::external_body]
pub(crate) fn le_read_u24(buf: &[u8]) -> (value: u32)
    requires
        buf@.len() >= 3,
    ensures
        value == le_value(buf@.subrange(0, 3)),
{
    LE::read_u24(buf)
}

/// `byteorder::LittleEndian::read_u32`: the value of the first 4 bytes of
/// `buf`, least significant byte first. It panics on a shorter `buf`.
#[verifier::external_body]
pub(crate) fn le_read_u32(buf: &[u8]) -> (value: u32)
    requires
        buf@.len() >= 4,
    ensures
        value == le_value(buf@.subrange(0, 4)),
{
    LE::read_u32(buf)
}

/// `byteorder::LittleEndian::read_u64`: the value of the first 8 bytes of
/// `buf`, least significant byte first. It panics on a shorter `buf`.
#[verifier::external_body]
pub(crate) fn le_read_u64(buf: &[u8]) -> (value: u64)
    requires
        buf@.len() >= 8,
    ensures
        value == le_value(buf@.subrange(0, 8)),
{
    LE::read_u64(buf)
}

/// `byteorder::LittleEndian::read_u128`: the value of the first 16 bytes of
/// `buf`, least significant byte first. It panics on a shorter `buf`.
#[verifier::external_body]
pub(crate) fn le_read_u128(buf: &[u8]) -> (value: u128)
    requires
        buf@.len() >= 16,
    ensures
        value == le_value(buf@.subrange(0, 16)),
{
    LE::read_u128(buf)
}

/// `byteorder::LittleEndian::read_uint`: the value of the first `nbytes` bytes
/// of `buf`, least significant byte first. It panics unless `nbytes` is between
/// 1 and 8 and `buf` holds that many bytes.
#[verifier::external_body]
pub(crate) fn le_read_uint(buf: &[u8], nbytes: usize) -> (value: u64)
    requires
        1 <= nbytes <= 8,
        nbytes <= buf@.len(),
    ensures
        value == le_value(buf@.subrange(0, nbytes as int)),
{
    LE::read_uint(buf, nbytes)
}

/// `byteorder::LittleEndian::read_uint128`: the value of the first `nbytes` bytes
/// of `buf`, least significant byte first. It panics unless `nbytes` is between
/// 1 and 16 and `buf` holds that many bytes.
#[verifier::external_body]
pub(crate) fn le_read_uint128(buf: &[u8], nbytes: usize) -> (value: u128)
    requires
        1 <= nbytes <= 16,
        nbytes <= buf@.len(),
    ensures
        value == le_value(buf@.subrange(0, nbytes as int)),
{
    LE::read_uint128(buf, nbytes)
}

/// `byteorder::LittleEndian::read_i16`: the first 2 bytes of `buf`,
/// least significant byte first, read as a two's complement number. It
/// panics on a shorter `buf`.
#[verifier::external_body]
pub(crate) fn le_read_i16(buf: &[u8]) -> (value: i16)
    requires
        buf@.len() >= 2,
    ensures
        value == as_signed(le_value(buf@.subrange(0, 2)), 2),
{
    LE::read_i16(buf)
}

/// `byteorder::LittleEndian::read_i24`: the first 3 bytes of `buf`,
/// least significant byte first, read as a two's complement number. It
/// panics on a shorter `buf`.
#[verifier::external_body]
pub(crate) fn le_read_i24(buf: &[u8]) -> (value: i32)
    requires
        buf@.len() >= 3,
    ensures
        value == as_signed(le_value(buf@.subrange(0, 3)), 3),
{
    LE::read_i24(buf)
}

/// `byteorder::LittleEndian::read_i32`: the first 4 bytes of `buf`,
/// least significant byte first, read as a two's complement number. It
/// panics on a shorter `buf`.
#[verifier::external_body]
pub(crate) fn le_read_i32(buf: &[u8]) -> (value: i32)
    requires
        buf@.len() >= 4,
    ensures
        value == as_signed(le_value(buf@.subrange(0, 4)), 4),
{
    LE::read_i32(buf)
}

/// `byteorder::LittleEndian::read_i64`: the first 8 bytes of `buf`,
/// least significant byte first, read as a two's complement number. It
/// panics on a shorter `buf`.
#[verifier::external_body]
pub(crate) fn le_read_i64(buf: &[u8]) -> (value: i64)
    requires
        buf@.len() >= 8,
    ensures
        value == as_signed(le_value(buf@.subrange(0, 8)), 8),
{
    LE::read_i64(buf)
}

/// `byteorder::LittleEndian::read_i128`: the first 16 bytes of `buf`,
/// least significant byte first, read as a two's complement number. It
/// panics on a shorter `buf`.
#[verifier::external_body]
pub(crate) fn le_read_i128(buf: &[u8]) -> (value: i128)
    requires
        buf@.len() >= 16,
    ensures
        value == as_signed(le_value(buf@.subrange(0, 16)), 16),
{
    LE::read_i128(buf)
}

/// `byteorder::LittleEndian::read_int`: the first `nbytes` bytes of `buf`,
/// least significant byte first, read as a two's complement number of that
/// width. It panics unless `nbytes` is between 1 and 8 and `buf` holds
/// that many bytes.
#[verifier::external_body]
pub(crate) fn le_read_int(buf: &[u8], nbytes: usize) -> (value: i64)
    requires
        1 <= nbytes <= 8,
        nbytes <= buf@.len(),
    ensures
        value == as_signed(le_value(buf@.subrange(0, nbytes as int)), nbytes as nat),
{
    LE::read_int(buf, nbytes)
}

/// `byteorder::LittleEndian::read_int128`: the first `nbytes` bytes of `buf`,
/// least significant byte first, read as a two's complement number of that
/// width. It panics unless `nbytes` is between 1 and 16 and `buf` holds
/// that many bytes.
#[verifier::external_body]
pub(crate) fn le_read_int128(buf: &[u8], nbytes: usize) -> (value: i128)
    requires
        1 <= nbytes <= 16,
        nbytes <= buf@.len(),
    ensures
        value == as_signed(le_value(buf@.subrange(0, nbytes as int)), nbytes as nat),
{
    LE::read_int128(buf, nbytes)
}

/// `byteorder::LittleEndian::write_u16`: overwrites the first 2 bytes of
/// `buf` with `value`, least significant byte first, and leaves the rest of
/// `buf` as it was. It panics on a shorter `buf`.
#[verifier::external_body]
pub(crate) fn le_write_u16(buf: &mut [u8], value: u16)
    requires
        old(buf)@.len() >= 2,
    ensures
        final(buf)@ == splice(old(buf)@, 0, le_bytes(value as int, 2)),
{
    LE::write_u16(buf, value)
}

/// `byteorder::LittleEndian::write_u24`: overwrites the first 3 bytes of
/// `buf` with `value`, least significant byte first, and leaves the rest of
/// `buf` as it was. It panics on a shorter `buf` and on a
/// `value` that 3 bytes cannot hold.
#[verifier::external_body]
pub(crate) fn le_write_u24(buf: &mut [u8], value: u32)
    requires
        old(buf)@.len() >= 3,
        value < 0x100_0000,
    ensures
        final(buf)@ == splice(old(buf)@, 0, le_bytes(value as int, 3)),
{
    LE::write_u24(buf, value)
}

/// `byteorder::LittleEndian::write_u32`: overwrites the first 4 bytes of
/// `buf` with `value`, least significant byte first, and leaves the rest of
/// `buf` as it was. It panics on a shorter `buf`.
#[verifier::external_body]
pub(crate) fn le_write_u32(buf: &mut [u8], value: u32)
    requires
        old(buf)@.len() >= 4,
    ensures
        final(buf)@ == splice(old(buf)@, 0, le_bytes(value as int, 4)),
{
    LE::write_u32(buf, value)
}

/// `byteorder::LittleEndian::write_u64`: overwrites the first 8 bytes of
/// `buf` with `value`, least significant byte first, and leaves the rest of
/// `buf` as it was. It panics on a shorter `buf`.
#[verifier::external_body]
pub(crate) fn le_write_u64(buf: &mut [u8], value: u64)
    requires
        old(buf)@.len() >= 8,
    ensures
        final(buf)@ == splice(old(buf)@, 0, le_bytes(value as int, 8)),
{
    LE::write_u64(buf, value)
}

/// `byteorder::LittleEndian::write_u128`: overwrites the first 16 bytes of
/// `buf` with `value`, least significant byte first, and leaves the rest of
/// `buf` as it was. It panics on a shorter `buf`.
#[verifier::external_body]
pub(crate) fn le_write_u128(buf: &mut [u8], value: u128)
    requires
        old(buf)@.len() >= 16,
    ensures
        final(buf)@ == splice(old(buf)@, 0, le_bytes(value as int, 16)),
{
    LE::write_u128(buf, value)
}

/// `byteorder::LittleEndian::write_uint`: overwrites the first `nbytes` bytes of
/// `buf` with `value`, least significant byte first, and leaves the rest of
/// `buf` as it was. It panics unless `nbytes` is between 1 and 8, `buf`
/// holds that many bytes and they can hold `value`.
#[verifier::external_body]
pub(crate) fn le_write_uint(buf: &mut [u8], value: u64, nbytes: usize)
    requires
        1 <= nbytes <= 8,
        nbytes <= old(buf)@.len(),
        value < word_range(nbytes as nat),
    ensures
        final(buf)@ == splice(old(buf)@, 0, le_bytes(value as int, nbytes as nat)),
{
    LE::write_uint(buf, value, nbytes)
}

/// `byteorder::LittleEndian::write_uint128`: overwrites the first `nbytes` bytes of
/// `buf` with `value`, least significant byte first, and leaves the rest of
/// `buf` as it was. It panics unless `nbytes` is between 1 and 16, `buf`
/// holds that many bytes and they can hold `value`.
#[verifier::external_body]
pub(crate) fn le_write_uint128(buf: &mut [u8], value: u128, nbytes: usize)
    requires
        1 <= nbytes <= 16,
        nbytes <= old(buf)@.len(),
        value < word_range(nbytes as nat),
    ensures
        final(buf)@ == splice(old(buf)@, 0, le_bytes(value as int, nbytes as nat)),
{
    LE::write_uint128(buf, value, nbytes)
}

/// `byteorder::LittleEndian::write_i16`: overwrites the first 2 bytes of
/// `buf` with the two's complement of `value`, least significant byte first,
/// and leaves the rest of `buf` as it was. It panics on a shorter
/// `buf`.
#[verifier::external_body]
pub(crate) fn le_write_i16(buf: &mut [u8], value: i16)
    requires
        old(buf)@.len() >= 2,
    ensures
        final(buf)@ == splice(old(buf)@, 0, le_bytes(value as int, 2)),
{
    LE::write_i16(buf, value)
}

/// `byteorder::LittleEndian::write_i24`: overwrites the first 3 bytes of
/// `buf` with the two's complement of `value`, least significant byte first,
/// and leaves the rest of `buf` as it was. The value is
/// masked to 3 bytes before its size is checked, so that of a `value` that
/// 3 bytes cannot hold the 3 low bytes are written. It panics on a shorter
/// `buf`.
#[verifier::external_body]
pub(crate) fn le_write_i24(buf: &mut [u8], value: i32)
    requires
        old(buf)@.len() >= 3,
    ensures
        final(buf)@ == splice(old(buf)@, 0, le_bytes(value as int, 3)),
{
    LE::write_i24(buf, value)
}

/// `byteorder::LittleEndian::write_i32`: overwrites the first 4 bytes of
/// `buf` with the two's complement of `value`, least significant byte first,
/// and leaves the rest of `buf` as it was. It panics on a shorter
/// `buf`.
#[verifier::external_body]
pub(crate) fn le_write_i32(buf: &mut [u8], value: i32)
    requires
        old(buf)@.len() >= 4,
    ensures
        final(buf)@ == splice(old(buf)@, 0, le_bytes(value as int, 4)),
{
    LE::write_i32(buf, value)
}

/// `byteorder::LittleEndian::write_i64`: overwrites the first 8 bytes of
/// `buf` with the two's complement of `value`, least significant byte first,
/// and leaves the rest of `buf` as it was. It panics on a shorter
/// `buf`.
#[verifier::external_body]
pub(crate) fn le_write_i64(buf: &mut [u8], value: i64)
    requires
        old(buf)@.len() >= 8,
    ensures
        final(buf)@ == splice(old(buf)@, 0, le_bytes(value as int, 8)),
{
    LE::write_i64(buf, value)
}

/// `byteorder::LittleEndian::write_i128`: overwrites the first 16 bytes of
/// `buf` with the two's complement of `value`, least significant byte first,
/// and leaves the rest of `buf` as it was. It panics on a shorter
/// `buf`.
#[verifier::external_body]
pub(crate) fn le_write_i128(buf: &mut [u8], value: i128)
    requires
        old(buf)@.len() >= 16,
    ensures
        final(buf)@ == splice(old(buf)@, 0, le_bytes(value as int, 16)),
{
    LE::write_i128(buf, value)
}

/// `byteorder::LittleEndian::write_int`: overwrites the first `nbytes` bytes of
/// `buf` with the `nbytes` low bytes of the two's complement of `value`,
/// least significant byte first, and leaves the rest of `buf` as it was. The
/// value is masked to `nbytes` bytes before its size is checked, so that no
/// `value` makes it panic. It panics unless `nbytes` is between 1 and 8
/// and `buf` holds that many bytes.
#[verifier::external_body]
pub(crate) fn le_write_int(buf: &mut [u8], value: i64, nbytes: usize)
    requires
        1 <= nbytes <= 8,
        nbytes <= old(buf)@.len(),
    ensures
        final(buf)@ == splice(old(buf)@, 0, le_bytes(value as int, nbytes as nat)),
{
    LE::write_int(buf, value, nbytes)
}

/// `byteorder::LittleEndian::write_int128`: overwrites the first `nbytes` bytes of
/// `buf` with the `nbytes` low bytes of the two's complement of `value`,
/// least significant byte first, and leaves the rest of `buf` as it was. The
/// value is masked to `nbytes` bytes before its size is checked, so that no
/// `value` makes it panic. It panics unless `nbytes` is between 1 and 16
/// and `buf` holds that many bytes.
#[verifier::external_body]
pub(crate) fn le_write_int128(buf: &mut [u8], value: i128, nbytes: usize)
    requires
        1 <= nbytes <= 16,
        nbytes <= old(buf)@.len(),
    ensures
        final(buf)@ == splice(old(buf)@, 0, le_bytes(value as int, nbytes as nat)),
{
    LE::write_int128(buf, value, nbytes)
}

/// `byteorder::NativeEndian::read_u16`: the value of the first 2 bytes of
/// `buf` in the byte order of the machine, which is one of the two. It
/// panics on a shorter `buf`.
#[verifier::external_body]
pub(crate) fn native_read_u16(buf: &[u8]) -> (value: u16)
    requires
        buf@.len() >= 2,
    ensures
        value == be_value(buf@.subrange(0, 2)) || value == le_value(buf@.subrange(0, 2)),
{
    NativeEndian::read_u16(buf)
}

} // verus!
