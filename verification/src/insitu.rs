//! Endian-independent access to the fields of a buffer view.
//!
//! A view says which byte order its bytes are in and how wide its swap
//! window is. Every accessor takes the offset that the field would have in a
//! big-endian buffer, translates it with [`crate::geometry::at`], and reads
//! or writes the word there in the view's byte order.

use crate::codec::{
    as_signed, encode, fits_signed, fits_unsigned, lemma_cross_order, lemma_encode_len,
    lemma_round_trip_signed, lemma_round_trip_unsigned, lemma_word_range_values, read_signed,
    read_unsigned, splice, swap_bytes, word_at, word_range, write_word,
};
use crate::endian::{
    be_read_i128, be_read_i16, be_read_i24, be_read_i32, be_read_i64, be_read_int,
    be_read_int128, be_read_u128, be_read_u16, be_read_u24, be_read_u32, be_read_u64,
    be_read_uint, be_read_uint128, be_write_i128, be_write_i16, be_write_i24, be_write_i32,
    be_write_i64, be_write_int, be_write_int128, be_write_u128, be_write_u16, be_write_u24,
    be_write_u32, be_write_u64, be_write_uint, be_write_uint128, le_read_i128, le_read_i16,
    le_read_i24, le_read_i32, le_read_i64, le_read_int, le_read_int128, le_read_u128,
    le_read_u16, le_read_u24, le_read_u32, le_read_u64, le_read_uint, le_read_uint128,
    le_write_i128, le_write_i16, le_write_i24, le_write_i32, le_write_i64, le_write_int,
    le_write_int128, le_write_u128, le_write_u16, le_write_u24, le_write_u32, le_write_u64,
    le_write_uint, le_write_uint128, native_read_u16,
};
use crate::geometry::{at, at_spec};
use crate::text::{bstr_contents, bstr_new, from_utf8, text_error, DecodeError};
use bstr::BStr;
use vstd::prelude::*;
use vstd::utf8::{encode_utf8, valid_utf8};

verus! {

/// Size of `u8` in bytes.
pub const U8: usize = 1;

/// Size of `u16` in bytes.
pub const U16: usize = 2;

/// Size of `u24` in bytes.
pub const U24: usize = 3;

/// Size of `u32` in bytes.
pub const U32: usize = 4;

/// Size of `u64` in bytes.
pub const U64: usize = 8;

/// Size of `u128` in bytes.
pub const U128: usize = 16;

/// Size of `i8` in bytes.
pub const I8: usize = 1;

/// Size of `i16` in bytes.
pub const I16: usize = 2;

/// Size of `i24` in bytes.
pub const I24: usize = 3;

/// Size of `i32` in bytes.
pub const I32: usize = 4;

/// Size of `i64` in bytes.
pub const I64: usize = 8;

/// Size of `i128` in bytes.
pub const I128: usize = 16;

/// Size of a single-precision floating-point number in bytes.
pub const F32: usize = 4;

/// Size of a double-precision floating-point number in bytes.
pub const F64: usize = 8;

/// Helper type describing the underlying byte order.
#[derive(Debug, Clone, Copy, PartialEq, Eq, Structural)]
pub enum Order {
    /// Big-endian byte order.
    BE,
    /// Little-endian byte order.
    LE,
}

/// Helper type specifying whether to take the bytes of the header only or
/// the whole packet.
#[derive(Debug, Clone, Copy, PartialEq, Eq, Structural)]
pub enum Take {
    /// Take bytes of header only.
    Header,
    /// Take bytes of whole packet.
    Packet,
}

/// The run of `bytes` from `pos` to the end starts with the word at `pos`.
proof fn lemma_tail_word(bytes: Seq<u8>, pos: int, n: nat)
    requires
        0 <= pos,
        pos + n <= bytes.len(),
    ensures
        bytes.subrange(pos, bytes.len() as int).subrange(0, n as int) == word_at(bytes, pos, n),
{
    assert(bytes.subrange(pos, bytes.len() as int).subrange(0, n as int) =~= word_at(
        bytes,
        pos,
        n,
    ));
}

/// After a codec wrote `value` into the front of the run from `pos` to the
/// end, the buffer is what writing the word at `pos` makes of it, it has
/// kept its length, and a value that fits the word is read back.
proof fn lemma_word_written(bytes: Seq<u8>, pos: int, n: nat, is_be: bool, value: int)
    requires
        0 <= pos,
        pos + n <= bytes.len(),
    ensures
        bytes.subrange(0, pos) + splice(
            bytes.subrange(pos, bytes.len() as int),
            0,
            encode(value, n, is_be),
        ) == write_word(bytes, pos, n, is_be, value),
        write_word(bytes, pos, n, is_be, value).len() == bytes.len(),
        fits_unsigned(value, n) ==> read_unsigned(
            write_word(bytes, pos, n, is_be, value),
            pos,
            n,
            is_be,
        ) == value,
        fits_signed(value, n) ==> read_signed(
            write_word(bytes, pos, n, is_be, value),
            pos,
            n,
            is_be,
        ) == value,
{
    let word = encode(value, n, is_be);
    lemma_encode_len(value, n, is_be);
    assert(bytes.subrange(0, pos) + splice(bytes.subrange(pos, bytes.len() as int), 0, word)
        =~= splice(bytes, pos, word));
    if fits_unsigned(value, n) {
        lemma_round_trip_unsigned(bytes, pos, n, is_be, value);
    }
    if fits_signed(value, n) {
        lemma_round_trip_signed(bytes, pos, n, is_be, value);
    }
}

/// Whether the word of `word_size` bytes at the big-endian `offset` lies
/// inside `bytes`, for a view of the given byte order and swap window.
pub open spec fn field_fits(
    bytes: Seq<u8>,
    offset: usize,
    word_size: usize,
    is_be: bool,
    swap_size: usize,
) -> bool {
    at_spec(offset, word_size, is_be, swap_size) + word_size <= bytes.len()
}

/// The byte at the big-endian `offset`.
pub open spec fn field_byte(bytes: Seq<u8>, offset: usize, is_be: bool, swap_size: usize) -> u8 {
    bytes[at_spec(offset, 1, is_be, swap_size) as int]
}

/// The unsigned value of the word of `word_size` bytes at the big-endian
/// `offset`.
pub open spec fn field_unsigned(
    bytes: Seq<u8>,
    offset: usize,
    word_size: usize,
    is_be: bool,
    swap_size: usize,
) -> nat {
    read_unsigned(
        bytes,
        at_spec(offset, word_size, is_be, swap_size) as int,
        word_size as nat,
        is_be,
    )
}

/// The signed value of the word of `word_size` bytes at the big-endian
/// `offset`.
pub open spec fn field_signed(
    bytes: Seq<u8>,
    offset: usize,
    word_size: usize,
    is_be: bool,
    swap_size: usize,
) -> int {
    read_signed(
        bytes,
        at_spec(offset, word_size, is_be, swap_size) as int,
        word_size as nat,
        is_be,
    )
}

/// `bytes` after `value` is written into the word of `word_size` bytes at
/// the big-endian `offset`.
pub open spec fn field_written(
    bytes: Seq<u8>,
    offset: usize,
    word_size: usize,
    is_be: bool,
    swap_size: usize,
    value: int,
) -> Seq<u8> {
    write_word(
        bytes,
        at_spec(offset, word_size, is_be, swap_size) as int,
        word_size as nat,
        is_be,
        value,
    )
}

/// `bytes` after `byte` is written at the big-endian `offset`.
pub open spec fn field_byte_written(
    bytes: Seq<u8>,
    offset: usize,
    is_be: bool,
    swap_size: usize,
    byte: u8,
) -> Seq<u8> {
    bytes.update(at_spec(offset, 1, is_be, swap_size) as int, byte)
}

/// Round trip of a byte: the byte that was written at an offset is the byte
/// that is read there, and no other byte changes.
pub proof fn lemma_byte_round_trip(
    bytes: Seq<u8>,
    offset: usize,
    is_be: bool,
    swap_size: usize,
    byte: u8,
)
    requires
        field_fits(bytes, offset, 1, is_be, swap_size),
    ensures
        field_byte(
            field_byte_written(bytes, offset, is_be, swap_size, byte),
            offset,
            is_be,
            swap_size,
        ) == byte,
        field_byte_written(bytes, offset, is_be, swap_size, byte).len() == bytes.len(),
        forall|i: int|
            0 <= i < bytes.len() && i != at_spec(offset, 1, is_be, swap_size) ==> field_byte_written(
                bytes,
                offset,
                is_be,
                swap_size,
                byte,
            )[i] == bytes[i],
{
}

/// Round trip of an unsigned field: a value that fits the word is read back
/// at the offset at which it was written, in either byte order and whatever
/// the swap window. The buffer keeps its length, and the bytes outside the
/// word keep their values.
pub proof fn lemma_unsigned_round_trip(
    bytes: Seq<u8>,
    offset: usize,
    word_size: usize,
    is_be: bool,
    swap_size: usize,
    value: int,
)
    requires
        field_fits(bytes, offset, word_size, is_be, swap_size),
        fits_unsigned(value, word_size as nat),
    ensures
        field_unsigned(
            field_written(bytes, offset, word_size, is_be, swap_size, value),
            offset,
            word_size,
            is_be,
            swap_size,
        ) == value,
        field_written(bytes, offset, word_size, is_be, swap_size, value).len() == bytes.len(),
        forall|i: int|
            0 <= i < bytes.len() && !(at_spec(offset, word_size, is_be, swap_size) <= i < at_spec(
                offset,
                word_size,
                is_be,
                swap_size,
            ) + word_size) ==> field_written(bytes, offset, word_size, is_be, swap_size, value)[i]
                == bytes[i],
{
    lemma_round_trip_unsigned(
        bytes,
        at_spec(offset, word_size, is_be, swap_size) as int,
        word_size as nat,
        is_be,
        value,
    );
}

/// Round trip of a signed field: a value that fits the word is read back at
/// the offset at which it was written, in either byte order and whatever the
/// swap window.
pub proof fn lemma_signed_round_trip(
    bytes: Seq<u8>,
    offset: usize,
    word_size: usize,
    is_be: bool,
    swap_size: usize,
    value: int,
)
    requires
        field_fits(bytes, offset, word_size, is_be, swap_size),
        fits_signed(value, word_size as nat),
    ensures
        field_signed(
            field_written(bytes, offset, word_size, is_be, swap_size, value),
            offset,
            word_size,
            is_be,
            swap_size,
        ) == value,
        field_written(bytes, offset, word_size, is_be, swap_size, value).len() == bytes.len(),
{
    lemma_round_trip_signed(
        bytes,
        at_spec(offset, word_size, is_be, swap_size) as int,
        word_size as nat,
        is_be,
        value,
    );
}

/// Cross-order distinction: a word written through a big-endian view and
/// read at the same offset through a little-endian view of the same bytes
/// has its bytes reversed, where the little-endian view finds the word at
/// that offset: its swap window is as wide as the word, or narrower.
pub proof fn lemma_cross_order_field(
    bytes: Seq<u8>,
    offset: usize,
    word_size: usize,
    swap_size: usize,
    value: int,
)
    requires
        field_fits(bytes, offset, word_size, true, swap_size),
        swap_size <= word_size,
    ensures
        at_spec(offset, word_size, false, swap_size) == offset,
        field_unsigned(
            field_written(bytes, offset, word_size, true, swap_size, value),
            offset,
            word_size,
            false,
            swap_size,
        ) == swap_bytes(value, word_size as nat),
{
    assert(offset ^ 0 == offset) by (bit_vector);
    lemma_cross_order(bytes, offset as int, word_size as nat, true, value);
}

/// Whether the two-byte pattern `[0, 1]`, read in the machine's byte order
/// as `probe`, shows the machine to have the byte order `is_be`.
pub fn probe_is_native(is_be: bool, probe: u16) -> (native: bool)
    ensures
        native == (is_be == (probe == 1)),
{
    is_be == (probe == 1)
}

/// Provides endian-independent immutable bytes access.
///
/// An implementor says where its bytes are, which byte order they are in and
/// how wide the swap window is. The accessors follow from these three.
pub trait InSitu {
    /// The bytes of the view.
    spec fn bytes(&self) -> Seq<u8>;

    /// The width of the swap window in bytes.
    spec fn spec_swap_size(&self) -> usize;

    /// Whether the bytes are in big-endian byte order.
    spec fn spec_is_be(&self) -> bool;

    /// The bytes of the view as a slice.
    fn as_bytes(&self) -> (bytes: &[u8])
        ensures
            bytes@ == self.bytes(),
    ;

    /// The word size of the slice required by [`Self::at()`], not to be
    /// confused with the various word sizes of how to access the slice. Use
    /// `0` if the byte order does not affect the offsets.
    #[verifier::when_used_as_spec(spec_swap_size)]
    fn swap_size(&self) -> (size: usize)
        ensures
            size == self.spec_swap_size(),
    ;

    /// Whether the underlying bytes are in big-endian (BE) or little-endian
    /// (LE) byte order.
    #[verifier::when_used_as_spec(spec_is_be)]
    fn is_be(&self) -> (be: bool)
        ensures
            be == self.spec_is_be(),
    ;

    /// Inversion of [`Self::is_be()`].
    fn is_le(&self) -> (le: bool)
        ensures
            le == !self.spec_is_be(),
    {
        !self.is_be()
    }

    /// Tests if the underlying byte order has the machine's native
    /// endianness, which the machine shows by how it reads the bytes
    /// `[0, 1]`: see [`probe_is_native`].
    fn is_native(&self) -> (native: bool) {
        let pattern: [u8; 2] = [0, 1];
        let probe = native_read_u16(pattern.as_slice());
        probe_is_native(self.is_be(), probe)
    }

    /// Convert [`Self::is_be()`] and [`Self::is_le()`] into `Order`.
    fn order(&self) -> (order: Order)
        ensures
            order == (if self.spec_is_be() {
                Order::BE
            } else {
                Order::LE
            }),
    {
        if self.is_be() {
            Order::BE
        } else {
            Order::LE
        }
    }

    /// If [`Self::is_le()`], translates big-endian `offset` of word with
    /// `word_size` in slice of [`Self::swap_size()`] into little-endian via
    /// bitwise instead of branching and modulo operations, otherwise passes
    /// through `offset`.
    fn at(&self, offset: usize, word_size: usize) -> (pos: usize)
        ensures
            pos == at_spec(offset, word_size, self.spec_is_be(), self.spec_swap_size()),
    {
        at(offset, word_size, self.is_be(), self.swap_size())
    }

    /// Gets the text of `length` bytes at `offset` if it is UTF-8. The
    /// offset is taken as it is, whatever the byte order.
    ///
    /// # Errors
    ///
    /// Returns [`DecodeError`] if the bytes are not UTF-8, with the length
    /// of the longest prefix that is and, where the input continues behind
    /// it, the length of the sequence that is not.
    fn utf8(&self, offset: usize, length: usize) -> (text: Result<&str, DecodeError>)
        requires
            offset + length <= self.bytes().len(),
        ensures
            text is Ok <==> valid_utf8(word_at(self.bytes(), offset as int, length as nat)),
            text is Ok ==> encode_utf8(text->Ok_0@) == word_at(
                self.bytes(),
                offset as int,
                length as nat,
            ),
            text is Err ==> text_error(
                word_at(self.bytes(), offset as int, length as nat),
                text->Err_0,
            ),
    {
        let buf = self.as_bytes();
        assert(buf.len() == buf@.len());
        from_utf8(&buf[offset..offset + length])
    }

    /// Gets the byte string of `length` bytes at `offset`. The offset is
    /// taken as it is, whatever the byte order.
    fn bstr(&self, offset: usize, length: usize) -> (text: &BStr)
        requires
            offset + length <= self.bytes().len(),
        ensures
            bstr_contents(text) == word_at(self.bytes(), offset as int, length as nat),
    {
        let buf = self.as_bytes();
        assert(buf.len() == buf@.len());
        bstr_new(&buf[offset..offset + length])
    }

    /// Gets `bool` at big-endian `offset` endian-independently: whether the
    /// byte there is not zero.
    fn bool(&self, offset: usize) -> (value: bool)
        requires
            field_fits(self.bytes(), offset, U8, self.spec_is_be(), self.spec_swap_size()),
        ensures
            value == (field_byte(self.bytes(), offset, self.spec_is_be(), self.spec_swap_size()) != 0),
    {
        self.u8(offset) != 0
    }

    /// Gets `u8` at big-endian `offset` endian-independently.
    fn u8(&self, offset: usize) -> (value: u8)
        requires
            field_fits(self.bytes(), offset, U8, self.spec_is_be(), self.spec_swap_size()),
        ensures
            value == field_byte(self.bytes(), offset, self.spec_is_be(), self.spec_swap_size()),
    {
        let pos = self.at(offset, U8);
        self.as_bytes()[pos]
    }

    /// Gets `u16` at big-endian `offset` endian-independently.
    fn u16(&self, offset: usize) -> (value: u16)
        requires
            field_fits(self.bytes(), offset, U16, self.spec_is_be(), self.spec_swap_size()),
        ensures
            value == field_unsigned(
                self.bytes(),
                offset,
                U16,
                self.spec_is_be(),
                self.spec_swap_size(),
            ),
    {
        let pos = self.at(offset, U16);
        let buf = self.as_bytes();
        proof {
            lemma_tail_word(buf@, pos as int, U16 as nat);
        }
        if self.is_be() {
            be_read_u16(&buf[pos..buf.len()])
        } else {
            le_read_u16(&buf[pos..buf.len()])
        }
    }

    /// Gets `u24` as `u32` at big-endian `offset` endian-independently.
    fn u24(&self, offset: usize) -> (value: u32)
        requires
            field_fits(self.bytes(), offset, U24, self.spec_is_be(), self.spec_swap_size()),
        ensures
            value == field_unsigned(
                self.bytes(),
                offset,
                U24,
                self.spec_is_be(),
                self.spec_swap_size(),
            ),
    {
        let pos = self.at(offset, U24);
        let buf = self.as_bytes();
        proof {
            lemma_tail_word(buf@, pos as int, U24 as nat);
        }
        if self.is_be() {
            be_read_u24(&buf[pos..buf.len()])
        } else {
            le_read_u24(&buf[pos..buf.len()])
        }
    }

    /// Gets `u32` at big-endian `offset` endian-independently.
    fn u32(&self, offset: usize) -> (value: u32)
        requires
            field_fits(self.bytes(), offset, U32, self.spec_is_be(), self.spec_swap_size()),
        ensures
            value == field_unsigned(
                self.bytes(),
                offset,
                U32,
                self.spec_is_be(),
                self.spec_swap_size(),
            ),
    {
        let pos = self.at(offset, U32);
        let buf = self.as_bytes();
        proof {
            lemma_tail_word(buf@, pos as int, U32 as nat);
        }
        if self.is_be() {
            be_read_u32(&buf[pos..buf.len()])
        } else {
            le_read_u32(&buf[pos..buf.len()])
        }
    }

    /// Gets `u64` at big-endian `offset` endian-independently.
    fn u64(&self, offset: usize) -> (value: u64)
        requires
            field_fits(self.bytes(), offset, U64, self.spec_is_be(), self.spec_swap_size()),
        ensures
            value == field_unsigned(
                self.bytes(),
                offset,
                U64,
                self.spec_is_be(),
                self.spec_swap_size(),
            ),
    {
        let pos = self.at(offset, U64);
        let buf = self.as_bytes();
        proof {
            lemma_tail_word(buf@, pos as int, U64 as nat);
        }
        if self.is_be() {
            be_read_u64(&buf[pos..buf.len()])
        } else {
            le_read_u64(&buf[pos..buf.len()])
        }
    }

    /// Gets `u128` at big-endian `offset` endian-independently.
    fn u128(&self, offset: usize) -> (value: u128)
        requires
            field_fits(self.bytes(), offset, U128, self.spec_is_be(), self.spec_swap_size()),
        ensures
            value == field_unsigned(
                self.bytes(),
                offset,
                U128,
                self.spec_is_be(),
                self.spec_swap_size(),
            ),
    {
        let pos = self.at(offset, U128);
        let buf = self.as_bytes();
        proof {
            lemma_tail_word(buf@, pos as int, U128 as nat);
        }
        if self.is_be() {
            be_read_u128(&buf[pos..buf.len()])
        } else {
            le_read_u128(&buf[pos..buf.len()])
        }
    }

    /// Gets unsigned integer of `word_size` bytes, between 1 and 8, at big-endian
    /// `offset` endian-independently.
    fn uint(&self, offset: usize, word_size: usize) -> (value: u64)
        requires
            1 <= word_size <= 8,
            field_fits(self.bytes(), offset, word_size, self.spec_is_be(), self.spec_swap_size()),
        ensures
            value == field_unsigned(
                self.bytes(),
                offset,
                word_size,
                self.spec_is_be(),
                self.spec_swap_size(),
            ),
    {
        let pos = self.at(offset, word_size);
        let buf = self.as_bytes();
        proof {
            lemma_tail_word(buf@, pos as int, word_size as nat);
        }
        if self.is_be() {
            be_read_uint(&buf[pos..buf.len()], word_size)
        } else {
            le_read_uint(&buf[pos..buf.len()], word_size)
        }
    }

    /// Gets unsigned integer of `word_size` bytes, between 1 and 16, at big-endian
    /// `offset` endian-independently.
    fn uint128(&self, offset: usize, word_size: usize) -> (value: u128)
        requires
            1 <= word_size <= 16,
            field_fits(self.bytes(), offset, word_size, self.spec_is_be(), self.spec_swap_size()),
        ensures
            value == field_unsigned(
                self.bytes(),
                offset,
                word_size,
                self.spec_is_be(),
                self.spec_swap_size(),
            ),
    {
        let pos = self.at(offset, word_size);
        let buf = self.as_bytes();
        proof {
            lemma_tail_word(buf@, pos as int, word_size as nat);
        }
        if self.is_be() {
            be_read_uint128(&buf[pos..buf.len()], word_size)
        } else {
            le_read_uint128(&buf[pos..buf.len()], word_size)
        }
    }

    /// Gets `i8` at big-endian `offset` endian-independently: the byte there
    /// as a two's complement number.
    fn i8(&self, offset: usize) -> (value: i8)
        requires
            field_fits(self.bytes(), offset, I8, self.spec_is_be(), self.spec_swap_size()),
        ensures
            value == as_signed(
                field_byte(self.bytes(), offset, self.spec_is_be(), self.spec_swap_size()) as nat,
                1,
            ),
    {
        let pos = self.at(offset, I8);
        let byte = self.as_bytes()[pos];
        proof {
            lemma_word_range_values();
            assert(byte as i8 == (if byte < 128 {
                byte as int
            } else {
                byte - 256
            })) by (bit_vector);
        }
        byte as i8
    }

    /// Gets `i16` at big-endian `offset` endian-independently.
    fn i16(&self, offset: usize) -> (value: i16)
        requires
            field_fits(self.bytes(), offset, I16, self.spec_is_be(), self.spec_swap_size()),
        ensures
            value == field_signed(
                self.bytes(),
                offset,
                I16,
                self.spec_is_be(),
                self.spec_swap_size(),
            ),
    {
        let pos = self.at(offset, I16);
        let buf = self.as_bytes();
        proof {
            lemma_tail_word(buf@, pos as int, I16 as nat);
        }
        if self.is_be() {
            be_read_i16(&buf[pos..buf.len()])
        } else {
            le_read_i16(&buf[pos..buf.len()])
        }
    }

    /// Gets `i24` as `i32` at big-endian `offset` endian-independently.
    fn i24(&self, offset: usize) -> (value: i32)
        requires
            field_fits(self.bytes(), offset, I24, self.spec_is_be(), self.spec_swap_size()),
        ensures
            value == field_signed(
                self.bytes(),
                offset,
                I24,
                self.spec_is_be(),
                self.spec_swap_size(),
            ),
    {
        let pos = self.at(offset, I24);
        let buf = self.as_bytes();
        proof {
            lemma_tail_word(buf@, pos as int, I24 as nat);
        }
        if self.is_be() {
            be_read_i24(&buf[pos..buf.len()])
        } else {
            le_read_i24(&buf[pos..buf.len()])
        }
    }

    /// Gets `i32` at big-endian `offset` endian-independently.
    fn i32(&self, offset: usize) -> (value: i32)
        requires
            field_fits(self.bytes(), offset, I32, self.spec_is_be(), self.spec_swap_size()),
        ensures
            value == field_signed(
                self.bytes(),
                offset,
                I32,
                self.spec_is_be(),
                self.spec_swap_size(),
            ),
    {
        let pos = self.at(offset, I32);
        let buf = self.as_bytes();
        proof {
            lemma_tail_word(buf@, pos as int, I32 as nat);
        }
        if self.is_be() {
            be_read_i32(&buf[pos..buf.len()])
        } else {
            le_read_i32(&buf[pos..buf.len()])
        }
    }

    /// Gets `i64` at big-endian `offset` endian-independently.
    fn i64(&self, offset: usize) -> (value: i64)
        requires
            field_fits(self.bytes(), offset, I64, self.spec_is_be(), self.spec_swap_size()),
        ensures
            value == field_signed(
                self.bytes(),
                offset,
                I64,
                self.spec_is_be(),
                self.spec_swap_size(),
            ),
    {
        let pos = self.at(offset, I64);
        let buf = self.as_bytes();
        proof {
            lemma_tail_word(buf@, pos as int, I64 as nat);
        }
        if self.is_be() {
            be_read_i64(&buf[pos..buf.len()])
        } else {
            le_read_i64(&buf[pos..buf.len()])
        }
    }

    /// Gets `i128` at big-endian `offset` endian-independently.
    fn i128(&self, offset: usize) -> (value: i128)
        requires
            field_fits(self.bytes(), offset, I128, self.spec_is_be(), self.spec_swap_size()),
        ensures
            value == field_signed(
                self.bytes(),
                offset,
                I128,
                self.spec_is_be(),
                self.spec_swap_size(),
            ),
    {
        let pos = self.at(offset, I128);
        let buf = self.as_bytes();
        proof {
            lemma_tail_word(buf@, pos as int, I128 as nat);
        }
        if self.is_be() {
            be_read_i128(&buf[pos..buf.len()])
        } else {
            le_read_i128(&buf[pos..buf.len()])
        }
    }

    /// Gets signed integer of `word_size` bytes, between 1 and 8, at big-endian
    /// `offset` endian-independently.
    fn int64(&self, offset: usize, word_size: usize) -> (value: i64)
        requires
            1 <= word_size <= 8,
            field_fits(self.bytes(), offset, word_size, self.spec_is_be(), self.spec_swap_size()),
        ensures
            value == field_signed(
                self.bytes(),
                offset,
                word_size,
                self.spec_is_be(),
                self.spec_swap_size(),
            ),
    {
        let pos = self.at(offset, word_size);
        let buf = self.as_bytes();
        proof {
            lemma_tail_word(buf@, pos as int, word_size as nat);
        }
        if self.is_be() {
            be_read_int(&buf[pos..buf.len()], word_size)
        } else {
            le_read_int(&buf[pos..buf.len()], word_size)
        }
    }

    /// Gets signed integer of `word_size` bytes, between 1 and 16, at big-endian
    /// `offset` endian-independently.
    fn int128(&self, offset: usize, word_size: usize) -> (value: i128)
        requires
            1 <= word_size <= 16,
            field_fits(self.bytes(), offset, word_size, self.spec_is_be(), self.spec_swap_size()),
        ensures
            value == field_signed(
                self.bytes(),
                offset,
                word_size,
                self.spec_is_be(),
                self.spec_swap_size(),
            ),
    {
        let pos = self.at(offset, word_size);
        let buf = self.as_bytes();
        proof {
            lemma_tail_word(buf@, pos as int, word_size as nat);
        }
        if self.is_be() {
            be_read_int128(&buf[pos..buf.len()], word_size)
        } else {
            le_read_int128(&buf[pos..buf.len()], word_size)
        }
    }
}

/// Provides endian-independent mutable bytes access.
///
/// An implementor hands out its bytes for writing. Its byte order and its
/// swap window stay what they are.
pub trait InSituMut: InSitu {
    /// The bytes of the view as a mutable slice. What is written through it
    /// is what the view holds afterwards.
    fn as_mut_bytes(&mut self) -> (bytes: &mut [u8])
        ensures
            bytes@ == old(self).bytes(),
            final(self).bytes() == final(bytes)@,
            final(self).spec_is_be() == old(self).spec_is_be(),
            final(self).spec_swap_size() == old(self).spec_swap_size(),
    ;

    /// Sets `bool` at big-endian `offset` endian-independently: the byte
    /// there becomes 1 for `true` and 0 for `false`.
    fn set_bool(&mut self, offset: usize, value: bool)
        requires
            field_fits(
                old(self).bytes(),
                offset,
                U8,
                old(self).spec_is_be(),
                old(self).spec_swap_size(),
            ),
        ensures
            final(self).bytes() == field_byte_written(
                old(self).bytes(),
                offset,
                old(self).spec_is_be(),
                old(self).spec_swap_size(),
                if value {
                    1u8
                } else {
                    0u8
                },
            ),
            (field_byte(
                final(self).bytes(),
                offset,
                old(self).spec_is_be(),
                old(self).spec_swap_size(),
            ) != 0) == value,
            final(self).spec_is_be() == old(self).spec_is_be(),
            final(self).spec_swap_size() == old(self).spec_swap_size(),
    {
        self.set_u8(offset, if value { 1 } else { 0 });
    }

    /// Sets `u8` at big-endian `offset` endian-independently.
    fn set_u8(&mut self, offset: usize, value: u8)
        requires
            field_fits(
                old(self).bytes(),
                offset,
                U8,
                old(self).spec_is_be(),
                old(self).spec_swap_size(),
            ),
        ensures
            final(self).bytes() == field_byte_written(
                old(self).bytes(),
                offset,
                old(self).spec_is_be(),
                old(self).spec_swap_size(),
                value,
            ),
            field_byte(
                final(self).bytes(),
                offset,
                old(self).spec_is_be(),
                old(self).spec_swap_size(),
            ) == value,
            final(self).spec_is_be() == old(self).spec_is_be(),
            final(self).spec_swap_size() == old(self).spec_swap_size(),
    {
        let pos = self.at(offset, U8);
        let buf = self.as_mut_bytes();
        buf[pos] = value;
    }

    /// Sets `u16` at big-endian `offset` endian-independently.
    fn set_u16(&mut self, offset: usize, value: u16)
        requires
            field_fits(
                old(self).bytes(),
                offset,
                U16,
                old(self).spec_is_be(),
                old(self).spec_swap_size(),
            ),
        ensures
            final(self).bytes() == field_written(
                old(self).bytes(),
                offset,
                U16,
                old(self).spec_is_be(),
                old(self).spec_swap_size(),
                value as int,
            ),
            field_unsigned(
                final(self).bytes(),
                offset,
                U16,
                old(self).spec_is_be(),
                old(self).spec_swap_size(),
            ) == value,
            final(self).bytes().len() == old(self).bytes().len(),
            final(self).spec_is_be() == old(self).spec_is_be(),
            final(self).spec_swap_size() == old(self).spec_swap_size(),
    {
        let pos = self.at(offset, U16);
        let be = self.is_be();
        let ghost before = self.bytes();
        let buf = self.as_mut_bytes();
        let (head, tail) = buf.split_at_mut(pos);
        if be {
            be_write_u16(tail, value);
        } else {
            le_write_u16(tail, value);
        }
        proof {
            lemma_word_range_values();
            lemma_word_written(before, pos as int, U16 as nat, be, value as int);
        }
    }

    /// Sets `u24` as `u32` at big-endian `offset` endian-independently.
    /// The value has to fit into 3 bytes.
    fn set_u24(&mut self, offset: usize, value: u32)
        requires
            field_fits(
                old(self).bytes(),
                offset,
                U24,
                old(self).spec_is_be(),
                old(self).spec_swap_size(),
            ),
            value < 0x100_0000,
        ensures
            final(self).bytes() == field_written(
                old(self).bytes(),
                offset,
                U24,
                old(self).spec_is_be(),
                old(self).spec_swap_size(),
                value as int,
            ),
            field_unsigned(
                final(self).bytes(),
                offset,
                U24,
                old(self).spec_is_be(),
                old(self).spec_swap_size(),
            ) == value,
            final(self).bytes().len() == old(self).bytes().len(),
            final(self).spec_is_be() == old(self).spec_is_be(),
            final(self).spec_swap_size() == old(self).spec_swap_size(),
    {
        let pos = self.at(offset, U24);
        let be = self.is_be();
        let ghost before = self.bytes();
        let buf = self.as_mut_bytes();
        let (head, tail) = buf.split_at_mut(pos);
        if be {
            be_write_u24(tail, value);
        } else {
            le_write_u24(tail, value);
        }
        proof {
            lemma_word_range_values();
            lemma_word_written(before, pos as int, U24 as nat, be, value as int);
        }
    }

    /// Sets `u32` at big-endian `offset` endian-independently.
    fn set_u32(&mut self, offset: usize, value: u32)
        requires
            field_fits(
                old(self).bytes(),
                offset,
                U32,
                old(self).spec_is_be(),
                old(self).spec_swap_size(),
            ),
        ensures
            final(self).bytes() == field_written(
                old(self).bytes(),
                offset,
                U32,
                old(self).spec_is_be(),
                old(self).spec_swap_size(),
                value as int,
            ),
            field_unsigned(
                final(self).bytes(),
                offset,
                U32,
                old(self).spec_is_be(),
                old(self).spec_swap_size(),
            ) == value,
            final(self).bytes().len() == old(self).bytes().len(),
            final(self).spec_is_be() == old(self).spec_is_be(),
            final(self).spec_swap_size() == old(self).spec_swap_size(),
    {
        let pos = self.at(offset, U32);
        let be = self.is_be();
        let ghost before = self.bytes();
        let buf = self.as_mut_bytes();
        let (head, tail) = buf.split_at_mut(pos);
        if be {
            be_write_u32(tail, value);
        } else {
            le_write_u32(tail, value);
        }
        proof {
            lemma_word_range_values();
            lemma_word_written(before, pos as int, U32 as nat, be, value as int);
        }
    }

    /// Sets `u64` at big-endian `offset` endian-independently.
    fn set_u64(&mut self, offset: usize, value: u64)
        requires
            field_fits(
                old(self).bytes(),
                offset,
                U64,
                old(self).spec_is_be(),
                old(self).spec_swap_size(),
            ),
        ensures
            final(self).bytes() == field_written(
                old(self).bytes(),
                offset,
                U64,
                old(self).spec_is_be(),
                old(self).spec_swap_size(),
                value as int,
            ),
            field_unsigned(
                final(self).bytes(),
                offset,
                U64,
                old(self).spec_is_be(),
                old(self).spec_swap_size(),
            ) == value,
            final(self).bytes().len() == old(self).bytes().len(),
            final(self).spec_is_be() == old(self).spec_is_be(),
            final(self).spec_swap_size() == old(self).spec_swap_size(),
    {
        let pos = self.at(offset, U64);
        let be = self.is_be();
        let ghost before = self.bytes();
        let buf = self.as_mut_bytes();
        let (head, tail) = buf.split_at_mut(pos);
        if be {
            be_write_u64(tail, value);
        } else {
            le_write_u64(tail, value);
        }
        proof {
            lemma_word_range_values();
            lemma_word_written(before, pos as int, U64 as nat, be, value as int);
        }
    }

    /// Sets `u128` at big-endian `offset` endian-independently.
    fn set_u128(&mut self, offset: usize, value: u128)
        requires
            field_fits(
                old(self).bytes(),
                offset,
                U128,
                old(self).spec_is_be(),
                old(self).spec_swap_size(),
            ),
        ensures
            final(self).bytes() == field_written(
                old(self).bytes(),
                offset,
                U128,
                old(self).spec_is_be(),
                old(self).spec_swap_size(),
                value as int,
            ),
            field_unsigned(
                final(self).bytes(),
                offset,
                U128,
                old(self).spec_is_be(),
                old(self).spec_swap_size(),
            ) == value,
            final(self).bytes().len() == old(self).bytes().len(),
            final(self).spec_is_be() == old(self).spec_is_be(),
            final(self).spec_swap_size() == old(self).spec_swap_size(),
    {
        let pos = self.at(offset, U128);
        let be = self.is_be();
        let ghost before = self.bytes();
        let buf = self.as_mut_bytes();
        let (head, tail) = buf.split_at_mut(pos);
        if be {
            be_write_u128(tail, value);
        } else {
            le_write_u128(tail, value);
        }
        proof {
            lemma_word_range_values();
            lemma_word_written(before, pos as int, U128 as nat, be, value as int);
        }
    }

    /// Sets unsigned integer of `word_size` bytes, between 1 and 8, at big-endian
    /// `offset` endian-independently.
    /// The value has to fit into `word_size` bytes.
    fn set_uint(&mut self, offset: usize, value: u64, word_size: usize)
        requires
            1 <= word_size <= 8,
            field_fits(
                old(self).bytes(),
                offset,
                word_size,
                old(self).spec_is_be(),
                old(self).spec_swap_size(),
            ),
            value < word_range(word_size as nat),
        ensures
            final(self).bytes() == field_written(
                old(self).bytes(),
                offset,
                word_size,
                old(self).spec_is_be(),
                old(self).spec_swap_size(),
                value as int,
            ),
            field_unsigned(
                final(self).bytes(),
                offset,
                word_size,
                old(self).spec_is_be(),
                old(self).spec_swap_size(),
            ) == value,
            final(self).bytes().len() == old(self).bytes().len(),
            final(self).spec_is_be() == old(self).spec_is_be(),
            final(self).spec_swap_size() == old(self).spec_swap_size(),
    {
        let pos = self.at(offset, word_size);
        let be = self.is_be();
        let ghost before = self.bytes();
        let buf = self.as_mut_bytes();
        let (head, tail) = buf.split_at_mut(pos);
        if be {
            be_write_uint(tail, value, word_size);
        } else {
            le_write_uint(tail, value, word_size);
        }
        proof {
            lemma_word_written(before, pos as int, word_size as nat, be, value as int);
        }
    }

    /// Sets unsigned integer of `word_size` bytes, between 1 and 16, at big-endian
    /// `offset` endian-independently.
    /// The value has to fit into `word_size` bytes.
    fn set_uint128(&mut self, offset: usize, value: u128, word_size: usize)
        requires
            1 <= word_size <= 16,
            field_fits(
                old(self).bytes(),
                offset,
                word_size,
                old(self).spec_is_be(),
                old(self).spec_swap_size(),
            ),
            value < word_range(word_size as nat),
        ensures
            final(self).bytes() == field_written(
                old(self).bytes(),
                offset,
                word_size,
                old(self).spec_is_be(),
                old(self).spec_swap_size(),
                value as int,
            ),
            field_unsigned(
                final(self).bytes(),
                offset,
                word_size,
                old(self).spec_is_be(),
                old(self).spec_swap_size(),
            ) == value,
            final(self).bytes().len() == old(self).bytes().len(),
            final(self).spec_is_be() == old(self).spec_is_be(),
            final(self).spec_swap_size() == old(self).spec_swap_size(),
    {
        let pos = self.at(offset, word_size);
        let be = self.is_be();
        let ghost before = self.bytes();
        let buf = self.as_mut_bytes();
        let (head, tail) = buf.split_at_mut(pos);
        if be {
            be_write_uint128(tail, value, word_size);
        } else {
            le_write_uint128(tail, value, word_size);
        }
        proof {
            lemma_word_written(before, pos as int, word_size as nat, be, value as int);
        }
    }

    /// Sets `i8` at big-endian `offset` endian-independently: the byte there
    /// becomes the two's complement of `value`.
    fn set_i8(&mut self, offset: usize, value: i8)
        requires
            field_fits(
                old(self).bytes(),
                offset,
                I8,
                old(self).spec_is_be(),
                old(self).spec_swap_size(),
            ),
        ensures
            final(self).bytes() == field_byte_written(
                old(self).bytes(),
                offset,
                old(self).spec_is_be(),
                old(self).spec_swap_size(),
                (value as int % 256) as u8,
            ),
            as_signed(
                field_byte(
                    final(self).bytes(),
                    offset,
                    old(self).spec_is_be(),
                    old(self).spec_swap_size(),
                ) as nat,
                1,
            ) == value,
            final(self).bytes().len() == old(self).bytes().len(),
            final(self).spec_is_be() == old(self).spec_is_be(),
            final(self).spec_swap_size() == old(self).spec_swap_size(),
    {
        let pos = self.at(offset, I8);
        let byte = value as u8;
        proof {
            lemma_word_range_values();
            assert(byte == (if value < 0 {
                value + 256
            } else {
                value as int
            })) by (bit_vector)
                requires
                    byte == value as u8,
            ;
        }
        let buf = self.as_mut_bytes();
        buf[pos] = byte;
    }

    /// Sets `i16` at big-endian `offset` endian-independently.
    fn set_i16(&mut self, offset: usize, value: i16)
        requires
            field_fits(
                old(self).bytes(),
                offset,
                I16,
                old(self).spec_is_be(),
                old(self).spec_swap_size(),
            ),
        ensures
            final(self).bytes() == field_written(
                old(self).bytes(),
                offset,
                I16,
                old(self).spec_is_be(),
                old(self).spec_swap_size(),
                value as int,
            ),
            field_signed(
                final(self).bytes(),
                offset,
                I16,
                old(self).spec_is_be(),
                old(self).spec_swap_size(),
            ) == value,
            final(self).bytes().len() == old(self).bytes().len(),
            final(self).spec_is_be() == old(self).spec_is_be(),
            final(self).spec_swap_size() == old(self).spec_swap_size(),
    {
        let pos = self.at(offset, I16);
        let be = self.is_be();
        let ghost before = self.bytes();
        let buf = self.as_mut_bytes();
        let (head, tail) = buf.split_at_mut(pos);
        if be {
            be_write_i16(tail, value);
        } else {
            le_write_i16(tail, value);
        }
        proof {
            lemma_word_range_values();
            lemma_word_written(before, pos as int, I16 as nat, be, value as int);
        }
    }

    /// Sets `i24` as `i32` at big-endian `offset` endian-independently.
    /// Of a value that 3 bytes cannot hold the 3 low bytes are written.
    fn set_i24(&mut self, offset: usize, value: i32)
        requires
            field_fits(
                old(self).bytes(),
                offset,
                I24,
                old(self).spec_is_be(),
                old(self).spec_swap_size(),
            ),
        ensures
            final(self).bytes() == field_written(
                old(self).bytes(),
                offset,
                I24,
                old(self).spec_is_be(),
                old(self).spec_swap_size(),
                value as int,
            ),
            fits_signed(value as int, I24 as nat) ==> field_signed(
                final(self).bytes(),
                offset,
                I24,
                old(self).spec_is_be(),
                old(self).spec_swap_size(),
            ) == value,
            final(self).bytes().len() == old(self).bytes().len(),
            final(self).spec_is_be() == old(self).spec_is_be(),
            final(self).spec_swap_size() == old(self).spec_swap_size(),
    {
        let pos = self.at(offset, I24);
        let be = self.is_be();
        let ghost before = self.bytes();
        let buf = self.as_mut_bytes();
        let (head, tail) = buf.split_at_mut(pos);
        if be {
            be_write_i24(tail, value);
        } else {
            le_write_i24(tail, value);
        }
        proof {
            lemma_word_range_values();
            lemma_word_written(before, pos as int, I24 as nat, be, value as int);
        }
    }

    /// Sets `i32` at big-endian `offset` endian-independently.
    fn set_i32(&mut self, offset: usize, value: i32)
        requires
            field_fits(
                old(self).bytes(),
                offset,
                I32,
                old(self).spec_is_be(),
                old(self).spec_swap_size(),
            ),
        ensures
            final(self).bytes() == field_written(
                old(self).bytes(),
                offset,
                I32,
                old(self).spec_is_be(),
                old(self).spec_swap_size(),
                value as int,
            ),
            field_signed(
                final(self).bytes(),
                offset,
                I32,
                old(self).spec_is_be(),
                old(self).spec_swap_size(),
            ) == value,
            final(self).bytes().len() == old(self).bytes().len(),
            final(self).spec_is_be() == old(self).spec_is_be(),
            final(self).spec_swap_size() == old(self).spec_swap_size(),
    {
        let pos = self.at(offset, I32);
        let be = self.is_be();
        let ghost before = self.bytes();
        let buf = self.as_mut_bytes();
        let (head, tail) = buf.split_at_mut(pos);
        if be {
            be_write_i32(tail, value);
        } else {
            le_write_i32(tail, value);
        }
        proof {
            lemma_word_range_values();
            lemma_word_written(before, pos as int, I32 as nat, be, value as int);
        }
    }

    /// Sets `i64` at big-endian `offset` endian-independently.
    fn set_i64(&mut self, offset: usize, value: i64)
        requires
            field_fits(
                old(self).bytes(),
                offset,
                I64,
                old(self).spec_is_be(),
                old(self).spec_swap_size(),
            ),
        ensures
            final(self).bytes() == field_written(
                old(self).bytes(),
                offset,
                I64,
                old(self).spec_is_be(),
                old(self).spec_swap_size(),
                value as int,
            ),
            field_signed(
                final(self).bytes(),
                offset,
                I64,
                old(self).spec_is_be(),
                old(self).spec_swap_size(),
            ) == value,
            final(self).bytes().len() == old(self).bytes().len(),
            final(self).spec_is_be() == old(self).spec_is_be(),
            final(self).spec_swap_size() == old(self).spec_swap_size(),
    {
        let pos = self.at(offset, I64);
        let be = self.is_be();
        let ghost before = self.bytes();
        let buf = self.as_mut_bytes();
        let (head, tail) = buf.split_at_mut(pos);
        if be {
            be_write_i64(tail, value);
        } else {
            le_write_i64(tail, value);
        }
        proof {
            lemma_word_range_values();
            lemma_word_written(before, pos as int, I64 as nat, be, value as int);
        }
    }

    /// Sets `i128` at big-endian `offset` endian-independently.
    fn set_i128(&mut self, offset: usize, value: i128)
        requires
            field_fits(
                old(self).bytes(),
                offset,
                I128,
                old(self).spec_is_be(),
                old(self).spec_swap_size(),
            ),
        ensures
            final(self).bytes() == field_written(
                old(self).bytes(),
                offset,
                I128,
                old(self).spec_is_be(),
                old(self).spec_swap_size(),
                value as int,
            ),
            field_signed(
                final(self).bytes(),
                offset,
                I128,
                old(self).spec_is_be(),
                old(self).spec_swap_size(),
            ) == value,
            final(self).bytes().len() == old(self).bytes().len(),
            final(self).spec_is_be() == old(self).spec_is_be(),
            final(self).spec_swap_size() == old(self).spec_swap_size(),
    {
        let pos = self.at(offset, I128);
        let be = self.is_be();
        let ghost before = self.bytes();
        let buf = self.as_mut_bytes();
        let (head, tail) = buf.split_at_mut(pos);
        if be {
            be_write_i128(tail, value);
        } else {
            le_write_i128(tail, value);
        }
        proof {
            lemma_word_range_values();
            lemma_word_written(before, pos as int, I128 as nat, be, value as int);
        }
    }

    /// Sets signed integer of `word_size` bytes, between 1 and 8, at big-endian
    /// `offset` endian-independently.
    /// Of a value that `word_size` bytes cannot hold the low bytes are written.
    fn set_int(&mut self, offset: usize, value: i64, word_size: usize)
        requires
            1 <= word_size <= 8,
            field_fits(
                old(self).bytes(),
                offset,
                word_size,
                old(self).spec_is_be(),
                old(self).spec_swap_size(),
            ),
        ensures
            final(self).bytes() == field_written(
                old(self).bytes(),
                offset,
                word_size,
                old(self).spec_is_be(),
                old(self).spec_swap_size(),
                value as int,
            ),
            fits_signed(value as int, word_size as nat) ==> field_signed(
                final(self).bytes(),
                offset,
                word_size,
                old(self).spec_is_be(),
                old(self).spec_swap_size(),
            ) == value,
            final(self).bytes().len() == old(self).bytes().len(),
            final(self).spec_is_be() == old(self).spec_is_be(),
            final(self).spec_swap_size() == old(self).spec_swap_size(),
    {
        let pos = self.at(offset, word_size);
        let be = self.is_be();
        let ghost before = self.bytes();
        let buf = self.as_mut_bytes();
        let (head, tail) = buf.split_at_mut(pos);
        if be {
            be_write_int(tail, value, word_size);
        } else {
            le_write_int(tail, value, word_size);
        }
        proof {
            lemma_word_written(before, pos as int, word_size as nat, be, value as int);
        }
    }

    /// Sets signed integer of `word_size` bytes, between 1 and 16, at big-endian
    /// `offset` endian-independently.
    /// Of a value that `word_size` bytes cannot hold the low bytes are written.
    fn set_int128(&mut self, offset: usize, value: i128, word_size: usize)
        requires
            1 <= word_size <= 16,
            field_fits(
                old(self).bytes(),
                offset,
                word_size,
                old(self).spec_is_be(),
                old(self).spec_swap_size(),
            ),
        ensures
            final(self).bytes() == field_written(
                old(self).bytes(),
                offset,
                word_size,
                old(self).spec_is_be(),
                old(self).spec_swap_size(),
                value as int,
            ),
            fits_signed(value as int, word_size as nat) ==> field_signed(
                final(self).bytes(),
                offset,
                word_size,
                old(self).spec_is_be(),
                old(self).spec_swap_size(),
            ) == value,
            final(self).bytes().len() == old(self).bytes().len(),
            final(self).spec_is_be() == old(self).spec_is_be(),
            final(self).spec_swap_size() == old(self).spec_swap_size(),
    {
        let pos = self.at(offset, word_size);
        let be = self.is_be();
        let ghost before = self.bytes();
        let buf = self.as_mut_bytes();
        let (head, tail) = buf.split_at_mut(pos);
        if be {
            be_write_int128(tail, value, word_size);
        } else {
            le_write_int128(tail, value, word_size);
        }
        proof {
            lemma_word_written(before, pos as int, word_size as nat, be, value as int);
        }
    }
}

} // verus!
