//! The mathematical model of a word in a buffer: what a run of bytes is worth
//! in each byte order, which bytes a value is written as, and the laws that
//! connect the two.

use vstd::prelude::*;

verus! {

/// Number of values that a word of `n` bytes can hold: 256 to the power `n`.
pub open spec fn word_range(n: nat) -> nat
    decreases n,
{
    if n == 0 {
        1
    } else {
        256 * word_range((n - 1) as nat)
    }
}

/// Value of `bytes` read most significant byte first.
pub open spec fn be_value(bytes: Seq<u8>) -> nat
    decreases bytes.len(),
{
    if bytes.len() == 0 {
        0
    } else {
        256 * be_value(bytes.drop_last()) + bytes.last() as nat
    }
}

/// Value of `bytes` read least significant byte first.
pub open spec fn le_value(bytes: Seq<u8>) -> nat
    decreases bytes.len(),
{
    if bytes.len() == 0 {
        0
    } else {
        bytes.first() as nat + 256 * le_value(bytes.drop_first())
    }
}

/// The `n` low bytes of `value` in two's complement, most significant first.
pub open spec fn be_bytes(value: int, n: nat) -> Seq<u8>
    decreases n,
{
    if n == 0 {
        Seq::empty()
    } else {
        be_bytes(value / 256, (n - 1) as nat).push((value % 256) as u8)
    }
}

/// The `n` low bytes of `value` in two's complement, least significant first.
pub open spec fn le_bytes(value: int, n: nat) -> Seq<u8>
    decreases n,
{
    if n == 0 {
        Seq::empty()
    } else {
        seq![(value % 256) as u8] + le_bytes(value / 256, (n - 1) as nat)
    }
}

/// The signed reading of the unsigned value `raw` of a word of `n` bytes:
/// the upper half of the range stands for the negative numbers.
pub open spec fn as_signed(raw: nat, n: nat) -> int {
    if 2 * raw < word_range(n) {
        raw as int
    } else {
        raw - word_range(n)
    }
}

/// Whether a word of `n` bytes can hold the unsigned `value`.
pub open spec fn fits_unsigned(value: int, n: nat) -> bool {
    0 <= value < word_range(n)
}

/// Whether a word of `n` bytes can hold the signed `value`.
pub open spec fn fits_signed(value: int, n: nat) -> bool {
    -(word_range(n) as int) <= 2 * value < word_range(n)
}

/// The value of a word of `n` bytes with its bytes in the opposite order.
pub open spec fn swap_bytes(value: int, n: nat) -> nat
    decreases n,
{
    if n == 0 {
        0
    } else {
        ((value % 256) * word_range((n - 1) as nat) + swap_bytes(value / 256, (n - 1) as nat)) as nat
    }
}

/// The bytes that `value` is written as in a word of `n` bytes.
pub open spec fn encode(value: int, n: nat, is_be: bool) -> Seq<u8> {
    if is_be {
        be_bytes(value, n)
    } else {
        le_bytes(value, n)
    }
}

/// The unsigned value of the word `bytes`.
pub open spec fn decode(bytes: Seq<u8>, is_be: bool) -> nat {
    if is_be {
        be_value(bytes)
    } else {
        le_value(bytes)
    }
}

/// The `n` bytes of `bytes` from `pos` on.
pub open spec fn word_at(bytes: Seq<u8>, pos: int, n: nat) -> Seq<u8> {
    bytes.subrange(pos, pos + n)
}

/// The unsigned value of the `n` bytes of `bytes` from `pos` on.
pub open spec fn read_unsigned(bytes: Seq<u8>, pos: int, n: nat, is_be: bool) -> nat {
    decode(word_at(bytes, pos, n), is_be)
}

/// The signed value of the `n` bytes of `bytes` from `pos` on.
pub open spec fn read_signed(bytes: Seq<u8>, pos: int, n: nat, is_be: bool) -> int {
    as_signed(read_unsigned(bytes, pos, n, is_be), n)
}

/// `bytes` with the run from `pos` on replaced by `word`.
pub open spec fn splice(bytes: Seq<u8>, pos: int, word: Seq<u8>) -> Seq<u8> {
    bytes.subrange(0, pos) + word + bytes.subrange(pos + word.len(), bytes.len() as int)
}

/// `bytes` after `value` is written into the `n` bytes from `pos` on.
pub open spec fn write_word(bytes: Seq<u8>, pos: int, n: nat, is_be: bool, value: int) -> Seq<u8> {
    splice(bytes, pos, encode(value, n, is_be))
}

/// A word of `n` bytes has room for at least one value, and each further
/// byte multiplies the room by 256.
pub proof fn lemma_word_range_positive(n: nat)
    ensures
        word_range(n) > 0,
    decreases n,
{
    if n > 0 {
        lemma_word_range_positive((n - 1) as nat);
    }
}

/// The ranges of the word sizes that the accessors name.
pub proof fn lemma_word_range_values()
    ensures
        word_range(0) == 1,
        word_range(1) == 0x100,
        word_range(2) == 0x1_0000,
        word_range(3) == 0x100_0000,
        word_range(4) == 0x1_0000_0000,
        word_range(5) == 0x100_0000_0000,
        word_range(6) == 0x1_0000_0000_0000,
        word_range(7) == 0x100_0000_0000_0000,
        word_range(8) == 0x1_0000_0000_0000_0000,
        word_range(16) == 0x1_0000_0000_0000_0000_0000_0000_0000_0000,
{
    reveal_with_fuel(word_range, 9);
    assert(word_range(16) == 0x1_0000_0000_0000_0000 * word_range(8)) by {
        lemma_word_range_adds(8, 8);
    }
}

/// The range of a word is the product of the ranges of its two parts.
pub proof fn lemma_word_range_adds(m: nat, n: nat)
    ensures
        word_range(m + n) == word_range(m) * word_range(n),
    decreases m,
{
    if m == 0 {
        assert(word_range(0) == 1);
    } else {
        lemma_word_range_adds((m - 1) as nat, n);
        assert((m - 1) as nat + n == (m + n - 1) as nat);
        assert(256 * (word_range((m - 1) as nat) * word_range(n)) == (256 * word_range(
            (m - 1) as nat,
        )) * word_range(n)) by (nonlinear_arith);
    }
}

/// A value is written as exactly `n` bytes.
pub proof fn lemma_encode_len(value: int, n: nat, is_be: bool)
    ensures
        encode(value, n, is_be).len() == n,
        be_bytes(value, n).len() == n,
        le_bytes(value, n).len() == n,
    decreases n,
{
    if n > 0 {
        lemma_encode_len(value / 256, (n - 1) as nat, is_be);
    }
}

/// Reading a word most significant byte first: a byte put in front counts
/// for its value times the range of the bytes behind it.
pub proof fn lemma_be_value_prepend(byte: u8, bytes: Seq<u8>)
    ensures
        be_value(seq![byte] + bytes) == byte * word_range(bytes.len()) + be_value(bytes),
    decreases bytes.len(),
{
    let all = seq![byte] + bytes;
    if bytes.len() == 0 {
        assert(all.drop_last() =~= Seq::<u8>::empty());
        assert(be_value(all) == 256 * be_value(all.drop_last()) + all.last());
        assert(word_range(0) == 1);
        assert(byte * word_range(bytes.len()) == byte);
    } else {
        let front = bytes.drop_last();
        let range = word_range(front.len()) as int;
        assert(all.drop_last() =~= seq![byte] + front);
        lemma_be_value_prepend(byte, front);
        assert(be_value(all) == 256 * be_value(all.drop_last()) + all.last());
        assert(be_value(bytes) == 256 * be_value(front) + bytes.last());
        assert(word_range(bytes.len()) == 256 * range);
        assert(256 * (byte * range + be_value(front)) == byte * (256 * range) + 256 * be_value(
            front,
        )) by (nonlinear_arith);
    }
}

/// Reading a word least significant byte first: a byte put behind counts for
/// its value times the range of the bytes in front of it.
pub proof fn lemma_le_value_push(bytes: Seq<u8>, byte: u8)
    ensures
        le_value(bytes.push(byte)) == le_value(bytes) + byte * word_range(bytes.len()),
    decreases bytes.len(),
{
    let all = bytes.push(byte);
    if bytes.len() == 0 {
        assert(all.drop_first() =~= Seq::<u8>::empty());
        assert(le_value(all) == all.first() + 256 * le_value(all.drop_first()));
        assert(word_range(0) == 1);
        assert(byte * word_range(bytes.len()) == byte);
    } else {
        let back = bytes.drop_first();
        let range = word_range(back.len()) as int;
        assert(all.drop_first() =~= back.push(byte));
        lemma_le_value_push(back, byte);
        assert(le_value(all) == all.first() + 256 * le_value(all.drop_first()));
        assert(le_value(bytes) == bytes.first() + 256 * le_value(back));
        assert(word_range(bytes.len()) == 256 * range);
        assert(256 * (le_value(back) + byte * range) == 256 * le_value(back) + byte * (256
            * range)) by (nonlinear_arith);
    }
}

/// What is written and read back in the same byte order is the value
/// reduced to the range of the word.
pub proof fn lemma_decode_encode(value: int, n: nat, is_be: bool)
    ensures
        decode(encode(value, n, is_be), is_be) == value % (word_range(n) as int),
    decreases n,
{
    lemma_word_range_positive(n);
    if n == 0 {
        assert(value % 1 == 0);
    } else {
        let m = (n - 1) as nat;
        let low = (value % 256) as u8;
        lemma_word_range_positive(m);
        lemma_decode_encode(value / 256, m, is_be);
        lemma_encode_len(value / 256, m, is_be);
        lemma_mod_of_parts(value, word_range(m) as int);
        if is_be {
            let all = be_bytes(value, n);
            assert(all.drop_last() =~= be_bytes(value / 256, m));
            assert(all.last() == low);
        } else {
            let all = le_bytes(value, n);
            assert(all.drop_first() =~= le_bytes(value / 256, m));
            assert(all.first() == low);
        }
    }
}

/// The remainder by `256 * range` is put together from the remainder by 256
/// and the remainder of the quotient by `range`.
proof fn lemma_mod_of_parts(value: int, range: int)
    requires
        range > 0,
    ensures
        value % (256 * range) == 256 * ((value / 256) % range) + value % 256,
{
    let q = value / 256;
    let low = value % 256;
    let qq = q / range;
    let r = q % range;
    vstd::arithmetic::div_mod::lemma_fundamental_div_mod(value, 256);
    vstd::arithmetic::div_mod::lemma_fundamental_div_mod(q, range);
    assert(value == qq * (256 * range) + (256 * r + low)) by (nonlinear_arith)
        requires
            value == 256 * q + low,
            q == range * qq + r,
    ;
    assert(0 <= 256 * r + low < 256 * range) by (nonlinear_arith)
        requires
            0 <= r < range,
            0 <= low < 256,
    ;
    vstd::arithmetic::div_mod::lemma_fundamental_div_mod_converse(
        value,
        256 * range,
        qq,
        256 * r + low,
    );
}

/// What is written in one byte order and read in the other is the value
/// with its bytes reversed.
pub proof fn lemma_decode_encode_crossed(value: int, n: nat, is_be: bool)
    ensures
        decode(encode(value, n, is_be), !is_be) == swap_bytes(value, n),
    decreases n,
{
    if n > 0 {
        let m = (n - 1) as nat;
        let low = (value % 256) as u8;
        lemma_decode_encode_crossed(value / 256, m, is_be);
        lemma_encode_len(value / 256, m, is_be);
        if is_be {
            lemma_le_value_push(be_bytes(value / 256, m), low);
        } else {
            lemma_be_value_prepend(low, le_bytes(value / 256, m));
        }
    }
}

/// The signed reading undoes the reduction of a signed value that fits.
pub proof fn lemma_as_signed_of_reduced(value: int, n: nat)
    requires
        fits_signed(value, n),
    ensures
        as_signed((value % (word_range(n) as int)) as nat, n) == value,
{
    let range = word_range(n) as int;
    lemma_word_range_positive(n);
    if value >= 0 {
        vstd::arithmetic::div_mod::lemma_fundamental_div_mod_converse(value, range, 0, value);
    } else {
        vstd::arithmetic::div_mod::lemma_fundamental_div_mod_converse(
            value,
            range,
            -1,
            value + range,
        );
    }
}

/// The run that was spliced into a buffer is found at its place, the buffer
/// keeps its length, and every byte outside the run keeps its value.
pub proof fn lemma_splice(bytes: Seq<u8>, pos: int, word: Seq<u8>)
    requires
        0 <= pos,
        pos + word.len() <= bytes.len(),
    ensures
        splice(bytes, pos, word).len() == bytes.len(),
        word_at(splice(bytes, pos, word), pos, word.len()) == word,
        forall|i: int|
            0 <= i < bytes.len() && !(pos <= i < pos + word.len()) ==> splice(bytes, pos, word)[i]
                == bytes[i],
{
    assert(word_at(splice(bytes, pos, word), pos, word.len()) =~= word);
}

/// Round trip of an unsigned value: a value that fits the word is read back
/// as it was written, in either byte order, and nothing else in the buffer
/// changes.
pub proof fn lemma_round_trip_unsigned(bytes: Seq<u8>, pos: int, n: nat, is_be: bool, value: int)
    requires
        0 <= pos,
        pos + n <= bytes.len(),
        fits_unsigned(value, n),
    ensures
        read_unsigned(write_word(bytes, pos, n, is_be, value), pos, n, is_be) == value,
        write_word(bytes, pos, n, is_be, value).len() == bytes.len(),
        forall|i: int|
            0 <= i < bytes.len() && !(pos <= i < pos + n) ==> write_word(
                bytes,
                pos,
                n,
                is_be,
                value,
            )[i] == bytes[i],
{
    lemma_encode_len(value, n, is_be);
    lemma_splice(bytes, pos, encode(value, n, is_be));
    lemma_decode_encode(value, n, is_be);
    vstd::arithmetic::div_mod::lemma_fundamental_div_mod_converse(
        value,
        word_range(n) as int,
        0,
        value,
    );
}

/// Round trip of a signed value: a value that fits the word is read back as
/// it was written, in either byte order.
pub proof fn lemma_round_trip_signed(bytes: Seq<u8>, pos: int, n: nat, is_be: bool, value: int)
    requires
        0 <= pos,
        pos + n <= bytes.len(),
        fits_signed(value, n),
    ensures
        read_signed(write_word(bytes, pos, n, is_be, value), pos, n, is_be) == value,
        write_word(bytes, pos, n, is_be, value).len() == bytes.len(),
{
    lemma_encode_len(value, n, is_be);
    lemma_splice(bytes, pos, encode(value, n, is_be));
    lemma_decode_encode(value, n, is_be);
    lemma_as_signed_of_reduced(value, n);
}

/// Writing a word in one byte order and reading the same bytes in the other
/// gives the value with its bytes reversed.
pub proof fn lemma_cross_order(bytes: Seq<u8>, pos: int, n: nat, is_be: bool, value: int)
    requires
        0 <= pos,
        pos + n <= bytes.len(),
    ensures
        read_unsigned(write_word(bytes, pos, n, is_be, value), pos, n, !is_be) == swap_bytes(
            value,
            n,
        ),
{
    lemma_encode_len(value, n, is_be);
    lemma_splice(bytes, pos, encode(value, n, is_be));
    lemma_decode_encode_crossed(value, n, is_be);
}

} // verus!
