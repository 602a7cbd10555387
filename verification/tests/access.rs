use bstr::BStr;
use bytes::{Bytes, BytesMut};
use in_situ::{probe_is_native, DecodeError, InSitu, InSituMut, Order, Wrapper};

fn owned(raw: &[u8], order: Order, swap: usize) -> Wrapper<BytesMut> {
    Wrapper::new(BytesMut::from(raw), order, swap)
}

fn shared(raw: &[u8], order: Order, swap: usize) -> Wrapper<Bytes> {
    Wrapper::new(Bytes::copy_from_slice(raw), order, swap)
}

const ORDERS: [Order; 2] = [Order::BE, Order::LE];

#[test]
fn same_bytes_read_in_both_orders() {
    let bytes = [0x00, 0x00, 0x01, 0x00];
    assert_eq!(shared(&bytes, Order::BE, 4).u32(0), 256);
    assert_eq!(shared(&bytes, Order::LE, 4).u32(0), 0x0001_0000);
    assert_eq!(shared(&bytes, Order::LE, 4).u32(0), 65536);
}

#[test]
fn descriptor_is_what_the_wrapper_was_made_with() {
    let be = shared(&[1, 2, 3], Order::BE, 4);
    assert!(be.is_be());
    assert!(!be.is_le());
    assert_eq!(be.order(), Order::BE);
    assert_eq!(be.swap_size(), 4);
    assert_eq!(be.as_bytes(), &[1, 2, 3]);
    let le = shared(&[1, 2, 3], Order::LE, 8);
    assert!(!le.is_be());
    assert!(le.is_le());
    assert_eq!(le.order(), Order::LE);
    assert_eq!(le.swap_size(), 8);
    assert_eq!(le.into_raw(), Bytes::from_static(&[1, 2, 3]));
}

#[test]
fn native_order_is_the_order_of_the_machine() {
    let machine_is_be = u16::from_ne_bytes([0, 1]) == 1;
    assert_eq!(shared(&[], Order::BE, 0).is_native(), machine_is_be);
    assert_eq!(shared(&[], Order::LE, 0).is_native(), !machine_is_be);
}

#[test]
fn probe_decides_native_order() {
    assert!(probe_is_native(true, 1));
    assert!(!probe_is_native(true, 256));
    assert!(probe_is_native(false, 256));
    assert!(!probe_is_native(false, 1));
}

#[test]
fn method_at_translates_like_the_function() {
    let le = shared(&[0; 8], Order::LE, 4);
    assert_eq!(le.at(4, 4), 4);
    assert_eq!(le.at(0, 2), 2);
    assert_eq!(le.at(0, 1), 3);
    assert_eq!(le.at(0, 8), 0);
    let be = shared(&[0; 8], Order::BE, 4);
    assert_eq!(be.at(0, 2), 0);
    assert_eq!(be.at(5, 1), 5);
}

#[test]
fn unsigned_reads_big_endian() {
    let v = shared(
        &[
            0x01, 0x02, 0x03, 0x04, 0x05, 0x06, 0x07, 0x08, 0x09, 0x0A, 0x0B, 0x0C, 0x0D, 0x0E,
            0x0F, 0x10,
        ],
        Order::BE,
        16,
    );
    assert_eq!(v.u8(1), 0x02);
    assert_eq!(v.u16(0), 0x0102);
    assert_eq!(v.u24(1), 0x02_0304);
    assert_eq!(v.u32(4), 0x0506_0708);
    assert_eq!(v.u64(8), 0x090A_0B0C_0D0E_0F10);
    assert_eq!(v.u128(0), 0x0102_0304_0506_0708_090A_0B0C_0D0E_0F10);
    assert_eq!(v.uint(3, 5), 0x04_0506_0708);
    assert_eq!(v.uint(0, 1), 0x01);
    assert_eq!(v.uint128(2, 11), 0x03_0405_0607_0809_0A0B_0C0D);
}

#[test]
fn unsigned_reads_little_endian() {
    let raw = [
        0x01, 0x02, 0x03, 0x04, 0x05, 0x06, 0x07, 0x08, 0x09, 0x0A, 0x0B, 0x0C, 0x0D, 0x0E, 0x0F,
        0x10,
    ];
    let v = shared(&raw, Order::LE, 16);
    assert_eq!(v.u128(0), 0x100F_0E0D_0C0B_0A09_0807_0605_0403_0201);
    assert_eq!(v.u64(0), 0x100F_0E0D_0C0B_0A09);
    assert_eq!(v.u64(8), 0x0807_0605_0403_0201);
    assert_eq!(v.u32(0), 0x100F_0E0D);
    assert_eq!(v.u16(0), 0x100F);
    assert_eq!(v.u8(0), 0x10);
    assert_eq!(v.u8(15), 0x01);
    let words = shared(&raw, Order::LE, 4);
    assert_eq!(words.u32(0), 0x0403_0201);
    assert_eq!(words.u32(4), 0x0807_0605);
    assert_eq!(words.u16(0), 0x0403);
    assert_eq!(words.u16(2), 0x0201);
    assert_eq!(words.u24(1), 0x03_0201);
    assert_eq!(words.u8(0), 0x04);
    assert_eq!(words.uint(1, 3), 0x03_0201);
    assert_eq!(words.uint128(0, 4), 0x0403_0201);
    assert_eq!(words.u64(0), 0x0807_0605_0403_0201);
}

#[test]
fn signed_reads_extend_the_sign() {
    let raw = [0xFF, 0xFE, 0xFF, 0xFF, 0x80, 0x00, 0x00, 0x01];
    let be = shared(&raw, Order::BE, 8);
    assert_eq!(be.i8(0), -1);
    assert_eq!(be.i8(5), 0);
    assert_eq!(be.i8(4), -128);
    assert_eq!(be.i16(0), -2);
    assert_eq!(be.i24(1), -0x1_0001);
    assert_eq!(be.i24(4), -0x80_0000);
    assert_eq!(be.i32(0), -0x1_0001);
    assert_eq!(be.i32(4), i32::MIN + 1);
    assert_eq!(be.i64(0), -0x1_0000_7FFF_FFFF);
    assert_eq!(be.int64(0, 2), -2);
    assert_eq!(be.int64(4, 3), -0x80_0000);
    assert_eq!(be.int64(5, 3), 1);
    assert_eq!(be.int128(0, 2), -2);
    assert_eq!(be.int128(4, 4), (i32::MIN + 1) as i128);
    let le = shared(&raw, Order::LE, 0);
    assert_eq!(le.i16(0), -257);
    assert_eq!(le.i24(4), 0x00_0080);
    assert_eq!(le.i24(0), -257);
    assert_eq!(le.i32(4), 0x0100_0080);
    assert_eq!(le.int64(0, 2), -257);
    assert_eq!(le.int128(0, 3), -257);
    let wide = [0xFF; 16];
    assert_eq!(shared(&wide, Order::BE, 16).i128(0), -1);
    assert_eq!(shared(&wide, Order::LE, 16).i128(0), -1);
    assert_eq!(shared(&wide, Order::LE, 16).i64(8), -1);
}

#[test]
fn bool_is_byte_not_zero() {
    let be = shared(&[0, 1, 2, 0xFF], Order::BE, 4);
    assert!(!be.bool(0));
    assert!(be.bool(1));
    assert!(be.bool(2));
    assert!(be.bool(3));
    let le = shared(&[0, 1, 2, 0xFF], Order::LE, 4);
    assert!(le.bool(0));
    assert!(!le.bool(3));
}

#[test]
fn writes_place_the_bytes_big_endian() {
    let mut v = owned(&[0xAA; 20], Order::BE, 4);
    v.set_u16(1, 0x0102);
    assert_eq!(&v.as_bytes()[..4], &[0xAA, 0x01, 0x02, 0xAA]);
    v.set_u24(4, 0x03_0405);
    assert_eq!(&v.as_bytes()[3..8], &[0xAA, 0x03, 0x04, 0x05, 0xAA]);
    v.set_u32(8, 0x0607_0809);
    assert_eq!(&v.as_bytes()[7..13], &[0xAA, 0x06, 0x07, 0x08, 0x09, 0xAA]);
    v.set_u64(12, 0x1112_1314_1516_1718);
    assert_eq!(&v.as_bytes()[12..], &[0x11, 0x12, 0x13, 0x14, 0x15, 0x16, 0x17, 0x18]);
    v.set_u8(0, 0x55);
    v.set_bool(3, true);
    assert_eq!(&v.as_bytes()[..4], &[0x55, 0x01, 0x02, 0x01]);
    v.set_bool(3, false);
    assert_eq!(v.as_bytes()[3], 0);
    v.set_uint(0, 0x01_0203, 3);
    assert_eq!(&v.as_bytes()[..4], &[0x01, 0x02, 0x03, 0x00]);
    v.set_u128(0, 0x0102_0304_0506_0708_090A_0B0C_0D0E_0F10);
    assert_eq!(
        &v.as_bytes()[..17],
        &[1, 2, 3, 4, 5, 6, 7, 8, 9, 10, 11, 12, 13, 14, 15, 16, 0x15]
    );
    v.set_uint128(1, 0xA1_A2A3, 3);
    assert_eq!(&v.as_bytes()[..5], &[1, 0xA1, 0xA2, 0xA3, 5]);
}

#[test]
fn writes_place_the_bytes_little_endian() {
    let mut v = owned(&[0xAA; 8], Order::LE, 4);
    v.set_u16(0, 0x0102);
    assert_eq!(v.as_bytes(), &[0xAA, 0xAA, 0x02, 0x01, 0xAA, 0xAA, 0xAA, 0xAA]);
    v.set_u8(0, 0x55);
    assert_eq!(v.as_bytes(), &[0xAA, 0xAA, 0x02, 0x55, 0xAA, 0xAA, 0xAA, 0xAA]);
    v.set_u32(4, 0x0A0B_0C0D);
    assert_eq!(v.as_bytes(), &[0xAA, 0xAA, 0x02, 0x55, 0x0D, 0x0C, 0x0B, 0x0A]);
    v.set_u24(1, 0x01_0203);
    assert_eq!(v.as_bytes(), &[0x03, 0x02, 0x01, 0x55, 0x0D, 0x0C, 0x0B, 0x0A]);
    v.set_u64(0, 0x1112_1314_1516_1718);
    assert_eq!(v.as_bytes(), &[0x18, 0x17, 0x16, 0x15, 0x14, 0x13, 0x12, 0x11]);
    v.set_uint(1, 0xB1_B2B3, 3);
    assert_eq!(v.as_bytes(), &[0xB3, 0xB2, 0xB1, 0x15, 0x14, 0x13, 0x12, 0x11]);
    v.set_uint128(4, 0xC1C2_C3C4, 4);
    assert_eq!(v.as_bytes(), &[0xB3, 0xB2, 0xB1, 0x15, 0xC4, 0xC3, 0xC2, 0xC1]);
    let mut wide = owned(&[0; 16], Order::LE, 16);
    wide.set_u128(0, 0x0102_0304_0506_0708_090A_0B0C_0D0E_0F10);
    assert_eq!(wide.as_bytes(), &[16, 15, 14, 13, 12, 11, 10, 9, 8, 7, 6, 5, 4, 3, 2, 1]);
}

#[test]
fn signed_writes_are_twos_complement() {
    let mut v = owned(&[0; 16], Order::BE, 0);
    v.set_i8(0, -2);
    assert_eq!(v.as_bytes()[0], 0xFE);
    v.set_i16(0, -2);
    assert_eq!(&v.as_bytes()[..2], &[0xFF, 0xFE]);
    v.set_i24(0, -2);
    assert_eq!(&v.as_bytes()[..4], &[0xFF, 0xFF, 0xFE, 0x00]);
    v.set_i32(0, -2);
    assert_eq!(&v.as_bytes()[..5], &[0xFF, 0xFF, 0xFF, 0xFE, 0x00]);
    v.set_i64(0, -2);
    assert_eq!(&v.as_bytes()[..9], &[0xFF, 0xFF, 0xFF, 0xFF, 0xFF, 0xFF, 0xFF, 0xFE, 0x00]);
    v.set_i128(0, -2);
    assert_eq!(&v.as_bytes()[8..], &[0xFF, 0xFF, 0xFF, 0xFF, 0xFF, 0xFF, 0xFF, 0xFE]);
    let mut w = owned(&[0; 8], Order::LE, 0);
    w.set_int(0, -2, 3);
    assert_eq!(w.as_bytes(), &[0xFE, 0xFF, 0xFF, 0, 0, 0, 0, 0]);
    w.set_int128(4, -3, 2);
    assert_eq!(w.as_bytes(), &[0xFE, 0xFF, 0xFF, 0, 0xFD, 0xFF, 0, 0]);
    w.set_i16(6, i16::MIN);
    assert_eq!(w.as_bytes(), &[0xFE, 0xFF, 0xFF, 0, 0xFD, 0xFF, 0x00, 0x80]);
}

#[test]
fn signed_write_of_too_wide_a_value_keeps_the_low_bytes() {
    let mut v = owned(&[0; 4], Order::BE, 0);
    v.set_i24(0, 0x0123_4567);
    assert_eq!(v.as_bytes(), &[0x23, 0x45, 0x67, 0x00]);
    v.set_int(0, 0x0102_0304, 2);
    assert_eq!(v.as_bytes(), &[0x03, 0x04, 0x67, 0x00]);
}

#[test]
fn round_trip_u8_i8_bool() {
    for order in ORDERS {
        for offset in 0..8 {
            let mut v = owned(&[0xAA; 8], order, 4);
            for value in [0u8, 1, 0x7F, 0x80, u8::MAX] {
                v.set_u8(offset, value);
                assert_eq!(v.u8(offset), value);
            }
            for value in [0i8, 1, -1, i8::MAX, i8::MIN] {
                v.set_i8(offset, value);
                assert_eq!(v.i8(offset), value);
            }
            for value in [true, false] {
                v.set_bool(offset, value);
                assert_eq!(v.bool(offset), value);
            }
        }
    }
}

#[test]
fn round_trip_u16() {
    for order in ORDERS {
        for value in [0u16, 1, 0x1234, u16::MAX] {
            let mut v = owned(&[0xAA; 8], order, 4);
            v.set_u16(2, value);
            assert_eq!(v.u16(2), value);
        }
    }
}

#[test]
fn round_trip_u24() {
    for order in ORDERS {
        for value in [0u32, 1, 0x12_3456, 0xFF_FFFF] {
            let mut v = owned(&[0xAA; 8], order, 4);
            v.set_u24(1, value);
            assert_eq!(v.u24(1), value);
        }
    }
}

#[test]
fn round_trip_u32() {
    for order in ORDERS {
        for value in [0u32, 1, 0x1234_5678, u32::MAX] {
            let mut v = owned(&[0xAA; 8], order, 4);
            v.set_u32(4, value);
            assert_eq!(v.u32(4), value);
        }
    }
}

#[test]
fn round_trip_u64() {
    for order in ORDERS {
        for value in [0u64, 1, 0x1234_5678_9ABC_DEF0, u64::MAX] {
            let mut v = owned(&[0xAA; 16], order, 8);
            v.set_u64(8, value);
            assert_eq!(v.u64(8), value);
        }
    }
}

#[test]
fn round_trip_u128() {
    for order in ORDERS {
        for value in [0u128, 1, 0x1234_5678_9ABC_DEF0_0FED_CBA9_8765_4321, u128::MAX] {
            let mut v = owned(&[0xAA; 16], order, 16);
            v.set_u128(0, value);
            assert_eq!(v.u128(0), value);
        }
    }
}

#[test]
fn round_trip_uint_and_uint128() {
    for order in ORDERS {
        for word_size in 1..=8usize {
            let max = u64::MAX >> (8 * (8 - word_size));
            for value in [0, 1, max / 3, max] {
                let mut v = owned(&[0xAA; 16], order, 8);
                v.set_uint(0, value, word_size);
                assert_eq!(v.uint(0, word_size), value);
            }
        }
        for word_size in 1..=16usize {
            let max = u128::MAX >> (8 * (16 - word_size));
            for value in [0, 1, max / 3, max] {
                let mut v = owned(&[0xAA; 16], order, 16);
                v.set_uint128(0, value, word_size);
                assert_eq!(v.uint128(0, word_size), value);
            }
        }
    }
}

#[test]
fn round_trip_signed_fixed() {
    for order in ORDERS {
        let mut v = owned(&[0xAA; 16], order, 16);
        for value in [0i16, 1, -1, i16::MAX, i16::MIN] {
            v.set_i16(2, value);
            assert_eq!(v.i16(2), value);
        }
        for value in [0i32, 1, -1, 0x7F_FFFF, -0x80_0000] {
            v.set_i24(5, value);
            assert_eq!(v.i24(5), value);
        }
        for value in [0i32, 1, -1, i32::MAX, i32::MIN] {
            v.set_i32(4, value);
            assert_eq!(v.i32(4), value);
        }
        for value in [0i64, 1, -1, i64::MAX, i64::MIN] {
            v.set_i64(8, value);
            assert_eq!(v.i64(8), value);
        }
        for value in [0i128, 1, -1, i128::MAX, i128::MIN] {
            v.set_i128(0, value);
            assert_eq!(v.i128(0), value);
        }
    }
}

#[test]
fn round_trip_int_and_int128() {
    for order in ORDERS {
        for word_size in 1..=8usize {
            let max = i64::MAX >> (8 * (8 - word_size));
            for value in [0, 1, -1, max, -max - 1] {
                let mut v = owned(&[0xAA; 16], order, 8);
                v.set_int(0, value, word_size);
                assert_eq!(v.int64(0, word_size), value);
            }
        }
        for word_size in 1..=16usize {
            let max = i128::MAX >> (8 * (16 - word_size));
            for value in [0, 1, -1, max, -max - 1] {
                let mut v = owned(&[0xAA; 16], order, 16);
                v.set_int128(0, value, word_size);
                assert_eq!(v.int128(0, word_size), value);
            }
        }
    }
}

#[test]
fn a_write_touches_only_its_word() {
    for order in ORDERS {
        let mut v = owned(&[0xAA; 12], order, 4);
        v.set_u32(4, 0);
        assert_eq!(&v.as_bytes()[..4], &[0xAA; 4]);
        assert_eq!(&v.as_bytes()[4..8], &[0; 4]);
        assert_eq!(&v.as_bytes()[8..], &[0xAA; 4]);
    }
}

#[test]
fn other_order_reads_the_bytes_reversed() {
    let mut v = owned(&[0; 16], Order::BE, 4);
    v.set_u32(4, 0x0102_0304);
    let raw = v.into_raw();
    let le = Wrapper::new(raw, Order::LE, 4);
    assert_eq!(le.u32(4), 0x0403_0201);
    assert_eq!(le.u32(4), 0x0102_0304u32.swap_bytes());

    let mut v = owned(&[0; 16], Order::BE, 2);
    v.set_u16(6, 0xBEEF);
    let le = Wrapper::new(v.into_raw(), Order::LE, 2);
    assert_eq!(le.u16(6), 0xEFBE);

    let mut v = owned(&[0; 16], Order::LE, 8);
    v.set_u64(8, 0x0102_0304_0506_0708);
    let be = Wrapper::new(v.into_raw(), Order::BE, 8);
    assert_eq!(be.u64(8), 0x0807_0605_0403_0201);

    let mut v = owned(&[0; 16], Order::BE, 16);
    v.set_u128(0, 1);
    let le = Wrapper::new(v.into_raw(), Order::LE, 16);
    assert_eq!(le.u128(0), 1u128.swap_bytes());

    let mut v = owned(&[0; 16], Order::BE, 3);
    v.set_u24(3, 0x01_0203);
    let le = Wrapper::new(v.into_raw(), Order::LE, 3);
    assert_eq!(le.u24(3), 0x03_0201);
}

#[test]
fn other_order_in_a_wider_window_reads_elsewhere() {
    let mut v = owned(&[0; 8], Order::BE, 8);
    v.set_u32(0, 0x0102_0304);
    let le = Wrapper::new(v.into_raw(), Order::LE, 8);
    assert_eq!(le.u32(0), 0);
    assert_eq!(le.u32(4), 0x0403_0201);
}

#[test]
fn narrow_window_skips_the_translation() {
    let raw = [1, 2, 3, 4, 5, 6, 7, 8];
    let v = shared(&raw, Order::LE, 2);
    assert_eq!(v.u32(0), 0x0403_0201);
    assert_eq!(v.u32(3), 0x0706_0504);
    assert_eq!(v.u16(0), 0x0201);
    assert_eq!(v.u8(0), 2);
}

#[test]
fn utf8_decodes_valid_text() {
    let v = shared(&[0x68, 0x69, 0x21], Order::BE, 4);
    assert_eq!(v.utf8(0, 3), Ok("hi!"));
    assert_eq!(v.utf8(1, 2), Ok("i!"));
    assert_eq!(v.utf8(3, 0), Ok(""));
    let le = shared("grüße".as_bytes(), Order::LE, 4);
    assert_eq!(le.utf8(0, 7), Ok("grüße"));
    assert_eq!(le.utf8(0, 2), Ok("gr"));
}

#[test]
fn utf8_reports_the_invalid_sequence() {
    let v = shared(&[0xFF, 0x00, 0x00], Order::BE, 4);
    assert_eq!(v.utf8(0, 3), Err(DecodeError { valid_up_to: 0, error_len: Some(1) }));
    assert!(v.utf8(0, 3).is_err());
    let w = shared(&[b'a', b'b', 0xE2, 0x28, 0xA1, b'c'], Order::LE, 4);
    assert_eq!(w.utf8(0, 6), Err(DecodeError { valid_up_to: 2, error_len: Some(1) }));
    assert_eq!(w.utf8(0, 2), Ok("ab"));
}

#[test]
fn utf8_reports_text_that_ends_early() {
    let v = shared(&[b'a', 0xE2, 0x82], Order::BE, 4);
    assert_eq!(v.utf8(0, 3), Err(DecodeError { valid_up_to: 1, error_len: None }));
    assert_eq!(v.utf8(0, 2), Err(DecodeError { valid_up_to: 1, error_len: None }));
    assert_eq!(v.utf8(0, 1), Ok("a"));
}

#[test]
fn bstr_takes_the_bytes_as_they_are() {
    let v = shared(&[0x68, 0xFF, 0x21, 0x00], Order::LE, 4);
    assert_eq!(v.bstr(0, 3), BStr::new(&[0x68, 0xFF, 0x21]));
    assert_eq!(v.bstr(1, 3), BStr::new(&[0xFF, 0x21, 0x00]));
    assert_eq!(v.bstr(2, 0), BStr::new(b""));
}

#[test]
fn borrowed_slices_can_be_wrapped() {
    let data = [0x12, 0x34, 0x56, 0x78];
    let v: Wrapper<&[u8]> = Wrapper::new(&data[..], Order::BE, 4);
    assert_eq!(v.u16(2), 0x5678);
    let mut store = [0u8; 4];
    {
        let mut w: Wrapper<&mut [u8]> = Wrapper::new(&mut store[..], Order::LE, 4);
        w.set_u16(0, 0x0102);
        assert_eq!(w.u16(0), 0x0102);
        assert_eq!(w.raw().len(), 4);
    }
    assert_eq!(store, [0, 0, 0x02, 0x01]);
}

#[test]
fn float_bit_patterns_survive_the_round_trip() {
    for order in ORDERS {
        let mut v = owned(&[0xAA; 16], order, 8);
        for value in [0.0f32, -0.0, 1.5, f32::MAX, f32::MIN, f32::INFINITY, f32::NEG_INFINITY, f32::NAN]
        {
            v.set_u32(4, value.to_bits());
            assert_eq!(f32::from_bits(v.u32(4)).to_bits(), value.to_bits());
        }
        for value in [0.0f64, -0.0, 1.5, f64::MAX, f64::MIN, f64::INFINITY, f64::NEG_INFINITY, f64::NAN]
        {
            v.set_u64(8, value.to_bits());
            assert_eq!(f64::from_bits(v.u64(8)).to_bits(), value.to_bits());
        }
        v.set_u32(0, 0x7FC0_0001);
        assert!(f32::from_bits(v.u32(0)).is_nan());
    }
    let be = shared(&[0x3F, 0xC0, 0x00, 0x00], Order::BE, 4);
    assert_eq!(f32::from_bits(be.u32(0)), 1.5);
    let le = shared(&[0x00, 0x00, 0xC0, 0x3F], Order::LE, 4);
    assert_eq!(f32::from_bits(le.u32(0)), 1.5);
}
