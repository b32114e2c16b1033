use packbytes::endian::{one_is_little, target_is_little};
use packbytes::error::{InvalidBool, InvalidChar};
use packbytes::radix::{digits_of, half_radix, pattern_of, signed_of, value_of};
use packbytes::{
    from_bytes_in, to_bytes_in, try_from_bytes_in, ByteArray, FromBytes, ToBytes, TryFromBytes,
};

#[test]
fn unsigned_integers_pack_like_the_standard_library() {
    for x in [0u8, 1, 0x7f, 0x80, 0xff] {
        assert_eq!(<u8 as ToBytes>::to_le_bytes(x), x.to_le_bytes());
        assert_eq!(<u8 as ToBytes>::to_be_bytes(x), x.to_be_bytes());
        assert_eq!(<u8 as FromBytes>::from_le_bytes(x.to_le_bytes()), x);
        assert_eq!(<u8 as FromBytes>::from_be_bytes(x.to_be_bytes()), x);
    }
    for x in [0u16, 1, 0x1234, 0x8000, u16::MAX] {
        assert_eq!(<u16 as ToBytes>::to_le_bytes(x), x.to_le_bytes());
        assert_eq!(<u16 as ToBytes>::to_be_bytes(x), x.to_be_bytes());
        assert_eq!(<u16 as FromBytes>::from_le_bytes(x.to_le_bytes()), x);
        assert_eq!(<u16 as FromBytes>::from_be_bytes(x.to_be_bytes()), x);
    }
    for x in [0u32, 1, 0x1234_5678, 0x8000_0000, u32::MAX] {
        assert_eq!(<u32 as ToBytes>::to_le_bytes(x), x.to_le_bytes());
        assert_eq!(<u32 as ToBytes>::to_be_bytes(x), x.to_be_bytes());
        assert_eq!(<u32 as FromBytes>::from_le_bytes(x.to_le_bytes()), x);
        assert_eq!(<u32 as FromBytes>::from_be_bytes(x.to_be_bytes()), x);
    }
    for x in [0u64, 1, 0x0123_4567_89ab_cdef, 1 << 63, u64::MAX] {
        assert_eq!(<u64 as ToBytes>::to_le_bytes(x), x.to_le_bytes());
        assert_eq!(<u64 as ToBytes>::to_be_bytes(x), x.to_be_bytes());
        assert_eq!(<u64 as FromBytes>::from_le_bytes(x.to_le_bytes()), x);
        assert_eq!(<u64 as FromBytes>::from_be_bytes(x.to_be_bytes()), x);
    }
    for x in [
        0u128,
        1,
        0x0123_4567_89ab_cdef_fedc_ba98_7654_3210,
        1 << 127,
        u128::MAX,
    ] {
        assert_eq!(<u128 as ToBytes>::to_le_bytes(x), x.to_le_bytes());
        assert_eq!(<u128 as ToBytes>::to_be_bytes(x), x.to_be_bytes());
        assert_eq!(<u128 as FromBytes>::from_le_bytes(x.to_le_bytes()), x);
        assert_eq!(<u128 as FromBytes>::from_be_bytes(x.to_be_bytes()), x);
    }
}

#[test]
fn signed_integers_pack_like_the_standard_library() {
    for x in [0i8, 1, -1, i8::MIN, i8::MAX] {
        assert_eq!(<i8 as ToBytes>::to_le_bytes(x), x.to_le_bytes());
        assert_eq!(<i8 as ToBytes>::to_be_bytes(x), x.to_be_bytes());
        assert_eq!(<i8 as FromBytes>::from_le_bytes(x.to_le_bytes()), x);
        assert_eq!(<i8 as FromBytes>::from_be_bytes(x.to_be_bytes()), x);
    }
    for x in [0i16, 1, -1, -0x1234, i16::MIN, i16::MAX] {
        assert_eq!(<i16 as ToBytes>::to_le_bytes(x), x.to_le_bytes());
        assert_eq!(<i16 as ToBytes>::to_be_bytes(x), x.to_be_bytes());
        assert_eq!(<i16 as FromBytes>::from_le_bytes(x.to_le_bytes()), x);
        assert_eq!(<i16 as FromBytes>::from_be_bytes(x.to_be_bytes()), x);
    }
    for x in [0i32, 1, -1, -0x1234_5678, i32::MIN, i32::MAX] {
        assert_eq!(<i32 as ToBytes>::to_le_bytes(x), x.to_le_bytes());
        assert_eq!(<i32 as ToBytes>::to_be_bytes(x), x.to_be_bytes());
        assert_eq!(<i32 as FromBytes>::from_le_bytes(x.to_le_bytes()), x);
        assert_eq!(<i32 as FromBytes>::from_be_bytes(x.to_be_bytes()), x);
    }
    for x in [0i64, 1, -1, -0x0123_4567_89ab_cdef, i64::MIN, i64::MAX] {
        assert_eq!(<i64 as ToBytes>::to_le_bytes(x), x.to_le_bytes());
        assert_eq!(<i64 as ToBytes>::to_be_bytes(x), x.to_be_bytes());
        assert_eq!(<i64 as FromBytes>::from_le_bytes(x.to_le_bytes()), x);
        assert_eq!(<i64 as FromBytes>::from_be_bytes(x.to_be_bytes()), x);
    }
    for x in [
        0i128,
        1,
        -1,
        -0x0123_4567_89ab_cdef_fedc_ba98_7654_3210,
        i128::MIN,
        i128::MAX,
    ] {
        assert_eq!(<i128 as ToBytes>::to_le_bytes(x), x.to_le_bytes());
        assert_eq!(<i128 as ToBytes>::to_be_bytes(x), x.to_be_bytes());
        assert_eq!(<i128 as FromBytes>::from_le_bytes(x.to_le_bytes()), x);
        assert_eq!(<i128 as FromBytes>::from_be_bytes(x.to_be_bytes()), x);
    }
}

#[test]
fn pointer_sized_integers_take_eight_bytes() {
    assert_eq!(<<usize as ToBytes>::Bytes as ByteArray>::SIZE, 8);
    assert_eq!(<<isize as ToBytes>::Bytes as ByteArray>::SIZE, 8);
    for x in [0usize, 1, 0x1234, usize::MAX] {
        assert_eq!(<usize as ToBytes>::to_le_bytes(x), (x as u64).to_le_bytes());
        assert_eq!(<usize as ToBytes>::to_be_bytes(x), (x as u64).to_be_bytes());
        assert_eq!(
            <usize as FromBytes>::from_le_bytes(<usize as ToBytes>::to_le_bytes(x)),
            x
        );
        assert_eq!(
            <usize as FromBytes>::from_be_bytes(<usize as ToBytes>::to_be_bytes(x)),
            x
        );
    }
    for x in [0isize, 1, -1, -0x1234, isize::MIN, isize::MAX] {
        assert_eq!(<isize as ToBytes>::to_le_bytes(x), (x as i64).to_le_bytes());
        assert_eq!(<isize as ToBytes>::to_be_bytes(x), (x as i64).to_be_bytes());
        assert_eq!(
            <isize as FromBytes>::from_le_bytes(<isize as ToBytes>::to_le_bytes(x)),
            x
        );
        assert_eq!(
            <isize as FromBytes>::from_be_bytes(<isize as ToBytes>::to_be_bytes(x)),
            x
        );
    }
}

#[test]
fn exact_bytes_of_an_integer() {
    assert_eq!(
        <u32 as ToBytes>::to_le_bytes(0x1234_5678),
        [0x78, 0x56, 0x34, 0x12]
    );
    assert_eq!(
        <u32 as ToBytes>::to_be_bytes(0x1234_5678),
        [0x12, 0x34, 0x56, 0x78]
    );
    assert_eq!(<i16 as ToBytes>::to_le_bytes(-2), [0xfe, 0xff]);
    assert_eq!(<i16 as ToBytes>::to_be_bytes(-2), [0xff, 0xfe]);
    assert_eq!(<i16 as FromBytes>::from_le_bytes([0xfe, 0xff]), -2);
    assert_eq!(<u16 as FromBytes>::from_be_bytes([0x01, 0x02]), 0x0102);
    assert_eq!(<u16 as FromBytes>::from_le_bytes([0x01, 0x02]), 0x0201);
}

#[test]
fn sizes_of_the_primitives() {
    assert_eq!(<<u8 as ToBytes>::Bytes as ByteArray>::SIZE, 1);
    assert_eq!(<<i8 as ToBytes>::Bytes as ByteArray>::SIZE, 1);
    assert_eq!(<<u16 as ToBytes>::Bytes as ByteArray>::SIZE, 2);
    assert_eq!(<<i16 as ToBytes>::Bytes as ByteArray>::SIZE, 2);
    assert_eq!(<<u32 as ToBytes>::Bytes as ByteArray>::SIZE, 4);
    assert_eq!(<<i32 as ToBytes>::Bytes as ByteArray>::SIZE, 4);
    assert_eq!(<<u64 as ToBytes>::Bytes as ByteArray>::SIZE, 8);
    assert_eq!(<<i64 as ToBytes>::Bytes as ByteArray>::SIZE, 8);
    assert_eq!(<<u128 as ToBytes>::Bytes as ByteArray>::SIZE, 16);
    assert_eq!(<<i128 as ToBytes>::Bytes as ByteArray>::SIZE, 16);
    assert_eq!(<<char as ToBytes>::Bytes as ByteArray>::SIZE, 4);
    assert_eq!(<<bool as ToBytes>::Bytes as ByteArray>::SIZE, 1);
    assert_eq!(<<() as ToBytes>::Bytes as ByteArray>::SIZE, 0);
    assert_eq!(<<[u8; 5] as ToBytes>::Bytes as ByteArray>::SIZE, 5);
}

#[test]
fn primitives_prefer_little_endian() {
    assert!(<u32 as ToBytes>::PREFERS_LE);
    assert!(<u32 as FromBytes>::PREFERS_LE);
    assert!(<u32 as TryFromBytes>::PREFERS_LE);
    assert!(<char as TryFromBytes>::PREFERS_LE);
    assert_eq!(<u32 as ToBytes>::to_bytes(7), [7, 0, 0, 0]);
    assert_eq!(<u32 as FromBytes>::from_bytes([7, 0, 0, 0]), 7);
    assert_eq!(<u32 as TryFromBytes>::try_from_bytes([7, 0, 0, 0]), Ok(7));
    assert_eq!(<bool as TryFromBytes>::try_from_bytes([1]), Ok(true));
}

#[test]
fn the_number_one_tells_the_order() {
    assert!(one_is_little(&[1, 0]));
    assert!(!one_is_little(&[0, 1]));
    assert!(!one_is_little(&[1, 1]));
    assert!(!one_is_little(&[0, 0]));
    assert_eq!(one_is_little(&1u16.to_le_bytes()), true);
    assert_eq!(one_is_little(&1u16.to_be_bytes()), false);
    assert_eq!(one_is_little(&1u16.to_ne_bytes()), target_is_little());
}

#[test]
fn native_order_is_the_order_of_the_target() {
    let little = u16::from_ne_bytes([1, 0]) == 1;
    assert_eq!(target_is_little(), little);
    let x = 0x0102_0304u32;
    assert_eq!(<u32 as ToBytes>::to_ne_bytes(x), x.to_ne_bytes());
    assert_eq!(<u32 as FromBytes>::from_ne_bytes(x.to_ne_bytes()), x);
    assert_eq!(
        <u32 as TryFromBytes>::try_from_ne_bytes(x.to_ne_bytes()),
        Ok(x)
    );
    assert_eq!(
        <char as TryFromBytes>::try_from_ne_bytes(('x' as u32).to_ne_bytes()),
        Ok('x')
    );
}

#[test]
fn explicit_order_functions() {
    assert_eq!(to_bytes_in(0x0102u16, true), [0x02, 0x01]);
    assert_eq!(to_bytes_in(0x0102u16, false), [0x01, 0x02]);
    assert_eq!(from_bytes_in::<u16>([0x02, 0x01], true), 0x0102);
    assert_eq!(from_bytes_in::<u16>([0x02, 0x01], false), 0x0201);
    assert_eq!(try_from_bytes_in::<bool>([1], false), Ok(true));
    assert_eq!(try_from_bytes_in::<bool>([7], true), Err(InvalidBool));
}

#[test]
fn char_round_trip_and_failure() {
    for c in ['\0', 'a', 'é', '\u{d7ff}', '\u{e000}', '\u{10ffff}', '🦀'] {
        assert_eq!(<char as ToBytes>::to_le_bytes(c), (c as u32).to_le_bytes());
        assert_eq!(<char as ToBytes>::to_be_bytes(c), (c as u32).to_be_bytes());
        assert_eq!(
            <char as TryFromBytes>::try_from_le_bytes(<char as ToBytes>::to_le_bytes(c)),
            Ok(c)
        );
        assert_eq!(
            <char as TryFromBytes>::try_from_be_bytes(<char as ToBytes>::to_be_bytes(c)),
            Ok(c)
        );
    }
    for code in [0xd800u32, 0xdfff, 0x11_0000, u32::MAX] {
        assert_eq!(
            <char as TryFromBytes>::try_from_le_bytes(code.to_le_bytes()),
            Err(InvalidChar)
        );
        assert_eq!(
            <char as TryFromBytes>::try_from_be_bytes(code.to_be_bytes()),
            Err(InvalidChar)
        );
    }
    // A valid code point read in the wrong order is no code point.
    assert_eq!(
        <char as TryFromBytes>::try_from_be_bytes(('a' as u32).to_le_bytes()),
        Err(InvalidChar)
    );
}

#[test]
fn bool_round_trip_and_failure() {
    assert_eq!(<bool as ToBytes>::to_le_bytes(false), [0]);
    assert_eq!(<bool as ToBytes>::to_le_bytes(true), [1]);
    assert_eq!(<bool as ToBytes>::to_be_bytes(false), [0]);
    assert_eq!(<bool as ToBytes>::to_be_bytes(true), [1]);
    assert_eq!(<bool as TryFromBytes>::try_from_le_bytes([0]), Ok(false));
    assert_eq!(<bool as TryFromBytes>::try_from_le_bytes([1]), Ok(true));
    assert_eq!(<bool as TryFromBytes>::try_from_be_bytes([0]), Ok(false));
    assert_eq!(<bool as TryFromBytes>::try_from_be_bytes([1]), Ok(true));
    for byte in [2u8, 3, 0x80, 0xff] {
        assert_eq!(
            <bool as TryFromBytes>::try_from_le_bytes([byte]),
            Err(InvalidBool)
        );
        assert_eq!(
            <bool as TryFromBytes>::try_from_be_bytes([byte]),
            Err(InvalidBool)
        );
    }
}

#[test]
fn unit_takes_no_bytes() {
    assert_eq!(<() as ToBytes>::to_le_bytes(()), [0u8; 0]);
    assert_eq!(<() as ToBytes>::to_be_bytes(()), [0u8; 0]);
    assert_eq!(<() as FromBytes>::from_le_bytes([]), ());
    assert_eq!(<() as FromBytes>::from_be_bytes([]), ());
}

#[test]
fn raw_bytes_are_their_own_encoding() {
    let raw = [9u8, 8, 7, 6, 5];
    assert_eq!(<[u8; 5] as ToBytes>::to_le_bytes(raw), raw);
    assert_eq!(<[u8; 5] as ToBytes>::to_be_bytes(raw), raw);
    assert_eq!(<[u8; 5] as FromBytes>::from_le_bytes(raw), raw);
    assert_eq!(<[u8; 5] as FromBytes>::from_be_bytes(raw), raw);
    assert_eq!(<[u8; 5] as TryFromBytes>::try_from_bytes(raw), Ok(raw));
}

#[test]
fn byte_array_operations() {
    let mut buffer = <[u8; 6] as ByteArray>::zeroed();
    assert_eq!(buffer, [0; 6]);
    ByteArray::set(&mut buffer, 1, 0xaa);
    assert_eq!(ByteArray::get(&buffer, 1), 0xaa);
    assert_eq!(ByteArray::get(&buffer, 0), 0);
    ByteArray::write_range(&mut buffer, 3, &[1, 2, 3]);
    assert_eq!(buffer, [0, 0xaa, 0, 1, 2, 3]);
    ByteArray::write_range(&mut buffer, 0, &[]);
    assert_eq!(buffer, [0, 0xaa, 0, 1, 2, 3]);
    assert_eq!(ByteArray::as_slice(&buffer), &[0, 0xaa, 0, 1, 2, 3][..]);
    let part: [u8; 3] = ByteArray::from_slice(&buffer, 1);
    assert_eq!(part, [0xaa, 0, 1]);
    let none: [u8; 0] = ByteArray::from_slice(&buffer, 6);
    assert_eq!(none, [0u8; 0]);
}

#[test]
fn digits_and_values() {
    assert_eq!(digits_of::<3>(0x01_0203, true), [3, 2, 1]);
    assert_eq!(digits_of::<3>(0x01_0203, false), [1, 2, 3]);
    // Digits above the width are dropped.
    assert_eq!(digits_of::<2>(0x01_0203, true), [3, 2]);
    assert_eq!(digits_of::<0>(7, true), [0u8; 0]);
    assert_eq!(value_of(&[3, 2, 1], true), 0x01_0203);
    assert_eq!(value_of(&[3, 2, 1], false), 0x03_0201);
    assert_eq!(value_of(&[0xff; 16], true), u128::MAX);
    assert_eq!(value_of::<0>(&[], false), 0);
}

#[test]
fn patterns_of_signed_integers() {
    assert_eq!(half_radix(1), 0x80);
    assert_eq!(half_radix(2), 0x8000);
    assert_eq!(half_radix(16), 1 << 127);
    assert_eq!(pattern_of(-1, 1), 0xff);
    assert_eq!(pattern_of(-128, 1), 0x80);
    assert_eq!(pattern_of(127, 1), 0x7f);
    assert_eq!(pattern_of(-1, 16), u128::MAX);
    assert_eq!(pattern_of(i128::MIN, 16), 1 << 127);
    assert_eq!(signed_of(0xff, 1), -1);
    assert_eq!(signed_of(0x7f, 1), 127);
    assert_eq!(signed_of(0x80, 1), -128);
    assert_eq!(signed_of(0xffff, 2), -1);
    assert_eq!(signed_of(u128::MAX, 16), -1);
    assert_eq!(signed_of(1 << 127, 16), i128::MIN);
}
