//! The primitive codecs.
//!
//! An integer is packed as the base-256 digits of its bit pattern, in as many
//! bytes as its type is wide; `usize` and `isize` take eight bytes. A `char`
//! is packed as its code point in four bytes and a `bool` as 0 or 1 in one
//! byte; decoding either can fail. The unit value takes no bytes.
use crate::error::{InvalidBool, InvalidChar};
use crate::radix::{
    be_digits, be_value, digits_of, le_digits, le_value, lemma_radix_values, lemma_value_bound,
    pattern, pattern_of, signed, signed_of, value_of,
};
use crate::{FromBytes, ToBytes, TryFromBytes};
use vstd::prelude::*;

verus! {

impl FromBytes for u8 {
    type Bytes = [u8; 1];

    open spec fn spec_from_le_bytes(bytes: Seq<u8>) -> u8 {
        le_value(bytes) as u8
    }

    open spec fn spec_from_be_bytes(bytes: Seq<u8>) -> u8 {
        be_value(bytes) as u8
    }

    fn from_le_bytes(bytes: [u8; 1]) -> (value: u8) {
        let x = value_of(&bytes, true);
        proof {
            lemma_value_bound(bytes@);
            lemma_radix_values();
        }
        #[verifier::truncate] (x as u8)
    }

    fn from_be_bytes(bytes: [u8; 1]) -> (value: u8) {
        let x = value_of(&bytes, false);
        proof {
            lemma_value_bound(bytes@);
            lemma_radix_values();
        }
        #[verifier::truncate] (x as u8)
    }
}

impl ToBytes for u8 {
    type Bytes = [u8; 1];

    open spec fn spec_to_le_bytes(self) -> Seq<u8> {
        le_digits(self as nat, 1)
    }

    open spec fn spec_to_be_bytes(self) -> Seq<u8> {
        be_digits(self as nat, 1)
    }

    fn to_le_bytes(self) -> (bytes: [u8; 1]) {
        digits_of(self as u128, true)
    }

    fn to_be_bytes(self) -> (bytes: [u8; 1]) {
        digits_of(self as u128, false)
    }
}

impl FromBytes for i8 {
    type Bytes = [u8; 1];

    open spec fn spec_from_le_bytes(bytes: Seq<u8>) -> i8 {
        signed(le_value(bytes), 1) as i8
    }

    open spec fn spec_from_be_bytes(bytes: Seq<u8>) -> i8 {
        signed(be_value(bytes), 1) as i8
    }

    fn from_le_bytes(bytes: [u8; 1]) -> (value: i8) {
        let p = value_of(&bytes, true);
        proof {
            lemma_value_bound(bytes@);
            lemma_radix_values();
        }
        let x = signed_of(p, 1);
        #[verifier::truncate] (x as i8)
    }

    fn from_be_bytes(bytes: [u8; 1]) -> (value: i8) {
        let p = value_of(&bytes, false);
        proof {
            lemma_value_bound(bytes@);
            lemma_radix_values();
        }
        let x = signed_of(p, 1);
        #[verifier::truncate] (x as i8)
    }
}

impl ToBytes for i8 {
    type Bytes = [u8; 1];

    open spec fn spec_to_le_bytes(self) -> Seq<u8> {
        le_digits(pattern(self as int, 1), 1)
    }

    open spec fn spec_to_be_bytes(self) -> Seq<u8> {
        be_digits(pattern(self as int, 1), 1)
    }

    fn to_le_bytes(self) -> (bytes: [u8; 1]) {
        proof {
            lemma_radix_values();
        }
        digits_of(pattern_of(self as i128, 1), true)
    }

    fn to_be_bytes(self) -> (bytes: [u8; 1]) {
        proof {
            lemma_radix_values();
        }
        digits_of(pattern_of(self as i128, 1), false)
    }
}

impl FromBytes for u16 {
    type Bytes = [u8; 2];

    open spec fn spec_from_le_bytes(bytes: Seq<u8>) -> u16 {
        le_value(bytes) as u16
    }

    open spec fn spec_from_be_bytes(bytes: Seq<u8>) -> u16 {
        be_value(bytes) as u16
    }

    fn from_le_bytes(bytes: [u8; 2]) -> (value: u16) {
        let x = value_of(&bytes, true);
        proof {
            lemma_value_bound(bytes@);
            lemma_radix_values();
        }
        #[verifier::truncate] (x as u16)
    }

    fn from_be_bytes(bytes: [u8; 2]) -> (value: u16) {
        let x = value_of(&bytes, false);
        proof {
            lemma_value_bound(bytes@);
            lemma_radix_values();
        }
        #[verifier::truncate] (x as u16)
    }
}

impl ToBytes for u16 {
    type Bytes = [u8; 2];

    open spec fn spec_to_le_bytes(self) -> Seq<u8> {
        le_digits(self as nat, 2)
    }

    open spec fn spec_to_be_bytes(self) -> Seq<u8> {
        be_digits(self as nat, 2)
    }

    fn to_le_bytes(self) -> (bytes: [u8; 2]) {
        digits_of(self as u128, true)
    }

    fn to_be_bytes(self) -> (bytes: [u8; 2]) {
        digits_of(self as u128, false)
    }
}

impl FromBytes for i16 {
    type Bytes = [u8; 2];

    open spec fn spec_from_le_bytes(bytes: Seq<u8>) -> i16 {
        signed(le_value(bytes), 2) as i16
    }

    open spec fn spec_from_be_bytes(bytes: Seq<u8>) -> i16 {
        signed(be_value(bytes), 2) as i16
    }

    fn from_le_bytes(bytes: [u8; 2]) -> (value: i16) {
        let p = value_of(&bytes, true);
        proof {
            lemma_value_bound(bytes@);
            lemma_radix_values();
        }
        let x = signed_of(p, 2);
        #[verifier::truncate] (x as i16)
    }

    fn from_be_bytes(bytes: [u8; 2]) -> (value: i16) {
        let p = value_of(&bytes, false);
        proof {
            lemma_value_bound(bytes@);
            lemma_radix_values();
        }
        let x = signed_of(p, 2);
        #[verifier::truncate] (x as i16)
    }
}

impl ToBytes for i16 {
    type Bytes = [u8; 2];

    open spec fn spec_to_le_bytes(self) -> Seq<u8> {
        le_digits(pattern(self as int, 2), 2)
    }

    open spec fn spec_to_be_bytes(self) -> Seq<u8> {
        be_digits(pattern(self as int, 2), 2)
    }

    fn to_le_bytes(self) -> (bytes: [u8; 2]) {
        proof {
            lemma_radix_values();
        }
        digits_of(pattern_of(self as i128, 2), true)
    }

    fn to_be_bytes(self) -> (bytes: [u8; 2]) {
        proof {
            lemma_radix_values();
        }
        digits_of(pattern_of(self as i128, 2), false)
    }
}

impl FromBytes for u32 {
    type Bytes = [u8; 4];

    open spec fn spec_from_le_bytes(bytes: Seq<u8>) -> u32 {
        le_value(bytes) as u32
    }

    open spec fn spec_from_be_bytes(bytes: Seq<u8>) -> u32 {
        be_value(bytes) as u32
    }

    fn from_le_bytes(bytes: [u8; 4]) -> (value: u32) {
        let x = value_of(&bytes, true);
        proof {
            lemma_value_bound(bytes@);
            lemma_radix_values();
        }
        #[verifier::truncate] (x as u32)
    }

    fn from_be_bytes(bytes: [u8; 4]) -> (value: u32) {
        let x = value_of(&bytes, false);
        proof {
            lemma_value_bound(bytes@);
            lemma_radix_values();
        }
        #[verifier::truncate] (x as u32)
    }
}

impl ToBytes for u32 {
    type Bytes = [u8; 4];

    open spec fn spec_to_le_bytes(self) -> Seq<u8> {
        le_digits(self as nat, 4)
    }

    open spec fn spec_to_be_bytes(self) -> Seq<u8> {
        be_digits(self as nat, 4)
    }

    fn to_le_bytes(self) -> (bytes: [u8; 4]) {
        digits_of(self as u128, true)
    }

    fn to_be_bytes(self) -> (bytes: [u8; 4]) {
        digits_of(self as u128, false)
    }
}

impl FromBytes for i32 {
    type Bytes = [u8; 4];

    open spec fn spec_from_le_bytes(bytes: Seq<u8>) -> i32 {
        signed(le_value(bytes), 4) as i32
    }

    open spec fn spec_from_be_bytes(bytes: Seq<u8>) -> i32 {
        signed(be_value(bytes), 4) as i32
    }

    fn from_le_bytes(bytes: [u8; 4]) -> (value: i32) {
        let p = value_of(&bytes, true);
        proof {
            lemma_value_bound(bytes@);
            lemma_radix_values();
        }
        let x = signed_of(p, 4);
        #[verifier::truncate] (x as i32)
    }

    fn from_be_bytes(bytes: [u8; 4]) -> (value: i32) {
        let p = value_of(&bytes, false);
        proof {
            lemma_value_bound(bytes@);
            lemma_radix_values();
        }
        let x = signed_of(p, 4);
        #[verifier::truncate] (x as i32)
    }
}

impl ToBytes for i32 {
    type Bytes = [u8; 4];

    open spec fn spec_to_le_bytes(self) -> Seq<u8> {
        le_digits(pattern(self as int, 4), 4)
    }

    open spec fn spec_to_be_bytes(self) -> Seq<u8> {
        be_digits(pattern(self as int, 4), 4)
    }

    fn to_le_bytes(self) -> (bytes: [u8; 4]) {
        proof {
            lemma_radix_values();
        }
        digits_of(pattern_of(self as i128, 4), true)
    }

    fn to_be_bytes(self) -> (bytes: [u8; 4]) {
        proof {
            lemma_radix_values();
        }
        digits_of(pattern_of(self as i128, 4), false)
    }
}

impl FromBytes for u64 {
    type Bytes = [u8; 8];

    open spec fn spec_from_le_bytes(bytes: Seq<u8>) -> u64 {
        le_value(bytes) as u64
    }

    open spec fn spec_from_be_bytes(bytes: Seq<u8>) -> u64 {
        be_value(bytes) as u64
    }

    fn from_le_bytes(bytes: [u8; 8]) -> (value: u64) {
        let x = value_of(&bytes, true);
        proof {
            lemma_value_bound(bytes@);
            lemma_radix_values();
        }
        #[verifier::truncate] (x as u64)
    }

    fn from_be_bytes(bytes: [u8; 8]) -> (value: u64) {
        let x = value_of(&bytes, false);
        proof {
            lemma_value_bound(bytes@);
            lemma_radix_values();
        }
        #[verifier::truncate] (x as u64)
    }
}

impl ToBytes for u64 {
    type Bytes = [u8; 8];

    open spec fn spec_to_le_bytes(self) -> Seq<u8> {
        le_digits(self as nat, 8)
    }

    open spec fn spec_to_be_bytes(self) -> Seq<u8> {
        be_digits(self as nat, 8)
    }

    fn to_le_bytes(self) -> (bytes: [u8; 8]) {
        digits_of(self as u128, true)
    }

    fn to_be_bytes(self) -> (bytes: [u8; 8]) {
        digits_of(self as u128, false)
    }
}

impl FromBytes for i64 {
    type Bytes = [u8; 8];

    open spec fn spec_from_le_bytes(bytes: Seq<u8>) -> i64 {
        signed(le_value(bytes), 8) as i64
    }

    open spec fn spec_from_be_bytes(bytes: Seq<u8>) -> i64 {
        signed(be_value(bytes), 8) as i64
    }

    fn from_le_bytes(bytes: [u8; 8]) -> (value: i64) {
        let p = value_of(&bytes, true);
        proof {
            lemma_value_bound(bytes@);
            lemma_radix_values();
        }
        let x = signed_of(p, 8);
        #[verifier::truncate] (x as i64)
    }

    fn from_be_bytes(bytes: [u8; 8]) -> (value: i64) {
        let p = value_of(&bytes, false);
        proof {
            lemma_value_bound(bytes@);
            lemma_radix_values();
        }
        let x = signed_of(p, 8);
        #[verifier::truncate] (x as i64)
    }
}

impl ToBytes for i64 {
    type Bytes = [u8; 8];

    open spec fn spec_to_le_bytes(self) -> Seq<u8> {
        le_digits(pattern(self as int, 8), 8)
    }

    open spec fn spec_to_be_bytes(self) -> Seq<u8> {
        be_digits(pattern(self as int, 8), 8)
    }

    fn to_le_bytes(self) -> (bytes: [u8; 8]) {
        proof {
            lemma_radix_values();
        }
        digits_of(pattern_of(self as i128, 8), true)
    }

    fn to_be_bytes(self) -> (bytes: [u8; 8]) {
        proof {
            lemma_radix_values();
        }
        digits_of(pattern_of(self as i128, 8), false)
    }
}

impl FromBytes for u128 {
    type Bytes = [u8; 16];

    open spec fn spec_from_le_bytes(bytes: Seq<u8>) -> u128 {
        le_value(bytes) as u128
    }

    open spec fn spec_from_be_bytes(bytes: Seq<u8>) -> u128 {
        be_value(bytes) as u128
    }

    fn from_le_bytes(bytes: [u8; 16]) -> (value: u128) {
        let x = value_of(&bytes, true);
        proof {
            lemma_value_bound(bytes@);
            lemma_radix_values();
        }
        x
    }

    fn from_be_bytes(bytes: [u8; 16]) -> (value: u128) {
        let x = value_of(&bytes, false);
        proof {
            lemma_value_bound(bytes@);
            lemma_radix_values();
        }
        x
    }
}

impl ToBytes for u128 {
    type Bytes = [u8; 16];

    open spec fn spec_to_le_bytes(self) -> Seq<u8> {
        le_digits(self as nat, 16)
    }

    open spec fn spec_to_be_bytes(self) -> Seq<u8> {
        be_digits(self as nat, 16)
    }

    fn to_le_bytes(self) -> (bytes: [u8; 16]) {
        digits_of(self, true)
    }

    fn to_be_bytes(self) -> (bytes: [u8; 16]) {
        digits_of(self, false)
    }
}

impl FromBytes for i128 {
    type Bytes = [u8; 16];

    open spec fn spec_from_le_bytes(bytes: Seq<u8>) -> i128 {
        signed(le_value(bytes), 16) as i128
    }

    open spec fn spec_from_be_bytes(bytes: Seq<u8>) -> i128 {
        signed(be_value(bytes), 16) as i128
    }

    fn from_le_bytes(bytes: [u8; 16]) -> (value: i128) {
        let p = value_of(&bytes, true);
        proof {
            lemma_value_bound(bytes@);
            lemma_radix_values();
        }
        let x = signed_of(p, 16);
        x
    }

    fn from_be_bytes(bytes: [u8; 16]) -> (value: i128) {
        let p = value_of(&bytes, false);
        proof {
            lemma_value_bound(bytes@);
            lemma_radix_values();
        }
        let x = signed_of(p, 16);
        x
    }
}

impl ToBytes for i128 {
    type Bytes = [u8; 16];

    open spec fn spec_to_le_bytes(self) -> Seq<u8> {
        le_digits(pattern(self as int, 16), 16)
    }

    open spec fn spec_to_be_bytes(self) -> Seq<u8> {
        be_digits(pattern(self as int, 16), 16)
    }

    fn to_le_bytes(self) -> (bytes: [u8; 16]) {
        proof {
            lemma_radix_values();
        }
        digits_of(pattern_of(self as i128, 16), true)
    }

    fn to_be_bytes(self) -> (bytes: [u8; 16]) {
        proof {
            lemma_radix_values();
        }
        digits_of(pattern_of(self as i128, 16), false)
    }
}

impl FromBytes for usize {
    type Bytes = [u8; 8];

    open spec fn spec_from_le_bytes(bytes: Seq<u8>) -> usize {
        le_value(bytes) as usize
    }

    open spec fn spec_from_be_bytes(bytes: Seq<u8>) -> usize {
        be_value(bytes) as usize
    }

    fn from_le_bytes(bytes: [u8; 8]) -> (value: usize) {
        let x = value_of(&bytes, true);
        proof {
            lemma_value_bound(bytes@);
            lemma_radix_values();
        }
        #[verifier::truncate] (x as usize)
    }

    fn from_be_bytes(bytes: [u8; 8]) -> (value: usize) {
        let x = value_of(&bytes, false);
        proof {
            lemma_value_bound(bytes@);
            lemma_radix_values();
        }
        #[verifier::truncate] (x as usize)
    }
}

impl ToBytes for usize {
    type Bytes = [u8; 8];

    open spec fn spec_to_le_bytes(self) -> Seq<u8> {
        le_digits(self as nat, 8)
    }

    open spec fn spec_to_be_bytes(self) -> Seq<u8> {
        be_digits(self as nat, 8)
    }

    fn to_le_bytes(self) -> (bytes: [u8; 8]) {
        digits_of(self as u128, true)
    }

    fn to_be_bytes(self) -> (bytes: [u8; 8]) {
        digits_of(self as u128, false)
    }
}

impl FromBytes for isize {
    type Bytes = [u8; 8];

    open spec fn spec_from_le_bytes(bytes: Seq<u8>) -> isize {
        signed(le_value(bytes), 8) as isize
    }

    open spec fn spec_from_be_bytes(bytes: Seq<u8>) -> isize {
        signed(be_value(bytes), 8) as isize
    }

    fn from_le_bytes(bytes: [u8; 8]) -> (value: isize) {
        let p = value_of(&bytes, true);
        proof {
            lemma_value_bound(bytes@);
            lemma_radix_values();
        }
        let x = signed_of(p, 8);
        #[verifier::truncate] (x as isize)
    }

    fn from_be_bytes(bytes: [u8; 8]) -> (value: isize) {
        let p = value_of(&bytes, false);
        proof {
            lemma_value_bound(bytes@);
            lemma_radix_values();
        }
        let x = signed_of(p, 8);
        #[verifier::truncate] (x as isize)
    }
}

impl ToBytes for isize {
    type Bytes = [u8; 8];

    open spec fn spec_to_le_bytes(self) -> Seq<u8> {
        le_digits(pattern(self as int, 8), 8)
    }

    open spec fn spec_to_be_bytes(self) -> Seq<u8> {
        be_digits(pattern(self as int, 8), 8)
    }

    fn to_le_bytes(self) -> (bytes: [u8; 8]) {
        proof {
            lemma_radix_values();
        }
        digits_of(pattern_of(self as i128, 8), true)
    }

    fn to_be_bytes(self) -> (bytes: [u8; 8]) {
        proof {
            lemma_radix_values();
        }
        digits_of(pattern_of(self as i128, 8), false)
    }
}

/// Whether `code` is a Unicode scalar value: a code point that is no surrogate.
pub open spec fn is_scalar_value(code: nat) -> bool {
    code <= 0xD7FF || 0xE000 <= code <= 0x10FFFF
}

/// The `char` with the given code point, where there is one.
pub open spec fn char_of(code: nat) -> Result<char, InvalidChar> {
    if is_scalar_value(code) {
        Ok(code as char)
    } else {
        Err(InvalidChar)
    }
}

/// `char::from_u32` gives the `char` with code point `code` where `code` is
/// a Unicode scalar value, and `None` for a surrogate or a number above
/// `0x10FFFF`.
pub assume_specification[ char::from_u32 ](code: u32) -> (scalar: Option<char>)
    ensures
        scalar == if is_scalar_value(code as nat) {
            Some(code as char)
        } else {
            None::<char>
        },
;

impl TryFromBytes for char {
    type Bytes = [u8; 4];

    type Error = InvalidChar;

    open spec fn spec_try_from_le_bytes(bytes: Seq<u8>) -> Result<char, InvalidChar> {
        char_of(le_value(bytes))
    }

    open spec fn spec_try_from_be_bytes(bytes: Seq<u8>) -> Result<char, InvalidChar> {
        char_of(be_value(bytes))
    }

    fn try_from_le_bytes(bytes: [u8; 4]) -> (value: Result<char, InvalidChar>) {
        let code = value_of(&bytes, true);
        proof {
            lemma_value_bound(bytes@);
            lemma_radix_values();
        }
        match char::from_u32(code as u32) {
            Some(scalar) => Ok(scalar),
            None => Err(InvalidChar),
        }
    }

    fn try_from_be_bytes(bytes: [u8; 4]) -> (value: Result<char, InvalidChar>) {
        let code = value_of(&bytes, false);
        proof {
            lemma_value_bound(bytes@);
            lemma_radix_values();
        }
        match char::from_u32(code as u32) {
            Some(scalar) => Ok(scalar),
            None => Err(InvalidChar),
        }
    }
}

impl ToBytes for char {
    type Bytes = [u8; 4];

    open spec fn spec_to_le_bytes(self) -> Seq<u8> {
        le_digits(self as u32 as nat, 4)
    }

    open spec fn spec_to_be_bytes(self) -> Seq<u8> {
        be_digits(self as u32 as nat, 4)
    }

    fn to_le_bytes(self) -> (bytes: [u8; 4]) {
        digits_of(self as u32 as u128, true)
    }

    fn to_be_bytes(self) -> (bytes: [u8; 4]) {
        digits_of(self as u32 as u128, false)
    }
}

/// The `bool` that the number `byte` stands for, where it stands for one.
pub open spec fn bool_of(byte: nat) -> Result<bool, InvalidBool> {
    if byte == 0 {
        Ok(false)
    } else if byte == 1 {
        Ok(true)
    } else {
        Err(InvalidBool)
    }
}

impl TryFromBytes for bool {
    type Bytes = [u8; 1];

    type Error = InvalidBool;

    open spec fn spec_try_from_le_bytes(bytes: Seq<u8>) -> Result<bool, InvalidBool> {
        bool_of(le_value(bytes))
    }

    open spec fn spec_try_from_be_bytes(bytes: Seq<u8>) -> Result<bool, InvalidBool> {
        bool_of(be_value(bytes))
    }

    fn try_from_le_bytes(bytes: [u8; 1]) -> (value: Result<bool, InvalidBool>) {
        let byte = value_of(&bytes, true);
        if byte == 0 {
            Ok(false)
        } else if byte == 1 {
            Ok(true)
        } else {
            Err(InvalidBool)
        }
    }

    fn try_from_be_bytes(bytes: [u8; 1]) -> (value: Result<bool, InvalidBool>) {
        let byte = value_of(&bytes, false);
        if byte == 0 {
            Ok(false)
        } else if byte == 1 {
            Ok(true)
        } else {
            Err(InvalidBool)
        }
    }
}

impl ToBytes for bool {
    type Bytes = [u8; 1];

    open spec fn spec_to_le_bytes(self) -> Seq<u8> {
        le_digits(if self { 1 } else { 0 }, 1)
    }

    open spec fn spec_to_be_bytes(self) -> Seq<u8> {
        be_digits(if self { 1 } else { 0 }, 1)
    }

    fn to_le_bytes(self) -> (bytes: [u8; 1]) {
        digits_of(if self { 1 } else { 0 }, true)
    }

    fn to_be_bytes(self) -> (bytes: [u8; 1]) {
        digits_of(if self { 1 } else { 0 }, false)
    }
}

impl FromBytes for () {
    type Bytes = [u8; 0];

    open spec fn spec_from_le_bytes(bytes: Seq<u8>) -> () {
        ()
    }

    open spec fn spec_from_be_bytes(bytes: Seq<u8>) -> () {
        ()
    }

    fn from_le_bytes(bytes: [u8; 0]) -> (value: ()) {
        ()
    }

    fn from_be_bytes(bytes: [u8; 0]) -> (value: ()) {
        ()
    }
}

impl ToBytes for () {
    type Bytes = [u8; 0];

    open spec fn spec_to_le_bytes(self) -> Seq<u8> {
        Seq::empty()
    }

    open spec fn spec_to_be_bytes(self) -> Seq<u8> {
        Seq::empty()
    }

    fn to_le_bytes(self) -> (bytes: [u8; 0]) {
        let bytes: [u8; 0] = [];
        proof {
            assert(bytes@ =~= Seq::<u8>::empty());
        }
        bytes
    }

    fn to_be_bytes(self) -> (bytes: [u8; 0]) {
        let bytes: [u8; 0] = [];
        proof {
            assert(bytes@ =~= Seq::<u8>::empty());
        }
        bytes
    }
}

} // verus!
