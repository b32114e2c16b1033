//! The primitive value types as data.
//!
//! A [`Scalar`] names a primitive type and an [`Atom`] holds one value of
//! one. Through them a codec can be picked while the program runs: each
//! operation here hands the work to the codec of the type that is named.
use crate::error::{Fault, InvalidBool, InvalidChar};
use crate::radix::{
    lemma_digits_len, lemma_digits_of_value, lemma_pattern_signed, lemma_radix_values,
    lemma_value_bound, lemma_value_of_digits,
};
use crate::{
    read_field, spec_from_bytes_in, spec_to_bytes_in, spec_try_from_bytes_in, try_read_field,
    write_field, ByteArray, ToBytes,
};
use vstd::prelude::*;

verus! {

/// A primitive value type.
#[derive(Debug, Clone, Copy, PartialEq, Eq, Structural)]
pub enum Scalar {
    /// An unsigned integer of one byte.
    U8,
    /// A signed integer of one byte.
    I8,
    /// An unsigned integer of two bytes.
    U16,
    /// A signed integer of two bytes.
    I16,
    /// An unsigned integer of four bytes.
    U32,
    /// A signed integer of four bytes.
    I32,
    /// An unsigned integer of eight bytes.
    U64,
    /// A signed integer of eight bytes.
    I64,
    /// An unsigned integer of sixteen bytes.
    U128,
    /// A signed integer of sixteen bytes.
    I128,
    /// An unsigned integer of pointer width, packed in eight bytes.
    Usize,
    /// A signed integer of pointer width, packed in eight bytes.
    Isize,
    /// A Unicode scalar value, packed as its code point in four bytes.
    Char,
    /// A truth value, packed as 0 or 1 in one byte.
    Bool,
    /// The unit value, which takes no bytes.
    Unit,
}

/// One leaf of a value: a value of a primitive type, or which variant of a
/// tagged variant type it is.
#[derive(Debug, Clone, Copy, PartialEq, Eq, Structural)]
pub enum Atom {
    /// A value of the type `u8`.
    U8(u8),
    /// A value of the type `i8`.
    I8(i8),
    /// A value of the type `u16`.
    U16(u16),
    /// A value of the type `i16`.
    I16(i16),
    /// A value of the type `u32`.
    U32(u32),
    /// A value of the type `i32`.
    I32(i32),
    /// A value of the type `u64`.
    U64(u64),
    /// A value of the type `i64`.
    I64(i64),
    /// A value of the type `u128`.
    U128(u128),
    /// A value of the type `i128`.
    I128(i128),
    /// A value of the type `usize`.
    Usize(usize),
    /// A value of the type `isize`.
    Isize(isize),
    /// A Unicode scalar value.
    Char(char),
    /// A truth value.
    Bool(bool),
    /// The unit value.
    Unit,
    /// The variant at this place in the declaration order of its type.
    Variant(usize),
}

impl Scalar {
    /// The number of bytes that a value of this type is packed in.
    pub open spec fn spec_packed_size(self) -> nat {
        match self {
            Scalar::Unit => 0,
            Scalar::U8 | Scalar::I8 | Scalar::Bool => 1,
            Scalar::U16 | Scalar::I16 => 2,
            Scalar::U32 | Scalar::I32 | Scalar::Char => 4,
            Scalar::U64 | Scalar::I64 | Scalar::Usize | Scalar::Isize => 8,
            Scalar::U128 | Scalar::I128 => 16,
        }
    }

    /// The number of bytes that a value of this type is packed in: the
    /// length of the byte array of its codec.
    pub fn packed_size(self) -> (size: usize)
        ensures
            size == self.spec_packed_size(),
    {
        match self {
            Scalar::U8 => <<u8 as ToBytes>::Bytes as ByteArray>::SIZE,
            Scalar::I8 => <<i8 as ToBytes>::Bytes as ByteArray>::SIZE,
            Scalar::U16 => <<u16 as ToBytes>::Bytes as ByteArray>::SIZE,
            Scalar::I16 => <<i16 as ToBytes>::Bytes as ByteArray>::SIZE,
            Scalar::U32 => <<u32 as ToBytes>::Bytes as ByteArray>::SIZE,
            Scalar::I32 => <<i32 as ToBytes>::Bytes as ByteArray>::SIZE,
            Scalar::U64 => <<u64 as ToBytes>::Bytes as ByteArray>::SIZE,
            Scalar::I64 => <<i64 as ToBytes>::Bytes as ByteArray>::SIZE,
            Scalar::U128 => <<u128 as ToBytes>::Bytes as ByteArray>::SIZE,
            Scalar::I128 => <<i128 as ToBytes>::Bytes as ByteArray>::SIZE,
            Scalar::Usize => <<usize as ToBytes>::Bytes as ByteArray>::SIZE,
            Scalar::Isize => <<isize as ToBytes>::Bytes as ByteArray>::SIZE,
            Scalar::Char => <<char as ToBytes>::Bytes as ByteArray>::SIZE,
            Scalar::Bool => <<bool as ToBytes>::Bytes as ByteArray>::SIZE,
            Scalar::Unit => <<() as ToBytes>::Bytes as ByteArray>::SIZE,
        }
    }

    /// Whether this is one of the twelve integer types.
    pub open spec fn spec_is_integer(self) -> bool {
        !(self == Scalar::Char || self == Scalar::Bool || self == Scalar::Unit)
    }

    /// Whether this is one of the twelve integer types.
    #[verifier::when_used_as_spec(spec_is_integer)]
    pub fn is_integer(self) -> (integer: bool)
        ensures
            integer == self.spec_is_integer(),
    {
        match self {
            Scalar::Char | Scalar::Bool | Scalar::Unit => false,
            _ => true,
        }
    }

    /// The value of this type that `bytes` stand for in the order asked
    /// for, or the fault that keeps them from standing for one.
    pub open spec fn decoding<E>(self, bytes: Seq<u8>, little: bool) -> Result<Atom, Fault<E>> {
        match self {
            Scalar::U8 => Ok(Atom::U8(spec_from_bytes_in::<u8>(bytes, little))),
            Scalar::I8 => Ok(Atom::I8(spec_from_bytes_in::<i8>(bytes, little))),
            Scalar::U16 => Ok(Atom::U16(spec_from_bytes_in::<u16>(bytes, little))),
            Scalar::I16 => Ok(Atom::I16(spec_from_bytes_in::<i16>(bytes, little))),
            Scalar::U32 => Ok(Atom::U32(spec_from_bytes_in::<u32>(bytes, little))),
            Scalar::I32 => Ok(Atom::I32(spec_from_bytes_in::<i32>(bytes, little))),
            Scalar::U64 => Ok(Atom::U64(spec_from_bytes_in::<u64>(bytes, little))),
            Scalar::I64 => Ok(Atom::I64(spec_from_bytes_in::<i64>(bytes, little))),
            Scalar::U128 => Ok(Atom::U128(spec_from_bytes_in::<u128>(bytes, little))),
            Scalar::I128 => Ok(Atom::I128(spec_from_bytes_in::<i128>(bytes, little))),
            Scalar::Usize => Ok(Atom::Usize(spec_from_bytes_in::<usize>(bytes, little))),
            Scalar::Isize => Ok(Atom::Isize(spec_from_bytes_in::<isize>(bytes, little))),
            Scalar::Char => match spec_try_from_bytes_in::<char>(bytes, little) {
                Ok(scalar) => Ok(Atom::Char(scalar)),
                Err(_) => Err(Fault::InvalidChar),
            },
            Scalar::Bool => match spec_try_from_bytes_in::<bool>(bytes, little) {
                Ok(truth) => Ok(Atom::Bool(truth)),
                Err(_) => Err(Fault::InvalidBool),
            },
            Scalar::Unit => Ok(Atom::Unit),
        }
    }

    /// Decodes the value of this type that is packed in `bytes` from index
    /// `at` on, in the order asked for. A fault is converted into `E`.
    pub fn decode<E: From<InvalidChar> + From<InvalidBool>>(
        self,
        bytes: &[u8],
        at: usize,
        little: bool,
    ) -> (result: Result<Atom, E>)
        requires
            at + self.spec_packed_size() <= bytes@.len(),
        ensures
            crate::error::reports(
                result,
                self.decoding::<E>(
                    bytes@.subrange(at as int, at + self.spec_packed_size()),
                    little,
                ),
            ),
    {
        match self {
            Scalar::U8 => Ok(Atom::U8(read_field::<u8>(bytes, at, little))),
            Scalar::I8 => Ok(Atom::I8(read_field::<i8>(bytes, at, little))),
            Scalar::U16 => Ok(Atom::U16(read_field::<u16>(bytes, at, little))),
            Scalar::I16 => Ok(Atom::I16(read_field::<i16>(bytes, at, little))),
            Scalar::U32 => Ok(Atom::U32(read_field::<u32>(bytes, at, little))),
            Scalar::I32 => Ok(Atom::I32(read_field::<i32>(bytes, at, little))),
            Scalar::U64 => Ok(Atom::U64(read_field::<u64>(bytes, at, little))),
            Scalar::I64 => Ok(Atom::I64(read_field::<i64>(bytes, at, little))),
            Scalar::U128 => Ok(Atom::U128(read_field::<u128>(bytes, at, little))),
            Scalar::I128 => Ok(Atom::I128(read_field::<i128>(bytes, at, little))),
            Scalar::Usize => Ok(Atom::Usize(read_field::<usize>(bytes, at, little))),
            Scalar::Isize => Ok(Atom::Isize(read_field::<isize>(bytes, at, little))),
            Scalar::Char => match try_read_field::<char>(bytes, at, little) {
                Ok(scalar) => Ok(Atom::Char(scalar)),
                Err(fault) => Err(E::from(fault)),
            },
            Scalar::Bool => match try_read_field::<bool>(bytes, at, little) {
                Ok(truth) => Ok(Atom::Bool(truth)),
                Err(fault) => Err(E::from(fault)),
            },
            Scalar::Unit => Ok(Atom::Unit),
        }
    }
}

/// Whether a `usize` is as wide as the eight bytes that it is packed in.
/// On a target where it is narrower, decoding keeps only the low bytes.
pub open spec fn word_fills_eight_bytes() -> bool {
    &&& usize::MAX == 0xffff_ffff_ffff_ffff
    &&& isize::MAX == 0x7fff_ffff_ffff_ffff
    &&& isize::MIN == -0x8000_0000_0000_0000
}

impl Scalar {
    /// The primitive codecs are inverse the other way round too: bytes
    /// that decode to a value are the packed representation of that value,
    /// in the same order. For the pointer-sized integers this holds where
    /// they are eight bytes wide.
    pub proof fn lemma_decoding_encodes<E>(self, bytes: Seq<u8>, little: bool)
        requires
            bytes.len() == self.spec_packed_size(),
            self.decoding::<E>(bytes, little) is Ok,
            self == Scalar::Usize || self == Scalar::Isize ==> word_fills_eight_bytes(),
        ensures
            self.decoding::<E>(bytes, little)->Ok_0.spec_kind() == Some(self),
            self.decoding::<E>(bytes, little)->Ok_0.encoding(little) == bytes,
    {
        lemma_radix_values();
        lemma_value_bound(bytes);
        lemma_digits_of_value(bytes);
        if self.spec_is_integer() {
            lemma_pattern_signed(self.spec_packed_size());
        }
        if self == Scalar::Unit {
            assert(bytes =~= Seq::<u8>::empty());
        }
    }
}

impl Atom {
    /// The number that an integer holds; none for any other atom.
    pub open spec fn spec_number(self) -> Option<int> {
        match self {
            Atom::U8(x) => Some(x as int),
            Atom::I8(x) => Some(x as int),
            Atom::U16(x) => Some(x as int),
            Atom::I16(x) => Some(x as int),
            Atom::U32(x) => Some(x as int),
            Atom::I32(x) => Some(x as int),
            Atom::U64(x) => Some(x as int),
            Atom::I64(x) => Some(x as int),
            Atom::U128(x) => Some(x as int),
            Atom::I128(x) => Some(x as int),
            Atom::Usize(x) => Some(x as int),
            Atom::Isize(x) => Some(x as int),
            _ => None,
        }
    }
}

impl Scalar {
    /// Whether this is an integer type that holds `number`.
    pub open spec fn spec_admits_number(self, number: int) -> bool {
        match self {
            Scalar::U8 => u8::MIN <= number <= u8::MAX,
            Scalar::I8 => i8::MIN <= number <= i8::MAX,
            Scalar::U16 => u16::MIN <= number <= u16::MAX,
            Scalar::I16 => i16::MIN <= number <= i16::MAX,
            Scalar::U32 => u32::MIN <= number <= u32::MAX,
            Scalar::I32 => i32::MIN <= number <= i32::MAX,
            Scalar::U64 => u64::MIN <= number <= u64::MAX,
            Scalar::I64 => i64::MIN <= number <= i64::MAX,
            Scalar::U128 => u128::MIN <= number <= u128::MAX,
            Scalar::I128 => i128::MIN <= number <= i128::MAX,
            Scalar::Usize => usize::MIN <= number <= usize::MAX,
            Scalar::Isize => isize::MIN <= number <= isize::MAX,
            _ => false,
        }
    }

    /// The value of this integer type that holds the number `number`;
    /// none where the type cannot hold it.
    pub fn unsigned_atom(self, number: u128) -> (atom: Option<Atom>)
        ensures
            match atom {
                Some(held) => held.spec_kind() == Some(self) && held.spec_number() == Some(
                    number as int,
                ),
                None => !self.spec_admits_number(number as int),
            },
    {
        match self {
            Scalar::U8 => if number <= u8::MAX as u128 {
                Some(Atom::U8(number as u8))
            } else {
                None
            },
            Scalar::I8 => if number <= i8::MAX as u128 {
                Some(Atom::I8(number as i8))
            } else {
                None
            },
            Scalar::U16 => if number <= u16::MAX as u128 {
                Some(Atom::U16(number as u16))
            } else {
                None
            },
            Scalar::I16 => if number <= i16::MAX as u128 {
                Some(Atom::I16(number as i16))
            } else {
                None
            },
            Scalar::U32 => if number <= u32::MAX as u128 {
                Some(Atom::U32(number as u32))
            } else {
                None
            },
            Scalar::I32 => if number <= i32::MAX as u128 {
                Some(Atom::I32(number as i32))
            } else {
                None
            },
            Scalar::U64 => if number <= u64::MAX as u128 {
                Some(Atom::U64(number as u64))
            } else {
                None
            },
            Scalar::I64 => if number <= i64::MAX as u128 {
                Some(Atom::I64(number as i64))
            } else {
                None
            },
            Scalar::U128 => Some(Atom::U128(number)),
            Scalar::I128 => if number <= i128::MAX as u128 {
                Some(Atom::I128(number as i128))
            } else {
                None
            },
            Scalar::Usize => if number <= usize::MAX as u128 {
                Some(Atom::Usize(number as usize))
            } else {
                None
            },
            Scalar::Isize => if number <= isize::MAX as u128 {
                Some(Atom::Isize(number as isize))
            } else {
                None
            },
            _ => None,
        }
    }

    /// The value of this integer type that holds the number `number`;
    /// none where the type cannot hold it.
    pub fn signed_atom(self, number: i128) -> (atom: Option<Atom>)
        ensures
            match atom {
                Some(held) => held.spec_kind() == Some(self) && held.spec_number() == Some(
                    number as int,
                ),
                None => !self.spec_admits_number(number as int),
            },
    {
        if number >= 0 {
            return self.unsigned_atom(number as u128);
        }
        match self {
            Scalar::I8 => if number >= i8::MIN as i128 {
                Some(Atom::I8(number as i8))
            } else {
                None
            },
            Scalar::I16 => if number >= i16::MIN as i128 {
                Some(Atom::I16(number as i16))
            } else {
                None
            },
            Scalar::I32 => if number >= i32::MIN as i128 {
                Some(Atom::I32(number as i32))
            } else {
                None
            },
            Scalar::I64 => if number >= i64::MIN as i128 {
                Some(Atom::I64(number as i64))
            } else {
                None
            },
            Scalar::I128 => Some(Atom::I128(number)),
            Scalar::Isize => if number >= isize::MIN as i128 {
                Some(Atom::Isize(number as isize))
            } else {
                None
            },
            _ => None,
        }
    }
}

impl Atom {
    /// The primitive type of this value; none for a variant index.
    pub open spec fn spec_kind(self) -> Option<Scalar> {
        match self {
            Atom::U8(_) => Some(Scalar::U8),
            Atom::I8(_) => Some(Scalar::I8),
            Atom::U16(_) => Some(Scalar::U16),
            Atom::I16(_) => Some(Scalar::I16),
            Atom::U32(_) => Some(Scalar::U32),
            Atom::I32(_) => Some(Scalar::I32),
            Atom::U64(_) => Some(Scalar::U64),
            Atom::I64(_) => Some(Scalar::I64),
            Atom::U128(_) => Some(Scalar::U128),
            Atom::I128(_) => Some(Scalar::I128),
            Atom::Usize(_) => Some(Scalar::Usize),
            Atom::Isize(_) => Some(Scalar::Isize),
            Atom::Char(_) => Some(Scalar::Char),
            Atom::Bool(_) => Some(Scalar::Bool),
            Atom::Unit => Some(Scalar::Unit),
            Atom::Variant(_) => None,
        }
    }

    /// The primitive type of this value; none for a variant index.
    #[verifier::when_used_as_spec(spec_kind)]
    pub fn kind(self) -> (kind: Option<Scalar>)
        ensures
            kind == self.spec_kind(),
    {
        match self {
            Atom::U8(_) => Some(Scalar::U8),
            Atom::I8(_) => Some(Scalar::I8),
            Atom::U16(_) => Some(Scalar::U16),
            Atom::I16(_) => Some(Scalar::I16),
            Atom::U32(_) => Some(Scalar::U32),
            Atom::I32(_) => Some(Scalar::I32),
            Atom::U64(_) => Some(Scalar::U64),
            Atom::I64(_) => Some(Scalar::I64),
            Atom::U128(_) => Some(Scalar::U128),
            Atom::I128(_) => Some(Scalar::I128),
            Atom::Usize(_) => Some(Scalar::Usize),
            Atom::Isize(_) => Some(Scalar::Isize),
            Atom::Char(_) => Some(Scalar::Char),
            Atom::Bool(_) => Some(Scalar::Bool),
            Atom::Unit => Some(Scalar::Unit),
            Atom::Variant(_) => None,
        }
    }

    /// The packed representation of this value in the order asked for. A
    /// variant index has no bytes of its own: its bytes are those of its
    /// discriminant, which the table of its type gives.
    pub open spec fn encoding(self, little: bool) -> Seq<u8> {
        match self {
            Atom::U8(x) => spec_to_bytes_in(x, little),
            Atom::I8(x) => spec_to_bytes_in(x, little),
            Atom::U16(x) => spec_to_bytes_in(x, little),
            Atom::I16(x) => spec_to_bytes_in(x, little),
            Atom::U32(x) => spec_to_bytes_in(x, little),
            Atom::I32(x) => spec_to_bytes_in(x, little),
            Atom::U64(x) => spec_to_bytes_in(x, little),
            Atom::I64(x) => spec_to_bytes_in(x, little),
            Atom::U128(x) => spec_to_bytes_in(x, little),
            Atom::I128(x) => spec_to_bytes_in(x, little),
            Atom::Usize(x) => spec_to_bytes_in(x, little),
            Atom::Isize(x) => spec_to_bytes_in(x, little),
            Atom::Char(scalar) => spec_to_bytes_in(scalar, little),
            Atom::Bool(truth) => spec_to_bytes_in(truth, little),
            Atom::Unit => spec_to_bytes_in((), little),
            Atom::Variant(_) => Seq::empty(),
        }
    }

    /// Appends the packed representation of this value to `out`, in the
    /// order asked for.
    pub fn encode(self, little: bool, out: &mut Vec<u8>)
        ensures
            final(out)@ == old(out)@ + self.encoding(little),
    {
        match self {
            Atom::U8(x) => write_field(x, little, out),
            Atom::I8(x) => write_field(x, little, out),
            Atom::U16(x) => write_field(x, little, out),
            Atom::I16(x) => write_field(x, little, out),
            Atom::U32(x) => write_field(x, little, out),
            Atom::I32(x) => write_field(x, little, out),
            Atom::U64(x) => write_field(x, little, out),
            Atom::I64(x) => write_field(x, little, out),
            Atom::U128(x) => write_field(x, little, out),
            Atom::I128(x) => write_field(x, little, out),
            Atom::Usize(x) => write_field(x, little, out),
            Atom::Isize(x) => write_field(x, little, out),
            Atom::Char(scalar) => write_field(scalar, little, out),
            Atom::Bool(truth) => write_field(truth, little, out),
            Atom::Unit => write_field((), little, out),
            Atom::Variant(_) => {
                assert(out@ =~= old(out)@ + Seq::<u8>::empty());
            },
        }
    }

    /// A primitive value takes as many bytes as its type says, whatever the
    /// value and the order.
    pub proof fn lemma_encoding_len(self, little: bool)
        ensures
            self.encoding(little).len() == match self.spec_kind() {
                Some(kind) => kind.spec_packed_size(),
                None => 0,
            },
    {
        match self {
            Atom::U8(x) => lemma_digits_len(x as nat, 1),
            Atom::I8(x) => lemma_digits_len(crate::radix::pattern(x as int, 1), 1),
            Atom::U16(x) => lemma_digits_len(x as nat, 2),
            Atom::I16(x) => lemma_digits_len(crate::radix::pattern(x as int, 2), 2),
            Atom::U32(x) => lemma_digits_len(x as nat, 4),
            Atom::I32(x) => lemma_digits_len(crate::radix::pattern(x as int, 4), 4),
            Atom::U64(x) => lemma_digits_len(x as nat, 8),
            Atom::I64(x) => lemma_digits_len(crate::radix::pattern(x as int, 8), 8),
            Atom::U128(x) => lemma_digits_len(x as nat, 16),
            Atom::I128(x) => lemma_digits_len(crate::radix::pattern(x as int, 16), 16),
            Atom::Usize(x) => lemma_digits_len(x as nat, 8),
            Atom::Isize(x) => lemma_digits_len(crate::radix::pattern(x as int, 8), 8),
            Atom::Char(scalar) => lemma_digits_len(scalar as u32 as nat, 4),
            Atom::Bool(truth) => lemma_digits_len(if truth { 1 } else { 0 }, 1),
            Atom::Unit => {},
            Atom::Variant(_) => {},
        }
    }

    /// Round trip of the primitive codecs: a primitive value, encoded in
    /// either order and decoded in the same order as a value of its type,
    /// comes back unchanged.
    pub proof fn lemma_round_trip<E>(self, little: bool)
        requires
            self.spec_kind() is Some,
        ensures
            self.spec_kind().unwrap().decoding::<E>(self.encoding(little), little) == Ok::<
                Atom,
                Fault<E>,
            >(self),
    {
        lemma_radix_values();
        match self {
            Atom::U8(x) => lemma_value_of_digits(x as nat, 1),
            Atom::I8(x) => {
                lemma_pattern_signed(1);
                lemma_value_of_digits(crate::radix::pattern(x as int, 1), 1);
            },
            Atom::U16(x) => lemma_value_of_digits(x as nat, 2),
            Atom::I16(x) => {
                lemma_pattern_signed(2);
                lemma_value_of_digits(crate::radix::pattern(x as int, 2), 2);
            },
            Atom::U32(x) => lemma_value_of_digits(x as nat, 4),
            Atom::I32(x) => {
                lemma_pattern_signed(4);
                lemma_value_of_digits(crate::radix::pattern(x as int, 4), 4);
            },
            Atom::U64(x) => lemma_value_of_digits(x as nat, 8),
            Atom::I64(x) => {
                lemma_pattern_signed(8);
                lemma_value_of_digits(crate::radix::pattern(x as int, 8), 8);
            },
            Atom::U128(x) => lemma_value_of_digits(x as nat, 16),
            Atom::I128(x) => {
                lemma_pattern_signed(16);
                lemma_value_of_digits(crate::radix::pattern(x as int, 16), 16);
            },
            Atom::Usize(x) => lemma_value_of_digits(x as nat, 8),
            Atom::Isize(x) => {
                lemma_pattern_signed(8);
                lemma_value_of_digits(crate::radix::pattern(x as int, 8), 8);
            },
            Atom::Char(scalar) => lemma_value_of_digits(scalar as u32 as nat, 4),
            Atom::Bool(truth) => lemma_value_of_digits(if truth { 1 } else { 0 }, 1),
            Atom::Unit => {},
            Atom::Variant(_) => {},
        }
    }
}

} // verus!
