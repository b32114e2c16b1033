//! The words by which a declaration configures its type.
//!
//! A declaration names the byte order that its type prefers by one of the
//! words `le`, `be` and `ne`, and the integer type that a tagged variant
//! type is packed as by the name of that type. It names the type of a
//! field, and writes a discriminant as a number with or without a minus
//! sign.
use crate::endian::Preference;
use crate::scalar::{Atom, Scalar};
use vstd::prelude::*;

verus! {

/// Whether the two texts hold the same characters.
pub fn same_text(one: &str, other: &str) -> (same: bool)
    ensures
        same == (one@ == other@),
{
    let len = one.unicode_len();
    if len != other.unicode_len() {
        return false;
    }
    let mut i: usize = 0;
    while i < len
        invariant
            i <= len,
            len == one@.len(),
            len == other@.len(),
            forall|j: int| 0 <= j < i ==> one@[j] == other@[j],
        decreases len - i,
    {
        if one.get_char(i) != other.get_char(i) {
            return false;
        }
        i += 1;
    }
    proof {
        assert(one@ =~= other@);
    }
    true
}

/// The byte order that `word` names: `le` little endian, `be` big endian,
/// `ne` that of the target. Any other word names none.
pub open spec fn endianness_named(word: Seq<char>) -> Option<Preference> {
    if word == "le"@ {
        Some(Preference::Little)
    } else if word == "be"@ {
        Some(Preference::Big)
    } else if word == "ne"@ {
        Some(Preference::Native)
    } else {
        None
    }
}

/// Tests whether `word` names a byte order: whether it is one of `le`,
/// `be` and `ne`.
pub fn names_endianness(word: &str) -> (known: bool)
    ensures
        known == endianness_named(word@).is_some(),
{
    same_text(word, "le") || same_text(word, "be") || same_text(word, "ne")
}

/// Reads the word of a byte-order attribute into `end`, the byte order
/// declared so far: `be` and `ne` set it, `le` leaves it as it stands.
///
/// The word must name a byte order. A declaration with any other word is
/// no declaration of a type, and no byte order comes of it:
/// `names_endianness` tells such a word beforehand.
pub fn get_endianness(word: &str, end: &mut Preference)
    requires
        endianness_named(word@).is_some(),
    ensures
        *final(end) == match endianness_named(word@) {
            Some(Preference::Little) | None => *old(end),
            Some(named) => named,
        },
{
    proof {
        reveal_strlit("le");
        reveal_strlit("be");
        reveal_strlit("ne");
        assert("le"@[0] == 'l' && "be"@[0] == 'b' && "ne"@[0] == 'n');
    }
    if same_text(word, "be") {
        *end = Preference::Big;
    } else if same_text(word, "ne") {
        *end = Preference::Native;
    }
}

/// The integer type that `word` is the name of. Any other word, the name
/// of another primitive type too, names none.
pub open spec fn numeric_type_named(word: Seq<char>) -> Option<Scalar> {
    if word == "u8"@ {
        Some(Scalar::U8)
    } else if word == "u16"@ {
        Some(Scalar::U16)
    } else if word == "u32"@ {
        Some(Scalar::U32)
    } else if word == "u64"@ {
        Some(Scalar::U64)
    } else if word == "u128"@ {
        Some(Scalar::U128)
    } else if word == "usize"@ {
        Some(Scalar::Usize)
    } else if word == "i8"@ {
        Some(Scalar::I8)
    } else if word == "i16"@ {
        Some(Scalar::I16)
    } else if word == "i32"@ {
        Some(Scalar::I32)
    } else if word == "i64"@ {
        Some(Scalar::I64)
    } else if word == "i128"@ {
        Some(Scalar::I128)
    } else if word == "isize"@ {
        Some(Scalar::Isize)
    } else {
        None
    }
}

/// Reads the word of an attribute that names the integer type of a tagged
/// variant type into `repr`, the type declared so far. Where the word
/// names no integer type, `repr` stays as it was.
pub fn get_numeric_type(word: &str, repr: &mut Scalar)
    ensures
        *final(repr) == match numeric_type_named(word@) {
            Some(named) => named,
            None => *old(repr),
        },
        old(repr).spec_is_integer() ==> final(repr).spec_is_integer(),
{
    match numeric_type(word) {
        Some(named) => {
            *repr = named;
        },
        None => {},
    }
}

/// The integer type that `word` is the name of, if it names one.
pub fn numeric_type(word: &str) -> (named: Option<Scalar>)
    ensures
        named == numeric_type_named(word@),
        named matches Some(kind) ==> kind.spec_is_integer(),
{
    if same_text(word, "u8") {
        Some(Scalar::U8)
    } else if same_text(word, "u16") {
        Some(Scalar::U16)
    } else if same_text(word, "u32") {
        Some(Scalar::U32)
    } else if same_text(word, "u64") {
        Some(Scalar::U64)
    } else if same_text(word, "u128") {
        Some(Scalar::U128)
    } else if same_text(word, "usize") {
        Some(Scalar::Usize)
    } else if same_text(word, "i8") {
        Some(Scalar::I8)
    } else if same_text(word, "i16") {
        Some(Scalar::I16)
    } else if same_text(word, "i32") {
        Some(Scalar::I32)
    } else if same_text(word, "i64") {
        Some(Scalar::I64)
    } else if same_text(word, "i128") {
        Some(Scalar::I128)
    } else if same_text(word, "isize") {
        Some(Scalar::Isize)
    } else {
        None
    }
}

/// The primitive type that `word` is the name of: an integer type, `char`
/// or `bool`. Any other word names none.
pub open spec fn primitive_type_named(word: Seq<char>) -> Option<Scalar> {
    if word == "char"@ {
        Some(Scalar::Char)
    } else if word == "bool"@ {
        Some(Scalar::Bool)
    } else {
        numeric_type_named(word)
    }
}

/// Reads the name of the type of a field.
pub fn get_primitive_type(word: &str) -> (named: Option<Scalar>)
    ensures
        named == primitive_type_named(word@),
{
    if same_text(word, "char") {
        Some(Scalar::Char)
    } else if same_text(word, "bool") {
        Some(Scalar::Bool)
    } else {
        numeric_type(word)
    }
}

/// The number that a sign and a magnitude write.
pub open spec fn number_written(negative: bool, magnitude: u128) -> int {
    if negative {
        -(magnitude as int)
    } else {
        magnitude as int
    }
}

/// Reads a discriminant as a number of the integer type `repr`. There is
/// none where `repr` is no integer type or cannot hold the number.
pub fn get_discriminant(repr: Scalar, negative: bool, magnitude: u128) -> (read: Option<Atom>)
    ensures
        match read {
            Some(atom) => {
                &&& atom.spec_kind() == Some(repr)
                &&& atom.spec_number() == Some(number_written(negative, magnitude))
            },
            None => !repr.spec_is_integer() || !repr.spec_admits_number(
                number_written(negative, magnitude),
            ),
        },
{
    if !repr.is_integer() {
        return None;
    }
    if negative && magnitude > 0 {
        if magnitude > 0x8000_0000_0000_0000_0000_0000_0000_0000 {
            return None;
        }
        let number: i128 = if magnitude == 0x8000_0000_0000_0000_0000_0000_0000_0000 {
            i128::MIN
        } else {
            -(magnitude as i128)
        };
        repr.signed_atom(number)
    } else {
        repr.unsigned_atom(magnitude)
    }
}

} // verus!
