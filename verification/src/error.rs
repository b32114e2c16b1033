//! What a failed decode reports.
//!
//! Each error here is a bare classification. An [`InvalidChar`] or an
//! [`InvalidBool`] can be widened into the general [`InvalidData`], and the
//! error of a decode that cannot fail, [`Infallible`], converts into all three.
use core::convert::Infallible;
use vstd::prelude::*;
use vstd::std_specs::convert::FromSpec;

verus! {

/// The bytes did not represent a valid value.
#[derive(Debug, Clone, Copy, PartialEq, Eq)]
pub struct InvalidData;

/// Four bytes whose number is not a Unicode scalar value.
#[derive(Debug, Clone, Copy, PartialEq, Eq)]
pub struct InvalidChar;

/// A byte that is neither 0 nor 1 where a `bool` was expected.
#[derive(Debug, Clone, Copy, PartialEq, Eq)]
pub struct InvalidBool;

/// Why a decode failed, before the failure is converted into the error type
/// of the caller.
pub enum Fault<E> {
    /// Four bytes whose number is not a Unicode scalar value.
    InvalidChar,
    /// A byte that is neither 0 nor 1 where a `bool` was expected.
    InvalidBool,
    /// A number that is the discriminant of no variant; the error that the
    /// variant type declares for it comes along.
    NoVariant(E),
}

impl<E: From<InvalidChar> + From<InvalidBool>> Fault<E> {
    /// Whether `error` is this fault, converted into `E`: the fallback of
    /// the variant type as it is, and an [`InvalidChar`] or [`InvalidBool`]
    /// as `From` converts it, as far as that conversion is specified.
    pub open spec fn lifts_to(self, error: E) -> bool {
        match self {
            Fault::InvalidChar => <E as FromSpec<InvalidChar>>::obeys_from_spec() ==> error
                == <E as FromSpec<InvalidChar>>::from_spec(InvalidChar),
            Fault::InvalidBool => <E as FromSpec<InvalidBool>>::obeys_from_spec() ==> error
                == <E as FromSpec<InvalidBool>>::from_spec(InvalidBool),
            Fault::NoVariant(fallback) => error == fallback,
        }
    }
}

/// Whether `result` is what the model `expected` asks for: the same value,
/// or a failure with the expected fault converted into `E`.
pub open spec fn reports<T, E: From<InvalidChar> + From<InvalidBool>>(
    result: Result<T, E>,
    expected: Result<T, Fault<E>>,
) -> bool {
    match result {
        Ok(value) => expected == Ok::<T, Fault<E>>(value),
        Err(error) => expected is Err && expected->Err_0.lifts_to(error),
    }
}

impl Default for InvalidData {
    fn default() -> (error: InvalidData)
        ensures
            error == InvalidData,
    {
        InvalidData
    }
}

impl Default for InvalidChar {
    fn default() -> (error: InvalidChar)
        ensures
            error == InvalidChar,
    {
        InvalidChar
    }
}

impl Default for InvalidBool {
    fn default() -> (error: InvalidBool)
        ensures
            error == InvalidBool,
    {
        InvalidBool
    }
}

impl InvalidData {
    /// The text shown for this error.
    pub fn message(&self) -> (text: String)
        ensures
            text@ == "the bytes did not represent a valid value"@,
    {
        "the bytes did not represent a valid value".to_string()
    }
}

impl InvalidChar {
    /// The text shown for this error.
    pub fn message(&self) -> (text: String)
        ensures
            text@ == "the bytes did not represent a valid value"@,
    {
        "the bytes did not represent a valid value".to_string()
    }
}

impl InvalidBool {
    /// The text shown for this error.
    pub fn message(&self) -> (text: String)
        ensures
            text@ == "the bytes did not represent a valid value"@,
    {
        "the bytes did not represent a valid value".to_string()
    }
}

impl From<Infallible> for InvalidData {
    /// Never runs: no value of `Infallible` exists to be passed in.
    fn from(impossible: Infallible) -> (error: InvalidData) {
        InvalidData
    }
}

impl vstd::std_specs::convert::FromSpecImpl<Infallible> for InvalidData {
    open spec fn obeys_from_spec() -> bool {
        true
    }

    open spec fn from_spec(impossible: Infallible) -> InvalidData {
        InvalidData
    }
}

impl From<Infallible> for InvalidChar {
    /// Never runs: no value of `Infallible` exists to be passed in.
    fn from(impossible: Infallible) -> (error: InvalidChar) {
        InvalidChar
    }
}

impl vstd::std_specs::convert::FromSpecImpl<Infallible> for InvalidChar {
    open spec fn obeys_from_spec() -> bool {
        true
    }

    open spec fn from_spec(impossible: Infallible) -> InvalidChar {
        InvalidChar
    }
}

impl From<Infallible> for InvalidBool {
    /// Never runs: no value of `Infallible` exists to be passed in.
    fn from(impossible: Infallible) -> (error: InvalidBool) {
        InvalidBool
    }
}

impl vstd::std_specs::convert::FromSpecImpl<Infallible> for InvalidBool {
    open spec fn obeys_from_spec() -> bool {
        true
    }

    open spec fn from_spec(impossible: Infallible) -> InvalidBool {
        InvalidBool
    }
}

impl From<InvalidChar> for InvalidData {
    fn from(error: InvalidChar) -> (general: InvalidData) {
        InvalidData
    }
}

impl vstd::std_specs::convert::FromSpecImpl<InvalidChar> for InvalidData {
    open spec fn obeys_from_spec() -> bool {
        true
    }

    open spec fn from_spec(error: InvalidChar) -> InvalidData {
        InvalidData
    }
}

impl From<InvalidBool> for InvalidData {
    fn from(error: InvalidBool) -> (general: InvalidData) {
        InvalidData
    }
}

impl vstd::std_specs::convert::FromSpecImpl<InvalidBool> for InvalidData {
    open spec fn obeys_from_spec() -> bool {
        true
    }

    open spec fn from_spec(error: InvalidBool) -> InvalidData {
        InvalidData
    }
}

} // verus!
