//! The tagged variant codec.
//!
//! A tagged variant type is a closed, ordered list of variants without
//! payload. Each variant is bound to a discriminant, a number of the integer
//! type that the variant type is packed as. A variant is named here by its
//! place in the declaration order.
//!
//! Nothing keeps two variants from sharing a discriminant. Decoding then
//! gives the one declared first.
use crate::error::{Fault, InvalidBool, InvalidChar, InvalidData};
use crate::scalar::{Atom, Scalar};
use vstd::prelude::*;

verus! {

/// A tagged variant type.
#[derive(Debug, PartialEq, Eq)]
pub struct TaggedVariant<E> {
    /// The integer type that a variant is packed as.
    pub repr: Scalar,
    /// The discriminant of each variant, in declaration order.
    pub discriminants: Vec<Atom>,
    /// The error of a decode that finds the discriminant of no variant.
    pub fallback: E,
    /// Whether the unprefixed operations use little endian.
    pub prefers_le: bool,
}

/// The integer type that a tagged variant type is packed as where its
/// declaration names none: the unsigned integer of one byte.
pub fn default_repr() -> (repr: Scalar)
    ensures
        repr == Scalar::U8,
{
    Scalar::U8
}

/// Whether `repr` and `discriminants` declare a tagged variant type: `repr`
/// is an integer type and every discriminant is a number of that type.
/// There are no more variants than a `usize` counts.
pub open spec fn well_declared(repr: Scalar, discriminants: Seq<Atom>) -> bool {
    &&& repr.spec_is_integer()
    &&& discriminants.len() <= usize::MAX
    &&& forall|place: int|
        0 <= place < discriminants.len() ==> (#[trigger] discriminants[place]).spec_kind() == Some(
            repr,
        )
}

/// The place of the first variant in `discriminants` that is bound to
/// `number`, if any is.
pub open spec fn first_bound_to(discriminants: Seq<Atom>, number: Atom) -> Option<int> {
    discriminants.index_of_first(number)
}

/// `first_bound_to` gives the least place that holds `number`, and none
/// only where no place holds it.
pub proof fn lemma_first_bound_to(discriminants: Seq<Atom>, number: Atom)
    ensures
        match first_bound_to(discriminants, number) {
            Some(place) => {
                &&& 0 <= place < discriminants.len()
                &&& discriminants[place] == number
                &&& forall|earlier: int| 0 <= earlier < place ==> discriminants[earlier] != number
            },
            None => forall|place: int| 0 <= place < discriminants.len() ==> discriminants[place] != number,
        },
{
    discriminants.index_of_first_ensures(number);
}

impl TaggedVariant<InvalidData> {
    /// Declares a tagged variant type that declares no error of its own:
    /// a decode that finds the discriminant of no variant fails with the
    /// general error. There is none where `repr` is no integer type or a
    /// discriminant is no number of the type `repr`.
    pub fn general(repr: Scalar, discriminants: Vec<Atom>, prefers_le: bool) -> (declared: Option<
        Self,
    >)
        ensures
            match declared {
                Some(variant) => {
                    &&& variant.wf()
                    &&& variant.repr == repr
                    &&& variant.discriminants == discriminants
                    &&& variant.fallback == InvalidData
                    &&& variant.prefers_le == prefers_le
                },
                None => !(TaggedVariant {
                    repr,
                    discriminants,
                    fallback: InvalidData,
                    prefers_le,
                }).wf(),
            },
    {
        TaggedVariant::new(repr, discriminants, InvalidData, prefers_le)
    }
}

impl<E: Copy + From<InvalidChar> + From<InvalidBool>> TaggedVariant<E> {
    /// The type is packed as an integer and every discriminant is a number
    /// of that integer type. There are no more variants than a `usize`
    /// counts.
    pub open spec fn wf(self) -> bool {
        well_declared(self.repr, self.discriminants@)
    }

    /// The number of bytes that a variant is packed in: the size of the
    /// integer type.
    pub open spec fn spec_packed_size(self) -> nat {
        self.repr.spec_packed_size()
    }

    /// No two variants share a discriminant.
    pub open spec fn distinct(self) -> bool {
        forall|one: int, other: int|
            0 <= one < other < self.discriminants@.len() ==> self.discriminants@[one]
                != self.discriminants@[other]
    }

    /// No variant declared before the one at `place` shares its
    /// discriminant.
    pub open spec fn is_first(self, place: int) -> bool {
        forall|earlier: int|
            0 <= earlier < place ==> self.discriminants@[earlier] != self.discriminants@[place]
    }

    /// The packed representation of the variant at `place`: that of its
    /// discriminant, in the order asked for.
    pub open spec fn encoding(self, place: int, little: bool) -> Seq<u8> {
        self.discriminants@[place].encoding(little)
    }

    /// The variant that `bytes` stand for in the order asked for: the first
    /// one bound to the number that the bytes hold. Where no variant is
    /// bound to it, the fault carries the declared fallback.
    pub open spec fn decoding(self, bytes: Seq<u8>, little: bool) -> Result<int, Fault<E>> {
        match self.repr.decoding::<E>(bytes, little) {
            Ok(number) => match first_bound_to(self.discriminants@, number) {
                Some(place) => Ok(place),
                None => Err(Fault::NoVariant(self.fallback)),
            },
            Err(fault) => Err(fault),
        }
    }

    /// Tests whether the type is well formed.
    pub fn is_wf(&self) -> (well_formed: bool)
        ensures
            well_formed == self.wf(),
    {
        if !self.repr.is_integer() {
            return false;
        }
        let mut place: usize = 0;
        while place < self.discriminants.len()
            invariant
                place <= self.discriminants@.len(),
                forall|earlier: int|
                    0 <= earlier < place ==> (#[trigger] self.discriminants@[earlier]).spec_kind()
                        == Some(self.repr),
            decreases self.discriminants@.len() - place,
        {
            match self.discriminants[place].kind() {
                Some(kind) => {
                    if kind != self.repr {
                        return false;
                    }
                },
                None => {
                    return false;
                },
            }
            place += 1;
        }
        true
    }

    /// Declares a tagged variant type whose fallback is the default of its
    /// error type, as `Default` gives it. There is none where `repr` is no
    /// integer type or a discriminant is no number of the type `repr`.
    pub fn with_default(repr: Scalar, discriminants: Vec<Atom>, prefers_le: bool) -> (declared:
        Option<Self>) where E: Default
        ensures
            match declared {
                Some(variant) => {
                    &&& variant.wf()
                    &&& variant.repr == repr
                    &&& variant.discriminants == discriminants
                    &&& call_ensures(E::default, (), variant.fallback)
                    &&& variant.prefers_le == prefers_le
                },
                None => !well_declared(repr, discriminants@),
            },
    {
        TaggedVariant::new(repr, discriminants, E::default(), prefers_le)
    }

    /// Declares a tagged variant type with the fallback handed in. A
    /// declaration that names no fallback hands in the default of its
    /// error type, or calls `with_default`. There is none where `repr` is
    /// no integer type or a discriminant is no number of the type `repr`.
    pub fn new(repr: Scalar, discriminants: Vec<Atom>, fallback: E, prefers_le: bool) -> (declared:
        Option<Self>)
        ensures
            match declared {
                Some(variant) => {
                    &&& variant.wf()
                    &&& variant.repr == repr
                    &&& variant.discriminants == discriminants
                    &&& variant.fallback == fallback
                    &&& variant.prefers_le == prefers_le
                },
                None => !(TaggedVariant { repr, discriminants, fallback, prefers_le }).wf(),
            },
    {
        let declared = TaggedVariant { repr, discriminants, fallback, prefers_le };
        if declared.is_wf() {
            Some(declared)
        } else {
            None
        }
    }

    /// The number of bytes that a variant is packed in.
    pub fn packed_size(&self) -> (size: usize)
        ensures
            size == self.spec_packed_size(),
    {
        self.repr.packed_size()
    }

    /// The number of variants.
    pub fn len(&self) -> (count: usize)
        ensures
            count == self.discriminants@.len(),
    {
        self.discriminants.len()
    }

    /// The place of the first variant bound to `number`, if any is.
    pub fn find(&self, number: Atom) -> (found: Option<usize>)
        ensures
            match found {
                Some(place) => first_bound_to(self.discriminants@, number) == Some(place as int),
                None => first_bound_to(self.discriminants@, number).is_none(),
            },
    {
        let mut place: usize = 0;
        while place < self.discriminants.len()
            invariant
                place <= self.discriminants@.len(),
                forall|earlier: int| 0 <= earlier < place ==> self.discriminants@[earlier] != number,
            decreases self.discriminants@.len() - place,
        {
            if self.discriminants[place] == number {
                proof {
                    lemma_first_bound_to(self.discriminants@, number);
                    assert(self.discriminants@[place as int] == number);
                }
                return Some(place);
            }
            place += 1;
        }
        proof {
            lemma_first_bound_to(self.discriminants@, number);
        }
        None
    }

    /// Appends the packed representation of the variant at `place` to
    /// `out`, in the order asked for.
    pub fn encode(&self, place: usize, little: bool, out: &mut Vec<u8>)
        requires
            place < self.discriminants@.len(),
        ensures
            final(out)@ == old(out)@ + self.encoding(place as int, little),
    {
        self.discriminants[place].encode(little, out)
    }

    /// Decodes the variant that is packed in `bytes` from index `at` on, in
    /// the order asked for: the number is read as one of the integer type,
    /// then tested against each discriminant in declaration order. Where
    /// none matches, the failure is the declared fallback.
    pub fn decode(&self, bytes: &[u8], at: usize, little: bool) -> (result: Result<usize, E>)
        requires
            at + self.spec_packed_size() <= bytes@.len(),
        ensures
            match result {
                Ok(place) => self.decoding(
                    bytes@.subrange(at as int, at + self.spec_packed_size()),
                    little,
                ) == Ok::<int, Fault<E>>(place as int),
                Err(error) => {
                    let expected = self.decoding(
                        bytes@.subrange(at as int, at + self.spec_packed_size()),
                        little,
                    );
                    expected is Err && expected->Err_0.lifts_to(error)
                },
            },
    {
        match self.repr.decode::<E>(bytes, at, little) {
            Ok(number) => match self.find(number) {
                Some(place) => Ok(place),
                None => Err(self.fallback),
            },
            Err(error) => Err(error),
        }
    }

    /// Round trip of the variant codec: a variant whose discriminant no
    /// earlier variant shares, encoded in either order and decoded in the
    /// same order, comes back as itself.
    pub proof fn lemma_round_trip(self, place: int, little: bool)
        requires
            self.wf(),
            0 <= place < self.discriminants@.len(),
            self.is_first(place),
        ensures
            self.decoding(self.encoding(place, little), little) == Ok::<int, Fault<E>>(place),
    {
        let number = self.discriminants@[place];
        number.lemma_round_trip::<E>(little);
        lemma_first_bound_to(self.discriminants@, number);
    }

    /// A number that is the discriminant of no variant fails to decode, and
    /// the fault carries the declared fallback.
    pub proof fn lemma_no_variant(self, bytes: Seq<u8>, little: bool)
        requires
            self.wf(),
            self.repr.decoding::<E>(bytes, little) is Ok,
            forall|place: int|
                0 <= place < self.discriminants@.len() ==> self.discriminants@[place]
                    != self.repr.decoding::<E>(bytes, little)->Ok_0,
        ensures
            self.decoding(bytes, little) == Err::<int, Fault<E>>(Fault::NoVariant(self.fallback)),
    {
        lemma_first_bound_to(self.discriminants@, self.repr.decoding::<E>(bytes, little)->Ok_0);
    }
}

} // verus!
