//! Byte order: the one a type declares, and the one the target has.
//!
//! A type prefers little endian, big endian, or whatever the target uses.
//! Which order the target uses is learnt by asking it; nothing is assumed of
//! the answer, so the rule that resolves a preference takes it as an argument.
use crate::radix::{be_digits, le_digits};
use vstd::prelude::*;

verus! {

/// The byte order that a type declares for its unprefixed operations.
#[derive(Debug, Clone, Copy, PartialEq, Eq)]
pub enum Preference {
    /// Least significant byte first.
    Little,
    /// Most significant byte first.
    Big,
    /// The order of the machine the program runs on.
    Native,
}

impl Default for Preference {
    /// A type prefers little endian unless it declares otherwise.
    fn default() -> (preference: Preference)
        ensures
            preference == Preference::Little,
    {
        Preference::Little
    }
}

impl Preference {
    /// Whether the preference comes down to little endian on a target that
    /// is little endian or not, as `target_little` says.
    pub open spec fn resolved(self, target_little: bool) -> bool {
        match self {
            Preference::Little => true,
            Preference::Big => false,
            Preference::Native => target_little,
        }
    }

    /// Resolves the preference for a target of the given order.
    pub fn resolve(self, target_little: bool) -> (prefers_le: bool)
        ensures
            prefers_le == self.resolved(target_little),
    {
        match self {
            Preference::Little => true,
            Preference::Big => false,
            Preference::Native => target_little,
        }
    }

    /// Resolves the preference for the target the program runs on. What a
    /// preference for the order of the target comes down to is not stated.
    pub fn prefers_le(self) -> (prefers_le: bool)
        ensures
            self == Preference::Little ==> prefers_le,
            self == Preference::Big ==> !prefers_le,
    {
        self.resolve(target_is_little())
    }
}

/// `u16::to_ne_bytes`: the two bytes of `x` as the target lays them out in
/// memory, which is one of the two byte orders. Which one is not stated.
#[verifier::external_body]
fn native_digits(x: u16) -> (digits: [u8; 2])
    ensures
        digits@ == le_digits(x as nat, 2) || digits@ == be_digits(x as nat, 2),
{
    x.to_ne_bytes()
}

/// Whether `digits` are the two bytes of the number one with the least
/// significant byte first: what a target that is little endian lays the
/// number one out as.
pub fn one_is_little(digits: &[u8; 2]) -> (little: bool)
    ensures
        little == (digits@ == le_digits(1, 2)),
        little ==> digits@ != be_digits(1, 2),
{
    proof {
        reveal_with_fuel(le_digits, 3);
        assert(le_digits(1, 2) =~= seq![1u8, 0u8]);
        assert(be_digits(1, 2) =~= seq![0u8, 1u8]);
        assert(le_digits(1, 2)[0] == 1u8 && be_digits(1, 2)[0] == 0u8);
        if digits[0] == 1 && digits[1] == 0 {
            assert(digits@ =~= seq![1u8, 0u8]);
        }
    }
    digits[0] == 1 && digits[1] == 0
}

/// Whether the target stores the least significant byte first: it is asked
/// to lay out the number one, and the answer is read by `one_is_little`.
/// Nothing is stated of the result, which is the target's to decide.
pub fn target_is_little() -> (little: bool) {
    let digits = native_digits(1);
    one_is_little(&digits)
}

} // verus!
