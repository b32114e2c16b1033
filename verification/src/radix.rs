//! Integers as strings of base-256 digits.
//!
//! A fixed-width integer is packed as the digits of its bit pattern, least
//! significant digit first (little endian) or last (big endian). A signed
//! integer's pattern is its two's complement.
use vstd::prelude::*;

verus! {

/// 256 to the power `len`: the number of patterns that `len` bytes hold.
pub open spec fn radix(len: nat) -> nat
    decreases len,
{
    if len == 0 {
        1
    } else {
        256 * radix((len - 1) as nat)
    }
}

/// The number that `digits` write in base 256, least significant digit first.
pub open spec fn le_value(digits: Seq<u8>) -> nat
    decreases digits.len(),
{
    if digits.len() == 0 {
        0
    } else {
        digits[0] as nat + 256 * le_value(digits.drop_first())
    }
}

/// The number that `digits` write in base 256, most significant digit first.
pub open spec fn be_value(digits: Seq<u8>) -> nat {
    le_value(digits.reverse())
}

/// The `len` lowest base-256 digits of `x`, least significant first.
pub open spec fn le_digits(x: nat, len: nat) -> Seq<u8>
    decreases len,
{
    if len == 0 {
        Seq::empty()
    } else {
        seq![(x % 256) as u8] + le_digits(x / 256, (len - 1) as nat)
    }
}

/// The `len` lowest base-256 digits of `x`, most significant first.
pub open spec fn be_digits(x: nat, len: nat) -> Seq<u8> {
    le_digits(x, len).reverse()
}

/// The digits of `x` in the order asked for.
pub open spec fn digits_in(x: nat, len: nat, little: bool) -> Seq<u8> {
    if little {
        le_digits(x, len)
    } else {
        be_digits(x, len)
    }
}

/// The number that `digits` write in the order asked for.
pub open spec fn value_in(digits: Seq<u8>, little: bool) -> nat {
    if little {
        le_value(digits)
    } else {
        be_value(digits)
    }
}

/// The bit pattern of `x` in `len` bytes: `x` itself, or its two's
/// complement where `x` is negative.
pub open spec fn pattern(x: int, len: nat) -> nat {
    if x >= 0 {
        x as nat
    } else {
        (x + radix(len)) as nat
    }
}

/// The signed integer whose `len`-byte bit pattern is `p`.
pub open spec fn signed(p: nat, len: nat) -> int {
    if 2 * p < radix(len) {
        p as int
    } else {
        p - radix(len)
    }
}

/// The values of `radix` at the widths of the fixed-width integers.
pub proof fn lemma_radix_values()
    ensures
        radix(0) == 1,
        radix(1) == 0x100,
        radix(2) == 0x1_0000,
        radix(4) == 0x1_0000_0000,
        radix(8) == 0x1_0000_0000_0000_0000,
        radix(15) == 0x1_0000_0000_0000_0000_0000_0000_0000_00,
        radix(16) == 0x1_0000_0000_0000_0000_0000_0000_0000_0000,
{
    reveal_with_fuel(radix, 17);
}

/// More bytes hold more patterns.
pub proof fn lemma_radix_grows(shorter: nat, longer: nat)
    requires
        shorter <= longer,
    ensures
        0 < radix(shorter) <= radix(longer),
    decreases longer,
{
    if longer == 0 {
    } else if shorter == longer {
        lemma_radix_grows((shorter - 1) as nat, (longer - 1) as nat);
    } else {
        lemma_radix_grows(shorter, (longer - 1) as nat);
    }
}

/// `le_digits` gives as many digits as were asked for.
pub proof fn lemma_digits_len(x: nat, len: nat)
    ensures
        le_digits(x, len).len() == len,
        be_digits(x, len).len() == len,
    decreases len,
{
    if len > 0 {
        lemma_digits_len(x / 256, (len - 1) as nat);
    }
}

/// A string of `n` digits writes a number below `radix(n)`.
pub proof fn lemma_value_bound(digits: Seq<u8>)
    ensures
        le_value(digits) < radix(digits.len()),
        be_value(digits) < radix(digits.len()),
    decreases digits.len(),
{
    if digits.len() > 0 {
        lemma_value_bound(digits.drop_first());
        lemma_value_bound(digits.reverse().drop_first());
    }
}

/// Writing a number that fits and reading it back gives the number.
pub proof fn lemma_value_of_digits(x: nat, len: nat)
    requires
        x < radix(len),
    ensures
        le_value(le_digits(x, len)) == x,
        be_value(be_digits(x, len)) == x,
    decreases len,
{
    if len > 0 {
        let rest = le_digits(x / 256, (len - 1) as nat);
        lemma_value_of_digits(x / 256, (len - 1) as nat);
        assert(le_digits(x, len).drop_first() =~= rest);
    }
    assert(le_digits(x, len).reverse().reverse() =~= le_digits(x, len));
}

/// Reading a digit string and writing the number back gives the string.
pub proof fn lemma_digits_of_value(digits: Seq<u8>)
    ensures
        le_digits(le_value(digits), digits.len()) == digits,
        be_digits(be_value(digits), digits.len()) == digits,
    decreases digits.len(),
{
    lemma_le_digits_of_value(digits);
    lemma_le_digits_of_value(digits.reverse());
    assert(digits.reverse().reverse() =~= digits);
}

proof fn lemma_le_digits_of_value(digits: Seq<u8>)
    ensures
        le_digits(le_value(digits), digits.len()) == digits,
    decreases digits.len(),
{
    if digits.len() > 0 {
        lemma_le_digits_of_value(digits.drop_first());
        assert(seq![digits[0]] + digits.drop_first() =~= digits);
    } else {
        assert(le_digits(le_value(digits), digits.len()) =~= digits);
    }
}

/// A signed integer that fits `len` bytes comes back from its pattern, and a
/// pattern of `len` bytes comes back from its signed integer.
pub proof fn lemma_pattern_signed(len: nat)
    requires
        len > 0,
    ensures
        forall|x: int|
            -(radix(len) as int) <= 2 * x < radix(len) ==> #[trigger] pattern(x, len) < radix(len)
                && signed(pattern(x, len), len) == x,
        forall|p: nat|
            p < radix(len) ==> -(radix(len) as int) <= 2 * #[trigger] signed(p, len) < radix(len)
                && pattern(signed(p, len), len) == p,
{
    lemma_radix_grows(1, len);
}

/// Writes the `N` lowest base-256 digits of `x`, in the order asked for.
pub fn digits_of<const N: usize>(x: u128, little: bool) -> (digits: [u8; N])
    ensures
        digits@ == digits_in(x as nat, N as nat, little),
{
    let ghost all = le_digits(x as nat, N as nat);
    let mut digits = [0u8; N];
    let mut rest = x;
    let mut i: usize = 0;
    proof {
        lemma_digits_len(x as nat, N as nat);
        assert(all.skip(0) =~= all);
    }
    while i < N
        invariant
            i <= N,
            all == le_digits(x as nat, N as nat),
            all.len() == N,
            all.skip(i as int) == le_digits(rest as nat, (N - i) as nat),
            forall|j: int|
                0 <= j < i ==> digits@[if little {
                    j
                } else {
                    N - 1 - j
                }] == #[trigger] all[j],
        decreases N - i,
    {
        let at = if little {
            i
        } else {
            N - 1 - i
        };
        proof {
            let tail = le_digits(rest as nat / 256, (N - i - 1) as nat);
            assert(all[i as int] == all.skip(i as int)[0]);
            assert(all.skip(i as int + 1) =~= all.skip(i as int).drop_first());
            assert(all.skip(i as int).drop_first() =~= tail);
        }
        digits[at] = (rest % 256) as u8;
        rest = rest / 256;
        i += 1;
    }
    proof {
        if little {
            assert(digits@ =~= all);
        } else {
            assert(digits@ =~= all.reverse());
        }
    }
    digits
}

/// Reads the number that the `N` digits write in the order asked for.
pub fn value_of<const N: usize>(digits: &[u8; N], little: bool) -> (x: u128)
    requires
        N <= 16,
    ensures
        x == value_in(digits@, little),
{
    let ghost ordered = if little {
        digits@
    } else {
        digits@.reverse()
    };
    let mut x: u128 = 0;
    let mut i: usize = N;
    proof {
        assert(ordered.skip(N as int) =~= Seq::<u8>::empty());
    }
    while i > 0
        invariant
            i <= N <= 16,
            digits@.len() == N,
            ordered == if little {
                digits@
            } else {
                digits@.reverse()
            },
            x == le_value(ordered.skip(i as int)),
        decreases i,
    {
        i -= 1;
        let at = if little {
            i
        } else {
            N - 1 - i
        };
        proof {
            lemma_value_bound(ordered.skip(i as int + 1));
            lemma_radix_grows((N - i - 1) as nat, 15);
            lemma_radix_values();
            assert(ordered.skip(i as int).drop_first() =~= ordered.skip(i as int + 1));
            assert(ordered.skip(i as int)[0] == digits@[at as int]);
        }
        x = x * 256 + digits[at] as u128;
    }
    proof {
        assert(ordered.skip(0) =~= ordered);
    }
    x
}

/// Half of `radix(len)`: the first pattern that stands for a negative number.
pub fn half_radix(len: usize) -> (half: u128)
    requires
        1 <= len <= 16,
    ensures
        2 * half == radix(len as nat),
        128 <= half <= 0x8000_0000_0000_0000_0000_0000_0000_0000,
{
    let mut half: u128 = 128;
    let mut i: usize = 1;
    proof {
        lemma_radix_values();
    }
    while i < len
        invariant
            1 <= i <= len <= 16,
            2 * half == radix(i as nat),
            128 <= half,
        decreases len - i,
    {
        proof {
            lemma_radix_grows(i as nat + 1, 16);
            lemma_radix_values();
        }
        half = half * 256;
        i += 1;
    }
    proof {
        lemma_radix_grows(len as nat, 16);
    }
    half
}

/// The `len`-byte bit pattern of a signed integer that fits `len` bytes.
pub fn pattern_of(x: i128, len: usize) -> (p: u128)
    requires
        1 <= len <= 16,
        -(radix(len as nat) as int) <= 2 * x < radix(len as nat),
    ensures
        p == pattern(x as int, len as nat),
{
    if x >= 0 {
        x as u128
    } else {
        let half = half_radix(len);
        let above = x + ((half - 1) as i128) + 1;
        above as u128 + half
    }
}

/// The signed integer that a `len`-byte bit pattern stands for.
pub fn signed_of(p: u128, len: usize) -> (x: i128)
    requires
        1 <= len <= 16,
        p < radix(len as nat),
    ensures
        x == signed(p as nat, len as nat),
{
    let half = half_radix(len);
    if p < half {
        p as i128
    } else {
        let above = (p - half) as i128;
        above - ((half - 1) as i128) - 1
    }
}

} // verus!
