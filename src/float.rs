//! IEEE-754 binary64 values, held as their bit pattern.
//!
//! The engine never does floating-point arithmetic: it only compares floats
//! with each other and with integers widened to floats, which can be stated
//! and computed on the bit pattern alone.

use vstd::prelude::*;
use vstd::arithmetic::power2::*;
use vstd::arithmetic::div_mod::*;
use vstd::arithmetic::mul::*;

verus! {

/// The weight of the sign bit.
pub const SIGN_BIT: u64 = 0x8000_0000_0000_0000;

/// The weight of the lowest exponent bit, that is, 2 to the 52nd.
pub const EXP_UNIT: u64 = 0x10_0000_0000_0000;

/// Whether the bit pattern encodes a NaN: all exponent bits set, fraction nonzero.
pub open spec fn is_nan_bits(b: u64) -> bool {
    (b / EXP_UNIT) % 0x800 == 0x7ff && b % EXP_UNIT != 0
}

/// The position of a float along the number line: the magnitude bits, negated
/// for a set sign bit. On non-NaN values the IEEE order is exactly the order of
/// this rank, and both zeros share rank 0.
pub open spec fn float_rank(b: u64) -> int {
    if b >= SIGN_BIT {
        -(b - SIGN_BIT)
    } else {
        b as int
    }
}

/// Index of the highest set bit of a positive number.
pub open spec fn msb(a: nat) -> nat
    decreases a,
{
    if a <= 1 {
        0
    } else {
        1 + msb(a / 2)
    }
}

/// `a / d` rounded to the nearest integer, ties to the even one.
pub open spec fn round_half_even(a: nat, d: nat) -> nat {
    let q = a / d;
    let r = a % d;
    if 2 * r > d || (2 * r == d && q % 2 == 1) {
        q + 1
    } else {
        q
    }
}

/// The bit pattern of the double nearest to the positive integer `a`
/// (`a <= 2^63`), ties to even.
pub open spec fn magnitude_bits(a: nat) -> int {
    let n = msb(a);
    if n <= 52 {
        (n + 1023) * EXP_UNIT + (a * pow2((52 - n) as nat) - EXP_UNIT)
    } else {
        let q = round_half_even(a, pow2((n - 52) as nat));
        if q == pow2(53) {
            (n + 1024) * EXP_UNIT
        } else {
            (n + 1023) * EXP_UNIT + (q - EXP_UNIT)
        }
    }
}

/// The bit pattern of an `i64` converted to the nearest double.
pub open spec fn widen_bits(i: int) -> int {
    if i == 0 {
        0
    } else if i > 0 {
        magnitude_bits(i as nat)
    } else {
        SIGN_BIT + magnitude_bits((-i) as nat)
    }
}

proof fn lemma_msb(a: nat, n: nat)
    requires
        pow2(n) <= a < pow2(n + 1),
    ensures
        msb(a) == n,
    decreases n,
{
    lemma_pow2_unfold(n + 1);
    if n == 0 {
        lemma2_to64();
    } else {
        lemma_pow2_unfold(n);
        lemma2_to64();
        assert(pow2((n - 1) as nat) <= a / 2 < pow2(n)) by {
            lemma_div_is_ordered(2 * pow2((n - 1) as nat) as int, a as int, 2);
            lemma_div_by_multiple(pow2((n - 1) as nat) as int, 2);
            lemma_fundamental_div_mod(a as int, 2);
        }
        lemma_msb(a / 2, (n - 1) as nat);
    }
}

/// Whether `b` encodes a NaN.
pub fn is_nan(b: u64) -> (r: bool)
    ensures
        r == is_nan_bits(b),
{
    (b / EXP_UNIT) % 0x800 == 0x7ff && b % EXP_UNIT != 0
}

/// The rank of `b` on the number line (see [`float_rank`]).
pub fn rank(b: u64) -> (r: i64)
    ensures
        r as int == float_rank(b),
{
    if b >= SIGN_BIT {
        -((b - SIGN_BIT) as i64)
    } else {
        b as i64
    }
}


/// The bit pattern of the double nearest to the positive integer `a`.
fn magnitude(a: u64) -> (r: u64)
    requires
        0 < a <= SIGN_BIT,
    ensures
        r as int == magnitude_bits(a as nat),
        r < SIGN_BIT,
{
    proof {
        lemma2_to64();
        lemma2_to64_rest();
    }
    let mut n: u64 = 0;
    let mut p: u64 = 1;
    while p <= a / 2
        invariant
            0 < a <= SIGN_BIT,
            p as int == pow2(n as nat),
            1 <= p <= a,
            n <= 63,
        decreases a - p,
    {
        proof {
            lemma2_to64();
            lemma2_to64_rest();
            lemma_pow2_unfold((n + 1) as nat);
            if n == 63 {
                assert(false);
            }
        }
        p = p * 2;
        n = n + 1;
        proof {
            if n > 63 {
                lemma_pow2_strictly_increases(63, n as nat);
            }
        }
    }
    proof {
        lemma_pow2_unfold((n + 1) as nat);
        lemma_fundamental_div_mod(a as int, 2);
        lemma_msb(a as nat, n as nat);
    }
    if n <= 52 {
        let mut s: u64 = 1;
        let mut k: u64 = n;
        while k < 52
            invariant
                n <= k <= 52,
                s as int == pow2((k - n) as nat),
            decreases 52 - k,
        {
            proof {
                lemma2_to64();
                lemma2_to64_rest();
                lemma_pow2_unfold((k + 1 - n) as nat);
                lemma_pow2_strictly_increases((k - n) as nat, 52);
            }
            s = s * 2;
            k = k + 1;
        }
        proof {
            lemma_pow2_adds((n + 1) as nat, (52 - n) as nat);
            lemma_pow2_adds(n as nat, (52 - n) as nat);
            lemma_mul_inequality(a as int, pow2((n + 1) as nat) as int, s as int);
            lemma_mul_inequality(pow2(n as nat) as int, a as int, s as int);
        }
        (n + 1023) * EXP_UNIT + (a * s - EXP_UNIT)
    } else {
        let mut d: u64 = 1;
        let mut k: u64 = 52;
        while k < n
            invariant
                52 <= k <= n <= 63,
                d as int == pow2((k - 52) as nat),
            decreases n - k,
        {
            proof {
                lemma2_to64();
                lemma2_to64_rest();
                lemma_pow2_unfold((k + 1 - 52) as nat);
                lemma_pow2_strictly_increases((k - 52) as nat, 11);
            }
            d = d * 2;
            k = k + 1;
        }
        let q = a / d;
        let rem = a % d;
        proof {
            lemma_pow2_adds(52, (n - 52) as nat);
            lemma_pow2_adds(53, (n - 52) as nat);
            lemma_pow2_pos((n - 52) as nat);
            lemma_div_is_ordered((pow2(52) * d) as int, a as int, d as int);
            lemma_div_by_multiple(pow2(52) as int, d as int);
            lemma_div_is_ordered(a as int, (pow2(53) * d) as int, d as int);
            lemma_div_by_multiple(pow2(53) as int, d as int);
            lemma_fundamental_div_mod(a as int, d as int);
            lemma_mul_is_commutative(d as int, q as int);
            if q == pow2(53) {
                lemma_mul_is_commutative(pow2(53) as int, d as int);
            }
            lemma_mod_bound(a as int, d as int);
        }
        let up = 2 * rem > d || (2 * rem == d && q % 2 == 1);
        let q2 = if up { q + 1 } else { q };
        if q2 == 2 * EXP_UNIT {
            (n + 1024) * EXP_UNIT
        } else {
            (n + 1023) * EXP_UNIT + (q2 - EXP_UNIT)
        }
    }
}

/// The bit pattern of `i` converted to the nearest double, ties to even, as
/// `i as f64` rounds.
pub fn widen(i: i64) -> (r: u64)
    ensures
        r as int == widen_bits(i as int),
        r == widen_bits(i as int) as u64,
{
    if i == 0 {
        0
    } else if i > 0 {
        magnitude(i as u64)
    } else {
        let a: u64 = if i == i64::MIN {
            SIGN_BIT
        } else {
            (-i) as u64
        };
        let m = magnitude(a);
        proof {
            lemma2_to64();
            lemma2_to64_rest();
        }
        SIGN_BIT + m
    }
}

} // verus!
