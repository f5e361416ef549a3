//! An IEEE-754 binary64 value held as its bit pattern.
//!
//! The library reasons about doubles only through their encoding: sign bit,
//! 11 exponent bits and 52 fraction bits. Arithmetic on the represented real
//! numbers is left to the caller; classification, absolute value and the
//! IEEE ordering are decided here.
use vstd::prelude::*;
use vstd::arithmetic::power2::{lemma2_to64, lemma2_to64_rest, lemma_pow2_adds, lemma_pow2_strictly_increases, lemma_pow2_unfold, pow2};

verus! {

/// The sign bit.
pub const SIGN_BIT: u64 = 0x8000_0000_0000_0000;

/// The encoding of positive infinity; every larger magnitude encodes a NaN.
pub const INF_BITS: u64 = 0x7FF0_0000_0000_0000;

/// The encoding of the quiet NaN that the standard library uses for `NAN`.
pub const NAN_BITS: u64 = 0x7FF8_0000_0000_0000;

/// The encoding of 2.0.
pub const TWO_BITS: u64 = 0x4000_0000_0000_0000;

/// A double-precision value, as its 64-bit encoding.
#[derive(Clone, Copy, Debug, PartialEq, Eq, Structural)]
pub struct Binary64 {
    pub bits: u64,
}

/// The sign bit of an encoding is set.
pub open spec fn sign_negative(b: u64) -> bool {
    b >= SIGN_BIT
}

/// The encoding with the sign bit cleared.
pub open spec fn magnitude_bits(b: u64) -> u64 {
    if b >= SIGN_BIT {
        (b - SIGN_BIT) as u64
    } else {
        b
    }
}

pub open spec fn nan_bits(b: u64) -> bool {
    magnitude_bits(b) > INF_BITS
}

pub open spec fn infinite_bits(b: u64) -> bool {
    magnitude_bits(b) == INF_BITS
}

pub open spec fn finite_bits(b: u64) -> bool {
    magnitude_bits(b) < INF_BITS
}

/// Positive or negative zero.
pub open spec fn zero_bits(b: u64) -> bool {
    magnitude_bits(b) == 0
}

/// A signed integer that orders non-NaN encodings as IEEE-754 orders the
/// values they stand for; both zeros map to 0.
pub open spec fn ordinal(b: u64) -> int {
    if sign_negative(b) {
        -(magnitude_bits(b) as int)
    } else {
        magnitude_bits(b) as int
    }
}

/// IEEE `a < b`: false whenever either side is NaN.
pub open spec fn lt_bits(a: u64, b: u64) -> bool {
    !nan_bits(a) && !nan_bits(b) && ordinal(a) < ordinal(b)
}

/// IEEE `a <= b`: false whenever either side is NaN.
pub open spec fn le_bits(a: u64, b: u64) -> bool {
    !nan_bits(a) && !nan_bits(b) && ordinal(a) <= ordinal(b)
}

/// IEEE `a == b`: false whenever either side is NaN, true for `0.0 == -0.0`.
pub open spec fn eq_bits(a: u64, b: u64) -> bool {
    !nan_bits(a) && !nan_bits(b) && ordinal(a) == ordinal(b)
}

/// The position of the highest set bit of `n`, 0 for 0 and 1.
pub open spec fn log2_floor(n: nat) -> nat
    decreases n,
{
    if n < 2 {
        0
    } else {
        1 + log2_floor(n / 2)
    }
}

/// The encoding of the double nearest to `n` (a count below 2^64), ties to
/// the even significand, as `n as f64` rounds. With the highest bit at
/// position `p`, the significand is `n` shifted to 53 bits, rounded when
/// bits are shifted out; a carry out of the significand moves into the
/// exponent field, which is how the encoding adds.
pub open spec fn nearest_double(n: nat) -> nat {
    if n == 0 {
        0
    } else {
        let p = log2_floor(n);
        let significand = if p <= 52 {
            n * pow2((52 - p) as nat)
        } else {
            let d = pow2((p - 52) as nat);
            let q = n / d;
            let r = n % d;
            let up = 2 * r > d || (2 * r == d && q % 2 == 1);
            q + if up { 1nat } else { 0 }
        };
        ((1023 + p) * pow2(52) + significand - pow2(52)) as nat
    }
}

/// `n` lies between 2 to the power of its highest bit position and twice
/// that.
proof fn lemma_log2_floor(n: nat)
    requires
        n >= 1,
    ensures
        pow2(log2_floor(n)) <= n < pow2(log2_floor(n) + 1),
    decreases n,
{
    if n >= 2 {
        lemma_log2_floor(n / 2);
        lemma_pow2_unfold(log2_floor(n));
        lemma_pow2_unfold(log2_floor(n) + 1);
    } else {
        lemma_pow2_unfold(1);
        assert(pow2(0) == 1) by {
            lemma2_to64();
        }
    }
}

/// `2^k` for `k < 64`.
fn pow2_u64(k: u64) -> (r: u64)
    requires
        k < 64,
    ensures
        r == pow2(k as nat),
{
    proof {
        lemma2_to64();
        lemma2_to64_rest();
    }
    let mut r: u64 = 1;
    let mut i: u64 = 0;
    while i < k
        invariant
            i <= k < 64,
            r == pow2(i as nat),
            pow2(63) == 0x8000_0000_0000_0000,
        decreases k - i,
    {
        proof {
            lemma_pow2_unfold((i + 1) as nat);
            if i + 1 < 63 {
                lemma_pow2_strictly_increases((i + 1) as nat, 63);
            }
        }
        r = r * 2;
        i += 1;
    }
    r
}

impl Binary64 {
    /// The double nearest to the count `n`, as `n as f64` gives it.
    pub fn from_count(n: u64) -> (r: Binary64)
        ensures
            r.bits == nearest_double(n as nat),
            r.is_sign_positive_spec(),
    {
        if n == 0 {
            return Binary64 { bits: 0 };
        }
        let mut p: u64 = 0;
        let mut m: u64 = n;
        proof {
            lemma2_to64();
        }
        while m >= 2
            invariant
                1 <= m <= n,
                log2_floor(n as nat) == p + log2_floor(m as nat),
                p < 64,
                m * pow2(p as nat) <= n,
            decreases m,
        {
            proof {
                lemma_pow2_unfold((p + 1) as nat);
                assert((m / 2) * pow2((p + 1) as nat) <= m * pow2(p as nat)) by (nonlinear_arith)
                    requires
                        pow2((p + 1) as nat) == 2 * pow2(p as nat),
                ;
                lemma2_to64();
                lemma2_to64_rest();
                if p + 1 >= 64 {
                    lemma_pow2_strictly_increases(63, (p + 1) as nat);
                    assert((m / 2) * pow2((p + 1) as nat) >= pow2((p + 1) as nat)) by (nonlinear_arith)
                        requires
                            m >= 2,
                    ;
                }
            }
            m = m / 2;
            p += 1;
        }
        proof {
            lemma_log2_floor(n as nat);
            lemma2_to64();
            lemma2_to64_rest();
        }
        let e52: u64 = 0x10_0000_0000_0000;
        let significand: u64 = if p <= 52 {
            let s = pow2_u64(52 - p);
            proof {
                lemma_pow2_adds((p + 1) as nat, (52 - p) as nat);
                lemma_pow2_unfold(53);
                assert(n * s < pow2((p + 1) as nat) * s) by (nonlinear_arith)
                    requires
                        n < pow2((p + 1) as nat),
                        s > 0,
                ;
            }
            n * s
        } else {
            let d = pow2_u64(p - 52);
            let q = n / d;
            let r = n % d;
            proof {
                lemma_pow2_adds(53, (p - 52) as nat);
                lemma_pow2_unfold(53);
                assert(q < pow2(53)) by (nonlinear_arith)
                    requires
                        n < pow2(53) * d,
                        q == n / d,
                        d > 0,
                ;
                assert(d <= pow2(11)) by {
                    if p - 52 < 11 {
                        lemma_pow2_strictly_increases((p - 52) as nat, 11);
                    }
                }
            }
            let up = 2 * r > d || (2 * r == d && q % 2 == 1);
            if up {
                q + 1
            } else {
                q
            }
        };
        proof {
            lemma_pow2_adds(p as nat, (52 - p) as nat);
        }
        assert(significand >= e52) by {
            if p <= 52 {
                lemma_pow2_adds(p as nat, (52 - p) as nat);
                assert(n * pow2((52 - p) as nat) >= pow2(p as nat) * pow2((52 - p) as nat)) by (nonlinear_arith)
                    requires
                        n >= pow2(p as nat),
                ;
            } else {
                let d = pow2((p - 52) as nat);
                lemma_pow2_adds(52, (p - 52) as nat);
                assert((n as nat) / d >= pow2(52)) by (nonlinear_arith)
                    requires
                        n >= pow2(52) * d,
                        d > 0,
                ;
            }
        }
        Binary64 { bits: (1023 + p) * e52 + (significand - e52) }
    }

    pub open spec fn is_nan_spec(self) -> bool {
        nan_bits(self.bits)
    }

    pub open spec fn is_infinite_spec(self) -> bool {
        infinite_bits(self.bits)
    }

    pub open spec fn is_finite_spec(self) -> bool {
        finite_bits(self.bits)
    }

    pub open spec fn is_zero_spec(self) -> bool {
        zero_bits(self.bits)
    }

    pub open spec fn is_sign_negative_spec(self) -> bool {
        sign_negative(self.bits)
    }

    pub open spec fn is_sign_positive_spec(self) -> bool {
        !sign_negative(self.bits)
    }

    pub open spec fn abs_spec(self) -> Binary64 {
        Binary64 { bits: magnitude_bits(self.bits) }
    }

    pub fn from_bits(bits: u64) -> (r: Binary64)
        ensures
            r.bits == bits,
    {
        Binary64 { bits }
    }

    pub fn to_bits(self) -> (r: u64)
        ensures
            r == self.bits,
    {
        self.bits
    }

    /// Positive zero.
    pub fn zero() -> (r: Binary64)
        ensures
            r.bits == 0,
    {
        Binary64 { bits: 0 }
    }

    /// Positive infinity.
    pub fn infinity() -> (r: Binary64)
        ensures
            r.bits == INF_BITS,
    {
        Binary64 { bits: INF_BITS }
    }

    /// The standard quiet NaN, with a clear sign bit.
    pub fn nan() -> (r: Binary64)
        ensures
            r.bits == NAN_BITS,
            r.is_nan_spec(),
            r.is_sign_positive_spec(),
    {
        Binary64 { bits: NAN_BITS }
    }

    pub fn is_nan(self) -> (r: bool)
        ensures
            r == self.is_nan_spec(),
    {
        self.abs().bits > INF_BITS
    }

    pub fn is_infinite(self) -> (r: bool)
        ensures
            r == self.is_infinite_spec(),
    {
        self.abs().bits == INF_BITS
    }

    pub fn is_finite(self) -> (r: bool)
        ensures
            r == self.is_finite_spec(),
    {
        self.abs().bits < INF_BITS
    }

    pub fn is_zero(self) -> (r: bool)
        ensures
            r == self.is_zero_spec(),
    {
        self.abs().bits == 0
    }

    pub fn is_sign_negative(self) -> (r: bool)
        ensures
            r == self.is_sign_negative_spec(),
    {
        self.bits >= SIGN_BIT
    }

    pub fn is_sign_positive(self) -> (r: bool)
        ensures
            r == self.is_sign_positive_spec(),
    {
        self.bits < SIGN_BIT
    }

    /// The same value with the sign bit cleared, as `f64::abs` gives it.
    pub fn abs(self) -> (r: Binary64)
        ensures
            r == self.abs_spec(),
            !r.is_sign_negative_spec(),
    {
        if self.bits >= SIGN_BIT {
            Binary64 { bits: self.bits - SIGN_BIT }
        } else {
            self
        }
    }

    fn ordinal(self) -> (r: i128)
        ensures
            r == ordinal(self.bits),
    {
        let m = self.abs().bits as i128;
        if self.bits >= SIGN_BIT {
            -m
        } else {
            m
        }
    }

    /// IEEE `self < other`.
    pub fn lt(self, other: Binary64) -> (r: bool)
        ensures
            r == lt_bits(self.bits, other.bits),
    {
        !self.is_nan() && !other.is_nan() && self.ordinal() < other.ordinal()
    }

    /// IEEE `self <= other`.
    pub fn le(self, other: Binary64) -> (r: bool)
        ensures
            r == le_bits(self.bits, other.bits),
    {
        !self.is_nan() && !other.is_nan() && self.ordinal() <= other.ordinal()
    }

    /// IEEE `self == other`.
    pub fn num_eq(self, other: Binary64) -> (r: bool)
        ensures
            r == eq_bits(self.bits, other.bits),
    {
        !self.is_nan() && !other.is_nan() && self.ordinal() == other.ordinal()
    }
}

} // verus!
