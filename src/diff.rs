//! Difference metrics: each takes two values and returns a non-negative
//! magnitude and whether the comparison crossed a sign boundary.
//!
//! The special-value policy (NaN against NaN, signed zeros, infinities, the
//! cyclic wrap) is decided here over encodings. The one IEEE arithmetic step
//! that a metric needs on ordinary values, such as the difference `x - y` or
//! a product, is done by the caller and handed in as an argument.
use vstd::prelude::*;
use vstd::arithmetic::power2::{lemma2_to64, lemma2_to64_rest, lemma_pow2_adds, pow2};
use crate::binary64::{eq_bits, le_bits, log2_floor, lt_bits, nearest_double, Binary64, INF_BITS, NAN_BITS, SIGN_BIT, TWO_BITS};

verus! {

/// Magnitude `a` is worse than magnitude `b`: NaN is worse than anything
/// that is not NaN, and otherwise the larger value is worse.
pub open spec fn worse(a: Binary64, b: Binary64) -> bool {
    (a.is_nan_spec() && !b.is_nan_spec()) || lt_bits(b.bits, a.bits)
}

/// Whether the sign bits of `x` and `y` differ.
pub open spec fn sign_changed(x: Binary64, y: Binary64) -> bool {
    x.is_sign_negative_spec() != y.is_sign_negative_spec()
}

/// The absolute difference of `x` and `y`, given their IEEE difference
/// `delta`: zero for two NaNs and for equal infinities, infinity for
/// opposite infinities, else `|delta|`.
pub open spec fn abs_diff(x: Binary64, y: Binary64, delta: Binary64) -> Binary64 {
    if x.is_nan_spec() && y.is_nan_spec() {
        Binary64 { bits: 0 }
    } else if x.is_infinite_spec() && y.is_infinite_spec() {
        if x.is_sign_negative_spec() == y.is_sign_negative_spec() {
            Binary64 { bits: 0 }
        } else {
            Binary64 { bits: INF_BITS }
        }
    } else {
        delta.abs_spec()
    }
}

/// Whether magnitude `a` is worse than magnitude `b`.
/// NaN is worse than infinity, which is worse than anything finite.
pub fn is_diff_worse(a: Binary64, b: Binary64) -> (r: bool)
    requires
        a.is_sign_positive_spec(),
        b.is_sign_positive_spec(),
    ensures
        r == worse(a, b),
{
    (a.is_nan() && !b.is_nan()) || b.lt(a)
}

/// The absolute difference between `x` and `y`, where `delta` is `x - y`
/// as IEEE subtraction gives it. Two NaNs, or two infinities of one sign,
/// differ by zero; opposite infinities by infinity. The sign test reads the
/// sign bits, so NaN against NaN is no sign change but `0.0` against `-0.0`
/// and NaN against `-NaN` are.
pub fn diff_abs(x: Binary64, y: Binary64, delta: Binary64) -> (r: (Binary64, bool))
    ensures
        r.0 == abs_diff(x, y, delta),
        r.1 == sign_changed(x, y),
        r.0.is_sign_positive_spec(),
        x.is_finite_spec() && y.is_finite_spec() ==> r.0 == delta.abs_spec(),
{
    let diff = if x.is_nan() && y.is_nan() {
        Binary64::zero()
    } else if x.is_infinite() && y.is_infinite() {
        if x.is_sign_negative() == y.is_sign_negative() {
            Binary64::zero()
        } else {
            Binary64::infinity()
        }
    } else {
        delta.abs()
    };
    (diff, x.is_sign_negative() != y.is_sign_negative())
}

/// The relative difference, from the absolute one: `abs` is what
/// [`diff_abs`] returned for the two values and `scaled` is `abs.0` times
/// `2 / (|x| + |y|)` in IEEE arithmetic. An absolute difference of zero is
/// kept as it is, so that no `0 / 0` turns it into NaN.
pub fn diff_rel(abs: (Binary64, bool), scaled: Binary64) -> (r: (Binary64, bool))
    ensures
        r == (if abs.0.is_zero_spec() { abs } else { (scaled, abs.1) }),
{
    if abs.0.is_zero() {
        abs
    } else {
        (scaled, abs.1)
    }
}

/// The lesser of the absolute and the relative difference, from the
/// absolute one: `abs` is what [`diff_abs`] returned, `sum_abs` is
/// `|x| + |y|` and `scaled` is `abs.0` times `2 / sum_abs`, both in IEEE
/// arithmetic. The scaled value is taken only for a finite nonzero (or NaN)
/// absolute difference and a sum above 2, where scaling can only shrink it.
pub fn diff_lesser(abs: (Binary64, bool), sum_abs: Binary64, scaled: Binary64) -> (r: (Binary64, bool))
    ensures
        r == (if !abs.0.is_zero_spec() && !abs.0.is_infinite_spec() && lt_bits(TWO_BITS, sum_abs.bits) {
            (scaled, abs.1)
        } else {
            abs
        }),
        !lt_bits(TWO_BITS, sum_abs.bits) ==> r == abs,
{
    if !abs.0.is_zero() && !abs.0.is_infinite() && Binary64::from_bits(TWO_BITS).lt(sum_abs) {
        (scaled, abs.1)
    } else {
        abs
    }
}

/// The key under which float-cmp's `Ulps` for doubles orders an encoding,
/// read as an `i64`: the bits inverted for a negative value, the sign bit
/// flipped for a positive one.
pub open spec fn ordered_key(b: u64) -> int {
    if b >= SIGN_BIT {
        0xFFFF_FFFF_FFFF_FFFF - b
    } else {
        b - SIGN_BIT
    }
}

/// The number of units in the last place between `a` and `b` as float-cmp's
/// `Ulps::ulps` counts it: the difference of their keys, wrapped to `i64`.
pub open spec fn ulps_between(a: u64, b: u64) -> int {
    let d = ordered_key(a) - ordered_key(b);
    if d >= 0x8000_0000_0000_0000 {
        d - 0x1_0000_0000_0000_0000
    } else if d < -0x8000_0000_0000_0000 {
        d + 0x1_0000_0000_0000_0000
    } else {
        d
    }
}

/// The ULP distance as a magnitude: NaN when exactly one side is NaN, zero
/// for two NaNs, infinity when exactly one side is infinite, else the
/// absolute ULP count as the nearest double.
pub open spec fn ulps_diff(x: Binary64, y: Binary64) -> Binary64 {
    if x.is_nan_spec() != y.is_nan_spec() {
        Binary64 { bits: NAN_BITS }
    } else if x.is_nan_spec() {
        Binary64 { bits: 0 }
    } else if x.is_finite_spec() != y.is_finite_spec() {
        Binary64 { bits: INF_BITS }
    } else {
        let u = ulps_between(x.bits, y.bits);
        Binary64 { bits: nearest_double(if u < 0 { -u } else { u } as nat) as u64 }
    }
}

/// The difference in units in the last place between `x` and `y`, as a
/// double. NaN against NaN counts as equal, NaN against anything else as
/// NaN, and a finite value against an infinite one as infinitely far.
pub fn diff_ulps(x: Binary64, y: Binary64) -> (r: (Binary64, bool))
    ensures
        r.0 == ulps_diff(x, y),
        r.1 == sign_changed(x, y),
        r.0.is_sign_positive_spec(),
        x.is_nan_spec() != y.is_nan_spec() ==> r.0.is_nan_spec(),
{
    let ulps = if x.is_nan() != y.is_nan() {
        Binary64::nan()
    } else if x.is_nan() {
        Binary64::zero()
    } else if x.is_finite() != y.is_finite() {
        Binary64::infinity()
    } else {
        let kx: i128 = if x.bits >= SIGN_BIT { (0xFFFF_FFFF_FFFF_FFFFu64 - x.bits) as i128 } else { x.bits as i128 - SIGN_BIT as i128 };
        let ky: i128 = if y.bits >= SIGN_BIT { (0xFFFF_FFFF_FFFF_FFFFu64 - y.bits) as i128 } else { y.bits as i128 - SIGN_BIT as i128 };
        let d = kx - ky;
        let u: i128 = if d >= 0x8000_0000_0000_0000 {
            d - 0x1_0000_0000_0000_0000
        } else if d < -0x8000_0000_0000_0000 {
            d + 0x1_0000_0000_0000_0000
        } else {
            d
        };
        let n: u64 = if u < 0 { (-u) as u64 } else { u as u64 };
        Binary64::from_count(n)
    };
    (ulps, x.is_sign_negative() != y.is_sign_negative())
}

/// Two non-negative finite values whose encodings are adjacent, such as 1.0
/// and 1.0 plus machine epsilon, are one unit in the last place apart,
/// with no sign change.
pub proof fn lemma_adjacent_one_ulp(x: Binary64, y: Binary64)
    requires
        x.is_sign_positive_spec(),
        x.is_finite_spec(),
        y.is_finite_spec(),
        y.bits == x.bits + 1,
    ensures
        ulps_diff(x, y).bits == 0x3FF0_0000_0000_0000,
        !sign_changed(x, y),
{
    assert(ulps_between(x.bits, y.bits) == -1);
    assert(log2_floor(1) == 0);
    lemma2_to64();
    lemma2_to64_rest();
    lemma_pow2_adds(0, 52);
    assert(nearest_double(1) == 1023 * pow2(52));
}

/// The IEEE terms that a cyclic comparison needs, computed by the caller
/// for one pair of values and one range.
#[derive(Clone, Copy, Debug, PartialEq, Eq, Structural)]
pub struct CyclicTerms {
    /// `x` brought into the range by [`cyclic_range`].
    pub xmod: Binary64,
    /// `y` brought into the range by [`cyclic_range`].
    pub ymod: Binary64,
    /// `xmod - ymod`.
    pub direct: Binary64,
    /// `xmod + range_max - range_min`: `xmod` one span further round.
    pub x_up: Binary64,
    /// `x_up - ymod`.
    pub x_up_delta: Binary64,
    /// `ymod + range_max - range_min`: `ymod` one span further round.
    pub y_up: Binary64,
    /// `xmod - y_up`.
    pub y_up_delta: Binary64,
}

/// `rem` is `x % (range_max - range_min)`, `raised` is `rem` plus that span
/// and `lowered` is `rem` minus it. Picks the one that lies in the range,
/// which makes the reduction a flooring modulo rather than a truncating one.
pub open spec fn reduced_into(rem: Binary64, range_min: Binary64, range_max: Binary64, raised: Binary64, lowered: Binary64) -> Binary64 {
    if lt_bits(rem.bits, range_min.bits) {
        raised
    } else if lt_bits(range_max.bits, rem.bits) {
        lowered
    } else {
        rem
    }
}

/// The direct candidate of a cyclic comparison: NaN, flagged, when the
/// reduction made a NaN out of a value that was not one (an infinity),
/// else the absolute difference of the reduced values.
pub open spec fn cyclic_direct(x: Binary64, y: Binary64, t: CyclicTerms) -> (Binary64, bool) {
    if (t.xmod.is_nan_spec() && !x.is_nan_spec()) || (t.ymod.is_nan_spec() && !y.is_nan_spec()) {
        (Binary64 { bits: NAN_BITS }, true)
    } else {
        (abs_diff(t.xmod, t.ymod, t.direct), sign_changed(t.xmod, t.ymod))
    }
}

/// The wrapped candidate: the smaller reduced value moved one span round.
pub open spec fn cyclic_wrapped(x: Binary64, y: Binary64, t: CyclicTerms) -> Binary64 {
    if lt_bits(t.xmod.bits, t.ymod.bits) {
        abs_diff(t.x_up, t.ymod, t.x_up_delta)
    } else if lt_bits(t.ymod.bits, t.xmod.bits) {
        abs_diff(t.xmod, t.y_up, t.y_up_delta)
    } else {
        cyclic_direct(x, y, t).0
    }
}

/// The cyclic difference: the smaller candidate. Taking the wrapped one,
/// or having had to reduce either value, counts as a sign change.
pub open spec fn cyclic_diff(x: Binary64, y: Binary64, t: CyclicTerms) -> (Binary64, bool) {
    let d1 = cyclic_direct(x, y, t);
    let d2 = cyclic_wrapped(x, y, t);
    if lt_bits(d2.bits, d1.0.bits) {
        (d2, true)
    } else {
        (d1.0, !eq_bits(x.bits, t.xmod.bits) || !eq_bits(y.bits, t.ymod.bits) || d1.1)
    }
}

/// Brings a value into `[range_min, range_max]`, from `rem`, the value
/// modulo the span `range_max - range_min`, and `raised` and `lowered`,
/// `rem` plus and minus the span.
pub fn cyclic_range(rem: Binary64, range_min: Binary64, range_max: Binary64, raised: Binary64, lowered: Binary64) -> (r: Binary64)
    ensures
        r == reduced_into(rem, range_min, range_max, raised, lowered),
{
    if rem.lt(range_min) {
        raised
    } else if range_max.lt(rem) {
        lowered
    } else {
        rem
    }
}

/// The difference between `x` and `y` on a cyclic range such as angles,
/// from the terms in `t`. The range must straddle zero, so that values
/// near zero are never wrapped. Any adjustment for the range counts as a
/// sign change.
pub fn diff_cyclic(x: Binary64, y: Binary64, range_min: Binary64, range_max: Binary64, t: CyclicTerms) -> (r: (Binary64, bool))
    requires
        lt_bits(range_min.bits, range_max.bits),
        le_bits(range_min.bits, 0),
        le_bits(0, range_max.bits),
    ensures
        r == cyclic_diff(x, y, t),
        r.0.is_sign_positive_spec(),
{
    let diff1 = if (t.xmod.is_nan() && !x.is_nan()) || (t.ymod.is_nan() && !y.is_nan()) {
        (Binary64::nan(), true)
    } else {
        diff_abs(t.xmod, t.ymod, t.direct)
    };
    let diff2 = if t.xmod.lt(t.ymod) {
        diff_abs(t.x_up, t.ymod, t.x_up_delta)
    } else if t.ymod.lt(t.xmod) {
        diff_abs(t.xmod, t.y_up, t.y_up_delta)
    } else {
        diff1
    };
    if diff2.0.lt(diff1.0) {
        (diff2.0, true)
    } else {
        (diff1.0, !x.num_eq(t.xmod) || !y.num_eq(t.ymod) || diff1.1)
    }
}

} // verus!
