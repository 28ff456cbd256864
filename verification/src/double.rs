//! Double-precision numbers, handled exactly through the integers of their bit patterns.
//!
//! A double without its sign bit is a natural number below `0x8000_0000_0000_0000`. Finite
//! doubles are whole multiples of two to the power of -1074, and their bit patterns are ordered
//! as their values are.

use crate::natural::{ten_to, Natural};
use vstd::arithmetic::power2::{
    lemma2_to64, lemma_pow2_pos, lemma_pow2_strictly_increases, lemma_pow2_unfold, pow2,
};
use vstd::prelude::*;

verus! {

/// The bit pattern of positive infinity.
pub const INFINITY: u64 = 0x7ff0_0000_0000_0000;

/// The bit pattern of the sign.
pub const SIGN: u64 = 0x8000_0000_0000_0000;

/// The value that a bit pattern without sign stands for, in units of two to the power of -1074.
/// Of infinity, the power of two where finite doubles end.
pub open spec fn magnitude(bits: nat) -> nat {
    let exponent = bits / 0x10_0000_0000_0000;
    let fraction = bits % 0x10_0000_0000_0000;
    if exponent == 0 {
        fraction
    } else {
        (0x10_0000_0000_0000 + fraction) * pow2((exponent - 1) as nat)
    }
}

/// The number of units in one.
pub open spec fn one() -> nat {
    pow2(1074)
}

/// Twice the point half way between a double and the next smaller one.
pub open spec fn midpoint_twice(bits: nat) -> nat {
    magnitude((bits - 1) as nat) + magnitude(bits)
}

/// Whether `number / divisor` units round to the double `bits` or a larger one: they lie above
/// the point half way between it and the next smaller double, or on it if `bits` is even.
pub open spec fn reaches(number: nat, divisor: nat, bits: nat) -> bool {
    ||| bits == 0
    ||| 2 * number > midpoint_twice(bits) * divisor
    ||| 2 * number == midpoint_twice(bits) * divisor && bits % 2 == 0
}

/// Whether `bits` is the double nearest to `number / divisor` units, the even one of two that are
/// equally near, infinity beyond the largest finite double.
pub open spec fn rounds_to(number: nat, divisor: nat, bits: nat) -> bool {
    &&& bits <= INFINITY
    &&& reaches(number, divisor, bits)
    &&& bits < INFINITY ==> !reaches(number, divisor, bits + 1)
}

/// The double nearest to `number / divisor` units.
pub open spec fn rounded(number: nat, divisor: nat) -> nat {
    choose|bits: nat| rounds_to(number, divisor, bits)
}

proof fn lemma_magnitude_step(bits: nat)
    ensures
        magnitude(bits) < magnitude(bits + 1),
{
    let c: nat = 0x10_0000_0000_0000;
    let e = bits / c;
    let f = bits % c;
    assert(bits == c * e + f);
    if f + 1 < c {
        assert((bits + 1) / c == e && (bits + 1) % c == f + 1) by {
            assert(bits + 1 == c * e + (f + 1));
        }
        if e > 0 {
            let p = pow2((e - 1) as nat);
            lemma_pow2_pos((e - 1) as nat);
            assert((c + f) * p < (c + (f + 1)) * p) by (nonlinear_arith)
                requires
                    p > 0,
            ;
        }
    } else {
        assert(bits + 1 == c * (e + 1));
        assert((bits + 1) / c == e + 1 && (bits + 1) % c == 0);
        lemma_pow2_pos(e);
        if e == 0 {
            lemma2_to64();
        } else {
            let p = pow2((e - 1) as nat);
            lemma_pow2_unfold(e);
            lemma_pow2_pos((e - 1) as nat);
            assert((c + f) * p < c * (2 * p)) by (nonlinear_arith)
                requires
                    f < c,
                    p > 0,
            ;
        }
    }
}

/// Bit patterns without sign are ordered as their values are.
pub proof fn magnitude_is_increasing(a: nat, b: nat)
    requires
        a < b,
    ensures
        magnitude(a) < magnitude(b),
    decreases b - a,
{
    lemma_magnitude_step((b - 1) as nat);
    if a < b - 1 {
        magnitude_is_increasing(a, (b - 1) as nat);
    }
}

/// What rounds to a double or a larger one also rounds to every smaller double or a larger one.
pub proof fn reaching_is_downward_closed(number: nat, divisor: nat, a: nat, b: nat)
    requires
        divisor > 0,
        a < b,
        reaches(number, divisor, b),
    ensures
        reaches(number, divisor, a),
{
    if a > 0 {
        magnitude_is_increasing((a - 1) as nat, (b - 1) as nat);
        magnitude_is_increasing(a, b);
        let x = midpoint_twice(a);
        let y = midpoint_twice(b);
        assert(x * divisor < y * divisor) by (nonlinear_arith)
            requires
                x < y,
                divisor > 0,
        ;
    }
}

/// At most one double is the nearest one.
pub proof fn rounding_is_unique(number: nat, divisor: nat, a: nat, b: nat)
    requires
        divisor > 0,
        rounds_to(number, divisor, a),
        rounds_to(number, divisor, b),
    ensures
        a == b,
{
    if a < b {
        if a + 1 < b {
            reaching_is_downward_closed(number, divisor, a + 1, b);
        }
    } else if b < a {
        if b + 1 < a {
            reaching_is_downward_closed(number, divisor, b + 1, a);
        }
    }
}

/// Every double is the one nearest to its own value.
pub proof fn a_double_rounds_to_itself(bits: nat)
    requires
        bits <= INFINITY,
    ensures
        rounds_to(magnitude(bits), 1, bits),
        rounded(magnitude(bits), 1) == bits,
{
    if bits > 0 {
        lemma_magnitude_step((bits - 1) as nat);
    }
    lemma_magnitude_step(bits);
    assert(midpoint_twice(bits) * 1 == midpoint_twice(bits));
    assert(midpoint_twice(bits + 1) * 1 == midpoint_twice(bits + 1));
    assert(rounds_to(magnitude(bits), 1, bits));
    rounding_is_unique(magnitude(bits), 1, bits, rounded(magnitude(bits), 1));
}

/// The value of a double without sign.
pub(crate) fn magnitude_of(bits: u64) -> (n: Natural)
    requires
        bits <= INFINITY + 1,
    ensures
        n@ == magnitude(bits as nat),
{
    let exponent: u64 = bits / 0x10_0000_0000_0000;
    let fraction: u64 = bits % 0x10_0000_0000_0000;
    if exponent == 0 {
        Natural::from_u64(fraction)
    } else {
        let mut n = Natural::from_u64(0x10_0000_0000_0000 + fraction);
        n.shift_left((exponent - 1) as usize);
        n
    }
}

/// Twice the point half way between a double and the next smaller one.
pub(crate) fn midpoint_of(bits: u64) -> (n: Natural)
    requires
        0 < bits <= INFINITY + 1,
    ensures
        n@ == midpoint_twice(bits as nat),
{
    let low = magnitude_of(bits - 1);
    let high = magnitude_of(bits);
    low.plus(&high)
}

/// Whether half of `twice`, divided by ten to the power of `places`, rounds to `bits` or above.
fn reaches_double(twice: &Natural, places: u128, bits: u64, Ghost(number): Ghost<nat>) -> (r: bool)
    requires
        bits <= INFINITY + 1,
        twice@ == 2 * number,
    ensures
        r == reaches(number, ten_to(places as nat), bits as nat),
{
    if bits == 0 {
        return true;
    }
    let mut boundary = midpoint_of(bits);
    boundary.scale_ten(places);
    if boundary.less(twice) {
        true
    } else if twice.less(&boundary) {
        false
    } else {
        bits % 2 == 0
    }
}

/// The double nearest to half of `twice`, divided by ten to the power of `places`.
pub(crate) fn round_to_double(twice: &Natural, places: u128, Ghost(number): Ghost<nat>) -> (bits: u64)
    requires
        twice@ == 2 * number,
    ensures
        rounds_to(number, ten_to(places as nat), bits as nat),
        bits as nat == rounded(number, ten_to(places as nat)),
{
    let ghost divisor = ten_to(places as nat);
    let mut low: u64 = 0;
    let mut high: u64 = INFINITY + 1;
    while high - low > 1
        invariant
            low < high <= INFINITY + 1,
            twice@ == 2 * number,
            divisor == ten_to(places as nat),
            reaches(number, divisor, low as nat),
            high <= INFINITY ==> !reaches(number, divisor, high as nat),
        decreases high - low,
    {
        let middle: u64 = low + (high - low) / 2;
        if reaches_double(twice, places, middle, Ghost(number)) {
            low = middle;
        } else {
            high = middle;
        }
    }
    proof {
        lemma_ten_to_pos(places as nat);
        assert(rounds_to(number, divisor, low as nat));
        rounding_is_unique(number, divisor, low as nat, rounded(number, divisor));
    }
    low
}

pub proof fn lemma_ten_to_pos(k: nat)
    ensures
        ten_to(k) > 0,
    decreases k,
{
    if k > 0 {
        lemma_ten_to_pos((k - 1) as nat);
    }
}

// ---------------------------------------------------------------------------------------------
// How near the nearest double is
// ---------------------------------------------------------------------------------------------

proof fn lemma_last_reached(number: nat, divisor: nat, top: nat) -> (bits: nat)
    ensures
        bits <= top,
        reaches(number, divisor, bits),
        bits < top ==> !reaches(number, divisor, bits + 1),
    decreases top,
{
    if top == 0 || reaches(number, divisor, top) {
        top
    } else {
        lemma_last_reached(number, divisor, (top - 1) as nat)
    }
}

/// Every number has a nearest double.
pub proof fn rounding_always_succeeds(number: nat, divisor: nat)
    ensures
        rounds_to(number, divisor, rounded(number, divisor)),
{
    let bits = lemma_last_reached(number, divisor, INFINITY as nat);
    assert(rounds_to(number, divisor, bits));
}

/// From a normal double it is at most the 2^52nd part of its value to the next one on either side.
proof fn lemma_gap(bits: nat)
    requires
        bits >= 0x10_0000_0000_0000,
    ensures
        0x10_0000_0000_0000 * (magnitude(bits + 1) - magnitude(bits)) <= magnitude(bits),
        0x10_0000_0000_0000 * (magnitude(bits) - magnitude((bits - 1) as nat)) <= magnitude(bits),
{
    let c: nat = 0x10_0000_0000_0000;
    let e = bits / c;
    let f = bits % c;
    assert(bits == c * e + f);
    assert(e >= 1);
    let p = pow2((e - 1) as nat);
    lemma_pow2_pos((e - 1) as nat);
    assert(magnitude(bits) == (c + f) * p);
    assert((c + f) * p == c * p + f * p) by (nonlinear_arith);
    assert(f * p >= 0) by (nonlinear_arith);
    if f + 1 < c {
        assert((bits + 1) / c == e && (bits + 1) % c == f + 1) by {
            assert(bits + 1 == c * e + (f + 1));
        }
        assert((c + (f + 1)) * p == c * p + f * p + p) by (nonlinear_arith);
    } else {
        assert(bits + 1 == c * (e + 1));
        assert((bits + 1) / c == e + 1 && (bits + 1) % c == 0);
        lemma_pow2_unfold(e);
        assert((c + 0) * (2 * p) == c * p + f * p + p) by (nonlinear_arith)
            requires
                f + 1 == c,
        ;
    }
    if f > 0 {
        assert((bits - 1) as nat / c == e && (bits - 1) as nat % c == f - 1) by {
            assert(bits - 1 == c * e + (f - 1));
        }
        assert((c + (f - 1)) * p == c * p + f * p - p) by (nonlinear_arith);
    } else if e == 1 {
        assert(((bits - 1) as nat) / c == 0);
        assert(((bits - 1) as nat) % c == c - 1);
        lemma2_to64();
        assert(p == 1);
        assert(c * p == c);
    } else {
        assert(bits - 1 == c * (e - 1) + (c - 1));
        assert(((bits - 1) as nat) / c == e - 1 && ((bits - 1) as nat) % c == c - 1);
        let h = pow2((e - 2) as nat);
        lemma_pow2_unfold((e - 1) as nat);
        assert(p == 2 * h);
        assert((c + (c - 1)) * h == c * (2 * h) - h) by (nonlinear_arith);
        assert(c * h >= 0) by (nonlinear_arith);
    }
}

/// The double nearest to a number of ordinary size is off by at most the 2^53rd part of its value.
pub proof fn the_nearest_double_is_near(number: nat, divisor: nat)
    requires
        divisor > 0,
        number >= 0x10_0000_0000_0000 * divisor,
        number <= pow2(2000) * divisor,
    ensures
        rounded(number, divisor) < INFINITY,
        rounded(number, divisor) >= 0x10_0000_0000_0000,
        0x20_0000_0000_0000 * (number - magnitude(rounded(number, divisor)) * divisor) <= magnitude(
            rounded(number, divisor),
        ) * divisor,
        0x20_0000_0000_0000 * (magnitude(rounded(number, divisor)) * divisor - number) <= magnitude(
            rounded(number, divisor),
        ) * divisor,
{
    let c: nat = 0x10_0000_0000_0000;
    let bits = rounded(number, divisor);
    rounding_always_succeeds(number, divisor);
    if bits == INFINITY {
        let below = (INFINITY - 1) as nat;
        assert(below / c == 2046 && below % c == c - 1);
        lemma_pow2_pos(2045);
        lemma_pow2_strictly_increases(2000, 2045);
        let p = pow2(2045);
        assert(magnitude(below) == (c + (c - 1)) * p);
        assert((c + (c - 1)) * p > p) by (nonlinear_arith)
            requires
                c == 0x10_0000_0000_0000,
                p > 0,
        ;
        magnitude_is_increasing(below, bits);
        let middle = midpoint_twice(bits);
        assert(middle > 2 * pow2(2000));
        assert(middle * divisor > 2 * (pow2(2000) * divisor)) by (nonlinear_arith)
            requires
                middle > 2 * pow2(2000),
                divisor > 0,
        ;
        assert(false);
    }
    let m = magnitude(bits);
    let above = magnitude(bits + 1);
    if bits < c {
        assert(bits / c == 0 && bits % c == bits);
        assert(m == bits);
        assert(above <= c) by {
            if bits + 1 < c {
                assert((bits + 1) / c == 0);
            } else {
                assert((bits + 1) / c == 1 && (bits + 1) % c == 0);
                lemma2_to64();
                assert(pow2(0) == 1);
                assert(above == c * 1);
            }
        }
        assert(midpoint_twice(bits + 1) == m + above);
        assert((m + above) * divisor < 2 * (c * divisor)) by (nonlinear_arith)
            requires
                m + above < 2 * c,
                divisor > 0,
        ;
        assert(false);
    }
    lemma_gap(bits);
    let under = magnitude((bits - 1) as nat);
    assert(2 * number <= (m + above) * divisor);
    assert(2 * number >= (under + m) * divisor);
    assert(0x20_0000_0000_0000 * (number - m * divisor) <= m * divisor) by (nonlinear_arith)
        requires
            2 * number <= (m + above) * divisor,
            0x10_0000_0000_0000 * (above - m) <= m,
            divisor > 0,
    ;
    assert(0x20_0000_0000_0000 * (m * divisor - number) <= m * divisor) by (nonlinear_arith)
        requires
            2 * number >= (under + m) * divisor,
            0x10_0000_0000_0000 * (m - under) <= m,
            divisor > 0,
    ;
}

} // verus!
