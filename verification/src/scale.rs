//! Scaling factors of outputs: doubles, kept by their bit pattern.

use crate::double::{
    magnitude, magnitude_is_increasing, magnitude_of, midpoint_of, midpoint_twice, one, reaches,
    INFINITY, SIGN,
};
use vstd::arithmetic::power2::{lemma2_to64, lemma_pow2_adds, pow2};
use vstd::prelude::*;

verus! {

/// A scaling factor, as the bit pattern of a double.
#[derive(Clone, Copy, PartialEq, Eq, Debug, Structural)]
pub struct Scale {
    pub bits: u64,
}

/// The bit pattern of the double nearest to one hundredth.
pub const HUNDREDTH: u64 = 0x3f84_7ae1_47ae_147b;

/// Whether the sign bit is set.
pub open spec fn is_negative(bits: u64) -> bool {
    bits >= SIGN
}

/// The bit pattern without its sign.
pub open spec fn unsigned_bits(bits: u64) -> nat {
    if is_negative(bits) {
        (bits - SIGN) as nat
    } else {
        bits as nat
    }
}

/// The exact distance of two finite doubles, in units.
pub open spec fn distance(a: u64, b: u64) -> nat {
    let x = magnitude(unsigned_bits(a)) as int;
    let y = magnitude(unsigned_bits(b)) as int;
    if is_negative(a) != is_negative(b) {
        (x + y) as nat
    } else if x < y {
        (y - x) as nat
    } else {
        (x - y) as nat
    }
}

impl Scale {
    /// Whether the factor is a number above zero and at most ten.
    pub open spec fn in_range(self) -> bool {
        &&& !is_negative(self.bits)
        &&& self.bits < INFINITY
        &&& 0 < magnitude(self.bits as nat) <= 10 * one()
    }

    /// Whether the two factors, subtracted as doubles, are more than one hundredth apart. A factor
    /// that is no number is never apart from another, and an infinite one is apart from all but
    /// itself.
    pub open spec fn apart(self, other: Scale) -> bool {
        let a = unsigned_bits(self.bits);
        let b = unsigned_bits(other.bits);
        if a > INFINITY || b > INFINITY {
            false
        } else if a == INFINITY && b == INFINITY {
            is_negative(self.bits) != is_negative(other.bits)
        } else if a == INFINITY || b == INFINITY {
            true
        } else {
            reaches(distance(self.bits, other.bits), 1, HUNDREDTH as nat + 1)
        }
    }

    /// Whether the factor is a number above zero and at most ten.
    pub fn is_in_range(&self) -> (r: bool)
        ensures
            r == self.in_range(),
    {
        proof {
            lemma_ten();
            let ten: nat = 0x4024_0000_0000_0000;
            let b = self.bits as nat;
            assert(magnitude(0) == 0);
            if b > 0 {
                magnitude_is_increasing(0, b);
            }
            if b < ten {
                magnitude_is_increasing(b, ten);
            }
            if ten < b {
                magnitude_is_increasing(ten, b);
            }
        }
        0 < self.bits && self.bits <= 0x4024_0000_0000_0000
    }

    /// Whether the two factors are more than one hundredth apart.
    pub fn is_apart(&self, other: &Scale) -> (r: bool)
        ensures
            r == self.apart(*other),
    {
        let negative: bool = self.bits >= SIGN;
        let other_negative: bool = other.bits >= SIGN;
        let a: u64 = if negative {
            self.bits - SIGN
        } else {
            self.bits
        };
        let b: u64 = if other_negative {
            other.bits - SIGN
        } else {
            other.bits
        };
        if a > INFINITY || b > INFINITY {
            return false;
        }
        if a == INFINITY && b == INFINITY {
            return negative != other_negative;
        }
        if a == INFINITY || b == INFINITY {
            return true;
        }
        let mut x = magnitude_of(a);
        let mut y = magnitude_of(b);
        x.shift_left(1);
        y.shift_left(1);
        proof {
            lemma2_to64();
        }
        let boundary = midpoint_of(HUNDREDTH + 1);
        assert(midpoint_twice(HUNDREDTH as nat + 1) * 1 == midpoint_twice(HUNDREDTH as nat + 1));
        // The bit pattern behind one hundredth is even, so the boundary itself counts as apart.
        if negative != other_negative {
            let sum = x.plus(&y);
            !sum.less(&boundary)
        } else {
            let (low, high) = if x.less(&y) {
                (x, y)
            } else {
                (y, x)
            };
            let limit = low.plus(&boundary);
            !high.less(&limit)
        }
    }
}

proof fn lemma_ten()
    ensures
        magnitude(0x4024_0000_0000_0000) == 10 * one(),
{
    lemma2_to64();
    lemma_pow2_adds(49, 1025);
    lemma_pow2_adds(20, 29);
    assert(0x4024_0000_0000_0000nat / 0x10_0000_0000_0000 == 1026);
    assert(0x4024_0000_0000_0000nat % 0x10_0000_0000_0000 == 0x4_0000_0000_0000);
    let p = pow2(1025);
    assert(pow2(49) == 0x2_0000_0000_0000);
    assert(0x14_0000_0000_0000 * p == 10 * (0x2_0000_0000_0000 * p)) by (nonlinear_arith);
}

/// Being apart is mutual, and no factor is apart from itself.
pub proof fn apart_is_symmetric(a: Scale, b: Scale)
    ensures
        a.apart(b) == b.apart(a),
        !a.apart(a),
{
    magnitude_is_increasing(HUNDREDTH as nat, HUNDREDTH as nat + 1);
    assert(midpoint_twice(HUNDREDTH as nat + 1) * 1 > 0);
}

/// Finite factors count as equal if they are clearly less than one hundredth apart, and as different if they
/// are clearly more than that apart.
pub proof fn about_one_hundredth_counts(a: Scale, b: Scale)
    requires
        unsigned_bits(a.bits) < INFINITY,
        unsigned_bits(b.bits) < INFINITY,
    ensures
        101 * distance(a.bits, b.bits) <= one() ==> !a.apart(b),
        99 * distance(a.bits, b.bits) >= one() ==> a.apart(b),
{
    let d = distance(a.bits, b.bits);
    let p = pow2(1015);
    lemma2_to64();
    lemma_pow2_adds(59, 1015);
    assert(pow2(59) == 0x800_0000_0000_0000) by {
        lemma_pow2_adds(32, 27);
    }
    assert(one() == 0x800_0000_0000_0000 * p);
    assert(0x3f84_7ae1_47ae_147bnat / 0x10_0000_0000_0000 == 1016);
    assert(0x3f84_7ae1_47ae_147bnat % 0x10_0000_0000_0000 == 0x4_7ae1_47ae_147b);
    assert(0x3f84_7ae1_47ae_147cnat / 0x10_0000_0000_0000 == 1016);
    assert(0x3f84_7ae1_47ae_147cnat % 0x10_0000_0000_0000 == 0x4_7ae1_47ae_147c);
    assert(magnitude(HUNDREDTH as nat) == 0x14_7ae1_47ae_147b * p);
    assert(magnitude(HUNDREDTH as nat + 1) == 0x14_7ae1_47ae_147c * p);
    let middle = midpoint_twice(HUNDREDTH as nat + 1);
    assert(middle * 1 == middle);
    assert(middle == 0x28_f5c2_8f5c_28f7 * p) by (nonlinear_arith)
        requires
            middle == 0x14_7ae1_47ae_147b * p + 0x14_7ae1_47ae_147c * p,
    ;
    assert(p > 0) by {
        vstd::arithmetic::power2::lemma_pow2_pos(1015);
    }
}

} // verus!
