//! Natural numbers of any size, as little-endian vectors of 32-bit limbs.

use vstd::arithmetic::power2::{lemma2_to64, lemma_pow2_adds, lemma_pow2_unfold, pow2};
use vstd::prelude::*;

verus! {

/// The weight of limb `i`: a power of the number of values of one limb.
pub open spec fn weight(i: nat) -> nat
    decreases i,
{
    if i == 0 {
        1
    } else {
        0x1_0000_0000 * weight((i - 1) as nat)
    }
}

/// The number that the limbs of `s` write, the least significant first.
pub open spec fn limbs_value(s: Seq<u32>) -> nat
    decreases s.len(),
{
    if s.len() == 0 {
        0
    } else {
        limbs_value(s.drop_last()) + s.last() as nat * weight((s.len() - 1) as nat)
    }
}

/// Ten to the power of `k`.
pub open spec fn ten_to(k: nat) -> nat
    decreases k,
{
    if k == 0 {
        1
    } else {
        10 * ten_to((k - 1) as nat)
    }
}

/// A natural number. Its view is its value.
pub struct Natural {
    limbs: Vec<u32>,
}

impl View for Natural {
    type V = nat;

    closed spec fn view(&self) -> nat {
        limbs_value(self.limbs@)
    }
}

proof fn lemma_limbs_push(s: Seq<u32>, limb: u32)
    ensures
        limbs_value(s.push(limb)) == limbs_value(s) + limb as nat * weight(s.len()),
{
    assert(s.push(limb).drop_last() =~= s);
}

proof fn lemma_take_next(s: Seq<u32>, i: int)
    requires
        0 <= i < s.len(),
    ensures
        limbs_value(s.take(i + 1)) == limbs_value(s.take(i)) + s[i] as nat * weight(i as nat),
{
    assert(s.take(i + 1).drop_last() =~= s.take(i));
}

proof fn lemma_limbs_bound(s: Seq<u32>)
    ensures
        limbs_value(s) < weight(s.len()),
    decreases s.len(),
{
    if s.len() > 0 {
        lemma_limbs_bound(s.drop_last());
        let w = weight((s.len() - 1) as nat);
        let top = s.last() as nat;
        assert(top * w + w <= 0x1_0000_0000 * w) by (nonlinear_arith)
            requires
                top <= 0xffff_ffff,
        ;
    }
}

proof fn lemma_limbs_monotone(s: Seq<u32>, i: int)
    requires
        0 <= i <= s.len(),
    ensures
        limbs_value(s.take(i)) <= limbs_value(s),
    decreases s.len() - i,
{
    if i < s.len() {
        lemma_limbs_monotone(s, i + 1);
        lemma_take_next(s, i);
    } else {
        assert(s.take(i) =~= s);
    }
}

/// The limb of `s` at `i`, zero beyond its end.
spec fn limb_at(s: Seq<u32>, i: int) -> u32 {
    if 0 <= i < s.len() {
        s[i]
    } else {
        0
    }
}

/// The value of the first `i` limbs, where those beyond the end are zero.
spec fn low_value(s: Seq<u32>, i: int) -> nat {
    if i <= s.len() {
        limbs_value(s.take(i))
    } else {
        limbs_value(s)
    }
}

proof fn lemma_low_next(s: Seq<u32>, i: int)
    requires
        0 <= i,
    ensures
        low_value(s, i + 1) == low_value(s, i) + limb_at(s, i) as nat * weight(i as nat),
        low_value(s, i) < weight(i as nat),
    decreases i,
{
    if i < s.len() {
        lemma_take_next(s, i);
        lemma_limbs_bound(s.take(i));
    } else {
        assert(s.take(s.len() as int) =~= s);
        if i == s.len() {
            lemma_limbs_bound(s);
        } else {
            lemma_low_next(s, i - 1);
            assert(low_value(s, i) == low_value(s, i - 1));
            assert(weight(i as nat) == 0x1_0000_0000 * weight((i - 1) as nat));
        }
    }
}

impl Natural {
    /// Zero.
    pub fn zero() -> (n: Natural)
        ensures
            n@ == 0,
    {
        Natural { limbs: Vec::new() }
    }

    /// The natural number `value`.
    pub fn from_u64(value: u64) -> (n: Natural)
        ensures
            n@ == value,
    {
        let mut limbs: Vec<u32> = Vec::new();
        let high: u32 = (value / 0x1_0000_0000) as u32;
        let low: u32 = (value % 0x1_0000_0000) as u32;
        proof {
            lemma_limbs_push(Seq::empty(), low);
            lemma_limbs_push(seq![low], high);
            assert(Seq::<u32>::empty().push(low) =~= seq![low]);
            assert(limbs_value(Seq::empty()) == 0);
            assert(weight(0) == 1);
            assert(weight(1) == 0x1_0000_0000);
            assert(low as nat * weight(0) == low) by (nonlinear_arith)
                requires
                    weight(0) == 1,
            ;
            assert(high as nat * weight(1) == high * 0x1_0000_0000) by (nonlinear_arith)
                requires
                    weight(1) == 0x1_0000_0000,
            ;
        }
        limbs.push(low);
        limbs.push(high);
        assert(limbs@ =~= seq![low].push(high));
        Natural { limbs }
    }

    /// Multiplies by `factor`, then adds `term`.
    pub fn multiply_add(&mut self, factor: u32, term: u32)
        ensures
            final(self)@ == old(self)@ * factor + term,
    {
        let ghost start = self.limbs@;
        let mut carry: u64 = term as u64;
        let count = self.limbs.len();
        assert(start.take(0) =~= Seq::<u32>::empty());
        assert(self.limbs@.take(0) =~= Seq::<u32>::empty());
        proof {
            assert(limbs_value(start.take(0)) == 0);
            assert(weight(0) == 1);
            assert(carry as nat * weight(0) == 0 * (factor as nat) + term) by (nonlinear_arith)
                requires
                    weight(0) == 1,
                    carry == term,
            ;
        }
        for i in 0..count
            invariant
                count == self.limbs.len(),
                start.len() == count,
                carry <= 0xffff_ffff,
                forall|k: int| i <= k < count ==> self.limbs@[k] == start[k],
                limbs_value(self.limbs@.take(i as int)) + carry as nat * weight(i as nat)
                    == limbs_value(start.take(i as int)) * factor + term,
        {
            let ghost before = self.limbs@;
            let limb: u64 = self.limbs[i] as u64;
            proof {
                assert(limb * factor <= 0xffff_ffff * 0xffff_ffff) by (nonlinear_arith)
                    requires
                        limb <= 0xffff_ffff,
                        factor <= 0xffff_ffff,
                ;
                assert(limb * factor >= 0) by (nonlinear_arith)
                    requires
                        limb >= 0,
                        factor >= 0,
                ;
            }
            let wide: u64 = limb * (factor as u64) + carry;
            let low: u32 = (wide % 0x1_0000_0000) as u32;
            let next: u64 = wide / 0x1_0000_0000;
            self.limbs.set(i, low);
            proof {
                assert(self.limbs@.take(i as int) =~= before.take(i as int));
                lemma_take_next(self.limbs@, i as int);
                lemma_take_next(start, i as int);
                let w = weight(i as nat);
                let a = limbs_value(before.take(i as int));
                let s = limbs_value(start.take(i as int));
                assert(weight((i + 1) as nat) == 0x1_0000_0000 * w);
                assert(next * 0x1_0000_0000 + low == limb * factor + carry);
                assert(a + low as nat * w + next as nat * (0x1_0000_0000 * w) == (s + limb as nat
                    * w) * factor + term) by (nonlinear_arith)
                    requires
                        next * 0x1_0000_0000 + low == limb * factor + carry,
                        a + carry as nat * w == s * factor + term,
                ;
            }
            carry = next;
        }
        proof {
            assert(self.limbs@.take(count as int) =~= self.limbs@);
            assert(start.take(count as int) =~= start);
            lemma_limbs_push(self.limbs@, carry as u32);
        }
        self.limbs.push(carry as u32);
    }

    /// Multiplies by two to the power of `places`.
    pub fn shift_left(&mut self, places: usize)
        ensures
            final(self)@ == old(self)@ * pow2(places as nat),
    {
        let mut left: usize = places;
        let ghost start = self@;
        proof {
            lemma2_to64();
            assert(start * pow2(0) == start);
        }
        while left >= 16
            invariant
                left <= places,
                self@ == start * pow2((places - left) as nat),
            decreases left,
        {
            let ghost done = (places - left) as nat;
            self.multiply_add(0x1_0000, 0);
            proof {
                lemma2_to64();
                lemma_pow2_adds(done, 16);
                assert(start * pow2(done) * 0x1_0000 == start * (pow2(done) * 0x1_0000))
                    by (nonlinear_arith);
            }
            left = left - 16;
        }
        while left > 0
            invariant
                left <= places,
                self@ == start * pow2((places - left) as nat),
            decreases left,
        {
            let ghost done = (places - left) as nat;
            self.multiply_add(2, 0);
            proof {
                lemma_pow2_unfold(done + 1);
                assert(start * pow2(done) * 2 == start * (2 * pow2(done))) by (nonlinear_arith);
            }
            left = left - 1;
        }
    }

    /// Multiplies by ten to the power of `places`.
    pub fn scale_ten(&mut self, places: u128)
        ensures
            final(self)@ == old(self)@ * ten_to(places as nat),
    {
        let ghost start = self@;
        let mut done: u128 = 0;
        assert(ten_to(0) == 1);
        while done < places
            invariant
                done <= places,
                self@ == start * ten_to(done as nat),
            decreases places - done,
        {
            self.multiply_add(10, 0);
            proof {
                let t = ten_to(done as nat);
                assert(ten_to((done + 1) as nat) == 10 * t);
                assert(start * t * 10 == start * (10 * t)) by (nonlinear_arith);
            }
            done = done + 1;
        }
    }

    /// The limb at `i`, zero beyond the end.
    fn limb(&self, i: usize) -> (limb: u32)
        ensures
            limb == limb_at(self.limbs@, i as int),
    {
        if i < self.limbs.len() {
            self.limbs[i]
        } else {
            0
        }
    }

    /// The sum of two numbers.
    pub fn plus(&self, other: &Natural) -> (sum: Natural)
        ensures
            sum@ == self@ + other@,
    {
        let count: usize = if self.limbs.len() < other.limbs.len() {
            other.limbs.len()
        } else {
            self.limbs.len()
        };
        let ghost a = self.limbs@;
        let ghost b = other.limbs@;
        let mut limbs: Vec<u32> = Vec::new();
        let mut carry: u64 = 0;
        assert(a.take(0) =~= Seq::<u32>::empty());
        assert(b.take(0) =~= Seq::<u32>::empty());
        for i in 0..count
            invariant
                a == self.limbs@,
                b == other.limbs@,
                limbs.len() == i,
                carry <= 1,
                limbs_value(limbs@) + carry as nat * weight(i as nat) == low_value(a, i as int)
                    + low_value(b, i as int),
        {
            let x: u64 = self.limb(i) as u64;
            let y: u64 = other.limb(i) as u64;
            let wide: u64 = x + y + carry;
            let low: u32 = (wide % 0x1_0000_0000) as u32;
            let next: u64 = wide / 0x1_0000_0000;
            proof {
                lemma_limbs_push(limbs@, low);
                lemma_low_next(a, i as int);
                lemma_low_next(b, i as int);
                let w = weight(i as nat);
                let s = limbs_value(limbs@);
                let p = low_value(a, i as int);
                let q = low_value(b, i as int);
                assert(next * 0x1_0000_0000 + low == x + y + carry);
                assert(s + low as nat * w + next as nat * (0x1_0000_0000 * w) == p + x as nat * w
                    + q + y as nat * w) by (nonlinear_arith)
                    requires
                        next * 0x1_0000_0000 + low == x + y + carry,
                        s + carry as nat * w == p + q,
                ;
            }
            limbs.push(low);
            carry = next;
        }
        proof {
            lemma_limbs_push(limbs@, carry as u32);
            assert(a.take(a.len() as int) =~= a);
            assert(b.take(b.len() as int) =~= b);
        }
        limbs.push(carry as u32);
        Natural { limbs }
    }

    /// Whether this number is smaller than `other`.
    pub fn less(&self, other: &Natural) -> (less: bool)
        ensures
            less == (self@ < other@),
    {
        let ghost a = self.limbs@;
        let ghost b = other.limbs@;
        let mut i: usize = if self.limbs.len() < other.limbs.len() {
            other.limbs.len()
        } else {
            self.limbs.len()
        };
        proof {
            assert(a.take(a.len() as int) =~= a);
            assert(b.take(b.len() as int) =~= b);
        }
        while i > 0
            invariant
                a == self.limbs@,
                b == other.limbs@,
                (self@ < other@) == (low_value(a, i as int) < low_value(b, i as int)),
            decreases i,
        {
            i = i - 1;
            let x = self.limb(i);
            let y = other.limb(i);
            proof {
                lemma_low_next(a, i as int);
                lemma_low_next(b, i as int);
                let w = weight(i as nat);
                let p = low_value(a, i as int);
                let q = low_value(b, i as int);
                if x < y {
                    assert(p + x as nat * w < q + y as nat * w) by (nonlinear_arith)
                        requires
                            x < y,
                            p < w,
                            q >= 0,
                    ;
                }
                if y < x {
                    assert(q + y as nat * w < p + x as nat * w) by (nonlinear_arith)
                        requires
                            y < x,
                            q < w,
                            p >= 0,
                    ;
                }
            }
            if x != y {
                return x < y;
            }
        }
        proof {
            assert(a.take(0) =~= Seq::<u32>::empty());
            assert(b.take(0) =~= Seq::<u32>::empty());
        }
        false
    }
}

} // verus!
