//! Terrain heights as the library receives them: single-precision values,
//! carried by their bit patterns and compared without rounding.

use vstd::arithmetic::power2::{lemma_pow2_pos, lemma_pow2_strictly_increases, lemma_pow2_unfold, pow2};
use vstd::prelude::*;

verus! {

/// A height in world units, held as the 32 bits of a single-precision value:
/// one sign bit, eight exponent bits, 23 fraction bits.
#[derive(Clone, Copy, Debug, PartialEq, Eq, Structural)]
pub struct Height {
    pub bits: u32,
}

impl Height {
    /// The sign bit is set.
    pub open spec fn negative(self) -> bool {
        self.bits >= 0x8000_0000
    }

    /// The 31 bits below the sign bit.
    pub open spec fn magnitude(self) -> int {
        self.bits as int % 0x8000_0000
    }

    /// The biased exponent, `0 ..= 255`.
    pub open spec fn exponent(self) -> int {
        self.magnitude() / 0x80_0000
    }

    /// The 23 fraction bits.
    pub open spec fn fraction(self) -> int {
        self.magnitude() % 0x80_0000
    }

    /// The bits stand for no number.
    pub open spec fn nan(self) -> bool {
        self.exponent() == 255 && self.fraction() != 0
    }

    /// The absolute value times 2^149, which is a whole number for every
    /// height. The two infinities take the value of the next exponent step,
    /// above every finite height.
    pub open spec fn scaled_magnitude(self) -> int {
        if self.exponent() == 0 {
            self.fraction()
        } else {
            (0x80_0000 + self.fraction()) * pow2((self.exponent() - 1) as nat)
        }
    }

    /// The value times 2^149. Both zeros give 0.
    pub open spec fn scaled(self) -> int {
        if self.negative() {
            -self.scaled_magnitude()
        } else {
            self.scaled_magnitude()
        }
    }

    /// `self` is a lower height than `level`. Nothing is below, and nothing
    /// has below it, what is no number.
    pub open spec fn below(self, level: Height) -> bool {
        !self.nan() && !level.nan() && self.scaled() < level.scaled()
    }

    /// Larger bits below the sign stand for a larger absolute value.
    pub proof fn lemma_magnitude_orders(self, other: Height)
        ensures
            self.magnitude() < other.magnitude() <==> self.scaled_magnitude()
                < other.scaled_magnitude(),
            self.magnitude() == other.magnitude() <==> self.scaled_magnitude()
                == other.scaled_magnitude(),
            self.scaled_magnitude() >= 0,
            self.magnitude() == 0 <==> self.scaled_magnitude() == 0,
    {
        self.lemma_magnitude_grows(other);
        other.lemma_magnitude_grows(self);
        self.lemma_magnitude_grows(Height { bits: 0 });
        (Height { bits: 0 }).lemma_magnitude_grows(self);
        assert((Height { bits: 0 }).scaled_magnitude() == 0);
    }

    proof fn lemma_magnitude_grows(self, other: Height)
        ensures
            self.magnitude() < other.magnitude() ==> self.scaled_magnitude()
                < other.scaled_magnitude(),
            self.magnitude() == other.magnitude() ==> self.scaled_magnitude()
                == other.scaled_magnitude(),
    {
        if self.magnitude() < other.magnitude() {
            let e1 = self.exponent();
            let e2 = other.exponent();
            let f1 = self.fraction();
            let f2 = other.fraction();
            assert(self.magnitude() == 0x80_0000 * e1 + f1 && 0 <= f1 < 0x80_0000);
            assert(other.magnitude() == 0x80_0000 * e2 + f2 && 0 <= f2 < 0x80_0000);
            assert(0 <= e1 <= e2);
            if e1 == e2 {
                if e1 > 0 {
                    let p = pow2((e1 - 1) as nat);
                    lemma_pow2_pos((e1 - 1) as nat);
                    assert((0x80_0000 + f1) * p < (0x80_0000 + f2) * p) by (nonlinear_arith)
                        requires
                            f1 < f2,
                            p > 0,
                    ;
                }
            } else {
                let q = pow2((e2 - 1) as nat);
                lemma_pow2_pos((e2 - 1) as nat);
                assert(0x80_0000 * q <= (0x80_0000 + f2) * q) by (nonlinear_arith)
                    requires
                        0 <= f2,
                        q > 0,
                ;
                if e1 == 0 {
                    assert(0x80_0000 * 1 <= 0x80_0000 * q) by (nonlinear_arith)
                        requires
                            q >= 1,
                    ;
                } else {
                    let p = pow2((e1 - 1) as nat);
                    lemma_pow2_pos((e1 - 1) as nat);
                    lemma_pow2_unfold(e1 as nat);
                    if e1 < e2 - 1 {
                        lemma_pow2_strictly_increases(e1 as nat, (e2 - 1) as nat);
                    }
                    assert(pow2(e1 as nat) <= q);
                    assert((0x80_0000 + f1) * p < 0x80_0000 * (2 * p)) by (nonlinear_arith)
                        requires
                            f1 < 0x80_0000,
                            p > 0,
                    ;
                    assert(0x80_0000 * (2 * p) <= 0x80_0000 * q) by (nonlinear_arith)
                        requires
                            2 * p <= q,
                    ;
                }
            }
        }
    }

    /// The height that `bits` stand for.
    pub fn from_bits(bits: u32) -> (height: Height)
        ensures
            height.bits == bits,
    {
        Height { bits }
    }

    /// The bits that stand for this height.
    pub fn to_bits(&self) -> (bits: u32)
        ensures
            bits == self.bits,
    {
        self.bits
    }

    /// Whether the bits stand for no number.
    pub fn is_nan(&self) -> (none: bool)
        ensures
            none == self.nan(),
    {
        let magnitude: u32 = self.bits % 0x8000_0000;
        magnitude > 0x7F80_0000
    }

    /// The place of a height that is a number in the order of all heights:
    /// the magnitude bits, counted downward from zero under a set sign bit.
    fn rank(&self) -> (place: i64)
        ensures
            place == if self.negative() {
                -self.magnitude()
            } else {
                self.magnitude()
            },
    {
        let magnitude: i64 = (self.bits % 0x8000_0000) as i64;
        if self.bits >= 0x8000_0000 {
            -magnitude
        } else {
            magnitude
        }
    }

    /// Whether this height is lower than `level`, as the two compare as
    /// numbers: false where either is none, and for the two zeros.
    pub fn is_below(&self, level: &Height) -> (lower: bool)
        ensures
            lower == self.below(*level),
    {
        if self.is_nan() || level.is_nan() {
            return false;
        }
        proof {
            self.lemma_magnitude_orders(*level);
            self.lemma_magnitude_orders(Height { bits: 0 });
            level.lemma_magnitude_orders(Height { bits: 0 });
        }
        self.rank() < level.rank()
    }
}

} // verus!
