//! Single-precision numbers, held by their encoding and compared exactly.
//!
//! A [`Scalar`] carries the 32 bits of an IEEE 754 binary32 number: one sign
//! bit, eight exponent bits and twenty-three fraction bits. Nothing here
//! rounds: every number that the encoding can hold is a whole multiple of
//! 2^-149, and [`Scalar::units`] is that multiple. Comparisons are stated over
//! it and computed on the bits.

use vstd::prelude::*;
use vstd::arithmetic::power2::*;

verus! {

/// The encoding of the sign bit; every encoding at or above it is signed.
pub const SIGN_BIT: u32 = 0x8000_0000;

/// The encoding of positive infinity, the largest magnitude that is a number.
pub const INFINITY_BITS: u32 = 0x7F80_0000;

/// Two to the twenty-third: the weight of the leading bit that a normal number
/// does not store.
pub const HIDDEN_BIT: u32 = 0x80_0000;

/// The encoding of zero.
pub const ZERO_BITS: u32 = 0;

/// The encoding of one.
pub const ONE_BITS: u32 = 0x3F80_0000;

/// What a magnitude (an encoding without its sign bit) is worth, in units of
/// 2^-149. Exponent field zero holds the subnormal numbers, whose fraction
/// counts units directly; above it, the fraction gains the hidden bit and
/// doubles with each step of the exponent. Infinity comes out as 2^277, above
/// every finite number.
pub open spec fn size_of(magnitude: nat) -> nat {
    let exponent = magnitude / (HIDDEN_BIT as nat);
    let fraction = magnitude % (HIDDEN_BIT as nat);
    if exponent == 0 {
        fraction
    } else {
        (HIDDEN_BIT as nat + fraction) * pow2((exponent - 1) as nat)
    }
}

/// A larger magnitude is worth strictly more.
pub proof fn lemma_size_increases(a: nat, b: nat)
    requires
        a < b,
    ensures
        size_of(a) < size_of(b),
{
    let h = HIDDEN_BIT as nat;
    let ea = a / h;
    let fa = a % h;
    let eb = b / h;
    let fb = b % h;
    assert(a == ea * h + fa && b == eb * h + fb);
    assert(ea <= eb);
    if ea == eb {
        if ea != 0 {
            let p = pow2((ea - 1) as nat);
            lemma_pow2_pos((ea - 1) as nat);
            assert((h + fa) * p < (h + fb) * p) by (nonlinear_arith)
                requires
                    fa < fb,
                    p > 0,
            ;
        }
    } else {
        let pb = pow2((eb - 1) as nat);
        lemma_pow2_pos((eb - 1) as nat);
        assert(h * pb <= (h + fb) * pb) by (nonlinear_arith)
            requires
                pb > 0,
        ;
        if ea == 0 {
            assert(h * 1 <= h * pb) by (nonlinear_arith)
                requires
                    pb >= 1,
            ;
        } else {
            let pa = pow2((ea - 1) as nat);
            lemma_pow2_pos((ea - 1) as nat);
            lemma_pow2_unfold(ea);
            assert((h + fa) * pa < h * (2 * pa)) by (nonlinear_arith)
                requires
                    fa < h,
                    pa > 0,
            ;
            if ea < eb - 1 {
                lemma_pow2_strictly_increases(ea, (eb - 1) as nat);
            }
            assert(h * pow2(ea) <= h * pb) by (nonlinear_arith)
                requires
                    pow2(ea) <= pb,
            ;
        }
    }
}

/// Only the magnitude zero is worth nothing: every magnitude above it is worth
/// more.
pub proof fn lemma_size_positive(magnitude: nat)
    ensures
        size_of(0) == 0,
        magnitude > 0 ==> size_of(magnitude) > 0,
{
    if magnitude > 0 {
        lemma_size_increases(0, magnitude);
    }
}

/// A single-precision number, held as its 32-bit encoding.
///
/// Equality of two values of this type is equality of encodings: it tells the
/// two zeros apart. Equality of the numbers is [`Scalar::same`].
#[derive(Clone, Copy, Debug, PartialEq, Eq)]
pub struct Scalar {
    pub bits: u32,
}

impl Scalar {
    /// Whether the sign bit is set.
    pub open spec fn signed(self) -> bool {
        self.bits >= SIGN_BIT
    }

    /// The encoding without its sign bit.
    pub open spec fn magnitude(self) -> nat {
        (self.bits % SIGN_BIT) as nat
    }

    /// Whether the encoding holds no number: the exponent field is all ones
    /// and the fraction is not zero.
    pub open spec fn nan(self) -> bool {
        self.magnitude() > INFINITY_BITS
    }

    /// The number in units of 2^-149, for an encoding that holds one. Both
    /// zeros are 0; the infinities are plus and minus 2^277.
    pub open spec fn units(self) -> int {
        if self.signed() {
            -(size_of(self.magnitude()) as int)
        } else {
            size_of(self.magnitude()) as int
        }
    }

    /// The magnitude with the sign in front: an integer that is ordered as the
    /// numbers are.
    pub open spec fn rank(self) -> int {
        if self.signed() {
            -(self.magnitude() as int)
        } else {
            self.magnitude() as int
        }
    }

    /// `self < other` as numbers. False when either holds no number.
    pub open spec fn below(self, other: Scalar) -> bool {
        !self.nan() && !other.nan() && self.units() < other.units()
    }

    /// `self <= other` as numbers. False when either holds no number.
    pub open spec fn at_most(self, other: Scalar) -> bool {
        !self.nan() && !other.nan() && self.units() <= other.units()
    }

    /// `self == other` as numbers: the two zeros are the same, and what holds
    /// no number is the same as nothing.
    pub open spec fn same(self, other: Scalar) -> bool {
        !self.nan() && !other.nan() && self.units() == other.units()
    }

    /// `self >= 0` as numbers: zero of either sign, a positive number or
    /// positive infinity.
    pub open spec fn non_negative(self) -> bool {
        !self.nan() && self.units() >= 0
    }

    /// `self < 0` as numbers.
    pub open spec fn negative(self) -> bool {
        !self.nan() && self.units() < 0
    }

    /// `self <= 0` as numbers.
    pub open spec fn non_positive(self) -> bool {
        !self.nan() && self.units() <= 0
    }

    /// Ranks are ordered exactly as the numbers are.
    pub proof fn lemma_rank_orders(self, other: Scalar)
        ensures
            self.rank() < other.rank() <==> self.units() < other.units(),
            self.rank() == other.rank() <==> self.units() == other.units(),
    {
        let a = self.magnitude();
        let b = other.magnitude();
        if a < b {
            lemma_size_increases(a, b);
        }
        if b < a {
            lemma_size_increases(b, a);
        }
        lemma_size_positive(a);
        lemma_size_positive(b);
    }

    /// The scalar with the given encoding.
    pub fn from_bits(bits: u32) -> (r: Scalar)
        ensures
            r.bits == bits,
    {
        Scalar { bits }
    }

    /// The encoding.
    pub fn to_bits(&self) -> (r: u32)
        ensures
            r == self.bits,
    {
        self.bits
    }

    /// Whether the encoding holds no number.
    pub fn is_nan(&self) -> (r: bool)
        ensures
            r == self.nan(),
    {
        self.bits % SIGN_BIT > INFINITY_BITS
    }

    fn signed_magnitude(&self) -> (k: i64)
        ensures
            k == self.rank(),
    {
        let magnitude: i64 = (self.bits % SIGN_BIT) as i64;
        if self.bits >= SIGN_BIT {
            -magnitude
        } else {
            magnitude
        }
    }

    /// `self < other` as numbers.
    pub fn lt(&self, other: &Scalar) -> (r: bool)
        ensures
            r == self.below(*other),
    {
        proof {
            self.lemma_rank_orders(*other);
        }
        !self.is_nan() && !other.is_nan() && self.signed_magnitude() < other.signed_magnitude()
    }

    /// `self <= other` as numbers.
    pub fn le(&self, other: &Scalar) -> (r: bool)
        ensures
            r == self.at_most(*other),
    {
        proof {
            self.lemma_rank_orders(*other);
        }
        !self.is_nan() && !other.is_nan() && self.signed_magnitude() <= other.signed_magnitude()
    }

    /// `self == other` as numbers.
    pub fn same_as(&self, other: &Scalar) -> (r: bool)
        ensures
            r == self.same(*other),
    {
        proof {
            self.lemma_rank_orders(*other);
        }
        !self.is_nan() && !other.is_nan() && self.signed_magnitude() == other.signed_magnitude()
    }

    /// `self >= 0` as numbers.
    pub fn is_non_negative(&self) -> (r: bool)
        ensures
            r == self.non_negative(),
    {
        proof {
            lemma_size_positive(self.magnitude());
        }
        let magnitude: u32 = self.bits % SIGN_BIT;
        magnitude <= INFINITY_BITS && (self.bits < SIGN_BIT || magnitude == 0)
    }

    /// `self < 0` as numbers.
    pub fn is_negative(&self) -> (r: bool)
        ensures
            r == self.negative(),
    {
        proof {
            lemma_size_positive(self.magnitude());
        }
        let magnitude: u32 = self.bits % SIGN_BIT;
        magnitude <= INFINITY_BITS && self.bits >= SIGN_BIT && magnitude != 0
    }

    /// `self <= 0` as numbers.
    pub fn is_non_positive(&self) -> (r: bool)
        ensures
            r == self.non_positive(),
    {
        proof {
            lemma_size_positive(self.magnitude());
        }
        let magnitude: u32 = self.bits % SIGN_BIT;
        magnitude <= INFINITY_BITS && (self.bits >= SIGN_BIT || magnitude == 0)
    }
}

} // verus!
