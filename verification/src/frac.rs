//! Exact fractions: the number type of every coordinate in this crate.

use vstd::prelude::*;

verus! {

/// Mathematical value of an exact fraction: an unbounded integer numerator
/// over an unbounded integer denominator. `Frac` views to this type, and all
/// contracts in this crate speak of it.
pub struct FracV {
    pub num: int,
    pub den: int,
}

impl FracV {
    /// A fraction is well formed when its denominator is positive, so that it
    /// denotes one rational number and carries an unambiguous sign.
    pub open spec fn wf(self) -> bool {
        self.den > 0
    }

    /// The two fractions denote the same rational number (cross
    /// multiplication; meaningful when both are well formed).
    pub open spec fn eqv(self, other: FracV) -> bool {
        self.num * other.den == other.num * self.den
    }

    /// The exact sum of two fractions.
    pub open spec fn plus(self, other: FracV) -> FracV {
        FracV {
            num: self.num * other.den + other.num * self.den,
            den: self.den * other.den,
        }
    }

    /// The fraction denotes a number that is at most zero.
    pub open spec fn is_nonpositive(self) -> bool {
        self.num <= 0
    }

    /// The fraction denotes exactly zero.
    pub open spec fn is_zero(self) -> bool {
        self.num == 0
    }
}

/// An exact fraction, the executable counterpart of [`FracV`]. Keeping
/// coordinates as fractions instead of fixed-precision numbers makes every
/// geometric derivation in this crate exact: no rounding happens before text
/// serialization.
#[derive(Clone, Copy, Debug, PartialEq, Eq, Structural)]
pub struct Frac {
    pub num: i128,
    pub den: i128,
}

impl View for Frac {
    type V = FracV;

    open spec fn view(&self) -> FracV {
        FracV { num: self.num as int, den: self.den as int }
    }
}

impl Frac {
    /// Well-formedness of the executable fraction: positive denominator.
    pub open spec fn wf(self) -> bool {
        self@.wf()
    }

    /// Builds the fraction `num / den`.
    pub fn new(num: i128, den: i128) -> (r: Frac)
        requires
            den > 0,
        ensures
            r.num == num,
            r.den == den,
            r.wf(),
    {
        Frac { num, den }
    }
}

} // verus!
