//! The additive group of the integers modulo 65537, in the role of the
//! curve.

use crate::curve::CurveAffine;
use crate::small::field::{Base, Scalar};
use vstd::prelude::*;

verus! {

/// An element of the group: a residue modulo 65537. The identity is zero
/// and the multiple of an element by a scalar is their product.
#[derive(Clone, Copy, Debug, PartialEq, Eq)]
pub struct Point {
    /// A representative of the residue.
    pub g: u64,
}

impl Point {
    /// The residue that the element is.
    pub open spec fn residue(&self) -> int {
        (self.g as int) % 65537
    }

    /// The element of the residue class of `g`, held by its least
    /// representative.
    pub fn new(g: u64) -> (r: Self)
        ensures
            r.g == g % 65537,
    {
        Point { g: g % 65537 }
    }

    /// The residue that the element is.
    pub fn to_u64(&self) -> (r: u64)
        ensures
            r == self.residue(),
    {
        self.g % 65537
    }
}

impl CurveAffine for Point {
    type Scalar = Scalar;

    type Base = Base;

    open spec fn at_infinity(&self) -> bool {
        self.residue() == 0
    }

    /// The residue, split by the order of the field of coordinates.
    open spec fn coordinates(&self) -> (int, int) {
        (self.residue() % 65521, self.residue() / 65521)
    }

    open spec fn sum(self, other: Self) -> Self {
        Point { g: ((self.residue() + other.residue()) % 65537) as u64 }
    }

    open spec fn scaled(self, k: int) -> Self {
        Point { g: ((self.residue() * k) % 65537) as u64 }
    }

    fn get_xy(&self) -> (r: Option<(Base, Base)>) {
        let g = self.to_u64();
        if g == 0 {
            None
        } else {
            Some((Base::new(g % 65521), Base::new(g / 65521)))
        }
    }

    fn add(&self, other: &Self) -> (r: Self) {
        Point { g: (self.to_u64() + other.to_u64()) % 65537 }
    }

    fn scale(&self, k: &Scalar) -> (r: Self) {
        let a = self.to_u64();
        let b = k.to_u64();
        proof {
            assert(a * b < 0x100_0000 * 0x100_0000) by (nonlinear_arith)
                requires
                    a < 0x100_0000,
                    b < 0x100_0000,
            ;
        }
        Point { g: (a * b) % 65537 }
    }
}

} // verus!
