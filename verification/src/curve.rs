//! The interface of the commitment group.

use crate::field::PrimeField;
use vstd::prelude::*;

verus! {

/// A point of a prime-order curve in affine form.
///
/// The group structure is given by the two specification functions `sum` and
/// `scaled`; the executable operations compute exactly these.
pub trait CurveAffine: Sized + Copy {
    /// The field of scalars, of the order of the group.
    type Scalar: PrimeField;

    /// The field of coordinates.
    type Base: PrimeField;

    /// The point is the identity, the point at infinity.
    spec fn at_infinity(&self) -> bool;

    /// The representatives of the two coordinates of a finite point.
    spec fn coordinates(&self) -> (int, int);

    /// The group operation.
    spec fn sum(self, other: Self) -> Self;

    /// The multiple of a point by the scalar with representative `k`.
    spec fn scaled(self, k: int) -> Self;

    /// The coordinates, `None` exactly for the identity.
    fn get_xy(&self) -> (r: Option<(Self::Base, Self::Base)>)
        ensures
            r is None <==> self.at_infinity(),
            r matches Some(xy) ==> (xy.0.value(), xy.1.value()) == self.coordinates(),
    ;

    fn add(&self, other: &Self) -> (r: Self)
        ensures
            r == self.sum(*other),
    ;

    fn scale(&self, k: &Self::Scalar) -> (r: Self)
        ensures
            r == self.scaled(k.value()),
    ;
}

} // verus!
