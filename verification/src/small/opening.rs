//! An opening scheme with a known trapdoor.
//!
//! A polynomial is committed to by its value at a secret point, taken as a
//! group element. Who knows the secret can check an opening by one
//! multiplication.

use crate::curve::CurveAffine;
use crate::field::{mul_mod, sub_mod, PrimeField};
use crate::polycommit::{OpeningScheme, OpeningVerifier};
use crate::small::field::Scalar;
use crate::small::group::Point;
use crate::transcript::{draw_challenge, squeeze_challenge, Hasher};
use vstd::arithmetic::div_mod::lemma_small_mod;
use vstd::prelude::*;

verus! {

/// The scheme: the secret point at which polynomials are committed to.
pub struct Trapdoor {
    pub secret: Scalar,
}

/// An opening proof: the commitment to the quotient of the opened polynomial
/// less the claimed value by the linear factor of the point, and the
/// challenge that the transcript yields next.
pub struct Opening {
    pub witness: Point,
    pub tag: Scalar,
}

impl OpeningScheme<Point> for Trapdoor {
    type Opening = Opening;
}

impl<H: Hasher<<Point as CurveAffine>::Base>> OpeningVerifier<Point, H> for Trapdoor {
    /// The commitment less the claimed value is the witness times the
    /// difference of the secret and the point, and the tag is the next
    /// challenge of the transcript.
    open spec fn accepts(
        &self,
        opening: &Opening,
        transcript: H,
        point: int,
        commitment: Point,
        eval: int,
    ) -> bool {
        &&& sub_mod(commitment.residue(), eval, 65537) == mul_mod(
            sub_mod(self.secret.value(), point, 65537),
            opening.witness.residue(),
            65537,
        )
        &&& opening.tag.value() == draw_challenge::<Point, H>(transcript).1
    }

    fn verify_opening(
        &self,
        opening: &Opening,
        transcript: &mut H,
        point: Scalar,
        commitment: &Point,
        eval: Scalar,
    ) -> (ok: bool) {
        let next = squeeze_challenge::<Point, H>(transcript);
        let lhs = Scalar::new(commitment.to_u64()).sub(&eval);
        let rhs = self.secret.sub(&point).mul(&Scalar::new(opening.witness.to_u64()));
        proof {
            lemma_small_mod(commitment.residue() as nat, 65537);
            lemma_small_mod(opening.witness.residue() as nat, 65537);
        }
        lhs.is_equal(&rhs) && opening.tag.is_equal(&next)
    }
}

} // verus!
