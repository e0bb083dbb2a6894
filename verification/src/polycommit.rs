//! The polynomial commitment scheme, as far as the verifier needs it: the
//! global parameters and the check of one opening.

use crate::curve::CurveAffine;
use crate::field::PrimeField;
use crate::transcript::Hasher;
use vstd::prelude::*;

verus! {

/// A polynomial commitment scheme, as far as it shapes a proof.
pub trait OpeningScheme<C: CurveAffine>: Sized {
    /// The opening proof, opaque to the verifier.
    type Opening;
}

/// A scheme that can check the opening of one commitment at one point, on
/// top of a transcript of the type `H`.
///
/// The check continues the Fiat-Shamir chain of the caller: it reads the
/// transcript that the caller hands over and may draw further challenges from
/// it. Its answer is a function of the opening proof, the transcript and the
/// claim; `accepts` names it.
pub trait OpeningVerifier<C: CurveAffine, H: Hasher<C::Base>>: OpeningScheme<C> {
    /// The check accepts the claim that the polynomial committed to by
    /// `commitment` has the value `eval` at `point`.
    spec fn accepts(
        &self,
        opening: &Self::Opening,
        transcript: H,
        point: int,
        commitment: C,
        eval: int,
    ) -> bool;

    fn verify_opening(
        &self,
        opening: &Self::Opening,
        transcript: &mut H,
        point: C::Scalar,
        commitment: &C,
        eval: C::Scalar,
    ) -> (ok: bool)
        ensures
            ok == self.accepts(
                opening,
                *old(transcript),
                point.value(),
                *commitment,
                eval.value(),
            ),
    ;
}

/// The global parameters of the proof system.
pub struct Params<S> {
    /// The size of the evaluation domain.
    pub n: u64,
    /// The commitment scheme that openings are checked with.
    pub scheme: S,
}

impl<S> Params<S> {
    /// Checks one opening with the scheme of these parameters.
    pub fn verify_proof<C: CurveAffine, H: Hasher<C::Base>>(
        &self,
        opening: &S::Opening,
        transcript: &mut H,
        point: C::Scalar,
        commitment: &C,
        eval: C::Scalar,
    ) -> (ok: bool) where S: OpeningVerifier<C, H>
        ensures
            ok == self.scheme.accepts(
                opening,
                *old(transcript),
                point.value(),
                *commitment,
                eval.value(),
            ),
    {
        self.scheme.verify_opening(opening, transcript, point, commitment, eval)
    }
}

} // verus!
