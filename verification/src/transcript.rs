//! The Fiat-Shamir transcripts and the challenges drawn from them.
//!
//! Two transcripts run side by side: one over the base field, which absorbs
//! commitments and yields every challenge, and one over the scalar field,
//! which absorbs evaluations. At fixed points the scalar transcript is
//! squeezed and its output is absorbed into the base transcript.

use crate::curve::CurveAffine;
use crate::error::Malformed;
use crate::field::{two_pow_128, values, PrimeField};
use vstd::prelude::*;

verus! {

/// A sponge over the field `F`.
///
/// The state after an operation, and the element squeezed, are functions of
/// the state before it; the three specification functions name them.
pub trait Hasher<F: PrimeField>: Sized {
    /// The state of a fresh sponge keyed by `key`.
    spec fn initial(key: int) -> Self;

    /// The state after absorbing `value`.
    spec fn absorbed(self, value: int) -> Self;

    /// The state after a squeeze, and the representative squeezed.
    spec fn squeezed(self) -> (Self, int);

    fn init(key: F) -> (t: Self)
        ensures
            t == Self::initial(key.value()),
    ;

    fn absorb(&mut self, value: F)
        ensures
            *final(self) == old(self).absorbed(value.value()),
    ;

    fn squeeze(&mut self) -> (out: F)
        ensures
            (*final(self), out.value()) == old(self).squeezed(),
    ;
}

/// The low 128 bits of a squeezed base-field element.
pub struct Challenge(pub u128);

/// The scalar that the 128-bit integer `c` stands for: its residue.
pub open spec fn challenge_scalar(c: int, r: int) -> int {
    c % r
}

/// The state after absorbing both coordinates of `point`, `None` for the
/// identity.
pub open spec fn absorb_point<C: CurveAffine, H: Hasher<C::Base>>(t: H, point: C) -> Option<H> {
    if point.at_infinity() {
        None
    } else {
        Some(t.absorbed(point.coordinates().0).absorbed(point.coordinates().1))
    }
}

/// The state after absorbing `points` in order, `None` where one of them is
/// the identity.
pub open spec fn absorb_points<C: CurveAffine, H: Hasher<C::Base>>(t: H, points: Seq<C>) -> Option<
    H,
>
    decreases points.len(),
{
    if points.len() == 0 {
        Some(t)
    } else {
        match absorb_points(t, points.drop_last()) {
            None => None,
            Some(u) => absorb_point(u, points.last()),
        }
    }
}

/// The state after absorbing `values` in order.
pub open spec fn absorb_values<F: PrimeField, H: Hasher<F>>(t: H, values: Seq<int>) -> H
    decreases values.len(),
{
    if values.len() == 0 {
        t
    } else {
        absorb_values::<F, H>(t, values.drop_last()).absorbed(values.last())
    }
}

/// The state after drawing a challenge, and the challenge: the low 128 bits
/// of the squeezed element, reduced into the scalar field.
pub open spec fn draw_challenge<C: CurveAffine, H: Hasher<C::Base>>(t: H) -> (H, int) {
    (t.squeezed().0, challenge_scalar(t.squeezed().1 % two_pow_128(), C::Scalar::modulus()))
}

/// The base-field element with the representative of a scalar, where the
/// two canonical encodings agree on it.
pub open spec fn base_of_scalar<C: CurveAffine>(s: int) -> Option<int> {
    if C::Scalar::byte_len() == C::Base::byte_len() && s < C::Base::modulus() {
        Some(s)
    } else {
        None
    }
}

/// The base transcript after the scalar transcript `ts` was squeezed into
/// it, and the scalar transcript after that squeeze.
pub open spec fn synchronize<C: CurveAffine, HB: Hasher<C::Base>, HS: Hasher<C::Scalar>>(
    tb: HB,
    ts: HS,
) -> Option<(HB, HS)> {
    match base_of_scalar::<C>(ts.squeezed().1) {
        None => None,
        Some(b) => Some((tb.absorbed(b), ts.squeezed().0)),
    }
}

/// Maps a 128-bit challenge into the field by reduction.
pub fn get_challenge_scalar<F: PrimeField>(challenge: Challenge) -> (r: F)
    ensures
        r.value() == challenge_scalar(challenge.0 as int, F::modulus()),
{
    F::from_u128(challenge.0)
}

/// Absorbs the coordinates of a commitment; the identity is refused and
/// leaves the transcript as it was.
pub fn hash_point<C: CurveAffine, H: Hasher<C::Base>>(transcript: &mut H, point: &C) -> (r: Result<
    (),
    Malformed,
>)
    ensures
        match absorb_point(*old(transcript), *point) {
            None => r == Err::<(), Malformed>(Malformed::IdentityPoint) && *final(transcript)
                == *old(transcript),
            Some(t) => r is Ok && *final(transcript) == t,
        },
{
    match point.get_xy() {
        None => Err(Malformed::IdentityPoint),
        Some(xy) => {
            transcript.absorb(xy.0);
            transcript.absorb(xy.1);
            Ok(())
        },
    }
}

/// Absorbs commitments in order and stops at the first identity.
pub fn hash_points<C: CurveAffine, H: Hasher<C::Base>>(transcript: &mut H, points: &Vec<C>) -> (r:
    Result<(), Malformed>)
    ensures
        match absorb_points(*old(transcript), points@) {
            None => r == Err::<(), Malformed>(Malformed::IdentityPoint),
            Some(t) => r is Ok && *final(transcript) == t,
        },
{
    let mut i: usize = 0;
    while i < points.len()
        invariant
            i <= points.len(),
            absorb_points(*old(transcript), points@.take(i as int)) == Some(*transcript),
        decreases points.len() - i,
    {
        proof {
            assert(points@.take(i + 1).drop_last() == points@.take(i as int));
        }
        match hash_point(transcript, &points[i]) {
            Err(e) => {
                proof {
                    lemma_absorb_points_prefix(*old(transcript), points@, i + 1);
                }
                return Err(e);
            },
            Ok(_) => {},
        }
        i += 1;
    }
    proof {
        assert(points@.take(i as int) == points@);
    }
    Ok(())
}

/// A failure on a prefix is a failure on the whole sequence.
pub proof fn lemma_absorb_points_prefix<C: CurveAffine, H: Hasher<C::Base>>(
    t: H,
    points: Seq<C>,
    k: int,
)
    requires
        0 <= k <= points.len(),
        absorb_points(t, points.take(k)) is None,
    ensures
        absorb_points(t, points) is None,
    decreases points.len() - k,
{
    if k < points.len() {
        assert(points.take(k + 1).drop_last() == points.take(k));
        lemma_absorb_points_prefix(t, points, k + 1);
    } else {
        assert(points.take(k) == points);
    }
}

/// Absorbs evaluations in order.
pub fn absorb_all<F: PrimeField, H: Hasher<F>>(transcript: &mut H, elems: &Vec<F>)
    ensures
        *final(transcript) == absorb_values::<F, H>(*old(transcript), values(elems@)),
{
    let mut i: usize = 0;
    while i < elems.len()
        invariant
            i <= elems.len(),
            *transcript == absorb_values::<F, H>(*old(transcript), values(elems@.take(i as int))),
        decreases elems.len() - i,
    {
        proof {
            assert(values(elems@.take(i + 1)).drop_last() == values(elems@.take(i as int)));
        }
        transcript.absorb(elems[i]);
        i += 1;
    }
    proof {
        assert(elems@.take(i as int) == elems@);
    }
}

/// Draws the next challenge from the base transcript.
pub fn squeeze_challenge<C: CurveAffine, H: Hasher<C::Base>>(transcript: &mut H) -> (x: C::Scalar)
    ensures
        (*final(transcript), x.value()) == draw_challenge::<C, H>(*old(transcript)),
{
    let out = transcript.squeeze();
    get_challenge_scalar(Challenge(out.get_lower_128()))
}

/// Reinterprets a scalar as a base-field element through its canonical
/// encoding.
pub fn scalar_to_base<C: CurveAffine>(s: &C::Scalar) -> (r: Result<C::Base, Malformed>)
    ensures
        match base_of_scalar::<C>(s.value()) {
            None => r == Err::<C::Base, Malformed>(Malformed::InvalidEncoding),
            Some(b) => r is Ok && r->Ok_0.value() == b,
        },
{
    let bytes = s.to_bytes();
    match C::Base::from_bytes(&bytes) {
        None => Err(Malformed::InvalidEncoding),
        Some(b) => Ok(b),
    }
}

/// Squeezes the scalar transcript and absorbs the output into the base
/// transcript. On failure the base transcript is left as it was.
pub fn cross_absorb<C: CurveAffine, HB: Hasher<C::Base>, HS: Hasher<C::Scalar>>(
    base: &mut HB,
    scalar: &mut HS,
) -> (r: Result<(), Malformed>)
    ensures
        *final(scalar) == old(scalar).squeezed().0,
        match synchronize::<C, HB, HS>(*old(base), *old(scalar)) {
            None => r == Err::<(), Malformed>(Malformed::InvalidEncoding) && *final(base) == *old(
                base,
            ),
            Some(st) => r is Ok && *final(base) == st.0 && *final(scalar) == st.1,
        },
{
    let out = scalar.squeeze();
    match scalar_to_base::<C>(&out) {
        Err(e) => Err(e),
        Ok(b) => {
            base.absorb(b);
            Ok(())
        },
    }
}

} // verus!
