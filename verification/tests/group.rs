//! The small group and the opening scheme on top of it.

use plonk_verifier::curve::CurveAffine;
use plonk_verifier::field::PrimeField;
use plonk_verifier::polycommit::{OpeningVerifier, Params};
use plonk_verifier::small::field::{Base, BaseModulus, Scalar};
use plonk_verifier::small::group::Point;
use plonk_verifier::small::opening::{Opening, Trapdoor};
use plonk_verifier::small::sponge::Sponge;
use plonk_verifier::transcript::{squeeze_challenge, Hasher};

type HBase = Sponge<BaseModulus>;

#[test]
fn points_are_residues() {
    assert_eq!(Point::new(65537).to_u64(), 0);
    assert_eq!(Point::new(65538).to_u64(), 1);
    assert_eq!(Point::new(65538), Point::new(1));
}

#[test]
fn addition_wraps() {
    assert_eq!(Point::new(65536).add(&Point::new(5)).to_u64(), 4);
    assert_eq!(Point::new(7).add(&Point::new(0)).to_u64(), 7);
}

#[test]
fn scaling_multiplies() {
    assert_eq!(Point::new(3).scale(&Scalar::new(5)).to_u64(), 15);
    assert_eq!(Point::new(65536).scale(&Scalar::new(65536)).to_u64(), 1);
    assert_eq!(Point::new(3).scale(&Scalar::zero()).to_u64(), 0);
    assert!(Point::new(3).scale(&Scalar::zero()).get_xy().is_none());
}

/// An opening of the polynomial `5 + 3 X` at the point 10, committed to at
/// the secret 4: the value is 35, the quotient by `X - 10` is the constant 3.
fn linear_opening(transcript: &HBase) -> (Trapdoor, Opening, Point) {
    let scheme = Trapdoor { secret: Scalar::new(4) };
    let mut copy = *transcript;
    let tag = squeeze_challenge::<Point, HBase>(&mut copy);
    (scheme, Opening { witness: Point::new(3), tag }, Point::new(5 + 3 * 4))
}

#[test]
fn true_opening_is_accepted() {
    let mut t = HBase::init(Base::new(8));
    let (scheme, opening, commitment) = linear_opening(&t);
    assert!(scheme.verify_opening(&opening, &mut t, Scalar::new(10), &commitment, Scalar::new(35)));
}

#[test]
fn opening_continues_the_transcript() {
    let mut t = HBase::init(Base::new(8));
    let (scheme, opening, commitment) = linear_opening(&t);
    let before = t.state();
    scheme.verify_opening(&opening, &mut t, Scalar::new(10), &commitment, Scalar::new(35));
    assert_ne!(t.state(), before);
    // The same opening on a transcript that has moved on is refused.
    assert!(!scheme.verify_opening(&opening, &mut t, Scalar::new(10), &commitment, Scalar::new(35)));
}

#[test]
fn false_openings_are_refused() {
    let start = HBase::init(Base::new(8));
    let (scheme, opening, commitment) = linear_opening(&start);

    let mut t = start;
    assert!(!scheme.verify_opening(&opening, &mut t, Scalar::new(10), &commitment, Scalar::new(36)));
    let mut t = start;
    assert!(!scheme.verify_opening(&opening, &mut t, Scalar::new(11), &commitment, Scalar::new(35)));
    let mut t = start;
    assert!(!scheme.verify_opening(
        &opening,
        &mut t,
        Scalar::new(10),
        &commitment.add(&Point::new(1)),
        Scalar::new(35)
    ));
    let mut t = start;
    let other = Opening { witness: Point::new(4), tag: opening.tag };
    assert!(!scheme.verify_opening(&other, &mut t, Scalar::new(10), &commitment, Scalar::new(35)));
    let mut t = start;
    let other = Opening { witness: opening.witness, tag: opening.tag.add(&Scalar::one()) };
    assert!(!scheme.verify_opening(&other, &mut t, Scalar::new(10), &commitment, Scalar::new(35)));
}

#[test]
fn params_hand_the_opening_to_their_scheme() {
    let start = HBase::init(Base::new(8));
    let (scheme, opening, commitment) = linear_opening(&start);
    let params = Params { n: 4, scheme };
    let mut t = start;
    assert!(params.verify_proof(&opening, &mut t, Scalar::new(10), &commitment, Scalar::new(35)));
    let mut t = start;
    assert!(!params.verify_proof(&opening, &mut t, Scalar::new(10), &commitment, Scalar::new(34)));
}
