//! Whole verifications over the small instantiation, against proofs made by
//! a prover written out here.

use plonk_verifier::circuit::{
    AdviceWire, EvaluationDomain, Expression, FixedWire, MetaData, Rotation, SRS,
};
use plonk_verifier::curve::CurveAffine;
use plonk_verifier::error::Malformed;
use plonk_verifier::field::PrimeField;
use plonk_verifier::plonk::Proof;
use plonk_verifier::polycommit::Params;
use plonk_verifier::small::field::{Base, BaseModulus, Scalar, ScalarModulus};
use plonk_verifier::small::group::Point;
use plonk_verifier::small::opening::{Opening, Trapdoor};
use plonk_verifier::small::sponge::Sponge;
use plonk_verifier::transcript::{
    absorb_all, cross_absorb, hash_point, hash_points, squeeze_challenge, Hasher,
};

type HBase = Sponge<BaseModulus>;
type HScalar = Sponge<ScalarModulus>;
type SmallProof = Proof<Point, Trapdoor>;

const R: u64 = 65537;
const N: usize = 4;
const SECRET: u64 = 12345;

fn fadd(a: u64, b: u64) -> u64 {
    (a + b) % R
}

fn fsub(a: u64, b: u64) -> u64 {
    (a + R - b % R) % R
}

fn fmul(a: u64, b: u64) -> u64 {
    (a % R) * (b % R) % R
}

fn fpow(a: u64, e: u64) -> u64 {
    let mut r = 1;
    let mut base = a % R;
    let mut e = e;
    while e > 0 {
        if e & 1 == 1 {
            r = fmul(r, base);
        }
        base = fmul(base, base);
        e >>= 1;
    }
    r
}

fn finv(a: u64) -> u64 {
    fpow(a, R - 2)
}

fn omega() -> u64 {
    // 3 generates the units modulo 65537.
    fpow(3, (R - 1) / N as u64)
}

fn eval(p: &[u64], x: u64) -> u64 {
    p.iter().rev().fold(0, |acc, c| fadd(fmul(acc, x), *c))
}

fn padd(a: &[u64], b: &[u64]) -> Vec<u64> {
    let len = a.len().max(b.len());
    (0..len)
        .map(|i| fadd(*a.get(i).unwrap_or(&0), *b.get(i).unwrap_or(&0)))
        .collect()
}

fn pscale(a: &[u64], k: u64) -> Vec<u64> {
    a.iter().map(|c| fmul(*c, k)).collect()
}

fn psub(a: &[u64], b: &[u64]) -> Vec<u64> {
    padd(a, &pscale(b, R - 1))
}

fn pmul(a: &[u64], b: &[u64]) -> Vec<u64> {
    let mut r = vec![0; a.len() + b.len() - 1];
    for (i, x) in a.iter().enumerate() {
        for (j, y) in b.iter().enumerate() {
            r[i + j] = fadd(r[i + j], fmul(*x, *y));
        }
    }
    r
}

/// The polynomial `X -> a(w X)`.
fn protate(a: &[u64], w: u64) -> Vec<u64> {
    a.iter()
        .enumerate()
        .map(|(i, c)| fmul(*c, fpow(w, i as u64)))
        .collect()
}

/// The polynomial of degree below `N` with the given values on the domain.
fn interpolate(values: &[u64; N]) -> Vec<u64> {
    let w_inv = finv(omega());
    let n_inv = finv(N as u64);
    (0..N)
        .map(|j| {
            let sum = (0..N).fold(0, |acc, i| {
                fadd(acc, fmul(values[i], fpow(w_inv, (i * j) as u64)))
            });
            fmul(sum, n_inv)
        })
        .collect()
}

/// The quotient by `X^N - 1`, where the division leaves no remainder.
fn div_by_vanishing(p: &[u64]) -> Option<Vec<u64>> {
    let mut r = p.to_vec();
    let mut q = vec![0; p.len() - N];
    for i in (N..p.len()).rev() {
        q[i - N] = r[i];
        r[i - N] = fadd(r[i - N], r[i]);
        r[i] = 0;
    }
    if r.iter().all(|c| *c == 0) {
        Some(q)
    } else {
        None
    }
}

/// The quotient polynomial of the two gates, combined with `x_2`, for the
/// advice polynomial `a`; `None` where the gates do not vanish on the domain.
fn quotient(a: &[u64], x_2: u64) -> Option<Vec<u64>> {
    let q = selector();
    let first = pmul(&q, &psub(&protate(a, omega()), &pmul(a, a)));
    let second = psub(&pmul(&q, &q), &q);
    div_by_vanishing(&padd(&pscale(&first, x_2), &second))
}

/// The quotient of `p - p(c)` by `X - c`.
fn div_by_linear(p: &[u64], c: u64) -> Vec<u64> {
    let mut q = vec![0; p.len() - 1];
    let mut carry = 0;
    for i in (1..p.len()).rev() {
        carry = fadd(p[i], fmul(carry, c));
        q[i - 1] = carry;
    }
    q
}

fn commit(p: &[u64]) -> Point {
    Point::new(eval(p, SECRET))
}

fn scalars(values: &[u64]) -> Vec<Scalar> {
    values.iter().map(|v| Scalar::new(*v)).collect()
}

fn minus_one() -> Scalar {
    Scalar::new(R - 1)
}

/// Two gates over one advice wire `a` and one fixed wire `q`:
/// `q * (a(wX) - a(X)^2)` and `q * q - q`.
fn gates() -> Vec<Expression<Scalar>> {
    let square = Expression::Product(
        Box::new(Expression::Advice(0)),
        Box::new(Expression::Advice(0)),
    );
    let step = Expression::Sum(
        Box::new(Expression::Advice(1)),
        Box::new(Expression::Scaled(Box::new(square), minus_one())),
    );
    let first = Expression::Product(Box::new(Expression::Fixed(0)), Box::new(step));
    let second = Expression::Sum(
        Box::new(Expression::Product(
            Box::new(Expression::Fixed(0)),
            Box::new(Expression::Fixed(0)),
        )),
        Box::new(Expression::Scaled(
            Box::new(Expression::Fixed(0)),
            minus_one(),
        )),
    );
    vec![first, second]
}

fn selector() -> Vec<u64> {
    interpolate(&[1, 1, 1, 0])
}

fn setup() -> (Params<Trapdoor>, SRS<Point>) {
    let params = Params { n: N as u64, scheme: Trapdoor { secret: Scalar::new(SECRET) } };
    let srs = SRS {
        domain: EvaluationDomain {
            n: N as u64,
            omega: Scalar::new(omega()),
            omega_inv: Scalar::new(finv(omega())),
        },
        fixed_commitments: vec![commit(&selector())],
        meta: MetaData {
            gates: gates(),
            advice_queries: vec![
                (AdviceWire(0), Rotation(0)),
                (AdviceWire(0), Rotation(1)),
            ],
            fixed_queries: vec![(FixedWire(0), Rotation(0))],
            query_rows: vec![Rotation(0), Rotation(1)],
        },
    };
    (params, srs)
}

struct Drawn {
    x_2: u64,
    x_3: u64,
    x_4: u64,
    x_5: u64,
    x_6: u64,
    x_7: u64,
}

/// Proves that the advice wire holds the given values on the domain.
fn prove(advice: &[u64; N]) -> (SmallProof, Drawn) {
    let w = omega();
    let a = interpolate(advice);
    let q = selector();

    let mut transcript = HBase::init(Base::one());
    let advice_commitments = vec![commit(&a)];
    hash_points(&mut transcript, &advice_commitments).unwrap();
    let x_2 = squeeze_challenge::<Point, HBase>(&mut transcript).to_u64();

    let h = quotient(&a, x_2).expect("the gates vanish on the domain");
    let h_0 = h[..N].to_vec();
    let h_1 = h[N..].to_vec();
    let h_commitments = vec![commit(&h_0), commit(&h_1)];
    hash_points(&mut transcript, &h_commitments).unwrap();
    let x_3 = squeeze_challenge::<Point, HBase>(&mut transcript).to_u64();

    let advice_evals_x = scalars(&[eval(&a, x_3), eval(&a, fmul(x_3, w))]);
    let fixed_evals_x = scalars(&[eval(&q, x_3)]);
    let h_evals_x = scalars(&[eval(&h_0, x_3), eval(&h_1, x_3)]);
    let mut transcript_scalar = HScalar::init(Scalar::one());
    absorb_all(&mut transcript_scalar, &advice_evals_x);
    absorb_all(&mut transcript_scalar, &fixed_evals_x);
    absorb_all(&mut transcript_scalar, &h_evals_x);
    cross_absorb::<Point, HBase, HScalar>(&mut transcript, &mut transcript_scalar).unwrap();
    let x_4 = squeeze_challenge::<Point, HBase>(&mut transcript).to_u64();
    let x_5 = squeeze_challenge::<Point, HBase>(&mut transcript).to_u64();

    // The polynomial of each query row, and its point.
    let mut row_0 = a.clone();
    for p in [&q, &h_0, &h_1] {
        row_0 = padd(&pscale(&row_0, x_4), p);
    }
    let row_1 = a.clone();
    let rows = [(row_0, x_3), (row_1, fmul(x_3, w))];

    let mut f = vec![0];
    for (poly, point) in rows.iter() {
        f = padd(&pscale(&f, x_5), &div_by_linear(poly, *point));
    }
    let f_commitment = commit(&f);
    hash_point(&mut transcript, &f_commitment).unwrap();
    let x_6 = squeeze_challenge::<Point, HBase>(&mut transcript).to_u64();

    let q_evals = scalars(&[eval(&rows[0].0, x_6), eval(&rows[1].0, x_6)]);
    absorb_all(&mut transcript_scalar, &q_evals);
    cross_absorb::<Point, HBase, HScalar>(&mut transcript, &mut transcript_scalar).unwrap();
    let x_7 = squeeze_challenge::<Point, HBase>(&mut transcript).to_u64();

    let mut last = f.clone();
    for (poly, _) in rows.iter() {
        last = padd(&pscale(&last, x_7), poly);
    }
    let witness = commit(&div_by_linear(&last, x_6));
    let tag = squeeze_challenge::<Point, HBase>(&mut transcript);

    let proof = Proof {
        advice_commitments,
        h_commitments,
        advice_evals_x,
        fixed_evals_x,
        h_evals_x,
        q_evals,
        f_commitment,
        opening: Opening { witness, tag },
    };
    (proof, Drawn { x_2, x_3, x_4, x_5, x_6, x_7 })
}

const WITNESS: [u64; N] = [2, 4, 16, 256];

fn run(proof: &SmallProof, params: &Params<Trapdoor>, srs: &SRS<Point>) -> Result<bool, Malformed> {
    proof.verify::<HBase, HScalar>(params, srs)
}

#[test]
fn honest_proof_is_accepted() {
    let (params, srs) = setup();
    let (proof, _) = prove(&WITNESS);
    assert_eq!(run(&proof, &params, &srs), Ok(true));
}

#[test]
fn other_satisfying_witnesses_are_accepted() {
    let (params, srs) = setup();
    // The constant wires 0 and 1 are left out: their polynomials, or a chunk of
    // their quotient, are zero and would commit to the identity.
    for first in [3u64, 5, 256, 4097, 65535, 65536] {
        let second = fmul(first, first);
        let third = fmul(second, second);
        let (proof, _) = prove(&[first, second, third, fmul(third, third)]);
        assert_eq!(run(&proof, &params, &srs), Ok(true), "witness starting at {}", first);
    }
}

#[test]
fn unsatisfied_circuit_has_no_quotient() {
    // 5 is not the square of 2: the gates do not vanish on the domain.
    assert!(quotient(&interpolate(&[2, 5, 25, 625]), 11).is_none());
    // The last row is not constrained by the next one.
    assert!(quotient(&interpolate(&[7, 49, 2401, fmul(2401, 2401)]), 11).is_some());
    assert!(quotient(&interpolate(&[2, 4, 16, 7]), 11).is_none());
    assert!(quotient(&interpolate(&WITNESS), 11).is_some());
}

#[test]
fn challenges_are_those_of_the_prover() {
    let (params, srs) = setup();
    let (proof, drawn) = prove(&WITNESS);
    let c = proof.challenges::<HBase, HScalar>(&params, &srs).unwrap();
    assert_eq!(c.x_2.to_u64(), drawn.x_2);
    assert_eq!(c.x_3.to_u64(), drawn.x_3);
    assert_eq!(c.x_4.to_u64(), drawn.x_4);
    assert_eq!(c.x_5.to_u64(), drawn.x_5);
    assert_eq!(c.x_6.to_u64(), drawn.x_6);
    assert_eq!(c.x_7.to_u64(), drawn.x_7);
}

#[test]
fn challenges_are_deterministic() {
    let (params, srs) = setup();
    let (proof, _) = prove(&WITNESS);
    let first = proof.challenges::<HBase, HScalar>(&params, &srs).unwrap();
    let second = proof.challenges::<HBase, HScalar>(&params, &srs).unwrap();
    let (again, _) = prove(&WITNESS);
    let third = again.challenges::<HBase, HScalar>(&params, &srs).unwrap();
    for other in [&second, &third] {
        assert_eq!(first.x_2.to_u64(), other.x_2.to_u64());
        assert_eq!(first.x_3.to_u64(), other.x_3.to_u64());
        assert_eq!(first.x_4.to_u64(), other.x_4.to_u64());
        assert_eq!(first.x_5.to_u64(), other.x_5.to_u64());
        assert_eq!(first.x_6.to_u64(), other.x_6.to_u64());
        assert_eq!(first.x_7.to_u64(), other.x_7.to_u64());
    }
    assert_eq!(run(&proof, &params, &srs), run(&again, &params, &srs));
}

#[test]
fn challenges_depend_on_the_proof() {
    let (params, srs) = setup();
    let (proof, _) = prove(&WITNESS);
    let (other, _) = prove(&[3, 9, 81, 6561]);
    let a = proof.challenges::<HBase, HScalar>(&params, &srs).unwrap();
    let b = other.challenges::<HBase, HScalar>(&params, &srs).unwrap();
    assert_ne!(a.x_2.to_u64(), b.x_2.to_u64());
}

/// Every proof that differs from the honest one in one bit of one value.
fn tampered() -> Vec<(String, SmallProof)> {
    let mut all = Vec::new();
    for bit in 0..17u32 {
        let flip = |v: u64| v ^ (1u64 << bit);
        let flip_point = |p: &mut Point| *p = Point::new(flip(p.to_u64()));
        let flip_scalar = |s: &mut Scalar| *s = Scalar::new(flip(s.to_u64()));
        for which in 0..13usize {
            let (mut proof, _) = prove(&WITNESS);
            let name = match which {
                0 => {
                    flip_point(&mut proof.advice_commitments[0]);
                    "advice commitment"
                }
                1 => {
                    flip_point(&mut proof.h_commitments[0]);
                    "first quotient commitment"
                }
                2 => {
                    flip_point(&mut proof.h_commitments[1]);
                    "second quotient commitment"
                }
                3 => {
                    flip_point(&mut proof.f_commitment);
                    "aggregation commitment"
                }
                4 => {
                    flip_scalar(&mut proof.advice_evals_x[0]);
                    "first advice evaluation"
                }
                5 => {
                    flip_scalar(&mut proof.advice_evals_x[1]);
                    "second advice evaluation"
                }
                6 => {
                    flip_scalar(&mut proof.fixed_evals_x[0]);
                    "fixed evaluation"
                }
                7 => {
                    flip_scalar(&mut proof.h_evals_x[0]);
                    "first quotient evaluation"
                }
                8 => {
                    flip_scalar(&mut proof.h_evals_x[1]);
                    "second quotient evaluation"
                }
                9 => {
                    flip_scalar(&mut proof.q_evals[0]);
                    "first row evaluation"
                }
                10 => {
                    flip_scalar(&mut proof.q_evals[1]);
                    "second row evaluation"
                }
                11 => {
                    flip_point(&mut proof.opening.witness);
                    "opening witness"
                }
                _ => {
                    flip_scalar(&mut proof.opening.tag);
                    "opening tag"
                }
            };
            all.push((format!("{} bit {}", name, bit), proof));
        }
    }
    all
}

#[test]
fn no_tampered_proof_is_accepted() {
    let (params, srs) = setup();
    let mut rejected = 0;
    let all = tampered();
    assert_eq!(all.len(), 17 * 13);
    for (name, proof) in all.iter() {
        let outcome = run(proof, &params, &srs);
        assert_ne!(outcome, Ok(true), "{}", name);
        if outcome == Ok(false) {
            rejected += 1;
        }
    }
    // Nearly all of them are well formed and plainly wrong.
    assert!(rejected >= 17 * 13 - 8, "only {} rejections", rejected);
}

#[test]
fn tampered_evaluation_fails_the_identity() {
    let (params, srs) = setup();
    let (mut proof, _) = prove(&WITNESS);
    proof.h_evals_x[0] = proof.h_evals_x[0].add(&Scalar::one());
    assert_eq!(run(&proof, &params, &srs), Ok(false));
}

#[test]
fn tampered_opening_fails_the_opening() {
    let (params, srs) = setup();
    let (mut proof, _) = prove(&WITNESS);
    proof.opening.witness = proof.opening.witness.add(&Point::new(1));
    assert_eq!(run(&proof, &params, &srs), Ok(false));
    let (mut proof, _) = prove(&WITNESS);
    proof.opening.tag = proof.opening.tag.add(&Scalar::one());
    assert_eq!(run(&proof, &params, &srs), Ok(false));
}

#[test]
fn wrong_secret_rejects() {
    let (mut params, srs) = setup();
    params.scheme.secret = Scalar::new(SECRET + 1);
    let (proof, _) = prove(&WITNESS);
    assert_eq!(run(&proof, &params, &srs), Ok(false));
}

#[test]
fn domain_size_mismatch_is_malformed() {
    let (mut params, srs) = setup();
    params.n = 8;
    let (proof, _) = prove(&WITNESS);
    assert_eq!(run(&proof, &params, &srs), Err(Malformed::DomainMismatch));
    assert!(matches!(
        proof.challenges::<HBase, HScalar>(&params, &srs),
        Err(Malformed::DomainMismatch)
    ));
}

#[test]
fn domain_mismatch_comes_before_everything_else() {
    let (mut params, mut srs) = setup();
    params.n = 8;
    let (mut proof, _) = prove(&WITNESS);
    proof.advice_commitments[0] = Point::new(0);
    srs.meta.gates.push(Expression::Advice(17));
    assert_eq!(run(&proof, &params, &srs), Err(Malformed::DomainMismatch));
}

#[test]
fn root_of_another_order_is_a_domain_mismatch() {
    let (mut params, mut srs) = setup();
    // A primitive eighth root of unity with the size four.
    srs.domain.omega = Scalar::new(fpow(3, (R - 1) / 8));
    srs.domain.omega_inv = Scalar::new(finv(fpow(3, (R - 1) / 8)));
    let (proof, _) = prove(&WITNESS);
    assert_eq!(run(&proof, &params, &srs), Err(Malformed::DomainMismatch));
    // With the size eight on both sides the sizes agree and so does the root.
    params.n = 8;
    srs.domain.n = 8;
    assert_ne!(run(&proof, &params, &srs), Err(Malformed::DomainMismatch));
}

#[test]
fn identity_commitment_is_malformed() {
    let (params, srs) = setup();
    let (mut proof, _) = prove(&WITNESS);
    proof.advice_commitments[0] = Point::new(0);
    assert_eq!(run(&proof, &params, &srs), Err(Malformed::IdentityPoint));

    let (mut proof, _) = prove(&WITNESS);
    proof.h_commitments[1] = Point::new(R);
    assert_eq!(run(&proof, &params, &srs), Err(Malformed::IdentityPoint));

    // The commitment to the aggregation polynomial is absorbed after the
    // identity check; on an otherwise honest proof the check passes.
    let (mut proof, _) = prove(&WITNESS);
    proof.f_commitment = Point::new(0);
    assert_eq!(run(&proof, &params, &srs), Err(Malformed::IdentityPoint));
}

#[test]
fn gate_leaf_out_of_range_is_malformed() {
    let (params, mut srs) = setup();
    srs.meta.gates.push(Expression::Advice(2));
    let (proof, _) = prove(&WITNESS);
    assert_eq!(run(&proof, &params, &srs), Err(Malformed::IndexOutOfRange));

    let (params, mut srs) = setup();
    srs.meta.gates.insert(
        0,
        Expression::Scaled(Box::new(Expression::Fixed(1)), Scalar::one()),
    );
    assert_eq!(run(&proof, &params, &srs), Err(Malformed::IndexOutOfRange));
}

#[test]
fn missing_evaluation_is_malformed() {
    let (params, srs) = setup();
    let (mut proof, _) = prove(&WITNESS);
    proof.advice_evals_x.pop();
    assert_eq!(run(&proof, &params, &srs), Err(Malformed::IndexOutOfRange));
}

/// An honest proof for a reference string that was changed afterwards by
/// `change`, with gates that no longer constrain anything, so that the
/// identity check passes on zero chunks.
fn run_changed(change: impl Fn(&mut SmallProof, &mut SRS<Point>)) -> Result<bool, Malformed> {
    let (params, mut srs) = setup();
    let (mut proof, _) = prove(&WITNESS);
    srs.meta.gates.clear();
    proof.h_evals_x = scalars(&[0, 0]);
    change(&mut proof, &mut srs);
    run(&proof, &params, &srs)
}

#[test]
fn unconstrained_circuit_reaches_the_opening() {
    // The changed evaluations no longer match the opening: a plain rejection,
    // and so the changes below are judged after the identity check.
    assert_eq!(run_changed(|_, _| {}), Ok(false));
}

#[test]
fn wire_out_of_range_is_malformed() {
    assert_eq!(
        run_changed(|_, srs| srs.meta.advice_queries[1].0 = AdviceWire(1)),
        Err(Malformed::IndexOutOfRange)
    );
    assert_eq!(
        run_changed(|_, srs| srs.meta.fixed_queries[0].0 = FixedWire(3)),
        Err(Malformed::IndexOutOfRange)
    );
    assert_eq!(
        run_changed(|_, srs| srs.fixed_commitments.clear()),
        Err(Malformed::IndexOutOfRange)
    );
}

#[test]
fn rotation_without_row_is_malformed() {
    assert_eq!(
        run_changed(|_, srs| srs.meta.advice_queries[1].1 = Rotation(-1)),
        Err(Malformed::QueryRowOutOfRange)
    );
    // The quotient chunks are queried at the rotation zero.
    assert_eq!(
        run_changed(|_, srs| {
            srs.meta.query_rows[0] = Rotation(2);
            srs.meta.advice_queries[0].1 = Rotation(2);
            srs.meta.fixed_queries[0].1 = Rotation(2);
        }),
        Err(Malformed::QueryRowOutOfRange)
    );
}

#[test]
fn row_without_queries_is_malformed() {
    assert_eq!(
        run_changed(|proof, srs| {
            srs.meta.query_rows.push(Rotation(-1));
            proof.q_evals.push(Scalar::one());
        }),
        Err(Malformed::QueryRowOutOfRange)
    );
}

#[test]
fn row_without_claimed_evaluation_is_malformed() {
    assert_eq!(
        run_changed(|proof, _| {
            proof.q_evals.pop();
        }),
        Err(Malformed::QueryRowOutOfRange)
    );
}

#[test]
fn second_row_of_a_rotation_is_never_used() {
    // Both queries of the rotation one go to the first row that holds it.
    assert_eq!(
        run_changed(|proof, srs| {
            srs.meta.query_rows.push(Rotation(1));
            proof.q_evals.push(Scalar::one());
        }),
        Err(Malformed::QueryRowOutOfRange)
    );
}

#[test]
fn undecodable_squeeze_is_malformed() {
    // The claimed row evaluations enter the scalar transcript, whose output
    // must be below 65521 to be an element of the base field. Some claim
    // makes it fail.
    let (params, srs) = setup();
    let (mut proof, _) = prove(&WITNESS);
    let honest = proof.q_evals[1].to_u64();
    let mut seen = 0;
    for v in 0..R {
        proof.q_evals[1] = Scalar::new(v);
        match run(&proof, &params, &srs) {
            Err(Malformed::InvalidEncoding) => seen += 1,
            Ok(false) => {}
            Ok(true) => assert_eq!(v, honest),
            other => panic!("claim {} gives {:?}", v, other),
        }
    }
    // The permutation of the sponge is a bijection: exactly the sixteen
    // states from 65521 to 65536 have no encoding.
    assert_eq!(seen, 16);
}

/// The principal point that the base transcript yields for a proof.
fn principal_point(proof: &SmallProof) -> u64 {
    let mut transcript = HBase::init(Base::one());
    hash_points(&mut transcript, &proof.advice_commitments).unwrap();
    squeeze_challenge::<Point, HBase>(&mut transcript);
    hash_points(&mut transcript, &proof.h_commitments).unwrap();
    squeeze_challenge::<Point, HBase>(&mut transcript).to_u64()
}

/// The point of the final opening that the transcripts yield for a proof.
fn opening_point(proof: &SmallProof) -> u64 {
    let mut transcript = HBase::init(Base::one());
    hash_points(&mut transcript, &proof.advice_commitments).unwrap();
    squeeze_challenge::<Point, HBase>(&mut transcript);
    hash_points(&mut transcript, &proof.h_commitments).unwrap();
    squeeze_challenge::<Point, HBase>(&mut transcript);
    let mut transcript_scalar = HScalar::init(Scalar::one());
    absorb_all(&mut transcript_scalar, &proof.advice_evals_x);
    absorb_all(&mut transcript_scalar, &proof.fixed_evals_x);
    absorb_all(&mut transcript_scalar, &proof.h_evals_x);
    cross_absorb::<Point, HBase, HScalar>(&mut transcript, &mut transcript_scalar).unwrap();
    squeeze_challenge::<Point, HBase>(&mut transcript);
    squeeze_challenge::<Point, HBase>(&mut transcript);
    hash_point(&mut transcript, &proof.f_commitment).unwrap();
    squeeze_challenge::<Point, HBase>(&mut transcript).to_u64()
}

#[test]
fn principal_point_in_the_domain_is_a_zero_denominator() {
    let (params, srs) = setup();
    let (mut proof, _) = prove(&WITNESS);
    let mut seen = 0;
    for g in 1..R {
        proof.advice_commitments[0] = Point::new(g);
        let in_domain = fpow(principal_point(&proof), N as u64) == 1;
        let outcome = run(&proof, &params, &srs);
        assert_eq!(outcome == Err(Malformed::ZeroDenominator), in_domain, "commitment {}", g);
        if in_domain {
            seen += 1;
        }
    }
    assert!(seen > 0);
}

#[test]
fn opening_point_on_a_query_point_is_a_zero_denominator() {
    let (params, srs) = setup();
    let mut seen = 0;
    for first in [2u64, 3, 5, 7, 11, 13] {
        let second = fmul(first, first);
        let third = fmul(second, second);
        let (mut proof, drawn) = prove(&[first, second, third, fmul(third, third)]);
        let points = [drawn.x_3, fmul(drawn.x_3, omega())];
        for g in 1..R {
            proof.f_commitment = Point::new(g);
            let meets = points.contains(&opening_point(&proof));
            let outcome = run(&proof, &params, &srs);
            assert_eq!(outcome == Err(Malformed::ZeroDenominator), meets, "commitment {}", g);
            if meets {
                seen += 1;
            }
        }
    }
    assert!(seen > 0);
}
