//! What holds of every verification: laws that relate the parts of the
//! verifier to each other and to closed formulas.

use crate::aggregate::{
    accumulate, chunk_queries, contributions, horner, queries_of, row_of,
};
use crate::circuit::{gate_sum, Expression, SRS};
use crate::curve::CurveAffine;
use crate::error::Malformed;
use crate::field::{
    add_mod, is_inverse, lemma_inverse_is_inv_mod, mul_mod, pow_mod, sub_mod, values, PrimeField,
};
use crate::plonk::{domain_fits, Proof};
use crate::polycommit::{OpeningScheme, OpeningVerifier, Params};
use crate::quotient::{quotient_identity, quotient_value, weighted_sum};
use crate::transcript::{absorb_points, Hasher};
use vstd::arithmetic::div_mod::{
    lemma_add_mod_noop, lemma_add_mod_noop_right, lemma_mod_twice, lemma_mul_mod_noop_general,
    lemma_small_mod,
};
use vstd::arithmetic::power::{
    lemma_pow0, lemma_pow1, lemma_pow_adds, lemma_pow_mod_noop, lemma_pow_multiplies, pow,
};
use vstd::prelude::*;

verus! {

/// The weighted sum depends on the base only through its residue: raising
/// the reduced power `z^n mod p` or the power `z^n` itself gives the same
/// residue.
pub proof fn lemma_weighted_sum_residue(chunks: Seq<int>, z: int, n: nat, p: int)
    requires
        p > 1,
    ensures
        weighted_sum(chunks, pow_mod(z, n, p)) % p == weighted_sum(chunks, pow(z, n)) % p,
    decreases chunks.len(),
{
    if chunks.len() > 0 {
        let k = (chunks.len() - 1) as nat;
        let zn = pow_mod(z, n, p);
        let full = pow(z, n);
        lemma_weighted_sum_residue(chunks.drop_last(), z, n, p);
        assert(pow(zn, k) % p == pow(full, k) % p) by {
            lemma_pow_mod_noop(full, k, p);
        }
        assert((chunks.last() * pow(zn, k)) % p == (chunks.last() * pow(full, k)) % p) by {
            lemma_mul_mod_noop_general(chunks.last(), pow(zn, k), p);
            lemma_mul_mod_noop_general(chunks.last(), pow(full, k), p);
        }
        lemma_add_mod_noop(
            weighted_sum(chunks.drop_last(), zn),
            chunks.last() * pow(zn, k),
            p,
        );
        lemma_add_mod_noop(
            weighted_sum(chunks.drop_last(), full),
            chunks.last() * pow(full, k),
            p,
        );
    }
}

/// Quotient reconstruction from three chunks: the value is
/// `c0 + c1 * z^n + c2 * z^(2n)`, reduced.
pub proof fn lemma_three_chunks(c0: int, c1: int, c2: int, z: int, n: nat, p: int)
    requires
        p > 1,
    ensures
        quotient_value(seq![c0, c1, c2], pow_mod(z, n, p), p) == (c0 + c1 * pow(z, n) + c2 * pow(
            z,
            2 * n,
        )) % p,
{
    let chunks = seq![c0, c1, c2];
    let full = pow(z, n);
    lemma_weighted_sum_residue(chunks, z, n, p);
    let two = chunks.drop_last();
    let one = two.drop_last();
    assert(one.drop_last().len() == 0);
    assert(weighted_sum(one.drop_last(), full) == 0);
    assert(weighted_sum(one, full) == c0 * pow(full, 0));
    assert(weighted_sum(two, full) == weighted_sum(one, full) + c1 * pow(full, 1));
    assert(weighted_sum(chunks, full) == weighted_sum(two, full) + c2 * pow(full, 2));
    lemma_pow0(full);
    lemma_pow1(full);
    assert(pow(full, 2) == pow(z, 2 * n)) by {
        lemma_pow_multiplies(z, n, 2);
        assert(n * 2 == 2 * n);
    }
    assert(c0 * 1 == c0);
}

/// A weighted sum with one more coefficient in front: every other
/// coefficient moves up by one power.
pub proof fn lemma_weighted_sum_prepend(c: int, s: Seq<int>, x: int)
    ensures
        weighted_sum(seq![c] + s, x) == c + x * weighted_sum(s, x),
    decreases s.len(),
{
    let t = seq![c] + s;
    if s.len() == 0 {
        assert(t.len() == 1);
        assert(t.last() == c);
        assert(t.drop_last().len() == 0);
        assert(weighted_sum(t.drop_last(), x) == 0);
        lemma_pow0(x);
        assert(weighted_sum(t, x) == 0 + c * pow(x, 0));
        assert(c * 1 == c);
        assert(x * 0 == 0);
    } else {
        let k = (s.len() - 1) as nat;
        assert(t.drop_last() == seq![c] + s.drop_last());
        assert(t.last() == s.last());
        lemma_weighted_sum_prepend(c, s.drop_last(), x);
        assert(pow(x, k + 1) == x * pow(x, k)) by {
            lemma_pow_adds(x, 1, k);
            lemma_pow1(x);
        }
        assert(x * (weighted_sum(s.drop_last(), x) + s.last() * pow(x, k)) == x * weighted_sum(
            s.drop_last(),
            x,
        ) + s.last() * pow(x, k + 1)) by (nonlinear_arith)
            requires
                pow(x, k + 1) == x * pow(x, k),
        ;
    }
}

/// Horner's rule is the evaluation of a polynomial: the start value times
/// the highest power, and each term times the power that its distance from
/// the end gives.
pub proof fn lemma_horner_is_power_sum(start: int, terms: Seq<int>, x: int, p: int)
    requires
        p > 1,
    ensures
        horner(start, terms, x, p) % p == (start * pow(x, terms.len()) + weighted_sum(
            terms.reverse(),
            x,
        )) % p,
    decreases terms.len(),
{
    if terms.len() == 0 {
        lemma_pow0(x);
        assert(start * 1 == start);
        assert(terms.reverse().len() == 0);
    } else {
        let init = terms.drop_last();
        let last = terms.last();
        let k = init.len();
        let a = start * pow(x, k) + weighted_sum(init.reverse(), x);
        lemma_horner_is_power_sum(start, init, x, p);
        assert((horner(start, init, x, p) * x) % p == (a * x) % p) by {
            lemma_mul_mod_noop_general(horner(start, init, x, p), x, p);
            lemma_mul_mod_noop_general(a, x, p);
        }
        assert(horner(start, terms, x, p) == (a * x + last) % p) by {
            lemma_add_mod_noop_right(last, horner(start, init, x, p) * x, p);
            lemma_add_mod_noop_right(last, a * x, p);
        }
        assert(terms.reverse() == seq![last] + init.reverse());
        lemma_weighted_sum_prepend(last, init.reverse(), x);
        assert(pow(x, k + 1) == x * pow(x, k)) by {
            lemma_pow_adds(x, 1, k);
            lemma_pow1(x);
        }
        assert(a * x + last == start * pow(x, k + 1) + (last + x * weighted_sum(
            init.reverse(),
            x,
        ))) by (nonlinear_arith)
            requires
                a == start * pow(x, k) + weighted_sum(init.reverse(), x),
                pow(x, k + 1) == x * pow(x, k),
        ;
        lemma_mod_twice(a * x + last, p);
    }
}

/// The values of a list of gates that all have one.
pub open spec fn gate_values<F: PrimeField>(
    gates: Seq<Expression<F>>,
    fixed: Seq<int>,
    advice: Seq<int>,
) -> Seq<int> {
    Seq::new(gates.len(), |i: int| gates[i].value_at(fixed, advice)->Some_0)
}

/// Where every gate has a value, the combined gate value is the polynomial
/// whose coefficients are the values of the gates, first gate highest, at `alpha`.
pub proof fn lemma_gate_sum_is_polynomial<F: PrimeField>(
    gates: Seq<Expression<F>>,
    alpha: int,
    fixed: Seq<int>,
    advice: Seq<int>,
)
    requires
        forall|i: int| 0 <= i < gates.len() ==> gates[i].value_at(fixed, advice) is Some,
    ensures
        gate_sum(gates, alpha, fixed, advice) == Some(
            horner(0, gate_values(gates, fixed, advice), alpha, F::modulus()),
        ),
        gate_sum(gates, alpha, fixed, advice)->Some_0 % F::modulus() == weighted_sum(
            gate_values(gates, fixed, advice).reverse(),
            alpha,
        ) % F::modulus(),
    decreases gates.len(),
{
    F::lemma_modulus();
    let v = gate_values(gates, fixed, advice);
    if gates.len() > 0 {
        lemma_gate_sum_is_polynomial(gates.drop_last(), alpha, fixed, advice);
        assert(v.drop_last() == gate_values(gates.drop_last(), fixed, advice));
    }
    lemma_horner_is_power_sum(0, v, alpha, F::modulus());
    assert(0 * pow(alpha, v.len()) == 0);
}

/// The quotient identity without the division: where the point is outside
/// the domain, the check passes exactly if the combined gate value is the
/// reconstructed quotient value times `z^n - 1`, the value of the vanishing
/// polynomial of the domain.
pub proof fn lemma_identity_is_product(
    gate_sum: int,
    z: int,
    n: nat,
    chunks: Seq<int>,
    p: int,
    inverse: int,
)
    requires
        p > 1,
        0 <= gate_sum < p,
        is_inverse(sub_mod(pow_mod(z, n, p), 1, p), inverse, p),
    ensures
        quotient_identity(gate_sum, z, n, chunks, p) == Ok::<bool, Malformed>(
            gate_sum == mul_mod(
                quotient_value(chunks, pow_mod(z, n, p), p),
                sub_mod(pow_mod(z, n, p), 1, p),
                p,
            ),
        ),
{
    let zn = pow_mod(z, n, p);
    let d = sub_mod(zn, 1, p);
    let h = quotient_value(chunks, zn, p);
    let i = inverse;
    lemma_inverse_is_inv_mod(d, i, p);
    if d == 0 {
        assert(0 * i == 0);
        lemma_small_mod(0, p as nat);
    }
    lemma_small_mod(gate_sum as nat, p as nat);
    lemma_small_mod(h as nat, p as nat);
    // ((g * i) % p * d) % p == g  and  ((h * d) % p * i) % p == h
    assert((((gate_sum * i) % p) * d) % p == gate_sum) by {
        lemma_mul_mod_noop_general(gate_sum * i, d, p);
        assert((gate_sum * i) * d == gate_sum * (d * i)) by (nonlinear_arith);
        lemma_mul_mod_noop_general(gate_sum, d * i, p);
        assert(gate_sum * 1 == gate_sum);
    }
    assert((((h * d) % p) * i) % p == h) by {
        lemma_mul_mod_noop_general(h * d, i, p);
        assert((h * d) * i == h * (d * i)) by (nonlinear_arith);
        lemma_mul_mod_noop_general(h, d * i, p);
        assert(h * 1 == h);
    }
}

/// Row aggregation: where two advice queries and one fixed query are all
/// the queries there are, and all three belong to one row, that row holds
/// the Horner combination of the three in the order advice, advice, fixed,
/// and every other row holds nothing.
pub proof fn lemma_shared_row<C: CurveAffine, S: OpeningScheme<C>>(
    proof: Proof<C, S>,
    srs: SRS<C>,
    x_4: int,
    row: int,
)
    requires
        srs.meta.advice_queries.len() == 2,
        srs.meta.fixed_queries.len() == 1,
        proof.h_commitments.len() == 0,
        row_of(srs.meta.query_rows@, srs.meta.advice_queries[0].1) == Some(row),
        row_of(srs.meta.query_rows@, srs.meta.advice_queries[1].1) == Some(row),
        row_of(srs.meta.query_rows@, srs.meta.fixed_queries[0].1) == Some(row),
        srs.meta.advice_queries[0].0.0 < proof.advice_commitments.len(),
        srs.meta.advice_queries[1].0.0 < proof.advice_commitments.len(),
        srs.meta.fixed_queries[0].0.0 < srs.fixed_commitments.len(),
        proof.advice_evals_x.len() >= 2,
        proof.fixed_evals_x.len() >= 1,
    ensures
        proof.query_contributions(&srs) is Ok,
        accumulate(None, proof.query_contributions(&srs)->Ok_0, row, x_4) == Some(
            (
                proof.advice_commitments[srs.meta.advice_queries[0].0.0 as int].scaled(x_4).sum(
                    proof.advice_commitments[srs.meta.advice_queries[1].0.0 as int],
                ).scaled(x_4).sum(srs.fixed_commitments[srs.meta.fixed_queries[0].0.0 as int]),
                add_mod(
                    mul_mod(
                        add_mod(
                            mul_mod(proof.advice_evals_x[0].value(), x_4, C::Scalar::modulus()),
                            proof.advice_evals_x[1].value(),
                            C::Scalar::modulus(),
                        ),
                        x_4,
                        C::Scalar::modulus(),
                    ),
                    proof.fixed_evals_x[0].value(),
                    C::Scalar::modulus(),
                ),
            ),
        ),
        forall|other: int|
            other != row ==> accumulate(
                None,
                proof.query_contributions(&srs)->Ok_0,
                other,
                x_4,
            ) is None,
{
    let rows = srs.meta.query_rows@;
    let aq = queries_of(srs.meta.advice_queries@);
    let fq = queries_of(srs.meta.fixed_queries@);
    let hq = chunk_queries(proof.h_commitments.len() as int, proof.h_evals_x.len() as int);
    let ac = proof.advice_commitments@;
    let ae = values(proof.advice_evals_x@);
    let fc = srs.fixed_commitments@;
    let fe = values(proof.fixed_evals_x@);

    // the advice queries
    let a1 = aq.drop_last();
    assert(a1.len() == 1);
    assert(a1.drop_last().len() == 0);
    assert(contributions(rows, a1.drop_last(), ac, ae) is Ok);
    let advice_1 = contributions(rows, a1, ac, ae)->Ok_0;
    assert(contributions(rows, a1, ac, ae) is Ok);
    let advice = contributions(rows, aq, ac, ae)->Ok_0;
    assert(contributions(rows, aq, ac, ae) is Ok);
    assert(advice.len() == 2);

    // the fixed query
    assert(fq.drop_last().len() == 0);
    assert(contributions(rows, fq.drop_last(), fc, fe) is Ok);
    let fixed = contributions(rows, fq, fc, fe)->Ok_0;
    assert(contributions(rows, fq, fc, fe) is Ok);
    assert(fixed.len() == 1);

    // no chunks
    assert(hq.len() == 0);
    let chunks = contributions(rows, hq, proof.h_commitments@, values(proof.h_evals_x@))->Ok_0;
    assert(chunks.len() == 0);

    let cs = proof.query_contributions(&srs)->Ok_0;
    assert(cs == advice + fixed + chunks);
    assert(cs.len() == 3);
    let c2 = cs.drop_last();
    let c1 = c2.drop_last();
    assert(c1.drop_last().len() == 0);
    assert(cs[0] == advice[0] && cs[1] == advice[1] && cs[2] == fixed[0]);
    assert(cs[0].row == row && cs[1].row == row && cs[2].row == row);

    assert forall|other: int| true implies accumulate(None, cs, other, x_4) == (if other == row {
        accumulate(None, cs, row, x_4)
    } else {
        None::<(C, int)>
    }) by {
        assert(accumulate(None::<(C, int)>, c1.drop_last(), other, x_4) is None);
        assert(c1.last() == cs[0]);
        assert(c2.last() == cs[1]);
        assert(cs.last() == cs[2]);
        if other != row {
            assert(accumulate(None, c1, other, x_4) == None::<(C, int)>);
            assert(accumulate(None, c2, other, x_4) == None::<(C, int)>);
        }
    }
    assert(accumulate(None::<(C, int)>, c1.drop_last(), row, x_4) is None);
    assert(c1.last() == cs[0]);
    assert(c2.last() == cs[1]);
    assert(cs.last() == cs[2]);
    assert(accumulate(None, c1, row, x_4) == Some((cs[0].commitment, cs[0].eval)));
    assert(accumulate(None, c2, row, x_4) is Some);
}

/// An identity among the commitments that are absorbed first leaves the
/// transcript without a state.
pub proof fn lemma_absorb_points_identity<C: CurveAffine, H: Hasher<C::Base>>(
    t: H,
    points: Seq<C>,
    i: int,
)
    requires
        0 <= i < points.len(),
        points[i].at_infinity(),
    ensures
        absorb_points(t, points) is None,
    decreases points.len(),
{
    if i < points.len() - 1 {
        lemma_absorb_points_identity(t, points.drop_last(), i);
    }
}

/// A gate without a value leaves the combination of the gates without one.
pub proof fn lemma_gate_sum_undefined<F: PrimeField>(
    gates: Seq<Expression<F>>,
    alpha: int,
    fixed: Seq<int>,
    advice: Seq<int>,
    i: int,
)
    requires
        0 <= i < gates.len(),
        gates[i].value_at(fixed, advice) is None,
    ensures
        gate_sum(gates, alpha, fixed, advice) is None,
    decreases gates.len(),
{
    if i < gates.len() - 1 {
        lemma_gate_sum_undefined(gates.drop_last(), alpha, fixed, advice, i);
    }
}

/// A size that is not the size of the domain is refused, whatever else the
/// inputs hold: no proof is then accepted or rejected, and no challenge is
/// drawn.
pub proof fn lemma_domain_mismatch<
    C: CurveAffine,
    S: OpeningVerifier<C, HB>,
    HB: Hasher<C::Base>,
    HS: Hasher<C::Scalar>,
>(proof: Proof<C, S>, params: Params<S>, srs: SRS<C>)
    requires
        params.n != srs.domain.n || pow_mod(
            srs.domain.omega.value(),
            params.n as nat,
            C::Scalar::modulus(),
        ) != 1,
    ensures
        proof.verdict::<HB, HS>(&params, &srs) == Err::<bool, Malformed>(
            Malformed::DomainMismatch,
        ),
        proof.challenge_schedule::<HB, HS>(&params, &srs) is Err,
{
}

/// A proof with the identity among its commitments to advice wires or to
/// quotient chunks is malformed: the verification ends in an error, and in
/// the error of the identity point where the size fits the domain.
pub proof fn lemma_identity_commitment<
    C: CurveAffine,
    S: OpeningVerifier<C, HB>,
    HB: Hasher<C::Base>,
    HS: Hasher<C::Scalar>,
>(proof: Proof<C, S>, params: Params<S>, srs: SRS<C>, i: int)
    requires
        (0 <= i < proof.advice_commitments.len() && proof.advice_commitments[i].at_infinity()) || (0
            <= i < proof.h_commitments.len() && proof.h_commitments[i].at_infinity()),
    ensures
        proof.verdict::<HB, HS>(&params, &srs) is Err,
        domain_fits(params.n, &srs.domain) ==> proof.verdict::<HB, HS>(&params, &srs) == Err::<
            bool,
            Malformed,
        >(Malformed::IdentityPoint),
{
    if 0 <= i < proof.advice_commitments.len() && proof.advice_commitments[i].at_infinity() {
        lemma_absorb_points_identity::<C, HB>(HB::initial(1), proof.advice_commitments@, i);
    } else {
        match absorb_points(HB::initial(1), proof.advice_commitments@) {
            None => {},
            Some(t1) => {
                lemma_absorb_points_identity::<C, HB>(
                    crate::transcript::draw_challenge::<C, HB>(t1).0,
                    proof.h_commitments@,
                    i,
                );
            },
        }
    }
}

/// A proof whose commitment to the aggregation polynomial is the identity
/// is never accepted: it is rejected by the identity check or it is
/// malformed.
pub proof fn lemma_identity_aggregation_commitment<
    C: CurveAffine,
    S: OpeningVerifier<C, HB>,
    HB: Hasher<C::Base>,
    HS: Hasher<C::Scalar>,
>(proof: Proof<C, S>, params: Params<S>, srs: SRS<C>)
    requires
        proof.f_commitment.at_infinity(),
    ensures
        proof.verdict::<HB, HS>(&params, &srs) != Ok::<bool, Malformed>(true),
        proof.verdict::<HB, HS>(&params, &srs) is Ok ==> (proof.commitments_stage::<
            HB,
        >() matches Ok(s) && proof.identity_outcome(&params, &srs, s.1, s.2) == Ok::<
            bool,
            Malformed,
        >(false)),
{
}

/// A circuit with a gate leaf that names an evaluation which the proof does
/// not hold is malformed key material: the verification ends in an error.
pub proof fn lemma_gate_leaf_out_of_range<
    C: CurveAffine,
    S: OpeningVerifier<C, HB>,
    HB: Hasher<C::Base>,
    HS: Hasher<C::Scalar>,
>(proof: Proof<C, S>, params: Params<S>, srs: SRS<C>, i: int)
    requires
        0 <= i < srs.meta.gates.len(),
        srs.meta.gates[i].value_at(
            values(proof.fixed_evals_x@),
            values(proof.advice_evals_x@),
        ) is None,
    ensures
        proof.verdict::<HB, HS>(&params, &srs) is Err,
{
    match proof.commitments_stage::<HB>() {
        Err(_) => {},
        Ok(s) => {
            lemma_gate_sum_undefined(
                srs.meta.gates@,
                s.1,
                values(proof.fixed_evals_x@),
                values(proof.advice_evals_x@),
                i,
            );
        },
    }
}

/// A proof is accepted only under a complete challenge schedule: every
/// challenge that the verification used is the one that the schedule names.
pub proof fn lemma_accepted_has_schedule<
    C: CurveAffine,
    S: OpeningVerifier<C, HB>,
    HB: Hasher<C::Base>,
    HS: Hasher<C::Scalar>,
>(proof: Proof<C, S>, params: Params<S>, srs: SRS<C>)
    requires
        proof.verdict::<HB, HS>(&params, &srs) == Ok::<bool, Malformed>(true),
    ensures
        proof.challenge_schedule::<HB, HS>(&params, &srs) is Ok,
        proof.identity_outcome(
            &params,
            &srs,
            proof.challenge_schedule::<HB, HS>(&params, &srs)->Ok_0.x_2,
            proof.challenge_schedule::<HB, HS>(&params, &srs)->Ok_0.x_3,
        ) == Ok::<bool, Malformed>(true),
{
}

} // verus!
