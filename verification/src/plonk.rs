//! The proof and its verification.

use crate::aggregate::{
    aggregation_eval, evaluate_aggregation, final_query, fold_queries, merged_rows,
};
use crate::circuit::{evaluate_gates, gate_sum, EvaluationDomain, SRS};
use crate::curve::CurveAffine;
use crate::error::Malformed;
use crate::field::{pow_mod, values, PrimeField};
use crate::polycommit::{OpeningScheme, OpeningVerifier, Params};
use crate::quotient::{check_quotient, quotient_identity};
use crate::transcript::{
    absorb_all, absorb_point, absorb_points, absorb_values, cross_absorb, draw_challenge,
    hash_point, hash_points, squeeze_challenge, synchronize, Hasher,
};
use vstd::prelude::*;

verus! {

/// A proof for one circuit instance.
pub struct Proof<C: CurveAffine, S: OpeningScheme<C>> {
    /// The commitments to the advice wires.
    pub advice_commitments: Vec<C>,
    /// The commitments to the chunks of the quotient polynomial.
    pub h_commitments: Vec<C>,
    /// The evaluation of each advice query.
    pub advice_evals_x: Vec<C::Scalar>,
    /// The evaluation of each fixed query.
    pub fixed_evals_x: Vec<C::Scalar>,
    /// The evaluation of each quotient chunk at the principal point.
    pub h_evals_x: Vec<C::Scalar>,
    /// The claimed evaluation of each query row's polynomial at the final
    /// opening point.
    pub q_evals: Vec<C::Scalar>,
    /// The commitment to the aggregation polynomial.
    pub f_commitment: C,
    /// The opening proof of the final query.
    pub opening: S::Opening,
}

/// The challenges of one verification, in the order in which they are drawn.
pub struct Challenges<F> {
    /// Combines the gates.
    pub x_2: F,
    /// The principal evaluation point.
    pub x_3: F,
    /// Merges the queries of one row.
    pub x_4: F,
    /// Combines the rows into the aggregation polynomial.
    pub x_5: F,
    /// The point of the final opening.
    pub x_6: F,
    /// Folds the aggregation polynomial and the rows.
    pub x_7: F,
}

/// The representatives of the six challenges.
pub struct ChallengeValues {
    pub x_2: int,
    pub x_3: int,
    pub x_4: int,
    pub x_5: int,
    pub x_6: int,
    pub x_7: int,
}

impl<F: PrimeField> Challenges<F> {
    /// The representatives of the challenges.
    pub open spec fn values(&self) -> ChallengeValues {
        ChallengeValues {
            x_2: self.x_2.value(),
            x_3: self.x_3.value(),
            x_4: self.x_4.value(),
            x_5: self.x_5.value(),
            x_6: self.x_6.value(),
            x_7: self.x_7.value(),
        }
    }
}

/// The size `n` fits the domain: it is the size of the domain, and the root
/// of unity of the domain has an order that divides it.
pub open spec fn domain_fits<F: PrimeField>(n: u64, domain: &EvaluationDomain<F>) -> bool {
    n == domain.n && pow_mod(domain.omega.value(), n as nat, F::modulus()) == 1
}

/// Checks that the size in the parameters fits the evaluation domain.
pub fn check_domain<F: PrimeField>(n: u64, domain: &EvaluationDomain<F>) -> (r: Result<
    (),
    Malformed,
>)
    ensures
        r == (if domain_fits(n, domain) {
            Ok::<(), Malformed>(())
        } else {
            Err::<(), Malformed>(Malformed::DomainMismatch)
        }),
{
    if n != domain.n {
        return Err(Malformed::DomainMismatch);
    }
    if !domain.omega.pow(n).is_equal(&F::one()) {
        return Err(Malformed::DomainMismatch);
    }
    Ok(())
}

impl<C: CurveAffine, S: OpeningScheme<C>> Proof<C, S> {
    /// The base transcript after the commitments to the advice wires and to
    /// the quotient chunks, with the challenges `x_2` and `x_3` drawn on the
    /// way.
    pub open spec fn commitments_stage<HB: Hasher<C::Base>>(&self) -> Result<
        (HB, int, int),
        Malformed,
    > {
        match absorb_points(HB::initial(1), self.advice_commitments@) {
            None => Err(Malformed::IdentityPoint),
            Some(t1) => {
                let (t2, x_2) = draw_challenge::<C, HB>(t1);
                match absorb_points(t2, self.h_commitments@) {
                    None => Err(Malformed::IdentityPoint),
                    Some(t3) => {
                        let (t4, x_3) = draw_challenge::<C, HB>(t3);
                        Ok((t4, x_2, x_3))
                    },
                }
            },
        }
    }

    /// The scalar transcript after the evaluations of the advice queries, of
    /// the fixed queries and of the quotient chunks.
    pub open spec fn evaluations_absorbed<HS: Hasher<C::Scalar>>(&self) -> HS {
        absorb_values::<C::Scalar, HS>(
            absorb_values::<C::Scalar, HS>(
                absorb_values::<C::Scalar, HS>(HS::initial(1), values(self.advice_evals_x@)),
                values(self.fixed_evals_x@),
            ),
            values(self.h_evals_x@),
        )
    }

    /// The two transcripts after the evaluations were bound into the base
    /// transcript `t`, with the challenges `x_4` and `x_5` drawn from it.
    pub open spec fn rows_stage<HB: Hasher<C::Base>, HS: Hasher<C::Scalar>>(&self, t: HB)
        -> Result<(HB, HS, int, int), Malformed> {
        match synchronize::<C, HB, HS>(t, self.evaluations_absorbed::<HS>()) {
            None => Err(Malformed::InvalidEncoding),
            Some(st) => {
                let (t1, x_4) = draw_challenge::<C, HB>(st.0);
                let (t2, x_5) = draw_challenge::<C, HB>(t1);
                Ok((t2, st.1, x_4, x_5))
            },
        }
    }

    /// The base transcript after the commitment to the aggregation
    /// polynomial, with the challenge `x_6` drawn from it.
    pub open spec fn point_stage<HB: Hasher<C::Base>>(&self, t: HB) -> Result<
        (HB, int),
        Malformed,
    > {
        match absorb_point(t, self.f_commitment) {
            None => Err(Malformed::IdentityPoint),
            Some(t1) => Ok(draw_challenge::<C, HB>(t1)),
        }
    }

    /// The base transcript after the claimed evaluations of the rows were
    /// bound into it through the scalar transcript `ts`, with the challenge
    /// `x_7` drawn from it.
    pub open spec fn fold_stage<HB: Hasher<C::Base>, HS: Hasher<C::Scalar>>(&self, t: HB, ts: HS)
        -> Result<(HB, int), Malformed> {
        match synchronize::<C, HB, HS>(
            t,
            absorb_values::<C::Scalar, HS>(ts, values(self.q_evals@)),
        ) {
            None => Err(Malformed::InvalidEncoding),
            Some(st) => Ok(draw_challenge::<C, HB>(st.0)),
        }
    }

    /// The challenges that the transcripts of a verification yield, or the
    /// reason why the transcripts cannot be run to their end.
    pub open spec fn challenge_schedule<HB: Hasher<C::Base>, HS: Hasher<C::Scalar>>(
        &self,
        params: &Params<S>,
        srs: &SRS<C>,
    ) -> Result<ChallengeValues, Malformed> {
        if !domain_fits(params.n, &srs.domain) {
            Err(Malformed::DomainMismatch)
        } else {
            match self.commitments_stage::<HB>() {
                Err(e) => Err(e),
                Ok(s1) => match self.rows_stage::<HB, HS>(s1.0) {
                    Err(e) => Err(e),
                    Ok(s2) => match self.point_stage::<HB>(s2.0) {
                        Err(e) => Err(e),
                        Ok(s3) => match self.fold_stage::<HB, HS>(s3.0, s2.1) {
                            Err(e) => Err(e),
                            Ok(s4) => Ok(
                                ChallengeValues {
                                    x_2: s1.1,
                                    x_3: s1.2,
                                    x_4: s2.2,
                                    x_5: s2.3,
                                    x_6: s3.1,
                                    x_7: s4.1,
                                },
                            ),
                        },
                    },
                },
            }
        }
    }

    /// The outcome of the quotient identity check under the challenges
    /// `x_2` and `x_3`.
    pub open spec fn identity_outcome(&self, params: &Params<S>, srs: &SRS<C>, x_2: int, x_3: int)
        -> Result<bool, Malformed> {
        match gate_sum(
            srs.meta.gates@,
            x_2,
            values(self.fixed_evals_x@),
            values(self.advice_evals_x@),
        ) {
            None => Err(Malformed::IndexOutOfRange),
            Some(g) => quotient_identity(
                g,
                x_3,
                params.n as nat,
                values(self.h_evals_x@),
                C::Scalar::modulus(),
            ),
        }
    }

    /// The outcome of the opening, for a proof that has passed the identity
    /// check at the point `x_3`, with the base transcript `t` as the check
    /// left it.
    pub open spec fn opening_outcome<HB: Hasher<C::Base>, HS: Hasher<C::Scalar>>(
        &self,
        params: &Params<S>,
        srs: &SRS<C>,
        t: HB,
        x_3: int,
    ) -> Result<bool, Malformed> where S: OpeningVerifier<C, HB> {
        match self.rows_stage::<HB, HS>(t) {
            Err(e) => Err(e),
            Ok(s2) => match self.query_contributions(srs) {
                Err(e) => Err(e),
                Ok(cs) => {
                    let held = merged_rows(cs, srs.meta.query_rows.len() as nat, s2.2);
                    match self.point_stage::<HB>(s2.0) {
                        Err(e) => Err(e),
                        Ok(s3) => match aggregation_eval(
                            srs.meta.query_rows@,
                            held,
                            values(self.q_evals@),
                            x_3,
                            srs.domain.omega.value(),
                            srs.domain.omega_inv.value(),
                            s2.3,
                            s3.1,
                        ) {
                            Err(e) => Err(e),
                            Ok(f_eval) => match self.fold_stage::<HB, HS>(s3.0, s2.1) {
                                Err(e) => Err(e),
                                Ok(s4) => match final_query(
                                    self.f_commitment,
                                    f_eval,
                                    held,
                                    values(self.q_evals@),
                                    s4.1,
                                ) {
                                    Err(e) => Err(e),
                                    Ok(q) => Ok(
                                        params.scheme.accepts(
                                            &self.opening,
                                            s4.0,
                                            s3.1,
                                            q.0,
                                            q.1,
                                        ),
                                    ),
                                },
                            },
                        },
                    }
                },
            },
        }
    }

    /// The outcome of the verification.
    ///
    /// `Ok(true)` says that the quotient identity holds and that the
    /// commitment scheme accepts the final opening; `Ok(false)` that the
    /// proof is well formed and one of the two fails; an error that the
    /// inputs are structurally unusable. The steps are taken in a fixed
    /// order and the first one that fails decides.
    pub open spec fn verdict<HB: Hasher<C::Base>, HS: Hasher<C::Scalar>>(
        &self,
        params: &Params<S>,
        srs: &SRS<C>,
    ) -> Result<bool, Malformed> where S: OpeningVerifier<C, HB> {
        if !domain_fits(params.n, &srs.domain) {
            Err(Malformed::DomainMismatch)
        } else {
            match self.commitments_stage::<HB>() {
                Err(e) => Err(e),
                Ok(s1) => match self.identity_outcome(params, srs, s1.1, s1.2) {
                    Err(e) => Err(e),
                    Ok(false) => Ok(false),
                    Ok(true) => self.opening_outcome::<HB, HS>(params, srs, s1.0, s1.2),
                },
            }
        }
    }

    /// Runs the base transcript over the commitments to the advice wires and
    /// to the quotient chunks and draws `x_2` and `x_3`.
    fn run_commitments_stage<HBase: Hasher<C::Base>>(&self, transcript: &mut HBase) -> (r: Result<
        (C::Scalar, C::Scalar),
        Malformed,
    >)
        requires
            *old(transcript) == HBase::initial(1),
        ensures
            match self.commitments_stage::<HBase>() {
                Err(e) => r == Err::<(C::Scalar, C::Scalar), Malformed>(e),
                Ok(s) => r is Ok && *final(transcript) == s.0 && r->Ok_0.0.value() == s.1
                    && r->Ok_0.1.value() == s.2,
            },
    {
        hash_points(transcript, &self.advice_commitments)?;
        let x_2 = squeeze_challenge::<C, HBase>(transcript);
        hash_points(transcript, &self.h_commitments)?;
        let x_3 = squeeze_challenge::<C, HBase>(transcript);
        Ok((x_2, x_3))
    }

    /// Starts the scalar transcript and absorbs the evaluations at the
    /// principal point.
    fn run_evaluations<HScalar: Hasher<C::Scalar>>(&self) -> (ts: HScalar)
        ensures
            ts == self.evaluations_absorbed::<HScalar>(),
    {
        let mut transcript_scalar = HScalar::init(C::Scalar::one());
        absorb_all(&mut transcript_scalar, &self.advice_evals_x);
        absorb_all(&mut transcript_scalar, &self.fixed_evals_x);
        absorb_all(&mut transcript_scalar, &self.h_evals_x);
        transcript_scalar
    }

    /// Binds the claimed evaluations of the rows into the base transcript
    /// and draws `x_7`.
    fn run_fold_stage<HBase: Hasher<C::Base>, HScalar: Hasher<C::Scalar>>(
        &self,
        transcript: &mut HBase,
        transcript_scalar: &mut HScalar,
    ) -> (r: Result<C::Scalar, Malformed>)
        ensures
            match self.fold_stage::<HBase, HScalar>(*old(transcript), *old(transcript_scalar)) {
                Err(e) => r == Err::<C::Scalar, Malformed>(e),
                Ok(s) => r is Ok && *final(transcript) == s.0 && r->Ok_0.value() == s.1,
            },
    {
        absorb_all(transcript_scalar, &self.q_evals);
        cross_absorb::<C, HBase, HScalar>(transcript, transcript_scalar)?;
        Ok(squeeze_challenge::<C, HBase>(transcript))
    }

    /// Derives the six challenges of a verification without checking
    /// anything but what the transcripts need: that the size fits the
    /// domain, that no absorbed commitment is the identity and that the
    /// scalar transcript's outputs have an encoding in the base field.
    pub fn challenges<HBase: Hasher<C::Base>, HScalar: Hasher<C::Scalar>>(
        &self,
        params: &Params<S>,
        srs: &SRS<C>,
    ) -> (r: Result<Challenges<C::Scalar>, Malformed>)
        ensures
            match self.challenge_schedule::<HBase, HScalar>(params, srs) {
                Err(e) => r == Err::<Challenges<C::Scalar>, Malformed>(e),
                Ok(c) => r is Ok && r->Ok_0.values() == c,
            },
    {
        check_domain(params.n, &srs.domain)?;
        let mut transcript = HBase::init(C::Base::one());
        let (x_2, x_3) = self.run_commitments_stage(&mut transcript)?;
        let mut transcript_scalar: HScalar = self.run_evaluations();
        cross_absorb::<C, HBase, HScalar>(&mut transcript, &mut transcript_scalar)?;
        let x_4 = squeeze_challenge::<C, HBase>(&mut transcript);
        let x_5 = squeeze_challenge::<C, HBase>(&mut transcript);
        hash_point(&mut transcript, &self.f_commitment)?;
        let x_6 = squeeze_challenge::<C, HBase>(&mut transcript);
        let x_7 = self.run_fold_stage(&mut transcript, &mut transcript_scalar)?;
        Ok(Challenges { x_2, x_3, x_4, x_5, x_6, x_7 })
    }

    /// Verifies the proof against the parameters and the reference string
    /// of a circuit.
    ///
    /// The answer is `Ok(true)` where the quotient identity holds and the
    /// commitment scheme accepts the final opening, `Ok(false)` where the
    /// proof is well formed and one of the two fails, and an error where the
    /// proof or the key material cannot be used at all. Nothing outside the
    /// call is changed: both transcripts live and die with it.
    pub fn verify<HBase: Hasher<C::Base>, HScalar: Hasher<C::Scalar>>(
        &self,
        params: &Params<S>,
        srs: &SRS<C>,
    ) -> (r: Result<bool, Malformed>) where S: OpeningVerifier<C, HBase>
        ensures
            r == self.verdict::<HBase, HScalar>(params, srs),
    {
        check_domain(params.n, &srs.domain)?;

        // Create a transcript for obtaining Fiat-Shamir challenges.
        let mut transcript = HBase::init(C::Base::one());
        let (x_2, x_3) = self.run_commitments_stage(&mut transcript)?;
        let mut transcript_scalar: HScalar = self.run_evaluations();

        // Evaluate the circuit using the custom gates provided, and compare
        // with the value of h(X) that the chunks give.
        let gate_value = evaluate_gates(
            &srs.meta.gates,
            &x_2,
            &self.fixed_evals_x,
            &self.advice_evals_x,
        )?;
        if !check_quotient(&gate_value, &x_3, params.n, &self.h_evals_x)? {
            return Ok(false);
        }

        cross_absorb::<C, HBase, HScalar>(&mut transcript, &mut transcript_scalar)?;
        let x_4 = squeeze_challenge::<C, HBase>(&mut transcript);

        // Merge the queries that share a point.
        let held = self.aggregate_rows(srs, &x_4)?;

        let x_5 = squeeze_challenge::<C, HBase>(&mut transcript);
        hash_point(&mut transcript, &self.f_commitment)?;
        let x_6 = squeeze_challenge::<C, HBase>(&mut transcript);

        // The expected value of the aggregation polynomial follows from x_5.
        let f_eval = evaluate_aggregation(
            &srs.meta.query_rows,
            &held,
            &self.q_evals,
            &srs.domain,
            &x_3,
            &x_5,
            &x_6,
        )?;

        let x_7 = self.run_fold_stage(&mut transcript, &mut transcript_scalar)?;
        let (commitment, eval) = fold_queries(
            &self.f_commitment,
            &f_eval,
            &held,
            &self.q_evals,
            &x_7,
        )?;

        Ok(params.verify_proof(&self.opening, &mut transcript, x_6, &commitment, eval))
    }
}

} // verus!
