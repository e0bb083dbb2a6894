//! The circuit description that a proof is verified against: gates, query
//! structure, evaluation domain and fixed commitments.

use crate::curve::CurveAffine;
use crate::error::Malformed;
use crate::field::{add_mod, mul_mod, values, PrimeField};
use vstd::prelude::*;

verus! {

/// A shift of the principal evaluation point by a power of the domain's root
/// of unity.
#[derive(Clone, Copy, Debug, PartialEq, Eq, Structural)]
pub struct Rotation(pub i32);

/// The index of an advice wire.
#[derive(Clone, Copy, Debug, PartialEq, Eq, Structural)]
pub struct AdviceWire(pub usize);

/// The index of a fixed wire.
#[derive(Clone, Copy, Debug, PartialEq, Eq, Structural)]
pub struct FixedWire(pub usize);

/// A gate: a polynomial expression over the evaluations of the queries.
///
/// A leaf names a query by its position in the list of fixed or of advice
/// queries.
pub enum Expression<F> {
    Fixed(usize),
    Advice(usize),
    Sum(Box<Expression<F>>, Box<Expression<F>>),
    Product(Box<Expression<F>>, Box<Expression<F>>),
    Scaled(Box<Expression<F>>, F),
}

/// The query structure of a circuit.
pub struct MetaData<F> {
    /// The gates, in the order in which the quotient was built from them.
    pub gates: Vec<Expression<F>>,
    /// The advice queries; an advice leaf and an advice evaluation refer to a
    /// position in this list.
    pub advice_queries: Vec<(AdviceWire, Rotation)>,
    /// The fixed queries.
    pub fixed_queries: Vec<(FixedWire, Rotation)>,
    /// The rotation of each query row; a rotation belongs to the first row
    /// that holds it.
    pub query_rows: Vec<Rotation>,
}

/// The evaluation domain: its size and a root of unity of that order,
/// with the inverse of the root.
pub struct EvaluationDomain<F> {
    pub n: u64,
    pub omega: F,
    pub omega_inv: F,
}

/// The structured reference string of one circuit.
pub struct SRS<C: CurveAffine> {
    pub domain: EvaluationDomain<C::Scalar>,
    pub fixed_commitments: Vec<C>,
    pub meta: MetaData<C::Scalar>,
}

impl<F: PrimeField> Expression<F> {
    /// The value of this expression on the given evaluations, `None` where a leaf
    /// names an evaluation that is not there.
    pub open spec fn value_at(self, fixed: Seq<int>, advice: Seq<int>) -> Option<int>
        decreases self,
    {
        match self {
            Expression::Fixed(i) => if i < fixed.len() {
                Some(fixed[i as int])
            } else {
                None
            },
            Expression::Advice(i) => if i < advice.len() {
                Some(advice[i as int])
            } else {
                None
            },
            Expression::Sum(a, b) => match (a.value_at(fixed, advice), b.value_at(fixed, advice)) {
                (Some(x), Some(y)) => Some(add_mod(x, y, F::modulus())),
                _ => None,
            },
            Expression::Product(a, b) => match (
                a.value_at(fixed, advice),
                b.value_at(fixed, advice),
            ) {
                (Some(x), Some(y)) => Some(mul_mod(x, y, F::modulus())),
                _ => None,
            },
            Expression::Scaled(a, k) => match a.value_at(fixed, advice) {
                Some(x) => Some(mul_mod(x, k.value(), F::modulus())),
                None => None,
            },
        }
    }

    /// Evaluates this expression on the evaluations of a proof.
    pub fn evaluate(&self, fixed: &Vec<F>, advice: &Vec<F>) -> (r: Result<F, Malformed>)
        ensures
            match self.value_at(values(fixed@), values(advice@)) {
                None => r == Err::<F, Malformed>(Malformed::IndexOutOfRange),
                Some(v) => r is Ok && r->Ok_0.value() == v,
            },
        decreases self,
    {
        match self {
            Expression::Fixed(i) => {
                if *i < fixed.len() {
                    Ok(fixed[*i])
                } else {
                    Err(Malformed::IndexOutOfRange)
                }
            },
            Expression::Advice(i) => {
                if *i < advice.len() {
                    Ok(advice[*i])
                } else {
                    Err(Malformed::IndexOutOfRange)
                }
            },
            Expression::Sum(a, b) => {
                let x = a.evaluate(fixed, advice)?;
                let y = b.evaluate(fixed, advice)?;
                Ok(x.add(&y))
            },
            Expression::Product(a, b) => {
                let x = a.evaluate(fixed, advice)?;
                let y = b.evaluate(fixed, advice)?;
                Ok(x.mul(&y))
            },
            Expression::Scaled(a, k) => {
                let x = a.evaluate(fixed, advice)?;
                Ok(x.mul(k))
            },
        }
    }
}

/// The combination of all gate values by Horner's rule in `alpha`, first
/// gate first; `None` where a gate has no value.
pub open spec fn gate_sum<F: PrimeField>(
    gates: Seq<Expression<F>>,
    alpha: int,
    fixed: Seq<int>,
    advice: Seq<int>,
) -> Option<int>
    decreases gates.len(),
{
    if gates.len() == 0 {
        Some(0)
    } else {
        match (gate_sum(gates.drop_last(), alpha, fixed, advice), gates.last().value_at(
            fixed,
            advice,
        )) {
            (Some(acc), Some(v)) => Some(
                add_mod(mul_mod(acc, alpha, F::modulus()), v, F::modulus()),
            ),
            _ => None,
        }
    }
}

/// No gate of a longer list has a value where a shorter list fails.
pub proof fn lemma_gate_sum_prefix<F: PrimeField>(
    gates: Seq<Expression<F>>,
    alpha: int,
    fixed: Seq<int>,
    advice: Seq<int>,
    k: int,
)
    requires
        0 <= k <= gates.len(),
        gate_sum(gates.take(k), alpha, fixed, advice) is None,
    ensures
        gate_sum(gates, alpha, fixed, advice) is None,
    decreases gates.len() - k,
{
    if k < gates.len() {
        assert(gates.take(k + 1).drop_last() == gates.take(k));
        lemma_gate_sum_prefix(gates, alpha, fixed, advice, k + 1);
    } else {
        assert(gates.take(k) == gates);
    }
}

/// Evaluates every gate and combines the values by Horner's rule in `alpha`.
pub fn evaluate_gates<F: PrimeField>(
    gates: &Vec<Expression<F>>,
    alpha: &F,
    fixed: &Vec<F>,
    advice: &Vec<F>,
) -> (r: Result<F, Malformed>)
    ensures
        match gate_sum(gates@, alpha.value(), values(fixed@), values(advice@)) {
            None => r == Err::<F, Malformed>(Malformed::IndexOutOfRange),
            Some(v) => r is Ok && r->Ok_0.value() == v,
        },
{
    let mut acc = F::zero();
    let mut i: usize = 0;
    while i < gates.len()
        invariant
            i <= gates.len(),
            gate_sum(gates@.take(i as int), alpha.value(), values(fixed@), values(advice@))
                == Some(acc.value()),
        decreases gates.len() - i,
    {
        proof {
            assert(gates@.take(i + 1).drop_last() == gates@.take(i as int));
        }
        acc = acc.mul(alpha);
        match gates[i].evaluate(fixed, advice) {
            Err(e) => {
                proof {
                    lemma_gate_sum_prefix(
                        gates@,
                        alpha.value(),
                        values(fixed@),
                        values(advice@),
                        i + 1,
                    );
                }
                return Err(e);
            },
            Ok(v) => {
                acc = acc.add(&v);
            },
        }
        i += 1;
    }
    proof {
        assert(gates@.take(i as int) == gates@);
    }
    Ok(acc)
}

} // verus!
