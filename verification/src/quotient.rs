//! The quotient identity: the combined gate value, divided by the vanishing
//! polynomial of the domain, is the value of the quotient polynomial that the
//! prover committed to in chunks.

use crate::error::Malformed;
use crate::field::{add_mod, div_mod, divide, mul_mod, pow_mod, sub_mod, values, PrimeField};
use vstd::arithmetic::div_mod::{
    lemma_add_mod_noop, lemma_mul_mod_noop_general, lemma_small_mod,
};
use vstd::arithmetic::power::{lemma_pow0, lemma_pow1, lemma_pow_adds, pow};
use vstd::prelude::*;

verus! {

/// The sum of `chunks[i] * base^i` over all `i`.
pub open spec fn weighted_sum(chunks: Seq<int>, base: int) -> int
    decreases chunks.len(),
{
    if chunks.len() == 0 {
        0
    } else {
        weighted_sum(chunks.drop_last(), base) + chunks.last() * pow(
            base,
            (chunks.len() - 1) as nat,
        )
    }
}

/// The value at the evaluation point of the polynomial whose chunks have the
/// values `chunks` there, where `zn` is the point raised to the chunk size.
pub open spec fn quotient_value(chunks: Seq<int>, zn: int, p: int) -> int {
    weighted_sum(chunks, zn) % p
}

/// The outcome of the identity check at the point `z` on a domain of size
/// `n`: an error where `z` lies in the domain, else whether the combined
/// gate value over `z^n - 1` is the reconstructed quotient value.
pub open spec fn quotient_identity(gate_sum: int, z: int, n: nat, chunks: Seq<int>, p: int)
    -> Result<bool, Malformed> {
    let zn = pow_mod(z, n, p);
    if sub_mod(zn, 1, p) == 0 {
        Err(Malformed::ZeroDenominator)
    } else {
        Ok(div_mod(gate_sum, sub_mod(zn, 1, p), p) == quotient_value(chunks, zn, p))
    }
}

/// One more chunk adds its value times the next power of the base.
proof fn lemma_weighted_sum_step(chunks: Seq<int>, base: int, k: int, p: int, acc: int, cur: int)
    requires
        p > 1,
        0 <= k < chunks.len(),
        acc == weighted_sum(chunks.take(k), base) % p,
        cur == pow(base, k as nat) % p,
    ensures
        add_mod(acc, mul_mod(cur, chunks[k], p), p) == weighted_sum(chunks.take(k + 1), base) % p,
        mul_mod(cur, base, p) == pow(base, (k + 1) as nat) % p,
{
    let w = weighted_sum(chunks.take(k), base);
    let pk = pow(base, k as nat);
    assert(chunks.take(k + 1).drop_last() == chunks.take(k));
    assert(weighted_sum(chunks.take(k + 1), base) == w + chunks[k] * pk);
    assert((cur * chunks[k]) % p == (pk * chunks[k]) % p) by {
        lemma_mul_mod_noop_general(pk, chunks[k], p);
    }
    assert(pk * chunks[k] == chunks[k] * pk) by (nonlinear_arith);
    assert((acc + (cur * chunks[k]) % p) % p == (w + chunks[k] * pk) % p) by {
        lemma_add_mod_noop(w, chunks[k] * pk, p);
    }
    assert((cur * base) % p == (pk * base) % p) by {
        lemma_mul_mod_noop_general(pk, base, p);
    }
    assert(pow(base, (k + 1) as nat) == pk * base) by {
        lemma_pow_adds(base, k as nat, 1);
        lemma_pow1(base);
    }
}

/// Reconstructs the value of the quotient polynomial from the values of its
/// chunks.
pub fn reconstruct_quotient<F: PrimeField>(chunks: &Vec<F>, zn: &F) -> (r: F)
    ensures
        r.value() == quotient_value(values(chunks@), zn.value(), F::modulus()),
{
    let mut acc = F::zero();
    let mut cur = F::one();
    let mut i: usize = 0;
    proof {
        F::lemma_modulus();
        lemma_pow0(zn.value());
        lemma_small_mod(0, F::modulus() as nat);
        lemma_small_mod(1, F::modulus() as nat);
    }
    while i < chunks.len()
        invariant
            i <= chunks.len(),
            F::modulus() > 1,
            acc.value() == weighted_sum(values(chunks@).take(i as int), zn.value()) % F::modulus(),
            cur.value() == pow(zn.value(), i as nat) % F::modulus(),
        decreases chunks.len() - i,
    {
        proof {
            lemma_weighted_sum_step(
                values(chunks@),
                zn.value(),
                i as int,
                F::modulus(),
                acc.value(),
                cur.value(),
            );
        }
        acc = acc.add(&cur.mul(&chunks[i]));
        cur = cur.mul(zn);
        i += 1;
    }
    proof {
        assert(values(chunks@).take(i as int) == values(chunks@));
    }
    acc
}

/// Checks the quotient identity at the point `z`.
pub fn check_quotient<F: PrimeField>(gate_sum: &F, z: &F, n: u64, chunks: &Vec<F>) -> (r: Result<
    bool,
    Malformed,
>)
    ensures
        r == quotient_identity(
            gate_sum.value(),
            z.value(),
            n as nat,
            values(chunks@),
            F::modulus(),
        ),
{
    let zn = z.pow(n);
    let denominator = zn.sub(&F::one());
    match divide(gate_sum, &denominator) {
        None => Err(Malformed::ZeroDenominator),
        Some(expected) => {
            let actual = reconstruct_quotient(chunks, &zn);
            Ok(expected.is_equal(&actual))
        },
    }
}

} // verus!
