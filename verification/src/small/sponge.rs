//! An algebraic sponge over a small prime field.

use crate::field::{add_mod, pow_mod, PrimeField};
use crate::small::field::{pow_small, Fp, Modulus};
use crate::transcript::Hasher;
use vstd::arithmetic::div_mod::lemma_small_mod;
use vstd::prelude::*;

verus! {

/// The permutation of the sponge: the eleventh power, plus five.
pub open spec fn permute(x: int, p: int) -> int {
    add_mod(pow_mod(x, 11, p), 5, p)
}

/// A sponge whose state is one element of the field of the prime `M`.
#[derive(Clone, Copy, Debug, PartialEq, Eq)]
pub struct Sponge<M: Modulus> {
    state: u64,
    m: M,
}

impl<M: Modulus> Sponge<M> {
    /// The element that the state is.
    pub open spec fn residue(&self) -> int {
        (self.repr() as int) % M::prime()
    }

    /// The number that the state is held as.
    pub closed spec fn repr(&self) -> u64 {
        self.state
    }

    /// The state after one more element entered it.
    pub closed spec fn stirred(self, v: int) -> Self {
        Sponge {
            state: permute(add_mod(self.residue(), v, M::prime()), M::prime()) as u64,
            m: self.m,
        }
    }

    /// The state, as a canonical representative.
    pub fn state(&self) -> (r: u64)
        ensures
            r == self.residue(),
    {
        proof {
            M::lemma_prime();
        }
        self.state % M::modulus()
    }

    /// Adds `v` to the state and permutes it.
    fn stir(&mut self, v: u64)
        requires
            v < M::prime(),
        ensures
            *final(self) == old(self).stirred(v as int),
    {
        proof {
            M::lemma_prime();
        }
        let p = M::modulus();
        let x = (self.state % p + v) % p;
        self.state = (pow_small(x, 11, p) + 5) % p;
    }
}

impl<M: Modulus> Hasher<Fp<M>> for Sponge<M> {
    closed spec fn initial(key: int) -> Self {
        Sponge { state: (key % M::prime()) as u64, m: M::unit() }
    }

    closed spec fn absorbed(self, value: int) -> Self {
        self.stirred(value)
    }

    closed spec fn squeezed(self) -> (Self, int) {
        (self.stirred(1), self.stirred(1).residue())
    }

    fn init(key: Fp<M>) -> (t: Self) {
        proof {
            M::lemma_prime();
            key.lemma_value_range();
            lemma_small_mod(key.value() as nat, M::prime() as nat);
        }
        Sponge { state: key.to_u64(), m: M::marker() }
    }

    fn absorb(&mut self, value: Fp<M>) {
        self.stir(value.to_u64());
    }

    fn squeeze(&mut self) -> (out: Fp<M>) {
        proof {
            M::lemma_prime();
        }
        self.stir(1);
        let out = self.state();
        proof {
            lemma_small_mod(out as nat, M::prime() as nat);
        }
        Fp::new(out)
    }
}

} // verus!
