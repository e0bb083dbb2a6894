//! Prime-field arithmetic as seen by the verifier.
//!
//! A field element is modelled by its canonical representative, an integer
//! in `0..p`. The functions `add_mod`, `mul_mod`, ... give the arithmetic on
//! representatives, and [`PrimeField`] is the interface that an executable
//! field has to offer.

use vstd::arithmetic::div_mod::{
    lemma_mul_mod_noop_left, lemma_mul_mod_noop_right, lemma_small_mod,
};
use vstd::arithmetic::power::pow;
use vstd::prelude::*;

verus! {

/// Sum of two representatives modulo `p`.
pub open spec fn add_mod(a: int, b: int, p: int) -> int {
    (a + b) % p
}

/// Difference of two representatives modulo `p`.
pub open spec fn sub_mod(a: int, b: int, p: int) -> int {
    (a - b) % p
}

/// Product of two representatives modulo `p`.
pub open spec fn mul_mod(a: int, b: int, p: int) -> int {
    (a * b) % p
}

/// `a` raised to the power `e`, modulo `p`.
pub open spec fn pow_mod(a: int, e: nat, p: int) -> int {
    pow(a, e) % p
}

/// `i` is the canonical multiplicative inverse of `a` modulo `p`.
pub open spec fn is_inverse(a: int, i: int, p: int) -> bool {
    0 <= i < p && (a * i) % p == 1
}

/// The multiplicative inverse of `a` modulo `p`, where there is one.
pub open spec fn inv_mod(a: int, p: int) -> int {
    choose|i: int| is_inverse(a, i, p)
}

/// The quotient `a / b` modulo `p`, meaningful where `b` is invertible.
pub open spec fn div_mod(a: int, b: int, p: int) -> int {
    mul_mod(a, inv_mod(b, p), p)
}

/// Two to the power 128.
pub open spec fn two_pow_128() -> int {
    0x1_0000_0000_0000_0000_0000_0000_0000_0000int
}

/// The integer that `bytes` spell in little-endian order.
pub open spec fn le_value(bytes: Seq<u8>) -> int
    decreases bytes.len(),
{
    if bytes.len() == 0 {
        0
    } else {
        bytes[0] as int + 256 * le_value(bytes.drop_first())
    }
}

/// The representatives of a sequence of field elements.
pub open spec fn values<F: PrimeField>(elems: Seq<F>) -> Seq<int> {
    Seq::new(elems.len(), |i: int| elems[i].value())
}

/// A multiplicative inverse modulo `p` is unique among the canonical
/// representatives.
pub proof fn lemma_inverse_unique(a: int, i: int, j: int, p: int)
    requires
        p > 1,
        is_inverse(a, i, p),
        is_inverse(a, j, p),
    ensures
        i == j,
{
    // i == i * (a * j) == (i * a) * j == j  (mod p)
    assert((i * ((a * j) % p)) % p == (i * (a * j)) % p) by {
        lemma_mul_mod_noop_right(i, a * j, p);
    }
    assert((((a * i) % p) * j) % p == ((a * i) * j) % p) by {
        lemma_mul_mod_noop_left(a * i, j, p);
    }
    assert(i * (a * j) == (a * i) * j) by (nonlinear_arith);
    assert(i * 1 == i && 1 * j == j);
    lemma_small_mod(i as nat, p as nat);
    lemma_small_mod(j as nat, p as nat);
}

/// Where `i` inverts `a`, it is the value of `inv_mod`.
pub proof fn lemma_inverse_is_inv_mod(a: int, i: int, p: int)
    requires
        p > 1,
        is_inverse(a, i, p),
    ensures
        inv_mod(a, p) == i,
{
    lemma_inverse_unique(a, i, inv_mod(a, p), p);
}

/// An executable prime field `Z/p`.
///
/// Every operation is specified on canonical representatives. `invert`
/// succeeds on every non-zero element, so an implementation exists only for a
/// prime modulus.
pub trait PrimeField: Sized + Copy {
    /// The order `p` of the field.
    spec fn modulus() -> int;

    /// The canonical representative of an element.
    spec fn value(&self) -> int;

    /// The number of bytes of the canonical encoding.
    spec fn byte_len() -> nat;

    proof fn lemma_modulus()
        ensures
            Self::modulus() > 1,
    ;

    proof fn lemma_value_range(&self)
        ensures
            0 <= self.value() < Self::modulus(),
    ;

    fn zero() -> (r: Self)
        ensures
            r.value() == 0,
    ;

    fn one() -> (r: Self)
        ensures
            r.value() == 1,
    ;

    fn add(&self, rhs: &Self) -> (r: Self)
        ensures
            r.value() == add_mod(self.value(), rhs.value(), Self::modulus()),
    ;

    fn sub(&self, rhs: &Self) -> (r: Self)
        ensures
            r.value() == sub_mod(self.value(), rhs.value(), Self::modulus()),
    ;

    fn mul(&self, rhs: &Self) -> (r: Self)
        ensures
            r.value() == mul_mod(self.value(), rhs.value(), Self::modulus()),
    ;

    /// The multiplicative inverse; `None` exactly for zero.
    fn invert(&self) -> (r: Option<Self>)
        ensures
            r is None <==> self.value() == 0,
            r matches Some(i) ==> is_inverse(self.value(), i.value(), Self::modulus()),
    ;

    fn pow(&self, exp: u64) -> (r: Self)
        ensures
            r.value() == pow_mod(self.value(), exp as nat, Self::modulus()),
    ;

    fn is_equal(&self, rhs: &Self) -> (b: bool)
        ensures
            b == (self.value() == rhs.value()),
    ;

    /// The element that a 128-bit integer stands for.
    fn from_u128(v: u128) -> (r: Self)
        ensures
            r.value() == (v as int) % Self::modulus(),
    ;

    /// The low 128 bits of the canonical representative.
    fn get_lower_128(&self) -> (r: u128)
        ensures
            r as int == self.value() % two_pow_128(),
    ;

    /// The canonical little-endian encoding.
    fn to_bytes(&self) -> (bytes: Vec<u8>)
        ensures
            bytes@.len() == Self::byte_len(),
            le_value(bytes@) == self.value(),
    ;

    /// Decodes a canonical encoding; fails on a wrong length and on an
    /// integer that is not below the modulus.
    fn from_bytes(bytes: &Vec<u8>) -> (r: Option<Self>)
        ensures
            r is Some <==> bytes@.len() == Self::byte_len() && le_value(bytes@) < Self::modulus(),
            r matches Some(x) ==> x.value() == le_value(bytes@),
    ;
}

/// The quotient of two elements, `None` where the divisor is zero.
pub fn divide<F: PrimeField>(a: &F, b: &F) -> (r: Option<F>)
    ensures
        r is None <==> b.value() == 0,
        r matches Some(q) ==> q.value() == div_mod(a.value(), b.value(), F::modulus()),
{
    match b.invert() {
        None => None,
        Some(i) => {
            proof {
                F::lemma_modulus();
                lemma_inverse_is_inv_mod(b.value(), i.value(), F::modulus());
            }
            Some(a.mul(&i))
        },
    }
}

} // verus!
