//! Prime fields with a modulus below two to the power 24.

use crate::field::{is_inverse, le_value, pow_mod, PrimeField};
use vstd::arithmetic::div_mod::{
    lemma_fundamental_div_mod, lemma_mod_add_multiples_vanish, lemma_mod_multiples_basic,
    lemma_mod_multiples_vanish, lemma_mod_self_0, lemma_mod_twice, lemma_mul_mod_noop_general,
    lemma_small_mod,
};
use vstd::arithmetic::power::{
    lemma_pow0, lemma_pow1, lemma_pow_adds, lemma_pow_mod_noop, lemma_pow_multiplies,
    lemma_square_is_pow2, pow,
};
use vstd::prelude::*;

verus! {

/// `d` divides `x`.
pub open spec fn divides(d: int, x: int) -> bool {
    d > 0 && x % d == 0
}

/// `p` has no divisor strictly between one and itself.
pub open spec fn is_prime(p: int) -> bool {
    p > 1 && forall|d: int| 1 < d < p ==> !#[trigger] divides(d, p)
}

/// A cofactor of a divisor is a divisor.
proof fn lemma_cofactor(d: int, p: int)
    requires
        1 < d < p,
        divides(d, p),
    ensures
        1 < p / d < p,
        divides(p / d, p),
        d * (p / d) == p,
{
    lemma_fundamental_div_mod(p, d);
    let e = p / d;
    assert(d * e == p);
    assert(1 < e < p) by (nonlinear_arith)
        requires
            d * e == p,
            1 < d < p,
    ;
    lemma_mod_multiples_basic(d, e);
}

/// A number without a divisor between two and `bound`, where the square of
/// `bound + 1` exceeds it, is prime.
proof fn lemma_prime_by_trial(p: int, bound: int)
    requires
        p > 1,
        bound >= 1,
        (bound + 1) * (bound + 1) > p,
        forall|d: int| 1 < d <= bound ==> !#[trigger] divides(d, p),
    ensures
        is_prime(p),
{
    assert forall|d: int| 1 < d < p implies !#[trigger] divides(d, p) by {
        if divides(d, p) {
            lemma_cofactor(d, p);
            let e = p / d;
            if d > bound && e > bound {
                assert((bound + 1) * (bound + 1) <= d * e) by (nonlinear_arith)
                    requires
                        bound >= 1,
                        d >= bound + 1,
                        e >= bound + 1,
                ;
            }
            if d <= bound {
                assert(!divides(d, p));
            } else {
                assert(!divides(e, p));
            }
        }
    }
}

/// 65537 is prime.
pub proof fn lemma_65537_is_prime()
    ensures
        is_prime(65537),
{
    assert forall|d: int| 1 < d <= 256 implies !#[trigger] divides(d, 65537) by {
        let f = d as u32;
        assert(65537u32 % f != 0) by (bit_vector)
            requires
                1 < f && f <= 256,
        ;
    }
    lemma_prime_by_trial(65537, 256);
}

/// 65521 is prime.
pub proof fn lemma_65521_is_prime()
    ensures
        is_prime(65521),
{
    assert forall|d: int| 1 < d <= 255 implies !#[trigger] divides(d, 65521) by {
        let f = d as u32;
        assert(65521u32 % f != 0) by (bit_vector)
            requires
                1 < f && f <= 255,
        ;
    }
    lemma_prime_by_trial(65521, 255);
}

/// A multiple of `x` plus `y` is divisible by what divides both.
proof fn lemma_divides_combination(d: int, q: int, x: int, y: int)
    requires
        divides(d, x),
        divides(d, y),
    ensures
        divides(d, q * x + y),
{
    lemma_fundamental_div_mod(x, d);
    lemma_fundamental_div_mod(y, d);
    let u = x / d;
    let v = y / d;
    assert(q * x + y == d * (q * u + v)) by (nonlinear_arith)
        requires
            x == d * u,
            y == d * v,
    ;
    lemma_mod_multiples_basic(q * u + v, d);
    assert((q * u + v) * d == d * (q * u + v)) by (nonlinear_arith);
}

/// A positive number is not below its positive divisors.
proof fn lemma_divisor_bound(d: int, x: int)
    requires
        d > 0,
        x > 0,
        divides(d, x),
    ensures
        d <= x,
{
    if d > x {
        lemma_small_mod(x as nat, d as nat);
    }
}

/// One round of square-and-multiply keeps the product of the result and of
/// the pending power.
proof fn lemma_pow_step(result: int, base: int, e: nat, p: int)
    requires
        p > 1,
        e > 0,
    ensures
        ((if e % 2 == 1 {
            (result * base) % p
        } else {
            result
        }) * pow((base * base) % p, e / 2)) % p == (result * pow(base, e)) % p,
{
    let h = e / 2;
    let bb = base * base;
    let r2 = if e % 2 == 1 {
        (result * base) % p
    } else {
        result
    };
    let f = if e % 2 == 1 {
        result * base
    } else {
        result
    };
    // the pending power, with the base squared
    assert(pow(bb % p, h) % p == pow(bb, h) % p) by {
        lemma_pow_mod_noop(bb, h, p);
    }
    assert(pow(bb, h) == pow(base, 2 * h)) by {
        lemma_square_is_pow2(base);
        lemma_pow_multiplies(base, 2, h);
    }
    assert(r2 % p == f % p) by {
        lemma_mod_twice(result * base, p);
    }
    assert((r2 * pow(bb % p, h)) % p == (f * pow(bb, h)) % p) by {
        lemma_mul_mod_noop_general(r2, pow(bb % p, h), p);
        lemma_mul_mod_noop_general(f, pow(bb, h), p);
    }
    if e % 2 == 1 {
        assert(pow(base, e) == pow(base, 2 * h) * base) by {
            lemma_pow_adds(base, 2 * h, 1);
            lemma_pow1(base);
        }
        assert(f * pow(bb, h) == result * pow(base, e)) by (nonlinear_arith)
            requires
                f == result * base,
                pow(bb, h) == pow(base, 2 * h),
                pow(base, e) == pow(base, 2 * h) * base,
        ;
    } else {
        assert(2 * h == e);
    }
}

/// `a` to the power `e` modulo `p`, by squaring.
pub(crate) fn pow_small(a: u64, e: u64, p: u64) -> (r: u64)
    requires
        1 < p < 0x100_0000,
        a < p,
    ensures
        r == pow_mod(a as int, e as nat, p as int),
{
    let mut result: u64 = 1;
    let mut base: u64 = a;
    let mut pending: u64 = e;
    proof {
        lemma_small_mod(1, p as nat);
        assert(1 * pow(a as int, e as nat) == pow(a as int, e as nat));
    }
    while pending > 0
        invariant
            1 < p < 0x100_0000,
            result < p,
            base < p,
            (result * pow(base as int, pending as nat)) % (p as int) == pow(a as int, e as nat) % (
            p as int),
        decreases pending,
    {
        proof {
            lemma_pow_step(result as int, base as int, pending as nat, p as int);
            assert(result * base < 0x100_0000 * 0x100_0000) by (nonlinear_arith)
                requires
                    result < 0x100_0000,
                    base < 0x100_0000,
            ;
            assert(base * base < 0x100_0000 * 0x100_0000) by (nonlinear_arith)
                requires
                    base < 0x100_0000,
            ;
        }
        if pending % 2 == 1 {
            result = result * base % p;
        }
        base = base * base % p;
        pending = pending / 2;
    }
    proof {
        lemma_pow0(base as int);
        assert(result * 1 == result);
        lemma_small_mod(result as nat, p as nat);
    }
    result
}

/// The inverse of a non-zero residue modulo a prime, by the extended
/// Euclidean algorithm.
fn invert_small(a: u64, p: u64) -> (r: u64)
    requires
        is_prime(p as int),
        p < 0x100_0000,
        0 < a < p,
    ensures
        is_inverse(a as int, r as int, p as int),
{
    let mut r0: u64 = p;
    let mut r1: u64 = a;
    let mut s0: u64 = 0;
    let mut s1: u64 = 1;
    let ghost mut k0: int = -1;
    let ghost mut k1: int = 0;
    while r1 != 0
        invariant
            p < 0x100_0000,
            0 < a < p,
            0 <= r1 < r0 <= p,
            s0 < p,
            s1 < p,
            s0 * a - r0 == k0 * p,
            s1 * a - r1 == k1 * p,
            forall|d: int|
                1 < d && #[trigger] divides(d, r0 as int) && divides(d, r1 as int) ==> divides(
                    d,
                    p as int,
                ) && divides(d, a as int),
        decreases r1,
    {
        let q = r0 / r1;
        let r2 = r0 % r1;
        proof {
            lemma_fundamental_div_mod(r0 as int, r1 as int);
            assert(q * s1 < 0x100_0000 * 0x100_0000) by (nonlinear_arith)
                requires
                    q < 0x100_0000,
                    s1 < 0x100_0000,
            ;
        }
        let t = (q * s1) % p;
        let s2 = (s0 + p - t) % p;
        proof {
            let j = ((q * s1) as int) / (p as int);
            let m = ((s0 + p - t) as int) / (p as int);
            lemma_fundamental_div_mod((q * s1) as int, p as int);
            lemma_fundamental_div_mod((s0 + p - t) as int, p as int);
            let k2 = k0 - q * k1 + (1 - m + j) * a;
            assert(r0 == r1 * q + r2);
            assert(s2 * a - r2 == k2 * p) by (nonlinear_arith)
                requires
                    s0 * a - r0 == k0 * p,
                    s1 * a - r1 == k1 * p,
                    q * s1 == p * j + t,
                    s0 + p - t == p * m + s2,
                    r0 == r1 * q + r2,
                    k2 == k0 - q * k1 + (1 - m + j) * a,
            ;
            assert forall|d: int|
                1 < d && #[trigger] divides(d, r1 as int) && divides(d, r2 as int) implies divides(
                d,
                p as int,
            ) && divides(d, a as int) by {
                lemma_divides_combination(d, q as int, r1 as int, r2 as int);
                assert(q * r1 + r2 == r0) by (nonlinear_arith)
                    requires
                        r0 == r1 * q + r2,
                ;
                assert(divides(d, r0 as int));
            }
            k0 = k1;
            k1 = k2;
        }
        r0 = r1;
        r1 = r2;
        s0 = s1;
        s1 = s2;
    }
    proof {
        if r0 > 1 {
            lemma_mod_self_0(r0 as int);
            assert(divides(r0 as int, r0 as int));
            assert(divides(r0 as int, r1 as int));
            lemma_divisor_bound(r0 as int, a as int);
            assert(!divides(r0 as int, p as int));
        }
        assert(r0 == 1);
        assert(a * s0 == p * k0 + 1) by (nonlinear_arith)
            requires
                s0 * a - 1 == k0 * p,
        ;
        lemma_mod_multiples_vanish(k0, 1, p as int);
        lemma_small_mod(1, p as nat);
    }
    s0
}

/// A prime below two to the power 24, as a type.
pub trait Modulus: Sized + Copy {
    /// The prime.
    spec fn prime() -> int;

    /// The one value of the type.
    spec fn unit() -> Self;

    proof fn lemma_prime()
        ensures
            is_prime(Self::prime()),
            Self::prime() < 0x100_0000,
    ;

    fn modulus() -> (p: u64)
        ensures
            p == Self::prime(),
    ;

    fn marker() -> (m: Self)
        ensures
            m == Self::unit(),
    ;
}

/// The prime 65537, of which every power of two up to the sixteenth divides
/// the predecessor.
#[derive(Clone, Copy, Debug, PartialEq, Eq)]
pub struct ScalarModulus;

/// The prime 65521, the largest below two to the power 16.
#[derive(Clone, Copy, Debug, PartialEq, Eq)]
pub struct BaseModulus;

impl Modulus for ScalarModulus {
    open spec fn prime() -> int {
        65537
    }

    open spec fn unit() -> Self {
        ScalarModulus
    }

    proof fn lemma_prime() {
        lemma_65537_is_prime();
    }

    fn modulus() -> (p: u64) {
        65537
    }

    fn marker() -> (m: Self) {
        ScalarModulus
    }
}

impl Modulus for BaseModulus {
    open spec fn prime() -> int {
        65521
    }

    open spec fn unit() -> Self {
        BaseModulus
    }

    proof fn lemma_prime() {
        lemma_65521_is_prime();
    }

    fn modulus() -> (p: u64) {
        65521
    }

    fn marker() -> (m: Self) {
        BaseModulus
    }
}

/// An element of the field of integers modulo the prime `M`.
#[derive(Clone, Copy, Debug, PartialEq, Eq)]
pub struct Fp<M: Modulus> {
    v: u64,
    m: M,
}

/// The field of scalars of the small instantiation.
pub type Scalar = Fp<ScalarModulus>;

/// The field of coordinates of the small instantiation.
pub type Base = Fp<BaseModulus>;

/// Three bytes spell their little-endian value.
proof fn lemma_le_value_3(bytes: Seq<u8>)
    requires
        bytes.len() == 3,
    ensures
        le_value(bytes) == bytes[0] + 256 * bytes[1] + 65536 * bytes[2],
{
    let b1 = bytes.drop_first();
    let b2 = b1.drop_first();
    let b3 = b2.drop_first();
    assert(b3.len() == 0);
    assert(le_value(b3) == 0);
    assert(le_value(b2) == bytes[2] as int + 256 * le_value(b3));
    assert(le_value(b1) == bytes[1] as int + 256 * le_value(b2));
    assert(le_value(bytes) == bytes[0] as int + 256 * le_value(b1));
}

impl<M: Modulus> Fp<M> {
    /// The element that `v` stands for.
    pub fn new(v: u64) -> (r: Self)
        ensures
            r.value() == (v as int) % M::prime(),
    {
        proof {
            M::lemma_prime();
            lemma_mod_twice(v as int, M::prime());
        }
        Fp { v: v % M::modulus(), m: M::marker() }
    }

    /// The canonical representative.
    pub fn to_u64(&self) -> (r: u64)
        ensures
            r == self.value(),
            r < M::prime(),
            r < 0x100_0000,
    {
        proof {
            M::lemma_prime();
        }
        self.v % M::modulus()
    }

    /// The element with the canonical representative `v`.
    fn canonical(v: u64) -> (r: Self)
        requires
            v < M::prime(),
        ensures
            r.value() == v,
    {
        proof {
            M::lemma_prime();
            lemma_small_mod(v as nat, M::prime() as nat);
        }
        Fp { v, m: M::marker() }
    }
}

impl<M: Modulus> PrimeField for Fp<M> {
    open spec fn modulus() -> int {
        M::prime()
    }

    closed spec fn value(&self) -> int {
        (self.v as int) % M::prime()
    }

    open spec fn byte_len() -> nat {
        3
    }

    proof fn lemma_modulus() {
        M::lemma_prime();
    }

    proof fn lemma_value_range(&self) {
        M::lemma_prime();
    }

    fn zero() -> (r: Self) {
        proof {
            M::lemma_prime();
        }
        Self::canonical(0)
    }

    fn one() -> (r: Self) {
        proof {
            M::lemma_prime();
        }
        Self::canonical(1)
    }

    fn add(&self, rhs: &Self) -> (r: Self) {
        let p = M::modulus();
        Self::canonical((self.to_u64() + rhs.to_u64()) % p)
    }

    fn sub(&self, rhs: &Self) -> (r: Self) {
        let p = M::modulus();
        let a = self.to_u64();
        let b = rhs.to_u64();
        proof {
            M::lemma_prime();
            lemma_mod_add_multiples_vanish(a - b, p as int);
        }
        Self::canonical((a + p - b) % p)
    }

    fn mul(&self, rhs: &Self) -> (r: Self) {
        let p = M::modulus();
        let a = self.to_u64();
        let b = rhs.to_u64();
        proof {
            assert(a * b < 0x100_0000 * 0x100_0000) by (nonlinear_arith)
                requires
                    a < 0x100_0000,
                    b < 0x100_0000,
            ;
        }
        Self::canonical((a * b) % p)
    }

    fn invert(&self) -> (r: Option<Self>) {
        let a = self.to_u64();
        if a == 0 {
            None
        } else {
            proof {
                M::lemma_prime();
            }
            Some(Self::canonical(invert_small(a, M::modulus())))
        }
    }

    fn pow(&self, exp: u64) -> (r: Self) {
        proof {
            M::lemma_prime();
        }
        Self::canonical(pow_small(self.to_u64(), exp, M::modulus()))
    }

    fn is_equal(&self, rhs: &Self) -> (b: bool) {
        self.to_u64() == rhs.to_u64()
    }

    fn from_u128(v: u128) -> (r: Self) {
        proof {
            M::lemma_prime();
        }
        let p = M::modulus();
        Self::canonical((v % (p as u128)) as u64)
    }

    fn get_lower_128(&self) -> (r: u128) {
        self.to_u64() as u128
    }

    fn to_bytes(&self) -> (bytes: Vec<u8>) {
        let a = self.to_u64();
        let mut bytes: Vec<u8> = Vec::new();
        bytes.push((a % 256) as u8);
        bytes.push(((a / 256) % 256) as u8);
        bytes.push((a / 65536) as u8);
        proof {
            lemma_le_value_3(bytes@);
        }
        bytes
    }

    fn from_bytes(bytes: &Vec<u8>) -> (r: Option<Self>) {
        if bytes.len() != 3 {
            return None;
        }
        proof {
            lemma_le_value_3(bytes@);
        }
        let v: u64 = bytes[0] as u64 + 256 * (bytes[1] as u64) + 65536 * (bytes[2] as u64);
        if v < M::modulus() {
            Some(Self::canonical(v))
        } else {
            None
        }
    }
}

} // verus!
