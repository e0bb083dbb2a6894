//! Verifier for PLONK-style proofs over an abstract prime-order curve.
//!
//! The crate checks a proof against a structured reference string: it
//! re-derives every Fiat-Shamir challenge, checks the quotient identity of the
//! custom gates, folds all opening queries into a single one and hands that
//! query to a polynomial commitment scheme.
//!
//! The field, the curve, the sponge and the commitment scheme are interfaces
//! ([`field::PrimeField`], [`curve::CurveAffine`], [`transcript::Hasher`],
//! [`polycommit::OpeningVerifier`]); what the verifier computes is stated over
//! their specification functions. The entry point is [`plonk::Proof::verify`],
//! whose outcome is [`plonk::Proof::verdict`]. The module [`laws`] holds what
//! follows from the definitions, and [`small`] an instantiation of all four
//! interfaces that is small enough to follow by hand.

pub mod aggregate;
pub mod circuit;
pub mod curve;
pub mod error;
pub mod field;
pub mod laws;
pub mod plonk;
pub mod polycommit;
pub mod quotient;
pub mod small;
pub mod transcript;
