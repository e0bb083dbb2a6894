//! A small instantiation of the verifier's interfaces.
//!
//! Two prime fields of seventeen and sixteen bits, the additive group of the
//! larger one in the role of the curve, an algebraic sponge and an opening
//! scheme with a known trapdoor. None of it is secure; all of it is exact,
//! which makes whole verifications computable by hand.

pub mod field;
pub mod group;
pub mod opening;
pub mod sponge;
