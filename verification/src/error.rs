//! The structural failures of a verification.

use vstd::prelude::*;

verus! {

/// Why an input could not be verified at all.
///
/// A proof that is well formed but wrong is not an error: the verifier
/// answers `Ok(false)` for it. An error says that the proof or the key
/// material is structurally unusable.
#[derive(Clone, Copy, Debug, PartialEq, Eq, Structural)]
pub enum Malformed {
    /// The size in the parameters does not fit the evaluation domain.
    DomainMismatch,
    /// A commitment is the identity point.
    IdentityPoint,
    /// A field element has no canonical encoding in the other field.
    InvalidEncoding,
    /// A gate leaf, a wire or a query names an entry that is not there.
    IndexOutOfRange,
    /// A rotation has no query row, or a query row has no opening.
    QueryRowOutOfRange,
    /// A division by zero.
    ZeroDenominator,
}

} // verus!
