//! A threshold BLS signature core built from Shamir secret sharing, Feldman
//! verifiable secret sharing and an additive multi-dealer key generation step.
//!
//! A dealer's secret is the constant term `f(0)` of a polynomial over the
//! BLS12-381 scalar field; participants hold points `(x, f(x))`.  Public
//! commitments `a_i * G` let everyone check shares without learning the
//! coefficients, and Lagrange interpolation at the origin recombines any
//! threshold-sized subset of signature shares into the group signature
//! `h(0) * M`, which is checked against the public key `h(0) * G` by a
//! pairing equality.
//!
//! The curve itself (field arithmetic, the two point groups, the pairing and
//! hash-to-curve) is an outside collaborator; everything stated about it is
//! gathered in the `curve` module.

pub mod commit;
pub mod curve;
pub mod lagrange;
pub mod poly;
pub mod round;

use vstd::prelude::*;

verus! {

/// Errors surfaced by the threshold-signature core.  Every fallible public
/// function says in its contract exactly which variant comes back on which
/// inputs.
#[derive(Clone, Copy, Debug, PartialEq, Eq, Structural)]
pub enum Error {
    /// Two polynomials or commitments of unequal length were combined.
    DegreeMismatch,
    /// An interpolation set held `x = 0` or a repeated abscissa.
    DuplicateOrZeroAbscissa,
    /// A Lagrange coefficient for the chosen abscissas is not an integer.
    NonIntegerCoefficient,
    /// A single signature share failed the pairing check.
    InvalidShare,
    /// Fewer valid shares remained than the threshold requires.
    InsufficientShares,
    /// The aggregated signature failed the final pairing check.
    VerificationFailed,
}

} // verus!
