//! The trusted boundary to the BLS12-381 curve library.
//!
//! `bls12_381`'s `G1Projective`, `G2Projective` and the pairing target `Gt`
//! all represent elements of cyclic groups of the same prime order, the order
//! of the scalar field (`bls12_381::Scalar` is the field of that many
//! elements).  An element of a cyclic group is determined by its discrete
//! logarithm with respect to the group's fixed generator, so each opaque
//! curve value is modelled here by that logarithm, reduced into
//! `[0, group_order())`.  Every wrapper below states what the one curve
//! operation it calls does to those logarithms; all of the library's proofs
//! rest on these contracts.

use vstd::prelude::*;

use bls12_381::hash_to_curve::ExpandMsgXmd;
use bls12_381::hash_to_curve::HashToCurve;
use bls12_381::G1Affine;
use bls12_381::G1Projective;
use bls12_381::G2Affine;
use bls12_381::G2Projective;
use bls12_381::Gt;
use bls12_381::Scalar;

verus! {

#[verifier::external_type_specification]
#[verifier::external_body]
pub struct ExScalar(Scalar);

#[verifier::external_type_specification]
#[verifier::external_body]
pub struct ExG1Projective(G1Projective);

#[verifier::external_type_specification]
#[verifier::external_body]
pub struct ExG2Projective(G2Projective);

#[verifier::external_type_specification]
#[verifier::external_body]
pub struct ExGt(Gt);

/// The order of the BLS12-381 scalar field, which is also the order of the
/// groups behind `G1Projective`, `G2Projective` and `Gt`.
pub open spec fn group_order() -> int {
    0x73eda753299d7d483339d80809a1d80553bda402fffe5bfeffffffff00000001int
}

/// The integer a `Scalar` stands for.
pub uninterp spec fn scalar_rep(s: Scalar) -> int;

/// The discrete logarithm of a `G1Projective` value with respect to the
/// G1 generator.
pub uninterp spec fn g1_rep(p: G1Projective) -> int;

/// The discrete logarithm of a `G2Projective` value with respect to the
/// G2 generator.
pub uninterp spec fn g2_rep(p: G2Projective) -> int;

/// The discrete logarithm of a `Gt` value with respect to the pairing of the
/// two generators.
pub uninterp spec fn gt_rep(t: Gt) -> int;

/// The discrete logarithm of the point that hashing `msg` under domain
/// separation tag `dst` yields; hash-to-curve is a deterministic function of
/// these two byte strings alone.
pub uninterp spec fn hash_rep(msg: Seq<u8>, dst: Seq<u8>) -> int;

/// The field element a `Scalar` holds, as an integer in `[0, group_order())`.
pub open spec fn scalar_value(s: Scalar) -> int {
    scalar_rep(s) % group_order()
}

/// The canonical discrete logarithm of a G1 element.
pub open spec fn g1_value(p: G1Projective) -> int {
    g1_rep(p) % group_order()
}

/// The canonical discrete logarithm of a G2 element.
pub open spec fn g2_value(p: G2Projective) -> int {
    g2_rep(p) % group_order()
}

/// The canonical discrete logarithm of a pairing-target element.
pub open spec fn gt_value(t: Gt) -> int {
    gt_rep(t) % group_order()
}

/// The canonical discrete logarithm of the hash-to-curve image of
/// `(msg, dst)`.
pub open spec fn hash_value(msg: Seq<u8>, dst: Seq<u8>) -> int {
    hash_rep(msg, dst) % group_order()
}

/// Relies on `Scalar: From<u64>`, which embeds an integer below the field
/// order canonically; every `u64` is below `group_order()`.
#[verifier::external_body]
pub(crate) fn scalar_from_u64(v: u64) -> (r: Scalar)
    ensures
        scalar_rep(r) % group_order() == v as int,
{
    Scalar::from(v)
}

/// Relies on `Scalar`'s field addition.
#[verifier::external_body]
pub(crate) fn scalar_add(a: &Scalar, b: &Scalar) -> (r: Scalar)
    ensures
        scalar_value(r) == (scalar_value(*a) + scalar_value(*b)) % group_order(),
{
    a + b
}

/// Relies on `Scalar`'s field multiplication.
#[verifier::external_body]
pub(crate) fn scalar_mul(a: &Scalar, b: &Scalar) -> (r: Scalar)
    ensures
        scalar_value(r) == (scalar_value(*a) * scalar_value(*b)) % group_order(),
{
    a * b
}

/// Relies on `Scalar`'s additive negation.
#[verifier::external_body]
pub(crate) fn scalar_neg(a: &Scalar) -> (r: Scalar)
    ensures
        scalar_value(r) == (group_order() - scalar_value(*a)) % group_order(),
{
    -a
}

/// Relies on `G1Projective::generator`, the fixed base point of G1.
#[verifier::external_body]
pub(crate) fn g1_generator() -> (r: G1Projective)
    ensures
        g1_rep(r) % group_order() == 1,
{
    G1Projective::generator()
}

/// Relies on `G1Projective::identity`, the neutral element of G1.
#[verifier::external_body]
pub(crate) fn g1_identity() -> (r: G1Projective)
    ensures
        g1_value(r) == 0,
{
    G1Projective::identity()
}

/// Relies on G1 point addition, which adds discrete logarithms.
#[verifier::external_body]
pub(crate) fn g1_add(a: &G1Projective, b: &G1Projective) -> (r: G1Projective)
    ensures
        g1_value(r) == (g1_value(*a) + g1_value(*b)) % group_order(),
{
    a + b
}

/// Relies on G1 scalar multiplication, which multiplies the point's discrete
/// logarithm by the scalar.
#[verifier::external_body]
pub(crate) fn g1_mul(p: &G1Projective, s: &Scalar) -> (r: G1Projective)
    ensures
        g1_value(r) == (g1_value(*p) * scalar_value(*s)) % group_order(),
{
    p * s
}

/// Relies on G1 point negation.
#[verifier::external_body]
pub(crate) fn g1_neg(p: &G1Projective) -> (r: G1Projective)
    ensures
        g1_value(r) == (group_order() - g1_value(*p)) % group_order(),
{
    -p
}

/// Relies on `G1Projective`'s equality, which compares group elements; in a
/// cyclic group two elements are equal exactly when their discrete
/// logarithms agree.
#[verifier::external_body]
pub(crate) fn g1_eq(a: &G1Projective, b: &G1Projective) -> (r: bool)
    ensures
        r == (g1_value(*a) == g1_value(*b)),
{
    a == b
}

/// Relies on `G2Projective::identity`, the neutral element of G2.
#[verifier::external_body]
pub(crate) fn g2_identity() -> (r: G2Projective)
    ensures
        g2_rep(r) % group_order() == 0,
{
    G2Projective::identity()
}

/// Relies on G2 point addition, which adds discrete logarithms.
#[verifier::external_body]
pub(crate) fn g2_add(a: &G2Projective, b: &G2Projective) -> (r: G2Projective)
    ensures
        g2_value(r) == (g2_value(*a) + g2_value(*b)) % group_order(),
{
    a + b
}

/// Relies on G2 scalar multiplication, which multiplies the point's discrete
/// logarithm by the scalar.
#[verifier::external_body]
pub(crate) fn g2_mul(p: &G2Projective, s: &Scalar) -> (r: G2Projective)
    ensures
        g2_value(r) == (g2_value(*p) * scalar_value(*s)) % group_order(),
{
    p * s
}

/// Relies on G2 point negation.
#[verifier::external_body]
pub(crate) fn g2_neg(p: &G2Projective) -> (r: G2Projective)
    ensures
        g2_value(r) == (group_order() - g2_value(*p)) % group_order(),
{
    -p
}

/// Relies on `bls12_381::pairing`, a bilinear map: the pairing of points
/// with discrete logarithms `a` and `b` is the `a * b`-th power of the
/// pairing of the generators.
#[verifier::external_body]
pub(crate) fn pair(p: &G1Projective, q: &G2Projective) -> (r: Gt)
    ensures
        gt_rep(r) % group_order() == (g1_value(*p) * g2_value(*q)) % group_order(),
{
    bls12_381::pairing(&G1Affine::from(p), &G2Affine::from(q))
}

/// Relies on `Gt`'s equality, which compares group elements; in a cyclic
/// group two elements are equal exactly when their discrete logarithms
/// agree.
#[verifier::external_body]
pub(crate) fn gt_eq(a: &Gt, b: &Gt) -> (r: bool)
    ensures
        r == (gt_value(*a) == gt_value(*b)),
{
    a == b
}

/// Relies on `encode_to_curve` with SHA-256 message expansion, which maps
/// the message and domain separation tag to a G2 point and depends on those
/// two byte strings alone.
#[verifier::external_body]
pub(crate) fn hash_to_point(msg: &[u8], dst: &[u8]) -> (r: G2Projective)
    ensures
        g2_value(r) == hash_rep(msg@, dst@) % group_order(),
{
    <G2Projective as HashToCurve<ExpandMsgXmd<sha2::Sha256>>>::encode_to_curve([msg], dst)
}

} // verus!
