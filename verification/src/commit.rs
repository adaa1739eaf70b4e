//! The commitment engine: Feldman-style public commitments.  A commitment
//! maps each secret coefficient `a_i` to the public point `a_i * G`, so a
//! share `(x, f(x))` can be checked against `sum (a_i * G) * x^i` without
//! revealing any coefficient.

use vstd::prelude::*;

use bls12_381::G1Projective;

use crate::curve::g1_add;
use crate::curve::g1_generator;
use crate::curve::g1_identity;
use crate::curve::g1_mul;
use crate::curve::g1_value;
use crate::curve::group_order;
use crate::curve::scalar_from_u64;
use crate::curve::scalar_value;
use crate::poly::poly_eval;
use crate::poly::Polynomial;
use crate::Error;

verus! {

/// The discrete logarithms of a sequence of G1 points.
pub open spec fn point_values(s: Seq<G1Projective>) -> Seq<int> {
    s.map_values(|p: G1Projective| g1_value(p))
}

/// A public commitment `[a_0 * G, a_1 * G, ...]` to a polynomial, published
/// by the dealer and immutable once shares are distributed.
pub struct Commitment {
    pub points: Vec<G1Projective>,
}

impl View for Commitment {
    type V = Seq<int>;

    open spec fn view(&self) -> Seq<int> {
        point_values(self.points@)
    }
}

/// Maps each coefficient of `poly` to `coefficient * G`.  The commitment's
/// model is the polynomial's own coefficient sequence: committing hides the
/// values but changes none of them.
pub fn commit(poly: &Polynomial) -> (c: Commitment)
    ensures
        c@.len() == poly@.len(),
        forall|i: int| 0 <= i < poly@.len() ==> c@[i] == poly@[i],
{
    let g = g1_generator();
    let mut points: Vec<G1Projective> = Vec::new();
    let mut i: usize = 0;
    while i < poly.coeffs.len()
        invariant
            i <= poly.coeffs@.len(),
            g1_value(g) == 1,
            points@.len() == i,
            forall|j: int| 0 <= j < i ==> g1_value(points@[j]) == poly@[j],
        decreases poly.coeffs@.len() - i,
    {
        let p = g1_mul(&g, &poly.coeffs[i]);
        proof {
            let s = scalar_value(poly.coeffs@[i as int]);
            vstd::arithmetic::div_mod::lemma_mod_twice(
                crate::curve::scalar_rep(poly.coeffs@[i as int]),
                group_order(),
            );
            assert(g1_value(p) == s);
        }
        points.push(p);
        i = i + 1;
    }
    Commitment { points }
}

impl Commitment {
    /// Coefficient-wise group sum of two dealers' commitments; fails with
    /// `DegreeMismatch` exactly when the lengths differ.
    pub fn sum(&self, other: &Commitment) -> (r: Result<Commitment, Error>)
        ensures
            match r {
                Ok(c) => {
                    &&& self@.len() == other@.len()
                    &&& c@.len() == self@.len()
                    &&& forall|i: int|
                        0 <= i < c@.len() ==> c@[i] == (self@[i] + other@[i]) % group_order()
                },
                Err(e) => e == Error::DegreeMismatch && self@.len() != other@.len(),
            },
    {
        if self.points.len() != other.points.len() {
            return Err(Error::DegreeMismatch);
        }
        let mut out: Vec<G1Projective> = Vec::new();
        let mut i: usize = 0;
        while i < self.points.len()
            invariant
                i <= self.points@.len(),
                self.points@.len() == other.points@.len(),
                out@.len() == i,
                forall|j: int|
                    0 <= j < i ==> g1_value(out@[j]) == (self@[j] + other@[j]) % group_order(),
            decreases self.points@.len() - i,
        {
            out.push(g1_add(&self.points[i], &other.points[i]));
            i = i + 1;
        }
        Ok(Commitment { points: out })
    }

    /// Evaluates the committed polynomial in the group:
    /// `sum (a_i * G) * x^i`, which is `f(x) * G` by the commitment's model.
    /// This lets any party derive a participant's public share from public
    /// data alone.
    pub fn evaluate(&self, x: u64) -> (p: G1Projective)
        ensures
            g1_value(p) == poly_eval(self@, x as int),
    {
        let xs = scalar_from_u64(x);
        let mut acc = g1_identity();
        let mut i: usize = self.points.len();
        while i > 0
            invariant
                i <= self@.len(),
                self@.len() == self.points@.len(),
                scalar_value(xs) == x as int,
                g1_value(acc) == poly_eval(self@.skip(i as int), x as int),
            decreases i,
        {
            i = i - 1;
            let t = g1_mul(&acc, &xs);
            let next = g1_add(&self.points[i], &t);
            proof {
                let s = self@;
                let rest = poly_eval(s.skip(i as int + 1), x as int);
                assert(s.skip(i as int).skip(1) =~= s.skip(i as int + 1));
                assert(s.skip(i as int)[0] == s[i as int]);
                vstd::arithmetic::mul::lemma_mul_is_commutative(rest, x as int);
                vstd::arithmetic::div_mod::lemma_add_mod_noop_right(
                    s[i as int],
                    (x as int) * rest,
                    group_order(),
                );
            }
            acc = next;
        }
        proof {
            assert(self@.skip(0) =~= self@);
        }
        acc
    }
}

/// Consistency of committed evaluation: a point sequence whose logarithms
/// are the coefficients scaled by a fixed logarithm `p` evaluates at every
/// `x` to the polynomial's value scaled by `p`.  With `p == 1`, the
/// generator, this is the verifiable-secret-sharing identity: a commitment
/// to `poly` evaluates at `x` to `evaluate(poly, x) * G`.
pub proof fn lemma_scaled_evaluation(c: Seq<int>, s: Seq<int>, p: int, x: int)
    requires
        s.len() == c.len(),
        forall|i: int| 0 <= i < s.len() ==> s[i] == (c[i] * p) % group_order(),
    ensures
        poly_eval(s, x) == (poly_eval(c, x) * p) % group_order(),
    decreases c.len(),
{
    let q = group_order();
    if c.len() == 0 {
        assert((0 * p) % q == 0);
    } else {
        assert(s.skip(1).len() == c.skip(1).len());
        assert(forall|i: int|
            0 <= i < s.skip(1).len() ==> #[trigger] s.skip(1)[i] == (c.skip(1)[i] * p) % q);
        lemma_scaled_evaluation(c.skip(1), s.skip(1), p, x);
        let pc = poly_eval(c.skip(1), x);
        let ps = poly_eval(s.skip(1), x);
        let s0 = s[0];
        vstd::arithmetic::div_mod::lemma_add_mod_noop(s0, x * ps, q);
        vstd::arithmetic::div_mod::lemma_mod_twice(c[0] * p, q);
        vstd::arithmetic::div_mod::lemma_mul_mod_noop_right(x, pc * p, q);
        vstd::arithmetic::div_mod::lemma_mod_twice(x * (pc * p), q);
        vstd::arithmetic::div_mod::lemma_add_mod_noop(c[0] * p, x * (pc * p), q);
        vstd::arithmetic::mul::lemma_mul_is_associative(x, pc, p);
        assert(c[0] * p + (x * pc) * p == (c[0] + x * pc) * p) by (nonlinear_arith);
        vstd::arithmetic::div_mod::lemma_mul_mod_noop_left(c[0] + x * pc, p, q);
        assert(poly_eval(s, x) == (s0 + x * ps) % q);
        assert((s0 + x * ps) % q == (s0 % q + (x * ps) % q) % q);
        assert((x * ps) % q == (x * (pc * p)) % q) by {
            assert(ps == (pc * p) % q);
        }
        assert(poly_eval(s, x) == ((c[0] * p) % q + (x * (pc * p)) % q) % q);
        assert(poly_eval(s, x) == (c[0] * p + x * (pc * p)) % q);
        assert((poly_eval(c, x) * p) % q == (((c[0] + x * pc) % q) * p) % q);
        assert((poly_eval(c, x) * p) % q == ((c[0] + x * pc) * p) % q);
    }
}

} // verus!
