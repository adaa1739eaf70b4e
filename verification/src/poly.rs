//! The polynomial engine: a dealer's secret polynomial over the scalar
//! field, its evaluation at integer abscissas, and the coefficient-wise sum
//! used by the multi-dealer key generation step.

use vstd::prelude::*;

use bls12_381::Scalar;

use crate::curve::group_order;
use crate::curve::scalar_add;
use crate::curve::scalar_from_u64;
use crate::curve::scalar_mul;
use crate::curve::scalar_value;
use crate::Error;

verus! {

/// The field values of a sequence of scalars.
pub open spec fn scalar_values(s: Seq<Scalar>) -> Seq<int> {
    s.map_values(|c: Scalar| scalar_value(c))
}

/// `sum c[i] * x^i` over the scalar field, written in Horner form.
pub open spec fn poly_eval(c: Seq<int>, x: int) -> int
    decreases c.len(),
{
    if c.len() == 0 {
        0
    } else {
        (c[0] + x * poly_eval(c.skip(1), x)) % group_order()
    }
}

/// A secret polynomial `f(x) = a_0 + a_1 x + ... + a_{t-1} x^{t-1}` over the
/// scalar field; `a_0 = f(0)` is the dealer's secret and the threshold is
/// the coefficient count `t`.
pub struct Polynomial {
    pub coeffs: Vec<Scalar>,
}

impl View for Polynomial {
    type V = Seq<int>;

    open spec fn view(&self) -> Seq<int> {
        scalar_values(self.coeffs@)
    }
}

/// Builds a dealer's polynomial from the given small integer coefficients,
/// low degree first.
pub fn generate_polynomial(coeffs: &Vec<u64>) -> (p: Polynomial)
    ensures
        p@.len() == coeffs@.len(),
        forall|i: int| 0 <= i < coeffs@.len() ==> p@[i] == coeffs@[i] as int,
{
    let mut out: Vec<Scalar> = Vec::new();
    let mut i: usize = 0;
    while i < coeffs.len()
        invariant
            i <= coeffs@.len(),
            out@.len() == i,
            forall|j: int| 0 <= j < i ==> scalar_value(out@[j]) == coeffs@[j] as int,
        decreases coeffs@.len() - i,
    {
        out.push(scalar_from_u64(coeffs[i]));
        i = i + 1;
    }
    Polynomial { coeffs: out }
}

impl Polynomial {
    /// The threshold `t` this polynomial realizes: its coefficient count.
    pub fn threshold(&self) -> (t: usize)
        ensures
            t == self@.len(),
    {
        self.coeffs.len()
    }

    /// Evaluates the polynomial at the abscissa `x` over the scalar field.
    pub fn evaluate(&self, x: u64) -> (y: Scalar)
        ensures
            scalar_value(y) == poly_eval(self@, x as int),
    {
        let xs = scalar_from_u64(x);
        let mut acc = scalar_from_u64(0);
        let mut i: usize = self.coeffs.len();
        while i > 0
            invariant
                i <= self@.len(),
                self@.len() == self.coeffs@.len(),
                scalar_value(xs) == x as int,
                scalar_value(acc) == poly_eval(self@.skip(i as int), x as int),
            decreases i,
        {
            i = i - 1;
            let t = scalar_mul(&xs, &acc);
            let next = scalar_add(&self.coeffs[i], &t);
            proof {
                let s = self@;
                assert(s.skip(i as int).len() > 0);
                assert(s.skip(i as int).skip(1) =~= s.skip(i as int + 1));
                assert(s.skip(i as int)[0] == s[i as int]);
                vstd::arithmetic::div_mod::lemma_add_mod_noop_right(
                    s[i as int],
                    (x as int) * poly_eval(s.skip(i as int + 1), x as int),
                    group_order(),
                );
            }
            acc = next;
        }
        proof {
            assert(self@.skip(0) =~= self@);
        }
        acc
    }

    /// Coefficient-wise sum of two dealers' polynomials; fails with
    /// `DegreeMismatch` exactly when the coefficient counts differ.
    pub fn sum(&self, other: &Polynomial) -> (r: Result<Polynomial, Error>)
        ensures
            match r {
                Ok(p) => {
                    &&& self@.len() == other@.len()
                    &&& p@.len() == self@.len()
                    &&& forall|i: int|
                        0 <= i < p@.len() ==> p@[i] == (self@[i] + other@[i]) % group_order()
                },
                Err(e) => e == Error::DegreeMismatch && self@.len() != other@.len(),
            },
    {
        if self.coeffs.len() != other.coeffs.len() {
            return Err(Error::DegreeMismatch);
        }
        let mut out: Vec<Scalar> = Vec::new();
        let mut i: usize = 0;
        while i < self.coeffs.len()
            invariant
                i <= self.coeffs@.len(),
                self.coeffs@.len() == other.coeffs@.len(),
                out@.len() == i,
                forall|j: int|
                    0 <= j < i ==> scalar_value(out@[j]) == (self@[j] + other@[j])
                        % group_order(),
            decreases self.coeffs@.len() - i,
        {
            out.push(scalar_add(&self.coeffs[i], &other.coeffs[i]));
            i = i + 1;
        }
        Ok(Polynomial { coeffs: out })
    }
}

/// Additivity of evaluation: the coefficient-wise sum of two polynomials
/// evaluates at every abscissa to the sum of the two evaluations.  The
/// multi-dealer key generation step rests on this: shares of `f + g` are
/// the sums of shares of `f` and of `g`.
pub proof fn lemma_sum_evaluation(f: Seq<int>, g: Seq<int>, h: Seq<int>, x: int)
    requires
        f.len() == g.len(),
        h.len() == f.len(),
        forall|i: int| 0 <= i < h.len() ==> h[i] == (f[i] + g[i]) % group_order(),
    ensures
        poly_eval(h, x) == (poly_eval(f, x) + poly_eval(g, x)) % group_order(),
    decreases f.len(),
{
    let q = group_order();
    if f.len() > 0 {
        assert(f.skip(1).len() == h.skip(1).len());
        assert(forall|i: int|
            0 <= i < h.skip(1).len() ==> #[trigger] h.skip(1)[i] == (f.skip(1)[i] + g.skip(
                1,
            )[i]) % q);
        lemma_sum_evaluation(f.skip(1), g.skip(1), h.skip(1), x);
        let pf = poly_eval(f.skip(1), x);
        let pg = poly_eval(g.skip(1), x);
        let h0 = h[0];
        vstd::arithmetic::div_mod::lemma_add_mod_noop(h0, x * ((pf + pg) % q), q);
        vstd::arithmetic::div_mod::lemma_mod_twice(f[0] + g[0], q);
        vstd::arithmetic::div_mod::lemma_mul_mod_noop_right(x, pf + pg, q);
        vstd::arithmetic::div_mod::lemma_add_mod_noop(h0, (x * (pf + pg)) % q, q);
        vstd::arithmetic::div_mod::lemma_mod_twice(x * (pf + pg), q);
        vstd::arithmetic::div_mod::lemma_add_mod_noop(f[0] + g[0], x * (pf + pg), q);
        vstd::arithmetic::mul::lemma_mul_is_distributive_add(x, pf, pg);
        vstd::arithmetic::div_mod::lemma_add_mod_noop(f[0] + x * pf, g[0] + x * pg, q);
        assert(poly_eval(h, x) == (h0 + x * ((pf + pg) % q)) % q);
        assert((h0 + x * ((pf + pg) % q)) % q == (h0 % q + (x * ((pf + pg) % q)) % q) % q);
        assert(poly_eval(h, x) == ((f[0] + g[0]) + x * (pf + pg)) % q);
        assert((poly_eval(f, x) + poly_eval(g, x)) % q == ((f[0] + x * pf) % q + (g[0] + x
            * pg) % q) % q);
        assert((poly_eval(f, x) + poly_eval(g, x)) % q == ((f[0] + x * pf) + (g[0] + x * pg))
            % q);
    }
}

} // verus!
