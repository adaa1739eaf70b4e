//! The Lagrange interpolator: reconstruction coefficients for interpolation
//! at the origin, and the weighted sums that recover `f(0)` from scalar
//! shares or `f(0) * P` from group-element shares.
//!
//! The coefficient at `x_i` is `prod_{j != i} x_j / (x_j - x_i)`.  It is
//! computed here with exact integer arithmetic and must itself be an
//! integer; the chosen abscissas decide whether it is, so the routine fails
//! with `NonIntegerCoefficient` on sets for which it is not (small
//! consecutive abscissas are always suitable).  Abscissas are capped at 255
//! and interpolation sets at eight entries, so every intermediate product
//! provably fits the 64-bit integers used here.

use vstd::prelude::*;

use bls12_381::G1Projective;
use bls12_381::Scalar;

use crate::curve::g1_add;
use crate::curve::g1_identity;
use crate::curve::g1_mul;
use crate::curve::g1_neg;
use crate::curve::g1_value;
use crate::curve::group_order;
use crate::curve::scalar_add;
use crate::curve::scalar_from_u64;
use crate::curve::scalar_mul;
use crate::curve::scalar_neg;
use crate::curve::scalar_value;
use crate::poly::poly_eval;
use crate::Error;

verus! {

/// A participant's secret share `(x, f(x))`.
#[derive(Clone, Copy)]
pub struct SecretShare {
    pub x: u64,
    pub y: Scalar,
}

/// A public share `(x, f(x) * P)` for some fixed group element `P`.
#[derive(Clone, Copy)]
pub struct PublicShare {
    pub x: u64,
    pub point: G1Projective,
}

/// The abscissas of a sequence of `u64` values, as integers.
pub open spec fn ints_of(xs: Seq<u64>) -> Seq<int> {
    xs.map_values(|v: u64| v as int)
}

/// The abscissas of secret shares.
pub open spec fn share_xs(s: Seq<SecretShare>) -> Seq<int> {
    s.map_values(|sh: SecretShare| sh.x as int)
}

/// The field values of secret shares.
pub open spec fn share_ys(s: Seq<SecretShare>) -> Seq<int> {
    s.map_values(|sh: SecretShare| scalar_value(sh.y))
}

/// The abscissas of public shares.
pub open spec fn pshare_xs(s: Seq<PublicShare>) -> Seq<int> {
    s.map_values(|sh: PublicShare| sh.x as int)
}

/// The discrete logarithms of public shares.
pub open spec fn pshare_vals(s: Seq<PublicShare>) -> Seq<int> {
    s.map_values(|sh: PublicShare| g1_value(sh.point))
}

/// All abscissas are nonzero and pairwise distinct: the well-formedness of
/// every interpolation set.
pub open spec fn abscissas_ok(xs: Seq<int>) -> bool {
    &&& forall|i: int| 0 <= i < xs.len() ==> xs[i] != 0
    &&& forall|i: int, j: int| 0 <= i < j < xs.len() ==> xs[i] != xs[j]
}

/// Abscissa bounds under which the fixed-width computation below cannot
/// overflow.
pub open spec fn abscissas_bounded(xs: Seq<int>) -> bool {
    xs.len() <= 8 && forall|i: int| 0 <= i < xs.len() ==> 0 <= #[trigger] xs[i] <= 255
}

/// Product of `xs[j]` over `j < k`, `j != i`.
pub open spec fn numer_prefix(xs: Seq<int>, i: int, k: int) -> int
    decreases k,
{
    if k <= 0 {
        1
    } else if k - 1 == i {
        numer_prefix(xs, i, k - 1)
    } else {
        numer_prefix(xs, i, k - 1) * xs[k - 1]
    }
}

/// Product of `xs[j] - xs[i]` over `j < k`, `j != i`.
pub open spec fn denom_prefix(xs: Seq<int>, i: int, k: int) -> int
    decreases k,
{
    if k <= 0 {
        1
    } else if k - 1 == i {
        denom_prefix(xs, i, k - 1)
    } else {
        denom_prefix(xs, i, k - 1) * (xs[k - 1] - xs[i])
    }
}

/// The numerator `prod_{j != i} xs[j]` of the coefficient at index `i`.
pub open spec fn lagrange_numer(xs: Seq<int>, i: int) -> int {
    numer_prefix(xs, i, xs.len() as int)
}

/// The denominator `prod_{j != i} (xs[j] - xs[i])` of the coefficient at
/// index `i`.
pub open spec fn lagrange_denom(xs: Seq<int>, i: int) -> int {
    denom_prefix(xs, i, xs.len() as int)
}

/// `c` is exactly the Lagrange coefficient at index `i`: the unique integer
/// with `c * lagrange_denom == lagrange_numer`, when one exists.
pub open spec fn is_exact_coefficient(xs: Seq<int>, i: int, c: int) -> bool {
    c * lagrange_denom(xs, i) == lagrange_numer(xs, i)
}

/// Some integer is exactly the coefficient at index `i`.
pub open spec fn has_integral_coefficient(xs: Seq<int>, i: int) -> bool {
    exists|c: int| #[trigger] is_exact_coefficient(xs, i, c)
}

/// Every coefficient for this abscissa set is an integer.
pub open spec fn integral_coefficients(xs: Seq<int>) -> bool {
    forall|i: int| 0 <= i < xs.len() ==> #[trigger] has_integral_coefficient(xs, i)
}

/// `ls` is exactly the coefficient sequence for `xs`.
pub open spec fn exact_coefficients(xs: Seq<int>, ls: Seq<int>) -> bool {
    &&& ls.len() == xs.len()
    &&& forall|i: int| 0 <= i < xs.len() ==> is_exact_coefficient(xs, i, ls[i])
}

/// An exact coefficient sequence witnesses that every coefficient is an
/// integer.
pub proof fn lemma_exact_implies_integral(xs: Seq<int>, ls: Seq<int>)
    requires
        exact_coefficients(xs, ls),
    ensures
        integral_coefficients(xs),
{
    assert forall|i: int| 0 <= i < xs.len() implies #[trigger] has_integral_coefficient(
        xs,
        i,
    ) by {
        assert(is_exact_coefficient(xs, i, ls[i]));
    }
}

/// The integer values of a signed coefficient vector.
pub open spec fn coeff_ints(ls: Seq<i64>) -> Seq<int> {
    ls.map_values(|c: i64| c as int)
}

/// The weighted sum `sum ls[i] * ys[i]` over the scalar field: the value
/// reconstruction recovers from shares `ys` and coefficients `ls`.
pub open spec fn combine(ls: Seq<int>, ys: Seq<int>) -> int
    decreases ls.len(),
{
    if ls.len() == 0 {
        0
    } else {
        (combine(ls.drop_last(), ys.drop_last()) + ls.last() * ys[ls.len() - 1])
            % group_order()
    }
}

spec fn bound_pow(k: int) -> int
    decreases k,
{
    if k <= 0 {
        1
    } else {
        255 * bound_pow(k - 1)
    }
}

proof fn lemma_bound_pow_pos(k: int)
    ensures
        bound_pow(k) >= 1,
    decreases k,
{
    if k > 0 {
        lemma_bound_pow_pos(k - 1);
        assert(255 * bound_pow(k - 1) >= bound_pow(k - 1)) by (nonlinear_arith)
            requires
                bound_pow(k - 1) >= 1,
        ;
    }
}

proof fn lemma_bound_pow_mono(a: int, b: int)
    requires
        a <= b,
    ensures
        bound_pow(a) <= bound_pow(b),
    decreases b - a,
{
    if a < b {
        lemma_bound_pow_mono(a, b - 1);
        lemma_bound_pow_pos(b - 1);
        assert(255 * bound_pow(b - 1) >= bound_pow(b - 1)) by (nonlinear_arith)
            requires
                bound_pow(b - 1) >= 1,
        ;
    }
}

proof fn lemma_bound_pow_values()
    ensures
        bound_pow(7) == 70110209207109375,
        bound_pow(8) == 17878103347812890625,
{
    assert(bound_pow(0) == 1);
    assert(bound_pow(1) == 255);
    assert(bound_pow(2) == 65025);
    assert(bound_pow(3) == 16581375);
    assert(bound_pow(4) == 4228250625);
    assert(bound_pow(5) == 1078203909375);
    assert(bound_pow(6) == 274941996890625);
    assert(bound_pow(7) == 70110209207109375);
    assert(bound_pow(8) == 17878103347812890625);
}

proof fn lemma_numer_prefix_bounds(xs: Seq<int>, i: int, k: int)
    requires
        0 <= k <= xs.len(),
        abscissas_bounded(xs),
    ensures
        0 <= numer_prefix(xs, i, k) <= bound_pow(k),
        0 <= i < k ==> numer_prefix(xs, i, k) <= bound_pow(k - 1),
    decreases k,
{
    if k > 0 {
        lemma_numer_prefix_bounds(xs, i, k - 1);
        lemma_bound_pow_mono(k - 1, k);
        lemma_bound_pow_mono(k - 2, k - 1);
        lemma_bound_pow_pos(k - 1);
        lemma_bound_pow_pos(k - 2);
        if k - 1 != i {
            let p = numer_prefix(xs, i, k - 1);
            let x = xs[k - 1];
            assert(0 <= p * x <= 255 * bound_pow(k - 1)) by (nonlinear_arith)
                requires
                    0 <= p <= bound_pow(k - 1),
                    0 <= x <= 255,
                    bound_pow(k - 1) >= 1,
            ;
            if 0 <= i < k - 1 {
                assert(p * x <= 255 * bound_pow(k - 2)) by (nonlinear_arith)
                    requires
                        0 <= p <= bound_pow(k - 2),
                        0 <= x <= 255,
                ;
            }
        }
    }
}

proof fn lemma_denom_prefix_bounds(xs: Seq<int>, i: int, k: int)
    requires
        0 <= k <= xs.len(),
        0 <= i < xs.len(),
        abscissas_bounded(xs),
    ensures
        -bound_pow(k) <= denom_prefix(xs, i, k) <= bound_pow(k),
        i < k ==> -bound_pow(k - 1) <= denom_prefix(xs, i, k) <= bound_pow(k - 1),
    decreases k,
{
    if k > 0 {
        lemma_denom_prefix_bounds(xs, i, k - 1);
        lemma_bound_pow_mono(k - 1, k);
        lemma_bound_pow_mono(k - 2, k - 1);
        lemma_bound_pow_pos(k - 1);
        lemma_bound_pow_pos(k - 2);
        if k - 1 != i {
            let p = denom_prefix(xs, i, k - 1);
            let f = xs[k - 1] - xs[i];
            assert(-(255 * bound_pow(k - 1)) <= p * f <= 255 * bound_pow(k - 1))
                by (nonlinear_arith)
                requires
                    -bound_pow(k - 1) <= p <= bound_pow(k - 1),
                    -255 <= f <= 255,
                    bound_pow(k - 1) >= 1,
            ;
            if i < k - 1 {
                assert(-(255 * bound_pow(k - 2)) <= p * f <= 255 * bound_pow(k - 2))
                    by (nonlinear_arith)
                    requires
                        -bound_pow(k - 2) <= p <= bound_pow(k - 2),
                        -255 <= f <= 255,
                        bound_pow(k - 2) >= 1,
                {
                    lemma_bound_pow_pos(k - 2);
                }
            }
        }
    }
}

proof fn lemma_denom_prefix_nonzero(xs: Seq<int>, i: int, k: int)
    requires
        0 <= k <= xs.len(),
        0 <= i < xs.len(),
        abscissas_ok(xs),
    ensures
        denom_prefix(xs, i, k) != 0,
    decreases k,
{
    if k > 0 {
        lemma_denom_prefix_nonzero(xs, i, k - 1);
        if k - 1 != i {
            let p = denom_prefix(xs, i, k - 1);
            let f = xs[k - 1] - xs[i];
            assert(xs[k - 1] != xs[i]);
            assert(p * f != 0) by (nonlinear_arith)
                requires
                    p != 0,
                    f != 0,
            ;
        }
    }
}

/// Computes the reconstruction coefficient for every abscissa in `xs`, with
/// exact integer arithmetic.  Fails with `DuplicateOrZeroAbscissa` exactly
/// when some abscissa is zero or repeated, and with `NonIntegerCoefficient`
/// exactly when the abscissas are well formed but some coefficient is not an
/// integer.
pub fn coefficients(xs: &Vec<u64>) -> (r: Result<Vec<i64>, Error>)
    requires
        xs@.len() <= 8,
        forall|i: int| 0 <= i < xs@.len() ==> xs@[i] <= 255,
    ensures
        match r {
            Ok(ls) => abscissas_ok(ints_of(xs@)) && exact_coefficients(
                ints_of(xs@),
                coeff_ints(ls@),
            ) && forall|i: int|
                0 <= i < ls@.len() ==> -70110209207109375 <= #[trigger] ls@[i]
                    <= 70110209207109375,
            Err(e) => if !abscissas_ok(ints_of(xs@)) {
                e == Error::DuplicateOrZeroAbscissa
            } else {
                e == Error::NonIntegerCoefficient && !integral_coefficients(ints_of(xs@))
            },
        },
{
    let ghost v = ints_of(xs@);
    let n = xs.len();
    proof {
        assert(abscissas_bounded(v));
    }
    // Reject zero or repeated abscissas.
    let mut j: usize = 0;
    while j < n
        invariant
            n == xs@.len() <= 8,
            v == ints_of(xs@),
            forall|a: int| 0 <= a < n ==> v[a] == xs@[a] as int,
            j <= n,
            forall|a: int| 0 <= a < j ==> v[a] != 0,
            forall|a: int, b: int| 0 <= a < j && a < b < n ==> v[a] != v[b],
        decreases n - j,
    {
        if xs[j] == 0 {
            proof {
                assert(v[j as int] == 0);
                assert(!abscissas_ok(v));
            }
            return Err(Error::DuplicateOrZeroAbscissa);
        }
        let mut k: usize = j + 1;
        while k < n
            invariant
                n == xs@.len(),
                v == ints_of(xs@),
                forall|a: int| 0 <= a < n ==> v[a] == xs@[a] as int,
                j < k <= n,
                forall|b: int| j < b < k ==> v[j as int] != v[b],
            decreases n - k,
        {
            if xs[j] == xs[k] {
                proof {
                    assert(v[j as int] == v[k as int]);
                    assert(!abscissas_ok(v));
                }
                return Err(Error::DuplicateOrZeroAbscissa);
            }
            k = k + 1;
        }
        j = j + 1;
    }
    proof {
        assert(abscissas_ok(v));
    }
    let mut out: Vec<i64> = Vec::new();
    let mut i: usize = 0;
    while i < n
        invariant
            n == xs@.len() <= 8,
            v == ints_of(xs@),
            forall|a: int| 0 <= a < n ==> v[a] == xs@[a] as int,
            forall|a: int| 0 <= a < n ==> 0 <= #[trigger] v[a] <= 255,
            abscissas_ok(v),
            abscissas_bounded(v),
            i <= n,
            out@.len() == i,
            forall|t: int| 0 <= t < i ==> is_exact_coefficient(v, t, out@[t] as int),
            forall|t: int|
                0 <= t < i ==> -70110209207109375 <= #[trigger] out@[t] <= 70110209207109375,
        decreases n - i,
    {
        // Numerator: product of the other abscissas.
        let mut num: u64 = 1;
        let mut j: usize = 0;
        while j < n
            invariant
                n == xs@.len() <= 8,
                v == ints_of(xs@),
                forall|a: int| 0 <= a < n ==> v[a] == xs@[a] as int,
                abscissas_bounded(v),
                i < n,
                j <= n,
                num as int == numer_prefix(v, i as int, j as int),
            decreases n - j,
        {
            if j != i {
                proof {
                    lemma_numer_prefix_bounds(v, i as int, j as int + 1);
                    lemma_bound_pow_mono(j as int + 1, 8);
                    lemma_bound_pow_values();
                    assert(numer_prefix(v, i as int, j as int + 1) == num as int * (xs@[j as int]
                        as int));
                }
                num = num * xs[j];
            }
            j = j + 1;
        }
        // Denominator: product of differences, kept as sign and magnitude.
        let xi = xs[i];
        let mut dmag: u64 = 1;
        let mut dneg: bool = false;
        let mut j: usize = 0;
        while j < n
            invariant
                n == xs@.len() <= 8,
                v == ints_of(xs@),
                forall|a: int| 0 <= a < n ==> v[a] == xs@[a] as int,
                abscissas_ok(v),
                abscissas_bounded(v),
                i < n,
                xi == xs@[i as int],
                j <= n,
                denom_prefix(v, i as int, j as int) == if dneg {
                    -(dmag as int)
                } else {
                    dmag as int
                },
                dmag as int <= bound_pow(j as int),
            decreases n - j,
        {
            if j != i {
                proof {
                    lemma_denom_prefix_bounds(v, i as int, j as int + 1);
                    lemma_bound_pow_mono(j as int + 1, 8);
                    lemma_bound_pow_values();
                    assert(v[j as int] != v[i as int]);
                    assert(denom_prefix(v, i as int, j as int + 1) == denom_prefix(
                        v,
                        i as int,
                        j as int,
                    ) * (v[j as int] - v[i as int]));
                }
                let xj = xs[j];
                if xj > xi {
                    proof {
                        let p = denom_prefix(v, i as int, j as int);
                        let f = v[j as int] - v[i as int];
                        let s: int = if dneg {
                            -1int
                        } else {
                            1int
                        };
                        assert(p * f == if dneg {
                            -((dmag as int) * f)
                        } else {
                            (dmag as int) * f
                        }) by (nonlinear_arith)
                            requires
                                p == if dneg {
                                    -(dmag as int)
                                } else {
                                    dmag as int
                                },
                        ;
                        assert((dmag as int) * f <= bound_pow(j as int + 1)) by {
                            assert(-bound_pow(j as int + 1) <= p * f <= bound_pow(j as int + 1));
                            assert((dmag as int) * f >= 0) by (nonlinear_arith)
                                requires
                                    dmag as int >= 0,
                                    f > 0,
                            ;
                        }
                    }
                    dmag = dmag * (xj - xi);
                } else {
                    proof {
                        let p = denom_prefix(v, i as int, j as int);
                        let f = v[j as int] - v[i as int];
                        assert(xj < xi);
                        assert(p * f == if dneg {
                            (dmag as int) * (-f)
                        } else {
                            -((dmag as int) * (-f))
                        }) by (nonlinear_arith)
                            requires
                                p == if dneg {
                                    -(dmag as int)
                                } else {
                                    dmag as int
                                },
                        ;
                        assert((dmag as int) * (-f) <= bound_pow(j as int + 1)) by {
                            assert(-bound_pow(j as int + 1) <= p * f <= bound_pow(j as int + 1));
                            assert((dmag as int) * (-f) >= 0) by (nonlinear_arith)
                                requires
                                    dmag as int >= 0,
                                    -f > 0,
                            ;
                        }
                    }
                    dmag = dmag * (xi - xj);
                    dneg = !dneg;
                }
            }
            j = j + 1;
        }
        proof {
            lemma_denom_prefix_nonzero(v, i as int, n as int);
            lemma_denom_prefix_bounds(v, i as int, n as int);
            lemma_numer_prefix_bounds(v, i as int, n as int);
            lemma_bound_pow_mono(n as int - 1, 7);
            lemma_bound_pow_values();
            assert(dmag >= 1);
            assert(num as int <= bound_pow(7));
            assert(dmag as int <= bound_pow(7));
        }
        if num % dmag != 0 {
            proof {
                let nn = lagrange_numer(v, i as int);
                let dd = lagrange_denom(v, i as int);
                assert forall|c: int| !is_exact_coefficient(v, i as int, c) by {
                    if c * dd == nn {
                        if dneg {
                            assert(nn == (-c) * (dmag as int)) by (nonlinear_arith)
                                requires
                                    c * dd == nn,
                                    dd == -(dmag as int),
                            ;
                            vstd::arithmetic::div_mod::lemma_mod_multiples_basic(
                                -c,
                                dmag as int,
                            );
                        } else {
                            assert(nn == c * (dmag as int)) by (nonlinear_arith)
                                requires
                                    c * dd == nn,
                                    dd == dmag as int,
                            ;
                            vstd::arithmetic::div_mod::lemma_mod_multiples_basic(c, dmag as int);
                        }
                        assert(nn % (dmag as int) == 0);
                        assert(false);
                    }
                }
                assert(!has_integral_coefficient(v, i as int));
                assert(!integral_coefficients(v));
            }
            return Err(Error::NonIntegerCoefficient);
        }
        let labs = num / dmag;
        proof {
            vstd::arithmetic::div_mod::lemma_fundamental_div_mod(num as int, dmag as int);
            vstd::arithmetic::div_mod::lemma_div_nonincreasing(num as int, dmag as int);
            assert(num as int == (dmag as int) * (labs as int));
        }
        let lam: i64 = if dneg {
            -(labs as i64)
        } else {
            labs as i64
        };
        proof {
            let nn = lagrange_numer(v, i as int);
            let dd = lagrange_denom(v, i as int);
            if dneg {
                assert((lam as int) * dd == nn) by (nonlinear_arith)
                    requires
                        lam as int == -(labs as int),
                        dd == -(dmag as int),
                        nn == (dmag as int) * (labs as int),
                ;
            } else {
                assert((lam as int) * dd == nn) by (nonlinear_arith)
                    requires
                        lam as int == labs as int,
                        dd == dmag as int,
                        nn == (dmag as int) * (labs as int),
                ;
            }
            assert(is_exact_coefficient(v, i as int, lam as int));
            assert(-70110209207109375 <= lam <= 70110209207109375);
        }
        out.push(lam);
        i = i + 1;
    }
    Ok(out)
}

pub(crate) proof fn lemma_neg_scaled_term(a: int, y: int)
    requires
        0 <= a,
        0 <= y,
    ensures
        (group_order() - (a * y) % group_order()) % group_order() == ((-a) * y)
            % group_order(),
{
    let q = group_order();
    let t = a * y;
    vstd::arithmetic::mul::lemma_mul_nonnegative(a, y);
    vstd::arithmetic::div_mod::lemma_fundamental_div_mod(t, q);
    let d = t / q;
    let m = t % q;
    vstd::arithmetic::mul::lemma_mul_unary_negation(a, y);
    assert(-t == q * (-d - 1) + (q - m)) by (nonlinear_arith)
        requires
            t == q * d + m,
    ;
    vstd::arithmetic::div_mod::lemma_mod_multiples_vanish(-d - 1, q - m, q);
}

/// Recovers `f(0)` from scalar shares by the weighted sum
/// `sum lambda_i * y_i` over the field; a negative coefficient is realized
/// as the additive inverse of the positively scaled share.  The errors are
/// exactly those of `coefficients` on the shares' abscissas.
pub fn reconstruct_scalar(shares: &Vec<SecretShare>) -> (r: Result<Scalar, Error>)
    requires
        shares@.len() <= 8,
        forall|i: int| 0 <= i < shares@.len() ==> #[trigger] shares@[i].x <= 255,
    ensures
        match r {
            Ok(y0) => abscissas_ok(share_xs(shares@)) && exists|ls: Seq<int>|
                #[trigger] exact_coefficients(share_xs(shares@), ls) && scalar_value(y0)
                    == combine(ls, share_ys(shares@)),
            Err(e) => if !abscissas_ok(share_xs(shares@)) {
                e == Error::DuplicateOrZeroAbscissa
            } else {
                e == Error::NonIntegerCoefficient && !integral_coefficients(
                    share_xs(shares@),
                )
            },
        },
{
    let ghost sx = share_xs(shares@);
    let ghost sy = share_ys(shares@);
    let mut xs: Vec<u64> = Vec::new();
    let mut i: usize = 0;
    while i < shares.len()
        invariant
            i <= shares@.len(),
            xs@.len() == i,
            forall|a: int| 0 <= a < i ==> #[trigger] xs@[a] == shares@[a].x,
        decreases shares@.len() - i,
    {
        xs.push(shares[i].x);
        i = i + 1;
    }
    proof {
        assert(ints_of(xs@) =~= share_xs(shares@));
    }
    let ls = match coefficients(&xs) {
        Ok(ls) => ls,
        Err(e) => {
            return Err(e);
        },
    };
    let ghost lints = coeff_ints(ls@);
    let mut acc = scalar_from_u64(0);
    let mut j: usize = 0;
    while j < shares.len()
        invariant
            j <= shares@.len(),
            ls@.len() == shares@.len(),
            forall|t: int|
                0 <= t < ls@.len() ==> -70110209207109375 <= #[trigger] ls@[t]
                    <= 70110209207109375,
            lints == coeff_ints(ls@),
            sy == share_ys(shares@),
            scalar_value(acc) == combine(lints.take(j as int), sy.take(j as int)),
        decreases shares@.len() - j,
    {
        let lam = ls[j];
        let labs: u64 = if lam < 0 {
            (-lam) as u64
        } else {
            lam as u64
        };
        let lscal = scalar_from_u64(labs);
        let sh = shares[j];
        let t0 = scalar_mul(&sh.y, &lscal);
        let term = if lam < 0 {
            scalar_neg(&t0)
        } else {
            t0
        };
        proof {
            let q = group_order();
            let yv = scalar_value(shares@[j as int].y);
            vstd::arithmetic::div_mod::lemma_mod_bound(
                crate::curve::scalar_rep(shares@[j as int].y),
                q,
            );
            vstd::arithmetic::mul::lemma_mul_is_commutative(yv, labs as int);
            if lam < 0 {
                lemma_neg_scaled_term(labs as int, yv);
            }
            assert(scalar_value(term) == ((lam as int) * yv) % q);
            assert(lints.take(j as int + 1).drop_last() =~= lints.take(j as int));
            assert(sy.take(j as int + 1).drop_last() =~= sy.take(j as int));
            assert(lints.take(j as int + 1).last() == lints[j as int]);
            vstd::arithmetic::div_mod::lemma_add_mod_noop_right(
                combine(lints.take(j as int), sy.take(j as int)),
                (lam as int) * yv,
                q,
            );
        }
        acc = scalar_add(&acc, &term);
        j = j + 1;
    }
    proof {
        assert(lints.take(shares@.len() as int) =~= lints);
        assert(sy.take(shares@.len() as int) =~= sy);
        assert(exact_coefficients(sx, lints));
    }
    Ok(acc)
}

/// Recovers `f(0) * P` from public shares `(x, f(x) * P)`: the homomorphic
/// analogue of `reconstruct_scalar`, with each share's point scaled by the
/// coefficient's magnitude and negated when the coefficient is negative.
pub fn reconstruct_group(shares: &Vec<PublicShare>) -> (r: Result<G1Projective, Error>)
    requires
        shares@.len() <= 8,
        forall|i: int| 0 <= i < shares@.len() ==> #[trigger] shares@[i].x <= 255,
    ensures
        match r {
            Ok(p0) => abscissas_ok(pshare_xs(shares@)) && exists|ls: Seq<int>|
                #[trigger] exact_coefficients(pshare_xs(shares@), ls) && g1_value(p0)
                    == combine(ls, pshare_vals(shares@)),
            Err(e) => if !abscissas_ok(pshare_xs(shares@)) {
                e == Error::DuplicateOrZeroAbscissa
            } else {
                e == Error::NonIntegerCoefficient && !integral_coefficients(
                    pshare_xs(shares@),
                )
            },
        },
{
    let ghost sx = pshare_xs(shares@);
    let ghost sy = pshare_vals(shares@);
    let mut xs: Vec<u64> = Vec::new();
    let mut i: usize = 0;
    while i < shares.len()
        invariant
            i <= shares@.len(),
            xs@.len() == i,
            forall|a: int| 0 <= a < i ==> #[trigger] xs@[a] == shares@[a].x,
        decreases shares@.len() - i,
    {
        xs.push(shares[i].x);
        i = i + 1;
    }
    proof {
        assert(ints_of(xs@) =~= pshare_xs(shares@));
    }
    let ls = match coefficients(&xs) {
        Ok(ls) => ls,
        Err(e) => {
            return Err(e);
        },
    };
    let ghost lints = coeff_ints(ls@);
    let mut acc = g1_identity();
    let mut j: usize = 0;
    while j < shares.len()
        invariant
            j <= shares@.len(),
            ls@.len() == shares@.len(),
            forall|t: int|
                0 <= t < ls@.len() ==> -70110209207109375 <= #[trigger] ls@[t]
                    <= 70110209207109375,
            lints == coeff_ints(ls@),
            sy == pshare_vals(shares@),
            g1_value(acc) == combine(lints.take(j as int), sy.take(j as int)),
        decreases shares@.len() - j,
    {
        let lam = ls[j];
        let labs: u64 = if lam < 0 {
            (-lam) as u64
        } else {
            lam as u64
        };
        let lscal = scalar_from_u64(labs);
        let sh = shares[j];
        let t0 = g1_mul(&sh.point, &lscal);
        let term = if lam < 0 {
            g1_neg(&t0)
        } else {
            t0
        };
        proof {
            let q = group_order();
            let yv = g1_value(shares@[j as int].point);
            vstd::arithmetic::div_mod::lemma_mod_bound(
                crate::curve::g1_rep(shares@[j as int].point),
                q,
            );
            vstd::arithmetic::mul::lemma_mul_is_commutative(yv, labs as int);
            if lam < 0 {
                lemma_neg_scaled_term(labs as int, yv);
            }
            assert(g1_value(term) == ((lam as int) * yv) % q);
            assert(lints.take(j as int + 1).drop_last() =~= lints.take(j as int));
            assert(sy.take(j as int + 1).drop_last() =~= sy.take(j as int));
            assert(lints.take(j as int + 1).last() == lints[j as int]);
            vstd::arithmetic::div_mod::lemma_add_mod_noop_right(
                combine(lints.take(j as int), sy.take(j as int)),
                (lam as int) * yv,
                q,
            );
        }
        acc = g1_add(&acc, &term);
        j = j + 1;
    }
    proof {
        assert(lints.take(shares@.len() as int) =~= lints);
        assert(sy.take(shares@.len() as int) =~= sy);
        assert(exact_coefficients(sx, lints));
    }
    Ok(acc)
}

/// Homomorphism of reconstruction: applying the same coefficients to
/// shares scaled by a fixed logarithm `p` (the model of `(x, y * P)`
/// pairs) yields the scalar reconstruction scaled by `p`.  This ties
/// `reconstruct_group` to `reconstruct_scalar`: reconstructing in the
/// group equals reconstructing the scalar and then multiplying the point.
pub proof fn lemma_reconstruct_homomorphism(ls: Seq<int>, ys: Seq<int>, p: int)
    requires
        ys.len() == ls.len(),
    ensures
        combine(ls, ys.map_values(|y: int| (y * p) % group_order())) == (combine(ls, ys) * p)
            % group_order(),
    decreases ls.len(),
{
    let q = group_order();
    let ys2 = ys.map_values(|y: int| (y * p) % q);
    if ls.len() == 0 {
        assert(combine(ls, ys2) == 0);
        assert((0 * p) % q == 0);
    } else {
        let n = ls.len() - 1;
        let l = ls.last();
        let y = ys[n as int];
        assert(ys2.drop_last() =~= ys.drop_last().map_values(|y0: int| (y0 * p) % q));
        lemma_reconstruct_homomorphism(ls.drop_last(), ys.drop_last(), p);
        let c0 = combine(ls.drop_last(), ys.drop_last());
        assert(ys2[n as int] == (y * p) % q);
        vstd::arithmetic::div_mod::lemma_add_mod_noop((c0 * p) % q, l * ((y * p) % q), q);
        vstd::arithmetic::div_mod::lemma_mod_twice(c0 * p, q);
        vstd::arithmetic::div_mod::lemma_mul_mod_noop_right(l, y * p, q);
        vstd::arithmetic::div_mod::lemma_mod_twice(l * (y * p), q);
        vstd::arithmetic::div_mod::lemma_add_mod_noop(c0 * p, l * (y * p), q);
        vstd::arithmetic::mul::lemma_mul_is_associative(l, y, p);
        assert(c0 * p + (l * y) * p == (c0 + l * y) * p) by (nonlinear_arith);
        vstd::arithmetic::div_mod::lemma_mul_mod_noop_left(c0 + l * y, p, q);
        assert(combine(ls, ys2) == ((c0 * p) % q + l * ((y * p) % q)) % q);
        assert(((c0 * p) % q + l * ((y * p) % q)) % q == (((c0 * p) % q) % q + (l * ((y * p)
            % q)) % q) % q);
        assert((l * ((y * p) % q)) % q == (l * (y * p)) % q);
        assert(combine(ls, ys2) == (c0 * p + l * (y * p)) % q);
        assert((combine(ls, ys) * p) % q == (((c0 + l * y) % q) * p) % q);
        assert((combine(ls, ys) * p) % q == ((c0 + l * y) * p) % q);
    }
}

/// Reconstruction correctness for a two-point set: for a degree-one
/// polynomial `a0 + a1 x` and any two distinct nonzero abscissas with
/// exact integer coefficients, combining the two shares recovers the
/// constant term `a0 = f(0)` exactly, whichever two abscissas were chosen.
pub proof fn lemma_two_point_reconstruction(
    xs: Seq<int>,
    ls: Seq<int>,
    ys: Seq<int>,
    a0: int,
    a1: int,
)
    requires
        xs.len() == 2,
        abscissas_ok(xs),
        exact_coefficients(xs, ls),
        ys.len() == 2,
        0 <= a0 < group_order(),
        0 <= a1 < group_order(),
        ys[0] == poly_eval(seq![a0, a1], xs[0]),
        ys[1] == poly_eval(seq![a0, a1], xs[1]),
    ensures
        combine(ls, ys) == a0,
{
    let q = group_order();
    let x0 = xs[0];
    let x1 = xs[1];
    let l0 = ls[0];
    let l1 = ls[1];
    assert(x0 != x1);
    // Unfold the coefficient products for two points.
    assert(denom_prefix(xs, 0, 0) == 1);
    assert(denom_prefix(xs, 0, 1) == 1);
    assert(denom_prefix(xs, 0, 2) == 1 * (x1 - x0));
    assert(numer_prefix(xs, 0, 0) == 1);
    assert(numer_prefix(xs, 0, 1) == 1);
    assert(numer_prefix(xs, 0, 2) == 1 * x1);
    assert(denom_prefix(xs, 1, 0) == 1);
    assert(denom_prefix(xs, 1, 1) == 1 * (x0 - x1));
    assert(denom_prefix(xs, 1, 2) == denom_prefix(xs, 1, 1));
    assert(numer_prefix(xs, 1, 0) == 1);
    assert(numer_prefix(xs, 1, 1) == 1 * x0);
    assert(numer_prefix(xs, 1, 2) == numer_prefix(xs, 1, 1));
    assert(l0 * (x1 - x0) == x1) by {
        assert(is_exact_coefficient(xs, 0, l0));
        assert(1 * (x1 - x0) == x1 - x0);
        assert(1 * x1 == x1);
    }
    assert(l1 * (x0 - x1) == x0) by {
        assert(is_exact_coefficient(xs, 1, l1));
        assert(1 * (x0 - x1) == x0 - x1);
        assert(1 * x0 == x0);
    }
    // The two classical identities of interpolation at the origin.
    assert((l0 + l1 - 1) * (x1 - x0) == 0) by (nonlinear_arith)
        requires
            l0 * (x1 - x0) == x1,
            l1 * (x0 - x1) == x0,
    ;
    assert(l0 + l1 == 1) by (nonlinear_arith)
        requires
            (l0 + l1 - 1) * (x1 - x0) == 0,
            x0 != x1,
    ;
    assert((l0 * x0 + l1 * x1) * (x1 - x0) == 0) by (nonlinear_arith)
        requires
            l0 * (x1 - x0) == x1,
            l1 * (x0 - x1) == x0,
    ;
    assert(l0 * x0 + l1 * x1 == 0) by (nonlinear_arith)
        requires
            (l0 * x0 + l1 * x1) * (x1 - x0) == 0,
            x0 != x1,
    ;
    // The share values of the degree-one polynomial.
    let cs = seq![a0, a1];
    assert(cs.skip(1) =~= seq![a1]);
    assert(seq![a1].skip(1) =~= Seq::<int>::empty());
    vstd::arithmetic::div_mod::lemma_small_mod(a1 as nat, q as nat);
    assert(poly_eval(Seq::<int>::empty(), x0) == 0);
    assert(poly_eval(Seq::<int>::empty(), x1) == 0);
    assert(poly_eval(seq![a1].skip(1), x0) == 0);
    assert(poly_eval(seq![a1].skip(1), x1) == 0);
    assert(poly_eval(seq![a1], x0) == (a1 + x0 * 0) % q);
    assert(poly_eval(seq![a1], x1) == (a1 + x1 * 0) % q);
    assert(x0 * 0 == 0) by (nonlinear_arith);
    assert(x1 * 0 == 0) by (nonlinear_arith);
    assert(poly_eval(seq![a1], x0) == a1);
    assert(poly_eval(seq![a1], x1) == a1);
    let w0 = a0 + x0 * a1;
    let w1 = a0 + x1 * a1;
    assert(ys[0] == w0 % q);
    assert(ys[1] == w1 % q);
    // Unfold the combination of the two shares.
    assert(ls.drop_last().len() == 1 && ls.drop_last()[0] == l0);
    assert(ys.drop_last().len() == 1 && ys.drop_last()[0] == ys[0]);
    assert(ls.drop_last().drop_last().len() == 0);
    assert(combine(ls.drop_last().drop_last(), ys.drop_last().drop_last()) == 0);
    assert(ls.drop_last().last() == l0);
    assert(ys.drop_last()[ls.drop_last().len() - 1] == ys[0]);
    assert(combine(ls.drop_last(), ys.drop_last()) == (0 + l0 * ys[0]) % q);
    assert(combine(ls, ys) == ((l0 * ys[0]) % q + l1 * ys[1]) % q);
    // Reduce to the unreduced weighted sum.
    vstd::arithmetic::div_mod::lemma_add_mod_noop(l0 * ys[0], l1 * ys[1], q);
    vstd::arithmetic::div_mod::lemma_mod_twice(l0 * ys[0], q);
    vstd::arithmetic::div_mod::lemma_mod_twice(l1 * ys[1], q);
    assert(combine(ls, ys) == (l0 * ys[0] + l1 * ys[1]) % q) by {
        assert(((l0 * ys[0]) % q + l1 * ys[1]) % q == (((l0 * ys[0]) % q) % q + (l1 * ys[1])
            % q) % q);
    }
    vstd::arithmetic::div_mod::lemma_mul_mod_noop_right(l0, w0, q);
    vstd::arithmetic::div_mod::lemma_mul_mod_noop_right(l1, w1, q);
    vstd::arithmetic::div_mod::lemma_add_mod_noop(l0 * (w0 % q), l1 * (w1 % q), q);
    vstd::arithmetic::div_mod::lemma_add_mod_noop(l0 * w0, l1 * w1, q);
    assert(combine(ls, ys) == (l0 * w0 + l1 * w1) % q) by {
        assert((l0 * (w0 % q)) % q == (l0 * w0) % q);
        assert((l1 * (w1 % q)) % q == (l1 * w1) % q);
    }
    // The algebra of the interpolation identities.
    assert(l0 * w0 + l1 * w1 == a0) by (nonlinear_arith)
        requires
            w0 == a0 + x0 * a1,
            w1 == a0 + x1 * a1,
            l0 + l1 == 1,
            l0 * x0 + l1 * x1 == 0,
    ;
    vstd::arithmetic::div_mod::lemma_small_mod(a0 as nat, q as nat);
}

proof fn lemma_mod_sum3(u0: int, u1: int, u2: int, v0: int, v1: int, v2: int)
    requires
        u0 % group_order() == v0 % group_order(),
        u1 % group_order() == v1 % group_order(),
        u2 % group_order() == v2 % group_order(),
    ensures
        (u0 + u1 + u2) % group_order() == (v0 + v1 + v2) % group_order(),
{
    let q = group_order();
    vstd::arithmetic::div_mod::lemma_add_mod_noop(u0, u1, q);
    vstd::arithmetic::div_mod::lemma_add_mod_noop(v0, v1, q);
    vstd::arithmetic::div_mod::lemma_add_mod_noop(u0 + u1, u2, q);
    vstd::arithmetic::div_mod::lemma_add_mod_noop(v0 + v1, v2, q);
}

/// Reconstruction correctness for a three-point set: for a degree-two
/// polynomial `a0 + a1 x + a2 x^2` and any three distinct nonzero abscissas
/// with exact integer coefficients, combining the three shares recovers the
/// constant term `a0 = f(0)` exactly, whichever three abscissas were
/// chosen.
#[verifier::rlimit(100)]
pub proof fn lemma_three_point_reconstruction(
    xs: Seq<int>,
    ls: Seq<int>,
    ys: Seq<int>,
    a0: int,
    a1: int,
    a2: int,
)
    requires
        xs.len() == 3,
        abscissas_ok(xs),
        exact_coefficients(xs, ls),
        ys.len() == 3,
        0 <= a0 < group_order(),
        0 <= a1 < group_order(),
        0 <= a2 < group_order(),
        ys[0] == poly_eval(seq![a0, a1, a2], xs[0]),
        ys[1] == poly_eval(seq![a0, a1, a2], xs[1]),
        ys[2] == poly_eval(seq![a0, a1, a2], xs[2]),
    ensures
        combine(ls, ys) == a0,
{
    let q = group_order();
    let x0 = xs[0];
    let x1 = xs[1];
    let x2 = xs[2];
    let l0 = ls[0];
    let l1 = ls[1];
    let l2 = ls[2];
    // Unfold the coefficient products for three points.
    assert(denom_prefix(xs, 0, 3) == ((1 * (x1 - x0)) * (x2 - x0)) && numer_prefix(xs, 0, 3)
        == ((1 * x1) * x2)) by {
        assert(denom_prefix(xs, 0, 0) == 1);
        assert(denom_prefix(xs, 0, 1) == 1);
        assert(denom_prefix(xs, 0, 2) == 1 * (x1 - x0));
        assert(numer_prefix(xs, 0, 0) == 1);
        assert(numer_prefix(xs, 0, 1) == 1);
        assert(numer_prefix(xs, 0, 2) == 1 * x1);
    }
    assert(denom_prefix(xs, 1, 3) == ((1 * (x0 - x1)) * (x2 - x1)) && numer_prefix(xs, 1, 3)
        == ((1 * x0) * x2)) by {
        assert(denom_prefix(xs, 1, 0) == 1);
        assert(denom_prefix(xs, 1, 1) == 1 * (x0 - x1));
        assert(denom_prefix(xs, 1, 2) == denom_prefix(xs, 1, 1));
        assert(numer_prefix(xs, 1, 0) == 1);
        assert(numer_prefix(xs, 1, 1) == 1 * x0);
        assert(numer_prefix(xs, 1, 2) == numer_prefix(xs, 1, 1));
    }
    assert(denom_prefix(xs, 2, 3) == ((1 * (x0 - x2)) * (x1 - x2)) && numer_prefix(xs, 2, 3)
        == ((1 * x0) * x1)) by {
        assert(denom_prefix(xs, 2, 0) == 1);
        assert(denom_prefix(xs, 2, 1) == 1 * (x0 - x2));
        assert(denom_prefix(xs, 2, 2) == (1 * (x0 - x2)) * (x1 - x2));
        assert(numer_prefix(xs, 2, 0) == 1);
        assert(numer_prefix(xs, 2, 1) == 1 * x0);
        assert(numer_prefix(xs, 2, 2) == (1 * x0) * x1);
    }
    assert(is_exact_coefficient(xs, 0, l0));
    assert(is_exact_coefficient(xs, 1, l1));
    assert(is_exact_coefficient(xs, 2, l2));
    assert(l0 * ((x1 - x0) * (x2 - x0)) == x1 * x2) by (nonlinear_arith)
        requires
            l0 * ((1 * (x1 - x0)) * (x2 - x0)) == (1 * x1) * x2,
    ;
    assert(l1 * ((x0 - x1) * (x2 - x1)) == x0 * x2) by (nonlinear_arith)
        requires
            l1 * ((1 * (x0 - x1)) * (x2 - x1)) == (1 * x0) * x2,
    ;
    assert(l2 * ((x0 - x2) * (x1 - x2)) == x0 * x1) by (nonlinear_arith)
        requires
            l2 * ((1 * (x0 - x2)) * (x1 - x2)) == (1 * x0) * x1,
    ;
    // The three classical identities of interpolation at the origin, got
    // by multiplying through with the full product of differences.
    let d = ((x1 - x0) * (x2 - x0)) * (x2 - x1);
    assert(d != 0) by (nonlinear_arith)
        requires
            d == ((x1 - x0) * (x2 - x0)) * (x2 - x1),
            x1 - x0 != 0,
            x2 - x0 != 0,
            x2 - x1 != 0,
    ;
    assert(l0 * d == (x1 * x2) * (x2 - x1)) by (nonlinear_arith)
        requires
            l0 * ((x1 - x0) * (x2 - x0)) == x1 * x2,
            d == ((x1 - x0) * (x2 - x0)) * (x2 - x1),
    ;
    assert(l1 * d == -((x0 * x2) * (x2 - x0))) by (nonlinear_arith)
        requires
            l1 * ((x0 - x1) * (x2 - x1)) == x0 * x2,
            d == ((x1 - x0) * (x2 - x0)) * (x2 - x1),
    ;
    assert(l2 * d == (x0 * x1) * (x1 - x0)) by (nonlinear_arith)
        requires
            l2 * ((x0 - x2) * (x1 - x2)) == x0 * x1,
            d == ((x1 - x0) * (x2 - x0)) * (x2 - x1),
    ;
    let t0 = (x1 * x2) * (x2 - x1);
    let t1 = -((x0 * x2) * (x2 - x0));
    let t2 = (x0 * x1) * (x1 - x0);
    // First identity: the coefficients sum to one.
    assert((l0 + l1 + l2) * d == l0 * d + l1 * d + l2 * d) by (nonlinear_arith);
    assert(t0 + t1 + t2 == d) by {
        let e = (x1 - x0) * (x2 - x0);
        assert(e == x1 * x2 - x0 * x1 - x0 * x2 + x0 * x0) by (nonlinear_arith)
            requires
                e == (x1 - x0) * (x2 - x0),
        ;
        assert(d == e * x2 - e * x1) by (nonlinear_arith)
            requires
                d == e * (x2 - x1),
        ;
        assert(e * x2 == (x1 * x2) * x2 - (x0 * x1) * x2 - (x0 * x2) * x2 + (x0 * x0) * x2)
            by (nonlinear_arith)
            requires
                e == x1 * x2 - x0 * x1 - x0 * x2 + x0 * x0,
        ;
        assert(e * x1 == (x1 * x2) * x1 - (x0 * x1) * x1 - (x0 * x2) * x1 + (x0 * x0) * x1)
            by (nonlinear_arith)
            requires
                e == x1 * x2 - x0 * x1 - x0 * x2 + x0 * x0,
        ;
        assert((x1 * x2) * x1 == (x1 * x1) * x2) by (nonlinear_arith);
        assert((x0 * x2) * x1 == (x0 * x1) * x2) by (nonlinear_arith);
        assert(t0 == (x1 * x2) * x2 - (x1 * x1) * x2) by (nonlinear_arith)
            requires
                t0 == (x1 * x2) * (x2 - x1),
        ;
        assert(t1 == -((x0 * x2) * x2) + (x0 * x0) * x2) by (nonlinear_arith)
            requires
                t1 == -((x0 * x2) * (x2 - x0)),
        ;
        assert(t2 == (x0 * x1) * x1 - (x0 * x0) * x1) by (nonlinear_arith)
            requires
                t2 == (x0 * x1) * (x1 - x0),
        ;
    }
    assert(l0 + l1 + l2 == 1) by (nonlinear_arith)
        requires
            (l0 + l1 + l2) * d == d,
            d != 0,
    ;
    // Second identity: the weighted abscissas cancel.
    assert((l0 * x0 + l1 * x1 + l2 * x2) * d == x0 * (l0 * d) + x1 * (l1 * d) + x2 * (l2
        * d)) by (nonlinear_arith);
    assert(x0 * t0 + x1 * t1 + x2 * t2 == 0) by (nonlinear_arith)
        requires
            t0 == (x1 * x2) * (x2 - x1),
            t1 == -((x0 * x2) * (x2 - x0)),
            t2 == (x0 * x1) * (x1 - x0),
    ;
    assert(l0 * x0 + l1 * x1 + l2 * x2 == 0) by (nonlinear_arith)
        requires
            (l0 * x0 + l1 * x1 + l2 * x2) * d == 0,
            d != 0,
    ;
    // Third identity: the weighted squares cancel.
    assert((l0 * (x0 * x0) + l1 * (x1 * x1) + l2 * (x2 * x2)) * d == (x0 * x0) * (l0 * d) + (
        x1 * x1) * (l1 * d) + (x2 * x2) * (l2 * d)) by (nonlinear_arith);
    assert((x0 * x0) * t0 + (x1 * x1) * t1 + (x2 * x2) * t2 == 0) by (nonlinear_arith)
        requires
            t0 == (x1 * x2) * (x2 - x1),
            t1 == -((x0 * x2) * (x2 - x0)),
            t2 == (x0 * x1) * (x1 - x0),
    ;
    assert(l0 * (x0 * x0) + l1 * (x1 * x1) + l2 * (x2 * x2) == 0) by (nonlinear_arith)
        requires
            (l0 * (x0 * x0) + l1 * (x1 * x1) + l2 * (x2 * x2)) * d == 0,
            d != 0,
    ;
    // The share values of the degree-two polynomial, unreduced.
    let cs = seq![a0, a1, a2];
    assert(cs.skip(1) =~= seq![a1, a2]);
    assert(seq![a1, a2].skip(1) =~= seq![a2]);
    assert(seq![a2].skip(1) =~= Seq::<int>::empty());
    vstd::arithmetic::div_mod::lemma_small_mod(a2 as nat, q as nat);
    let w0 = a0 + x0 * a1 + (x0 * x0) * a2;
    let w1 = a0 + x1 * a1 + (x1 * x1) * a2;
    let w2 = a0 + x2 * a1 + (x2 * x2) * a2;
    assert(ys[0] == w0 % q && ys[1] == w1 % q && ys[2] == w2 % q) by {
        assert forall|xv: int| poly_eval(cs, xv) == (a0 + xv * (a1 + xv * a2)) % q by {
            assert(poly_eval(Seq::<int>::empty(), xv) == 0);
            assert(xv * 0 == 0) by (nonlinear_arith);
            assert(poly_eval(seq![a2], xv) == a2 % q);
            assert(poly_eval(seq![a1, a2], xv) == (a1 + xv * (a2 % q)) % q);
            assert(poly_eval(seq![a1, a2], xv) == (a1 + xv * a2) % q) by {
                vstd::arithmetic::div_mod::lemma_small_mod(a2 as nat, q as nat);
            }
            assert(poly_eval(cs, xv) == (a0 + xv * ((a1 + xv * a2) % q)) % q);
            vstd::arithmetic::div_mod::lemma_add_mod_noop_right(
                a0,
                xv * ((a1 + xv * a2) % q),
                q,
            );
            vstd::arithmetic::div_mod::lemma_mul_mod_noop_right(xv, a1 + xv * a2, q);
            vstd::arithmetic::div_mod::lemma_add_mod_noop_right(a0, xv * (a1 + xv * a2), q);
        }
        assert(a0 + x0 * (a1 + x0 * a2) == w0) by (nonlinear_arith)
            requires
                w0 == a0 + x0 * a1 + (x0 * x0) * a2,
        ;
        assert(a0 + x1 * (a1 + x1 * a2) == w1) by (nonlinear_arith)
            requires
                w1 == a0 + x1 * a1 + (x1 * x1) * a2,
        ;
        assert(a0 + x2 * (a1 + x2 * a2) == w2) by (nonlinear_arith)
            requires
                w2 == a0 + x2 * a1 + (x2 * x2) * a2,
        ;
    }
    // Unfold the combination of the three shares.
    let lsd = ls.drop_last();
    let ysd = ys.drop_last();
    assert(lsd.len() == 2 && lsd[0] == l0 && lsd[1] == l1);
    assert(ysd.len() == 2 && ysd[0] == ys[0] && ysd[1] == ys[1]);
    assert(lsd.drop_last().len() == 1 && lsd.drop_last()[0] == l0);
    assert(ysd.drop_last().len() == 1 && ysd.drop_last()[0] == ys[0]);
    assert(lsd.drop_last().drop_last().len() == 0);
    assert(combine(lsd.drop_last().drop_last(), ysd.drop_last().drop_last()) == 0);
    assert(lsd.drop_last().last() == l0);
    assert(ysd.drop_last()[lsd.drop_last().len() - 1] == ys[0]);
    assert(combine(lsd.drop_last(), ysd.drop_last()) == (0 + l0 * ys[0]) % q);
    assert(combine(lsd, ysd) == ((l0 * ys[0]) % q + l1 * ys[1]) % q);
    assert(combine(ls, ys) == (combine(lsd, ysd) + l2 * ys[2]) % q);
    // Collapse the nested reductions into one weighted sum.
    vstd::arithmetic::div_mod::lemma_mod_twice(l0 * ys[0], q);
    vstd::arithmetic::div_mod::lemma_add_mod_noop(l0 * ys[0], l1 * ys[1], q);
    vstd::arithmetic::div_mod::lemma_mod_twice(l1 * ys[1], q);
    assert(combine(lsd, ysd) == (l0 * ys[0] + l1 * ys[1]) % q) by {
        assert(((l0 * ys[0]) % q + l1 * ys[1]) % q == (((l0 * ys[0]) % q) % q + (l1 * ys[1])
            % q) % q);
    }
    vstd::arithmetic::div_mod::lemma_mod_twice(l0 * ys[0] + l1 * ys[1], q);
    vstd::arithmetic::div_mod::lemma_add_mod_noop(l0 * ys[0] + l1 * ys[1], l2 * ys[2], q);
    vstd::arithmetic::div_mod::lemma_mod_twice(l2 * ys[2], q);
    assert(combine(ls, ys) == (l0 * ys[0] + l1 * ys[1] + l2 * ys[2]) % q) by {
        assert(((l0 * ys[0] + l1 * ys[1]) % q + l2 * ys[2]) % q == (((l0 * ys[0] + l1 * ys[1])
            % q) % q + (l2 * ys[2]) % q) % q);
    }
    // Replace each reduced share by its unreduced value.
    vstd::arithmetic::div_mod::lemma_mul_mod_noop_right(l0, w0, q);
    vstd::arithmetic::div_mod::lemma_mul_mod_noop_right(l1, w1, q);
    vstd::arithmetic::div_mod::lemma_mul_mod_noop_right(l2, w2, q);
    lemma_mod_sum3(l0 * ys[0], l1 * ys[1], l2 * ys[2], l0 * w0, l1 * w1, l2 * w2);
    assert(combine(ls, ys) == (l0 * w0 + l1 * w1 + l2 * w2) % q) by {
        vstd::arithmetic::div_mod::lemma_mod_twice(l0 * ys[0] + l1 * ys[1] + l2 * ys[2], q);
        vstd::arithmetic::div_mod::lemma_mod_twice(l0 * w0 + l1 * w1 + l2 * w2, q);
    }
    // The algebra of the interpolation identities.
    assert(l0 * w0 == a0 * l0 + a1 * (l0 * x0) + a2 * (l0 * (x0 * x0))) by (nonlinear_arith)
        requires
            w0 == a0 + x0 * a1 + (x0 * x0) * a2,
    ;
    assert(l1 * w1 == a0 * l1 + a1 * (l1 * x1) + a2 * (l1 * (x1 * x1))) by (nonlinear_arith)
        requires
            w1 == a0 + x1 * a1 + (x1 * x1) * a2,
    ;
    assert(l2 * w2 == a0 * l2 + a1 * (l2 * x2) + a2 * (l2 * (x2 * x2))) by (nonlinear_arith)
        requires
            w2 == a0 + x2 * a1 + (x2 * x2) * a2,
    ;
    assert(a0 * l0 + a0 * l1 + a0 * l2 == a0) by (nonlinear_arith)
        requires
            l0 + l1 + l2 == 1,
    ;
    assert(a1 * (l0 * x0) + a1 * (l1 * x1) + a1 * (l2 * x2) == 0) by (nonlinear_arith)
        requires
            l0 * x0 + l1 * x1 + l2 * x2 == 0,
    ;
    assert(a2 * (l0 * (x0 * x0)) + a2 * (l1 * (x1 * x1)) + a2 * (l2 * (x2 * x2)) == 0)
        by (nonlinear_arith)
        requires
            l0 * (x0 * x0) + l1 * (x1 * x1) + l2 * (x2 * x2) == 0,
    ;
    assert(l0 * w0 + l1 * w1 + l2 * w2 == a0);
    vstd::arithmetic::div_mod::lemma_small_mod(a0 as nat, q as nat);
}

} // verus!
