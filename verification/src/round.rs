//! The share validator and the aggregator/verifier: pairing-based checks of
//! signature shares against the public commitment, filtering of forged
//! shares, aggregation of the survivors into the group signature, and the
//! final check of that signature against the public key.

use vstd::prelude::*;

use bls12_381::G1Projective;
use bls12_381::G2Projective;
use bls12_381::Scalar;

use crate::commit::Commitment;
use crate::curve::g1_eq;
use crate::curve::g1_generator;
use crate::curve::g1_mul;
use crate::curve::g1_value;
use crate::curve::g2_add;
use crate::curve::g2_identity;
use crate::curve::g2_mul;
use crate::curve::g2_neg;
use crate::curve::g2_value;
use crate::curve::group_order;
use crate::curve::gt_eq;
use crate::curve::hash_to_point;
use crate::curve::hash_value;
use crate::curve::pair;
use crate::curve::scalar_from_u64;
use crate::curve::scalar_value;
use crate::lagrange::abscissas_ok;
use crate::lagrange::coefficients;
use crate::lagrange::coeff_ints;
use crate::lagrange::combine;
use crate::lagrange::exact_coefficients;
use crate::lagrange::integral_coefficients;
use crate::lagrange::ints_of;
use crate::poly::poly_eval;
use crate::Error;

verus! {

/// A participant's signature share `(x, y * M)`, where `M` is the hashed
/// message point and `y` the participant's combined secret value.
#[derive(Clone, Copy)]
pub struct SignatureShare {
    pub x: u64,
    pub point: G2Projective,
}

/// The abscissas of signature shares.
pub open spec fn sig_xs(s: Seq<SignatureShare>) -> Seq<int> {
    s.map_values(|sh: SignatureShare| sh.x as int)
}

/// The discrete logarithms of signature shares.
pub open spec fn sig_vals(s: Seq<SignatureShare>) -> Seq<int> {
    s.map_values(|sh: SignatureShare| g2_value(sh.point))
}

/// The pairing identity behind share validation: the share with logarithm
/// `s` at abscissa `x` matches commitment `c` and message point logarithm
/// `m` exactly when `e(f(x) * G, M) == e(G, share)`, which in logarithms is
/// `f(x) * m == s` modulo the group order.
pub open spec fn share_valid(c: Seq<int>, x: int, m: int, s: int) -> bool {
    (poly_eval(c, x) * m) % group_order() == s
}

/// Checks one signature share against the public commitment: computes
/// `yG = f(x) * G` from the commitment alone and tests
/// `e(yG, M) == e(G, share)`.
pub fn verify_share(
    x: u64,
    share: &G2Projective,
    commitment: &Commitment,
    msg_point: &G2Projective,
) -> (r: bool)
    ensures
        r == share_valid(commitment@, x as int, g2_value(*msg_point), g2_value(*share)),
{
    let yg = commitment.evaluate(x);
    let g = g1_generator();
    let lhs = pair(&yg, msg_point);
    let rhs = pair(&g, share);
    let res = gt_eq(&lhs, &rhs);
    proof {
        let q = group_order();
        vstd::arithmetic::div_mod::lemma_mod_twice(crate::curve::g2_rep(*share), q);
        assert(g1_value(yg) == poly_eval(commitment@, x as int));
        assert(crate::curve::gt_value(lhs) == (poly_eval(commitment@, x as int) * g2_value(
            *msg_point,
        )) % q);
        assert(g1_value(g) == 1);
        assert(crate::curve::gt_value(rhs) == (1 * g2_value(*share)) % q);
        assert(1 * g2_value(*share) == g2_value(*share));
        assert(g2_value(*share) % q == g2_value(*share));
    }
    res
}

/// Checks one share and reports a failure as the `InvalidShare` error.
pub fn check_share(
    x: u64,
    share: &G2Projective,
    commitment: &Commitment,
    msg_point: &G2Projective,
) -> (r: Result<(), Error>)
    ensures
        match r {
            Ok(_) => share_valid(commitment@, x as int, g2_value(*msg_point), g2_value(*share)),
            Err(e) => e == Error::InvalidShare && !share_valid(
                commitment@,
                x as int,
                g2_value(*msg_point),
                g2_value(*share),
            ),
        },
{
    if verify_share(x, share, commitment, msg_point) {
        Ok(())
    } else {
        Err(Error::InvalidShare)
    }
}

/// The subsequence of `s` whose shares pass the pairing check, in their
/// original order.
pub open spec fn filter_shares(s: Seq<SignatureShare>, c: Seq<int>, m: int) -> Seq<
    SignatureShare,
>
    decreases s.len(),
{
    if s.len() == 0 {
        Seq::empty()
    } else {
        let rest = filter_shares(s.drop_last(), c, m);
        if share_valid(c, s.last().x as int, m, g2_value(s.last().point)) {
            rest.push(s.last())
        } else {
            rest
        }
    }
}

/// Applies `verify_share` to every submitted share and keeps exactly the
/// ones that pass, preserving their order.
pub fn filter_valid(
    shares: &Vec<SignatureShare>,
    commitment: &Commitment,
    msg_point: &G2Projective,
) -> (r: Vec<SignatureShare>)
    ensures
        r@ == filter_shares(shares@, commitment@, g2_value(*msg_point)),
{
    let mut out: Vec<SignatureShare> = Vec::new();
    let mut i: usize = 0;
    while i < shares.len()
        invariant
            i <= shares@.len(),
            out@ == filter_shares(shares@.take(i as int), commitment@, g2_value(*msg_point)),
        decreases shares@.len() - i,
    {
        let sh = shares[i];
        proof {
            assert(shares@.take(i as int + 1).drop_last() =~= shares@.take(i as int));
            assert(shares@.take(i as int + 1).last() == shares@[i as int]);
        }
        if verify_share(sh.x, &sh.point, commitment, msg_point) {
            out.push(sh);
        }
        i = i + 1;
    }
    proof {
        assert(shares@.take(shares@.len() as int) =~= shares@);
    }
    out
}

/// Produces a participant's signature share `(x, y * M)` from their secret
/// value and the hashed message point.
pub fn sign_share(x: u64, y: &Scalar, msg_point: &G2Projective) -> (s: SignatureShare)
    ensures
        s.x == x,
        g2_value(s.point) == (scalar_value(*y) * g2_value(*msg_point)) % group_order(),
{
    let point = g2_mul(msg_point, y);
    proof {
        vstd::arithmetic::mul::lemma_mul_is_commutative(
            g2_value(*msg_point),
            scalar_value(*y),
        );
    }
    SignatureShare { x, point }
}

/// Hashes the message under the domain separation tag and signs the
/// resulting point with the participant's secret value.
pub fn sign_message(x: u64, y: &Scalar, msg: &[u8], dst: &[u8]) -> (s: SignatureShare)
    ensures
        s.x == x,
        g2_value(s.point) == (scalar_value(*y) * hash_value(msg@, dst@)) % group_order(),
{
    let m = hash_to_point(msg, dst);
    sign_share(x, y, &m)
}

/// Checks a participant's own secret share against the public commitment:
/// `y * G` must equal the commitment evaluated at `x`.
pub fn verify_own_share(x: u64, y: &Scalar, commitment: &Commitment) -> (r: bool)
    ensures
        r == (poly_eval(commitment@, x as int) == scalar_value(*y)),
{
    let expected = commitment.evaluate(x);
    let g = g1_generator();
    let mine = g1_mul(&g, y);
    proof {
        let q = group_order();
        vstd::arithmetic::div_mod::lemma_mod_twice(crate::curve::scalar_rep(*y), q);
        assert(g1_value(mine) == (1 * scalar_value(*y)) % q);
        assert(1 * scalar_value(*y) == scalar_value(*y));
        assert(scalar_value(*y) % q == scalar_value(*y));
    }
    g1_eq(&mine, &expected)
}

/// Checks the aggregated signature against the public key:
/// `e(public_key, M) == e(G, signature)`, the externally observable
/// correctness contract of the whole pipeline.
pub fn verify_signature(
    public_key: &G1Projective,
    msg_point: &G2Projective,
    signature: &G2Projective,
) -> (r: bool)
    ensures
        r == ((g1_value(*public_key) * g2_value(*msg_point)) % group_order() == g2_value(
            *signature,
        )),
{
    let g = g1_generator();
    let lhs = pair(public_key, msg_point);
    let rhs = pair(&g, signature);
    let res = gt_eq(&lhs, &rhs);
    proof {
        let q = group_order();
        vstd::arithmetic::div_mod::lemma_mod_twice(crate::curve::g2_rep(*signature), q);
        assert(crate::curve::gt_value(lhs) == (g1_value(*public_key) * g2_value(*msg_point))
            % q);
        assert(crate::curve::gt_value(rhs) == (1 * g2_value(*signature)) % q);
        assert(1 * g2_value(*signature) == g2_value(*signature));
        assert(g2_value(*signature) % q == g2_value(*signature));
    }
    res
}

/// Checks that a private key and a public key belong together:
/// `private_key * G == public_key`.
pub fn verify_key_consistency(private_key: &Scalar, public_key: &G1Projective) -> (r: bool)
    ensures
        r == (scalar_value(*private_key) == g1_value(*public_key)),
{
    let g = g1_generator();
    let p = g1_mul(&g, private_key);
    proof {
        let q = group_order();
        vstd::arithmetic::div_mod::lemma_mod_twice(crate::curve::scalar_rep(*private_key), q);
        assert(g1_value(p) == (1 * scalar_value(*private_key)) % q);
        assert(1 * scalar_value(*private_key) == scalar_value(*private_key));
        assert(scalar_value(*private_key) % q == scalar_value(*private_key));
    }
    g1_eq(&p, public_key)
}

/// Combines validated signature shares into the group signature
/// `h(0) * M` by Lagrange interpolation in the group, after checking that
/// at least `threshold` shares remain; with fewer, interpolation would
/// silently produce a wrong signature, so it fails with
/// `InsufficientShares` instead.
pub fn aggregate(shares: &Vec<SignatureShare>, threshold: usize) -> (r: Result<
    G2Projective,
    Error,
>)
    requires
        shares@.len() <= 8,
        forall|i: int| 0 <= i < shares@.len() ==> #[trigger] shares@[i].x <= 255,
    ensures
        match r {
            Ok(sig) => shares@.len() >= threshold && abscissas_ok(sig_xs(shares@))
                && exists|ls: Seq<int>|
                #[trigger] exact_coefficients(sig_xs(shares@), ls) && g2_value(sig)
                    == combine(ls, sig_vals(shares@)),
            Err(e) => if shares@.len() < threshold {
                e == Error::InsufficientShares
            } else if !abscissas_ok(sig_xs(shares@)) {
                e == Error::DuplicateOrZeroAbscissa
            } else {
                e == Error::NonIntegerCoefficient && !integral_coefficients(
                    sig_xs(shares@),
                )
            },
        },
{
    if shares.len() < threshold {
        return Err(Error::InsufficientShares);
    }
    let ghost sx = sig_xs(shares@);
    let ghost sy = sig_vals(shares@);
    let mut xs: Vec<u64> = Vec::new();
    let mut i: usize = 0;
    while i < shares.len()
        invariant
            i <= shares@.len(),
            xs@.len() == i,
            forall|a: int| 0 <= a < i ==> #[trigger] xs@[a] == shares@[a].x,
        decreases shares@.len() - i,
    {
        xs.push(shares[i].x);
        i = i + 1;
    }
    proof {
        assert(ints_of(xs@) =~= sig_xs(shares@));
    }
    let ls = match coefficients(&xs) {
        Ok(ls) => ls,
        Err(e) => {
            return Err(e);
        },
    };
    let ghost lints = coeff_ints(ls@);
    let mut acc = g2_identity();
    let mut j: usize = 0;
    while j < shares.len()
        invariant
            j <= shares@.len(),
            ls@.len() == shares@.len(),
            forall|t: int|
                0 <= t < ls@.len() ==> -70110209207109375 <= #[trigger] ls@[t]
                    <= 70110209207109375,
            lints == coeff_ints(ls@),
            sy == sig_vals(shares@),
            g2_value(acc) == combine(lints.take(j as int), sy.take(j as int)),
        decreases shares@.len() - j,
    {
        let lam = ls[j];
        let labs: u64 = if lam < 0 {
            (-lam) as u64
        } else {
            lam as u64
        };
        let lscal = scalar_from_u64(labs);
        let sh = shares[j];
        let t0 = g2_mul(&sh.point, &lscal);
        let term = if lam < 0 {
            g2_neg(&t0)
        } else {
            t0
        };
        proof {
            let q = group_order();
            let yv = g2_value(shares@[j as int].point);
            vstd::arithmetic::div_mod::lemma_mod_bound(
                crate::curve::g2_rep(shares@[j as int].point),
                q,
            );
            vstd::arithmetic::mul::lemma_mul_is_commutative(yv, labs as int);
            if lam < 0 {
                crate::lagrange::lemma_neg_scaled_term(labs as int, yv);
            }
            assert(g2_value(term) == ((lam as int) * yv) % q);
            assert(lints.take(j as int + 1).drop_last() =~= lints.take(j as int));
            assert(sy.take(j as int + 1).drop_last() =~= sy.take(j as int));
            assert(lints.take(j as int + 1).last() == lints[j as int]);
            vstd::arithmetic::div_mod::lemma_add_mod_noop_right(
                combine(lints.take(j as int), sy.take(j as int)),
                (lam as int) * yv,
                q,
            );
        }
        acc = g2_add(&acc, &term);
        j = j + 1;
    }
    proof {
        assert(lints.take(shares@.len() as int) =~= lints);
        assert(sy.take(shares@.len() as int) =~= sy);
        assert(exact_coefficients(sx, lints));
    }
    Ok(acc)
}

/// Every share in `s` passes the pairing check against `c` and `m`.
pub open spec fn all_valid(s: Seq<SignatureShare>, c: Seq<int>, m: int) -> bool {
    forall|k: int|
        0 <= k < s.len() ==> share_valid(c, (#[trigger] s[k]).x as int, m, g2_value(s[k].point))
}

proof fn lemma_filter_bounds(s: Seq<SignatureShare>, c: Seq<int>, m: int)
    requires
        forall|j: int| 0 <= j < s.len() ==> #[trigger] s[j].x <= 255,
    ensures
        filter_shares(s, c, m).len() <= s.len(),
        forall|k: int|
            0 <= k < filter_shares(s, c, m).len() ==> (#[trigger] filter_shares(s, c, m)[k]).x
                <= 255,
    decreases s.len(),
{
    if s.len() > 0 {
        assert(forall|j: int| 0 <= j < s.len() - 1 ==> #[trigger] s.drop_last()[j] == s[j]);
        lemma_filter_bounds(s.drop_last(), c, m);
        let f = filter_shares(s, c, m);
        let fd = filter_shares(s.drop_last(), c, m);
        if share_valid(c, s.last().x as int, m, g2_value(s.last().point)) {
            assert(forall|k: int| 0 <= k < fd.len() ==> #[trigger] f[k] == fd[k]);
            assert(f[f.len() - 1] == s.last());
        }
    }
}

proof fn lemma_filter_all_valid(s: Seq<SignatureShare>, c: Seq<int>, m: int)
    ensures
        all_valid(filter_shares(s, c, m), c, m),
    decreases s.len(),
{
    if s.len() > 0 {
        lemma_filter_all_valid(s.drop_last(), c, m);
        let f = filter_shares(s, c, m);
        let fd = filter_shares(s.drop_last(), c, m);
        if share_valid(c, s.last().x as int, m, g2_value(s.last().point)) {
            assert forall|k: int| 0 <= k < f.len() implies share_valid(
                c,
                (#[trigger] f[k]).x as int,
                m,
                g2_value(f[k].point),
            ) by {
                if k < fd.len() {
                    assert(f[k] == fd[k]);
                } else {
                    assert(f[k] == s.last());
                }
            }
        }
    }
}

proof fn lemma_filter_of_valid(s: Seq<SignatureShare>, c: Seq<int>, m: int)
    requires
        all_valid(s, c, m),
    ensures
        filter_shares(s, c, m) == s,
    decreases s.len(),
{
    if s.len() > 0 {
        assert(forall|j: int| 0 <= j < s.len() - 1 ==> #[trigger] s.drop_last()[j] == s[j]);
        lemma_filter_of_valid(s.drop_last(), c, m);
        assert(s[s.len() - 1] == s.last());
        assert(share_valid(c, s.last().x as int, m, g2_value(s.last().point)));
        assert(s.drop_last().push(s.last()) =~= s);
    }
}

/// Idempotence of validation: every share kept by one filtering pass still
/// passes the check, so filtering an already-filtered set keeps all of it.
pub proof fn lemma_filter_idempotent(s: Seq<SignatureShare>, c: Seq<int>, m: int)
    ensures
        filter_shares(filter_shares(s, c, m), c, m) == filter_shares(s, c, m),
{
    lemma_filter_all_valid(s, c, m);
    lemma_filter_of_valid(filter_shares(s, c, m), c, m);
}

/// Malicious-share rejection: a signature share whose logarithm `s` differs
/// from the committed value `f(x) = c` is rejected by the pairing check
/// whenever the message point is not the identity.  Since the group order
/// is prime, every nonzero message logarithm `m` has a multiplicative
/// inverse; the hypothesis states that invertibility directly.
pub proof fn lemma_forged_share_rejected(c: int, s: int, m: int, m_inv: int)
    requires
        0 <= c < group_order(),
        0 <= s < group_order(),
        (m * m_inv) % group_order() == 1,
        c != s,
    ensures
        (c * m) % group_order() != (s * m) % group_order(),
{
    let q = group_order();
    if (c * m) % q == (s * m) % q {
        vstd::arithmetic::div_mod::lemma_mul_mod_noop_left(c * m, m_inv, q);
        vstd::arithmetic::div_mod::lemma_mul_mod_noop_left(s * m, m_inv, q);
        vstd::arithmetic::mul::lemma_mul_is_associative(c, m, m_inv);
        vstd::arithmetic::mul::lemma_mul_is_associative(s, m, m_inv);
        vstd::arithmetic::div_mod::lemma_mul_mod_noop_right(c, m * m_inv, q);
        vstd::arithmetic::div_mod::lemma_mul_mod_noop_right(s, m * m_inv, q);
        vstd::arithmetic::div_mod::lemma_small_mod(c as nat, q as nat);
        vstd::arithmetic::div_mod::lemma_small_mod(s as nat, q as nat);
        assert(c == (c * (m * m_inv)) % q) by {
            assert(c * 1 == c);
            assert((c * ((m * m_inv) % q)) % q == (c * (m * m_inv)) % q);
        }
        assert(s == (s * (m * m_inv)) % q) by {
            assert(s * 1 == s);
            assert((s * ((m * m_inv) % q)) % q == (s * (m * m_inv)) % q);
        }
        assert((c * (m * m_inv)) % q == ((c * m) * m_inv) % q);
        assert(((c * m) * m_inv) % q == (((c * m) % q) * m_inv) % q);
        assert(((s * m) * m_inv) % q == (((s * m) % q) * m_inv) % q);
        assert(c == s);
        assert(false);
    }
}

/// Runs one signing round from submitted shares to a verified signature:
/// validates every share, fails with `InsufficientShares` when fewer than
/// `threshold` survive, aggregates the survivors, and checks the result
/// against the public key, failing with `VerificationFailed` when the final
/// pairing check does not hold.
pub fn run_round(
    shares: &Vec<SignatureShare>,
    commitment: &Commitment,
    msg_point: &G2Projective,
    threshold: usize,
    public_key: &G1Projective,
) -> (r: Result<G2Projective, Error>)
    requires
        shares@.len() <= 8,
        forall|i: int| 0 <= i < shares@.len() ==> #[trigger] shares@[i].x <= 255,
    ensures
        ({
            let kept = filter_shares(shares@, commitment@, g2_value(*msg_point));
            match r {
                Ok(sig) => kept.len() >= threshold && abscissas_ok(sig_xs(kept)) && (g1_value(
                    *public_key,
                ) * g2_value(*msg_point)) % group_order() == g2_value(sig) && exists|ls: Seq<int>|
                    #[trigger] exact_coefficients(sig_xs(kept), ls) && g2_value(sig) == combine(
                        ls,
                        sig_vals(kept),
                    ),
                Err(e) => if kept.len() < threshold {
                    e == Error::InsufficientShares
                } else if !abscissas_ok(sig_xs(kept)) {
                    e == Error::DuplicateOrZeroAbscissa
                } else if !integral_coefficients(sig_xs(kept)) {
                    e == Error::NonIntegerCoefficient
                } else {
                    e == Error::VerificationFailed && exists|ls: Seq<int>|
                        #[trigger] exact_coefficients(sig_xs(kept), ls) && (g1_value(*public_key)
                            * g2_value(*msg_point)) % group_order() != combine(ls, sig_vals(kept))
                },
            }
        }),
{
    let kept = filter_valid(shares, commitment, msg_point);
    proof {
        lemma_filter_bounds(shares@, commitment@, g2_value(*msg_point));
    }
    if kept.len() < threshold {
        return Err(Error::InsufficientShares);
    }
    let sig = match aggregate(&kept, threshold) {
        Ok(s) => s,
        Err(e) => {
            return Err(e);
        },
    };
    if verify_signature(public_key, msg_point, &sig) {
        proof {
            let kv = filter_shares(shares@, commitment@, g2_value(*msg_point));
            assert(kept@ == kv);
            let ls0 = choose|ls: Seq<int>|
                #[trigger] exact_coefficients(sig_xs(kept@), ls) && g2_value(sig) == combine(
                    ls,
                    sig_vals(kept@),
                );
            assert(exact_coefficients(sig_xs(kv), ls0) && g2_value(sig) == combine(
                ls0,
                sig_vals(kv),
            ));
            crate::lagrange::lemma_exact_implies_integral(sig_xs(kv), ls0);
        }
        Ok(sig)
    } else {
        proof {
            let kv = filter_shares(shares@, commitment@, g2_value(*msg_point));
            let ls0 = choose|ls: Seq<int>|
                #[trigger] exact_coefficients(sig_xs(kv), ls) && g2_value(sig) == combine(
                    ls,
                    sig_vals(kv),
                );
            assert(exact_coefficients(sig_xs(kv), ls0) && (g1_value(*public_key) * g2_value(
                *msg_point,
            )) % group_order() != combine(ls0, sig_vals(kv)));
            crate::lagrange::lemma_exact_implies_integral(sig_xs(kv), ls0);
        }
        Err(Error::VerificationFailed)
    }
}

} // verus!
