//! End-to-end scenarios: plain Shamir reconstruction, two-dealer key
//! generation, and a signing round with a malicious participant.

use bls12_381::hash_to_curve::ExpandMsgXmd;
use bls12_381::hash_to_curve::HashToCurve;
use bls12_381::G1Projective;
use bls12_381::G2Projective;
use bls12_381::Scalar;
use sha2::Sha256;

use threshold_bls::commit::commit;
use threshold_bls::lagrange::coefficients;
use threshold_bls::lagrange::reconstruct_group;
use threshold_bls::lagrange::reconstruct_scalar;
use threshold_bls::lagrange::PublicShare;
use threshold_bls::lagrange::SecretShare;
use threshold_bls::poly::generate_polynomial;
use threshold_bls::round::aggregate;
use threshold_bls::round::filter_valid;
use threshold_bls::round::run_round;
use threshold_bls::round::sign_share;
use threshold_bls::round::verify_signature;
use threshold_bls::round::SignatureShare;
use threshold_bls::Error;

fn hash_message(msg: &[u8], dst: &[u8]) -> G2Projective {
    <G2Projective as HashToCurve<ExpandMsgXmd<Sha256>>>::encode_to_curve([msg], dst)
}

#[test]
fn scenario_two_point_reconstruction() {
    // f(x) = 5x + 3, shares at x = 8 and x = 16.
    let f = generate_polynomial(&vec![3, 5]);
    assert_eq!(f.evaluate(8), Scalar::from(43));
    assert_eq!(f.evaluate(16), Scalar::from(83));

    let secret_shares = vec![
        SecretShare { x: 8, y: Scalar::from(43) },
        SecretShare { x: 16, y: Scalar::from(83) },
    ];
    let f0 = reconstruct_scalar(&secret_shares).unwrap();
    assert_eq!(f0, Scalar::from(3));
}

#[test]
fn scenario_two_point_public_key() {
    // The public points (x, y * G) reconstruct f(0) * G without any secret.
    let g = G1Projective::generator();
    let public_shares = vec![
        PublicShare { x: 8, point: g * Scalar::from(43u64) },
        PublicShare { x: 16, point: g * Scalar::from(83u64) },
    ];
    let public_key = reconstruct_group(&public_shares).unwrap();
    assert_eq!(public_key, g * Scalar::from(3u64));
}

#[test]
fn scenario_two_point_signature() {
    // Sign with the two shares and check the aggregated signature.
    let m = hash_message(b"Hello world", b"test DST");
    let shares = vec![
        sign_share(8, &Scalar::from(43u64), &m),
        sign_share(16, &Scalar::from(83u64), &m),
    ];
    let signature = aggregate(&shares, 2).unwrap();
    assert_eq!(signature, m * Scalar::from(3u64));

    let public_key = G1Projective::generator() * Scalar::from(3u64);
    assert!(verify_signature(&public_key, &m, &signature));
}

#[test]
fn scenario_dkg_combined_polynomial() {
    // Dealers: f(x) = 3x^2 + 8x + 5 and g(x) = 9x^2 + 3x + 19;
    // h = f + g has h(0) = 24.
    let f = generate_polynomial(&vec![5, 8, 3]);
    let g = generate_polynomial(&vec![19, 3, 9]);
    let h = f.sum(&g).unwrap();

    // h(x) = 12x^2 + 11x + 24.
    for x in 1u64..=5 {
        assert_eq!(h.evaluate(x), Scalar::from(12 * x * x + 11 * x + 24));
    }

    // Any three consecutive shares have integer coefficients and
    // reconstruct h(0) = 24.
    for start in 1u64..=3 {
        let shares: Vec<SecretShare> = (start..start + 3)
            .map(|x| SecretShare { x, y: h.evaluate(x) })
            .collect();
        assert_eq!(reconstruct_scalar(&shares).unwrap(), Scalar::from(24u64));
    }
}

#[test]
fn scenario_dkg_additive_commitments() {
    // The sum of the dealers' commitments evaluates like a commitment to
    // the combined polynomial, at every abscissa.
    let f = generate_polynomial(&vec![5, 8, 3]);
    let g = generate_polynomial(&vec![19, 3, 9]);
    let h = f.sum(&g).unwrap();
    let cf = commit(&f);
    let cg = commit(&g);
    let ch_sum = cf.sum(&cg).unwrap();
    let ch_direct = commit(&h);
    for x in 0u64..=5 {
        assert_eq!(ch_sum.evaluate(x), ch_direct.evaluate(x));
    }
}

#[test]
fn scenario_group_reconstruction_homomorphism() {
    // Reconstructing scaled shares (x, y * P) equals scaling the scalar
    // reconstruction by P, for a fixed point P.
    let p = G1Projective::generator() * Scalar::from(5u64);
    let f = generate_polynomial(&vec![3, 5]);
    let secret_shares = vec![
        SecretShare { x: 1, y: f.evaluate(1) },
        SecretShare { x: 2, y: f.evaluate(2) },
    ];
    let public_shares = vec![
        PublicShare { x: 1, point: p * f.evaluate(1) },
        PublicShare { x: 2, point: p * f.evaluate(2) },
    ];
    let y0 = reconstruct_scalar(&secret_shares).unwrap();
    let p0 = reconstruct_group(&public_shares).unwrap();
    assert_eq!(p0, p * y0);
}

#[test]
fn scenario_malicious_share_round() {
    // Threshold 3 of 5: three honest signers and one forged share; the
    // forged share is filtered out and the round still succeeds.
    let f = generate_polynomial(&vec![5, 8, 3]);
    let g = generate_polynomial(&vec![19, 3, 9]);
    let h = f.sum(&g).unwrap();
    let commitment = commit(&f).sum(&commit(&g)).unwrap();
    let public_key = commitment.evaluate(0);
    let m = hash_message(b"Hello world", b"test DST");

    let mut shares: Vec<SignatureShare> = (1u64..=3)
        .map(|x| sign_share(x, &h.evaluate(x), &m))
        .collect();
    // Participant 4 sends an arbitrary wrong value instead of h(4).
    shares.push(SignatureShare { x: 4, point: m * Scalar::from(29u64) });
    assert_eq!(shares.len(), 4);

    let kept = filter_valid(&shares, &commitment, &m);
    assert_eq!(kept.len(), 3);
    for (i, sh) in kept.iter().enumerate() {
        assert_eq!(sh.x, (i + 1) as u64);
    }

    let signature = aggregate(&kept, 3).unwrap();
    assert_eq!(signature, m * Scalar::from(24u64));
    assert!(verify_signature(&public_key, &m, &signature));

    // The full pipeline agrees.
    let by_round = run_round(&shares, &commitment, &m, 3, &public_key).unwrap();
    assert_eq!(by_round, signature);
}

#[test]
fn round_fails_against_wrong_public_key() {
    let f = generate_polynomial(&vec![3, 5]);
    let commitment = commit(&f);
    let m = hash_message(b"Hello world", b"test DST");
    let shares: Vec<SignatureShare> =
        (1u64..=2).map(|x| sign_share(x, &f.evaluate(x), &m)).collect();
    let wrong_key = G1Projective::generator() * Scalar::from(4u64);
    assert_eq!(
        run_round(&shares, &commitment, &m, 2, &wrong_key),
        Err(Error::VerificationFailed)
    );
}

#[test]
fn coefficients_exact_values() {
    // lambda_i = prod x_j / (x_j - x_i) over the other abscissas.
    assert_eq!(coefficients(&vec![1, 2, 3]).unwrap(), vec![3, -3, 1]);
    assert_eq!(coefficients(&vec![8, 16]).unwrap(), vec![2, -1]);
    assert_eq!(coefficients(&vec![2, 3, 4]).unwrap(), vec![6, -8, 3]);
}

#[test]
fn coefficients_non_integer_subset() {
    // {1, 3, 5} gives lambda_1 = 15/8: not an integer, so the abscissa set
    // is rejected rather than silently rounded.
    assert_eq!(
        coefficients(&vec![1, 3, 5]).unwrap_err(),
        Error::NonIntegerCoefficient
    );
    let f = generate_polynomial(&vec![5, 8, 3]);
    let shares: Vec<SecretShare> = [1u64, 3, 5]
        .iter()
        .map(|&x| SecretShare { x, y: f.evaluate(x) })
        .collect();
    assert_eq!(
        reconstruct_scalar(&shares).unwrap_err(),
        Error::NonIntegerCoefficient
    );
}
