//! Share validation, the error taxonomy, and the trusted curve boundary
//! checked against values computed directly with the curve library.

use bls12_381::hash_to_curve::ExpandMsgXmd;
use bls12_381::hash_to_curve::HashToCurve;
use bls12_381::G1Projective;
use bls12_381::G2Projective;
use bls12_381::Scalar;
use sha2::Sha256;

use threshold_bls::commit::commit;
use threshold_bls::lagrange::reconstruct_scalar;
use threshold_bls::lagrange::SecretShare;
use threshold_bls::poly::generate_polynomial;
use threshold_bls::round::aggregate;
use threshold_bls::round::check_share;
use threshold_bls::round::filter_valid;
use threshold_bls::round::sign_message;
use threshold_bls::round::sign_share;
use threshold_bls::round::verify_key_consistency;
use threshold_bls::round::verify_own_share;
use threshold_bls::round::verify_share;
use threshold_bls::round::SignatureShare;
use threshold_bls::Error;

fn hash_message(msg: &[u8], dst: &[u8]) -> G2Projective {
    <G2Projective as HashToCurve<ExpandMsgXmd<Sha256>>>::encode_to_curve([msg], dst)
}

#[test]
fn evaluate_matches_direct_formula() {
    // f(x) = 3x^2 + 8x + 5 at a few points.
    let f = generate_polynomial(&vec![5, 8, 3]);
    assert_eq!(f.evaluate(0), Scalar::from(5u64));
    assert_eq!(f.evaluate(1), Scalar::from(16u64));
    assert_eq!(f.evaluate(5), Scalar::from(120u64));
}

#[test]
fn commitment_evaluation_is_public_share() {
    // evaluate_commitment(commit(f), x) == f(x) * G for every x.
    let f = generate_polynomial(&vec![5, 8, 3]);
    let c = commit(&f);
    let g = G1Projective::generator();
    for x in 0u64..=5 {
        assert_eq!(c.evaluate(x), g * f.evaluate(x));
    }
}

#[test]
fn own_share_verification() {
    let f = generate_polynomial(&vec![5, 8, 3]);
    let c = commit(&f);
    assert!(verify_own_share(2, &f.evaluate(2), &c));
    assert!(!verify_own_share(2, &Scalar::from(7u64), &c));
}

#[test]
fn key_consistency() {
    let g = G1Projective::generator();
    assert!(verify_key_consistency(
        &Scalar::from(7u64),
        &(g * Scalar::from(7u64))
    ));
    assert!(!verify_key_consistency(
        &Scalar::from(7u64),
        &(g * Scalar::from(8u64))
    ));
}

#[test]
fn share_check_accepts_honest_and_rejects_forged() {
    let f = generate_polynomial(&vec![5, 8, 3]);
    let c = commit(&f);
    let m = hash_message(b"Hello world", b"test DST");
    let honest = sign_share(2, &f.evaluate(2), &m);
    assert!(verify_share(honest.x, &honest.point, &c, &m));
    assert_eq!(check_share(honest.x, &honest.point, &c, &m), Ok(()));

    let forged = SignatureShare { x: 2, point: m * Scalar::from(29u64) };
    assert!(!verify_share(forged.x, &forged.point, &c, &m));
    assert_eq!(
        check_share(forged.x, &forged.point, &c, &m),
        Err(Error::InvalidShare)
    );
}

#[test]
fn filtering_is_idempotent() {
    let f = generate_polynomial(&vec![5, 8, 3]);
    let c = commit(&f);
    let m = hash_message(b"Hello world", b"test DST");
    let mut shares: Vec<SignatureShare> = (1u64..=3)
        .map(|x| sign_share(x, &f.evaluate(x), &m))
        .collect();
    shares.push(SignatureShare { x: 4, point: m * Scalar::from(1u64) });

    let once = filter_valid(&shares, &c, &m);
    let twice = filter_valid(&once, &c, &m);
    assert_eq!(once.len(), 3);
    assert_eq!(twice.len(), once.len());
    for (a, b) in once.iter().zip(twice.iter()) {
        assert_eq!(a.x, b.x);
        assert_eq!(a.point, b.point);
    }
}

#[test]
fn sign_message_matches_direct_hash() {
    // The signed share equals y * M for the point M that hashing the
    // message produces; this would fail if the hash boundary returned
    // anything else.
    let y = Scalar::from(43u64);
    let share = sign_message(8, &y, b"Hello world", b"test DST");
    let m = hash_message(b"Hello world", b"test DST");
    assert_eq!(share.x, 8);
    assert_eq!(share.point, m * y);
}

#[test]
fn degree_mismatch_on_sums() {
    let f = generate_polynomial(&vec![3, 5]);
    let g = generate_polynomial(&vec![19, 3, 9]);
    assert!(matches!(f.sum(&g), Err(Error::DegreeMismatch)));
    let cf = commit(&f);
    let cg = commit(&g);
    assert!(matches!(cf.sum(&cg), Err(Error::DegreeMismatch)));
}

#[test]
fn duplicate_and_zero_abscissas_rejected() {
    let y = Scalar::from(1u64);
    let dup = vec![SecretShare { x: 2, y }, SecretShare { x: 2, y }];
    assert_eq!(
        reconstruct_scalar(&dup).unwrap_err(),
        Error::DuplicateOrZeroAbscissa
    );
    let zero = vec![SecretShare { x: 0, y }, SecretShare { x: 3, y }];
    assert_eq!(
        reconstruct_scalar(&zero).unwrap_err(),
        Error::DuplicateOrZeroAbscissa
    );
}

#[test]
fn insufficient_shares_rejected() {
    let f = generate_polynomial(&vec![5, 8, 3]);
    let m = hash_message(b"Hello world", b"test DST");
    let shares: Vec<SignatureShare> =
        (1u64..=2).map(|x| sign_share(x, &f.evaluate(x), &m)).collect();
    assert_eq!(
        aggregate(&shares, 3).unwrap_err(),
        Error::InsufficientShares
    );
}

#[test]
fn single_share_reconstructs_constant() {
    // Interpolating one share of a constant polynomial returns it.
    let f = generate_polynomial(&vec![9]);
    let shares = vec![SecretShare { x: 5, y: f.evaluate(5) }];
    assert_eq!(reconstruct_scalar(&shares).unwrap(), Scalar::from(9u64));
}
