use bls12_381::{G1Projective, G2Projective, Scalar};
use kzg::field::Fr;
use kzg::kzg::{prove, verify, KzgError};
use kzg::polynomials::Polynomial;
use kzg::ts::{generatorTS, setup_from_secret};

fn poly(v: &[u64]) -> Polynomial {
    Polynomial::new(v.iter().map(|&n| Fr::from_u64(n)).collect())
}

#[test]
fn prove_test() {
    let ts = generatorTS(20).unwrap();
    let rand_poly = Polynomial::random(3).unwrap();
    let challenge = Fr::from_u64(3);
    let proof = prove(rand_poly, challenge, &ts).unwrap();
    assert_eq!(verify(&proof, &challenge, &ts), Ok(true));
}

#[test]
fn round_trip_fixed_secret() {
    let ts = setup_from_secret(&Fr::from_u64(77), 4);
    let challenge = Fr::from_u64(5);
    let proof = prove(poly(&[3, 12, 10, 4]), challenge, &ts).unwrap();
    assert_eq!(proof.evaluation.scalar(), Scalar::from(3u64 + 60 + 250 + 500));
    assert_eq!(verify(&proof, &challenge, &ts), Ok(true));
}

#[test]
fn tampered_fields_are_rejected() {
    let ts = setup_from_secret(&Fr::from_u64(11), 3);
    let z = Fr::from_u64(2);
    let good = prove(poly(&[1, 2, 3]), z, &ts).unwrap();
    let other = prove(poly(&[4, 5, 6]), z, &ts).unwrap();

    let mut p = good;
    p.poly_commitment = other.poly_commitment;
    assert_eq!(verify(&p, &z, &ts), Ok(false));

    let mut p = good;
    p.quon_commitment = other.quon_commitment;
    assert_eq!(verify(&p, &z, &ts), Ok(false));

    let mut p = good;
    p.evaluation = Fr::from_u64(1000);
    assert_eq!(verify(&p, &z, &ts), Ok(false));

    let mut p = good;
    p.challenge = Fr::from_u64(3);
    assert_eq!(verify(&p, &z, &ts), Ok(false));

    // the same proof checked against another challenge
    assert_eq!(verify(&good, &Fr::from_u64(3), &ts), Ok(false));
}

#[test]
fn degree_bound_rejection() {
    let ts = setup_from_secret(&Fr::from_u64(11), 1);
    let p = poly(&[1, 2, 3]);
    assert!(matches!(Polynomial::commitG1(&p, &ts.g1), Err(KzgError::DegreeExceeded)));
    assert!(matches!(Polynomial::commitG2(&p, &ts.g2), Err(KzgError::DegreeExceeded)));
    assert!(matches!(prove(p, Fr::from_u64(1), &ts), Err(KzgError::DegreeExceeded)));
}

#[test]
fn commit_exact_value() {
    let ts = setup_from_secret(&Fr::from_u64(10), 2);
    let c = Polynomial::commitG1(&poly(&[1, 2, 3]), &ts.g1).unwrap();
    assert_eq!(c.point(), G1Projective::generator() * Scalar::from(321u64));
    let c2 = Polynomial::commitG2(&poly(&[1, 2]), &ts.g2).unwrap();
    assert_eq!(c2.point(), G2Projective::generator() * Scalar::from(21u64));
}

#[test]
fn malformed_setup_is_reported() {
    let ts = setup_from_secret(&Fr::from_u64(11), 0);
    let z = Fr::from_u64(0);
    let proof = prove(poly(&[4]), z, &ts).unwrap();
    assert_eq!(verify(&proof, &z, &ts), Err(KzgError::MalformedProof));
}

#[test]
fn ts() {
    let ts = generatorTS(3).unwrap();
    assert_eq!(ts.g1.len(), 4);
    assert_eq!(ts.g2.len(), 4);
    assert_eq!(ts.g1[0].point(), G1Projective::generator());
    assert_eq!(ts.g2[0].point(), G2Projective::generator());
}

#[test]
fn srs_consistency_with_fixed_secret() {
    let s = 7u64;
    let ts = setup_from_secret(&Fr::from_u64(s), 3);
    let mut pw = Scalar::one();
    for i in 0..4 {
        assert_eq!(ts.g1[i].point(), G1Projective::generator() * pw);
        assert_eq!(ts.g2[i].point(), G2Projective::generator() * pw);
        pw *= Scalar::from(s);
    }
}

#[test]
fn worked_opening_of_two_plus_x() {
    let ts = setup_from_secret(&Fr::from_u64(9), 2);
    let z = Fr::from_u64(1);
    let proof = prove(poly(&[2, 1]), z, &ts).unwrap();
    assert_eq!(proof.evaluation.scalar(), Scalar::from(3u64));
    assert_eq!(proof.challenge.scalar(), Scalar::one());
    assert_eq!(proof.quon_commitment.point(), ts.g1[0].point());
    assert_eq!(
        proof.poly_commitment.point(),
        ts.g1[0].point() * Scalar::from(2u64) + ts.g1[1].point()
    );
    assert_eq!(verify(&proof, &z, &ts), Ok(true));
}

#[test]
fn constant_and_empty_polynomials_open() {
    let ts = setup_from_secret(&Fr::from_u64(9), 2);
    let z = Fr::from_u64(4);
    let proof = prove(poly(&[5]), z, &ts).unwrap();
    assert_eq!(proof.evaluation.scalar(), Scalar::from(5u64));
    assert_eq!(proof.quon_commitment.point(), G1Projective::identity());
    assert_eq!(verify(&proof, &z, &ts), Ok(true));
    let proof = prove(poly(&[]), z, &ts).unwrap();
    assert_eq!(proof.evaluation.scalar(), Scalar::zero());
    assert_eq!(verify(&proof, &z, &ts), Ok(true));
}
