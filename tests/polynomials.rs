use bls12_381::Scalar;
use kzg::field::Fr;
use kzg::kzg::KzgError;
use kzg::polynomials::Polynomial;

fn poly(v: &[u64]) -> Polynomial {
    Polynomial::new(v.iter().map(|&n| Fr::from_u64(n)).collect())
}

fn scalars(p: &Polynomial) -> Vec<Scalar> {
    p.coef.iter().map(|c| c.scalar()).collect()
}

#[test]
fn random() {
    let rand_poly = Polynomial::random(2).unwrap();
    assert_eq!(rand_poly.coef.len(), 2);
}

#[test]
fn eval_1() {
    let poly = Polynomial::new(vec![Fr::from_u64(2), Fr::from_u64(1)]);
    assert_eq!(poly.eval(&Fr::from_u64(1)).scalar(), Fr::from_u64(3).scalar());
}

#[test]
fn eval_at_zero_is_constant_term() {
    let p = poly(&[2, 1]);
    assert_eq!(p.eval(&Fr::from_u64(0)).scalar(), Scalar::from(2u64));
}

#[test]
fn eval_empty_and_constant() {
    assert_eq!(poly(&[]).eval(&Fr::from_u64(9)).scalar(), Scalar::zero());
    assert_eq!(poly(&[7]).eval(&Fr::from_u64(9)).scalar(), Scalar::from(7u64));
}

#[test]
fn eval_quadratic_exact() {
    // 3 + 12x + 10x^2 at x = 2
    assert_eq!(poly(&[3, 12, 10]).eval(&Fr::from_u64(2)).scalar(), Scalar::from(67u64));
}

#[test]
fn add_1() {
    let pol1 = poly(&[2, 1]);
    let pol2 = poly(&[3, 12, 10]);
    let result_pol = poly(&[5, 13, 10]);
    assert_eq!(scalars(&result_pol), scalars(&Polynomial::add(&pol1, &pol2)));
}

#[test]
fn sub_1() {
    let pol1 = poly(&[2, 1]);
    let pol2 = poly(&[3, 12, 10]);
    let result_pol = poly(&[1, 11, 10]);
    assert_eq!(scalars(&result_pol), scalars(&Polynomial::sub(&pol2, &pol1)));
}

#[test]
fn sub_wraps_modulo_field_order() {
    let r = Polynomial::sub(&poly(&[1]), &poly(&[2, 5]));
    assert_eq!(scalars(&r), vec![-Scalar::one(), -Scalar::from(5u64)]);
}

#[test]
fn mul() {
    let pol1 = poly(&[2, 1]);
    let pol2 = poly(&[3, 12, 10]);
    let result_pol = poly(&[6, 27, 32, 10]);
    assert_eq!(scalars(&result_pol), scalars(&Polynomial::mul(&pol2, &pol1)));
}

#[test]
fn mul_by_empty_is_empty() {
    assert_eq!(Polynomial::mul(&poly(&[1, 2]), &poly(&[])).coef.len(), 0);
}

#[test]
fn div() {
    let pol1 = poly(&[2, 1]);
    let pol2 = poly(&[3, 12, 6]);
    // 6x^2 + 12x + 3 = (x + 2) * 6x + 3: the remainder is not zero
    assert!(matches!(
        Polynomial::div(&pol2, &pol1),
        Err(KzgError::DivisionInvariantViolation)
    ));
}

#[test]
fn div_exact_quotient() {
    // 6x^2 + 12x = (x + 2) * 6x
    let q = Polynomial::div(&poly(&[0, 12, 6]), &poly(&[2, 1])).unwrap();
    assert_eq!(scalars(&q), vec![Scalar::zero(), Scalar::from(6u64)]);
}

#[test]
fn division_exactness() {
    // p = 2 + x, z = 1: y = 3 and (p - 3) / (x - 1) = 1
    let p = poly(&[2, 1]);
    let z = Fr::from_u64(1);
    let y = p.eval(&z);
    assert_eq!(y.scalar(), Scalar::from(3u64));
    let numerator = Polynomial::sub(&p, &Polynomial::new(vec![y]));
    // x - 1
    let divisor = Polynomial::sub(&poly(&[0, 1]), &poly(&[1]));
    let q = Polynomial::div(&numerator, &divisor).unwrap();
    assert_eq!(scalars(&q), vec![Scalar::one()]);
}

#[test]
fn wide_reduction_of_bytes() {
    let mut b = [0u8; 64];
    b[0] = 5;
    b[1] = 1;
    assert_eq!(Fr::from_bytes_wide(&b).scalar(), Scalar::from(261u64));
    let ones = [0xffu8; 64];
    assert_eq!(Fr::from_bytes_wide(&ones).scalar(), Scalar::from_bytes_wide(&ones));
    assert_ne!(Fr::from_bytes_wide(&ones).scalar(), Scalar::zero());
}

#[test]
fn divide_by_linear_exact_and_not() {
    // x^2 - 1 = (x + 1)(x - 1)
    let p = Polynomial::sub(&poly(&[0, 0, 1]), &poly(&[1]));
    let q = Polynomial::divide_by_linear(&p, &Fr::from_u64(1)).unwrap();
    assert_eq!(scalars(&q), vec![Scalar::one(), Scalar::one()]);
    assert!(matches!(
        Polynomial::divide_by_linear(&p, &Fr::from_u64(2)),
        Err(KzgError::DivisionInvariantViolation)
    ));
    assert_eq!(Polynomial::divide_by_linear(&poly(&[]), &Fr::from_u64(2)).unwrap().coef.len(), 0);
    assert!(matches!(
        Polynomial::divide_by_linear(&poly(&[4]), &Fr::from_u64(2)),
        Err(KzgError::DivisionInvariantViolation)
    ));
}
