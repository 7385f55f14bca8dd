use ark_ec::msm::VariableBaseMSM;
use ark_ec::{AffineCurve, ProjectiveCurve};
use ark_ec::group::Group;
use ark_ff::{BigInteger256, Field as ArkField, FpParameters, PrimeField, Zero};
use ark_pallas::{Affine as ArkAffine, Fq, Fr, Projective as ArkProjective};
use ark_std::rand::RngCore;
use ark_std::UniformRand;
use pasta_ops::curve::{validate_curve_point, validate_scalar_field, Affine, Curve, CurveError, EncodedPoint};
use pasta_ops::field::{
    field_mul, field_to_u256, from_bytes_mod_order, invert, pow_small, u256_to_field, Field,
    FieldError,
};
use pasta_ops::u256::U256;

const C: Curve = Curve::Pallas;

fn fe<F: PrimeField<BigInt = BigInteger256>>(f: F) -> U256 {
    let l = f.into_repr().0;
    U256 { l0: l[0], l1: l[1], l2: l[2], l3: l[3] }
}

fn lib_point(p: &ArkAffine) -> Affine {
    if p.is_zero() {
        Affine::Infinity
    } else {
        Affine::Finite { x: fe(p.x), y: fe(p.y) }
    }
}

fn wire(p: &ArkAffine) -> EncodedPoint {
    if p.is_zero() {
        EncodedPoint { x: U256::zero(), y: U256::zero() }
    } else {
        EncodedPoint { x: fe(p.x), y: fe(p.y) }
    }
}

fn u256_from_dec(s: &str) -> U256 {
    let mut l = [0u64; 4];
    for ch in s.chars() {
        let mut carry = ch.to_digit(10).unwrap() as u128;
        for limb in l.iter_mut() {
            let v = (*limb as u128) * 10 + carry;
            *limb = v as u64;
            carry = v >> 64;
        }
        assert_eq!(carry, 0);
    }
    U256 { l0: l[0], l1: l[1], l2: l[2], l3: l[3] }
}

#[test]
fn pallas_test_add() {
    let rng = &mut ark_std::test_rng();
    for _ in 0..10 {
        let p1: ArkAffine = ArkProjective::rand(rng).into();
        let p2: ArkAffine = ArkProjective::rand(rng).into();
        let res = lib_point(&p1).add(C, &lib_point(&p2)).encode();
        assert_eq!(res, wire(&(p1 + p2)));
    }
    let zero = ArkAffine::zero();
    let p: ArkAffine = ArkProjective::rand(rng).into();
    let res = lib_point(&p).add(C, &lib_point(&zero)).encode();
    assert_eq!(res, wire(&p));
}

#[test]
fn pallas_test_group_generators() {
    let g = ArkAffine::prime_subgroup_generator();
    assert_eq!(Affine::generator(C).encode(), wire(&g));
}

#[test]
fn pallas_test_is_infinity() {
    let rng = &mut ark_std::test_rng();
    let zero = ArkAffine::zero();
    assert!(wire(&zero).decode(C).is_infinity());
    for _ in 0..10 {
        let non_zero: ArkAffine = ArkProjective::rand(rng).into();
        assert!(!wire(&non_zero).decode(C).is_infinity());
    }
}

#[test]
fn pallas_test_negate() {
    let rng = &mut ark_std::test_rng();
    for _ in 0..10 {
        let p: ArkAffine = ArkProjective::rand(rng).into();
        assert_eq!(lib_point(&p).negate(C).encode(), wire(&(-p)));
    }
}

#[test]
fn pallas_test_scalar_mul() {
    let rng = &mut ark_std::test_rng();
    for _ in 0..10 {
        let p = ArkProjective::rand(rng);
        let s = Fr::rand(rng);
        let res = lib_point(&p.into_affine()).scalar_mul(C, &fe(s)).encode();
        assert_eq!(res, wire(&Group::mul(&p, &s).into_affine()));
    }
}

#[test]
fn pallas_test_multi_scalar_mul() {
    let rng = &mut ark_std::test_rng();
    for length in 1..10 {
        let p_ark: Vec<ArkAffine> = (0..length).map(|_| ArkProjective::rand(rng).into_affine()).collect();
        let s_ark: Vec<Fr> = (0..length).map(|_| Fr::rand(rng)).collect();
        let points: Vec<Affine> = p_ark.iter().map(lib_point).collect();
        let scalars: Vec<U256> = s_ark.iter().map(|&s| fe(s)).collect();
        let reprs: Vec<_> = s_ark.iter().map(|s| s.into_repr()).collect();
        let res = Affine::multi_scalar_mul(C, &points, &scalars).encode();
        assert_eq!(res, wire(&VariableBaseMSM::multi_scalar_mul(&p_ark, &reprs).into_affine()));
    }
}

#[test]
fn pallas_test_is_y_negative() {
    let rng = &mut ark_std::test_rng();
    for _ in 0..10 {
        let p: ArkAffine = ArkProjective::rand(rng).into();
        let is_negative = p.y < -p.y;
        assert_eq!(lib_point(&p).is_y_negative(C), is_negative);
        assert_eq!(lib_point(&(-p)).is_y_negative(C), !is_negative);
    }
}

#[test]
fn pallas_test_invert() {
    let rng = &mut ark_std::test_rng();
    for _ in 0..10 {
        let f = Fr::rand(rng);
        assert_eq!(invert(Field::Fr, &fe(f)), Ok(fe(f.inverse().unwrap())));
        let f = Fq::rand(rng);
        assert_eq!(invert(Field::Fq, &fe(f)), Ok(fe(f.inverse().unwrap())));
    }
    assert_eq!(invert(Field::Fq, &U256::zero()), Err(FieldError::DivisionByZero));
}

#[test]
fn pallas_test_validate_curve_point() {
    let rng = &mut ark_std::test_rng();
    let p: ArkAffine = ArkProjective::rand(rng).into();
    assert_eq!(validate_curve_point(C, &wire(&p)), Ok(()));

    let mut bad_p = wire(&p);
    bad_p.x = U256::zero();
    assert_eq!(validate_curve_point(C, &bad_p), Err(CurveError::InvalidPoint));

    let mut bad_p = wire(&p);
    bad_p.y = U256::zero();
    assert_eq!(validate_curve_point(C, &bad_p), Err(CurveError::InvalidPoint));

    let max = U256 { l0: u64::MAX, l1: u64::MAX, l2: u64::MAX, l3: u64::MAX };
    let mut bad_p = wire(&p);
    bad_p.x = max;
    assert_eq!(validate_curve_point(C, &bad_p), Err(CurveError::InvalidPoint));

    let mut bad_p = wire(&p);
    bad_p.y = max;
    assert_eq!(validate_curve_point(C, &bad_p), Err(CurveError::InvalidPoint));

    let bad_p = EncodedPoint { x: U256::from_u64(1), y: U256::from_u64(3) };
    assert_eq!(validate_curve_point(C, &bad_p), Err(CurveError::InvalidPoint));
}

#[test]
fn pallas_test_validate_scalar_field() {
    let rng = &mut ark_std::test_rng();
    let f = Fr::rand(rng);
    assert_eq!(validate_scalar_field(C, &fe(f)), Ok(()));
    let r = u256_from_dec("28948022309329048855892746252171976963363056481941647379679742748393362948097");
    assert_eq!(validate_scalar_field(C, &r), Err(CurveError::InvalidScalar));
}

#[test]
fn pallas_test_from_le_bytes_mod_order() {
    let rng = &mut ark_std::test_rng();
    for _ in 0..10 {
        let mut bytes = [0u8; 32];
        rng.fill_bytes(&mut bytes);
        assert_eq!(from_bytes_mod_order(Field::Fr, &bytes), fe(Fr::from_le_bytes_mod_order(&bytes)));

        let mut bytes = [0u8; 48];
        rng.fill_bytes(&mut bytes);
        assert_eq!(from_bytes_mod_order(Field::Fr, &bytes), fe(Fr::from_le_bytes_mod_order(&bytes)));
    }
}

#[test]
fn pallas_test_pow_small() {
    let rng = &mut ark_std::test_rng();
    let modulus = fe_modulus(<<Fr as PrimeField>::Params as FpParameters>::MODULUS);
    for _ in 0..10 {
        let base = Fr::rand(rng);
        let exponent = u64::rand(rng);
        assert_eq!(
            pow_small(&fe(base), &fe(Fr::from(exponent)), &modulus),
            Some(fe(base.pow([exponent])))
        );
    }
}

#[test]
fn pallas_test_doubling() {
    let rng = &mut ark_std::test_rng();
    for _ in 0..10 {
        let p = ArkProjective::rand(rng);
        let p2 = ProjectiveCurve::double(&p);
        assert_eq!(lib_point(&p.into_affine()).double(C).encode(), wire(&p2.into_affine()));
    }
}

#[test]
fn field_types_conversion() {
    let rng = &mut ark_std::test_rng();
    let f1 = Fr::rand(rng);
    let f2 = Fq::rand(rng);
    let e1 = u256_to_field(Field::Fr, &fe(f1));
    let e2 = u256_to_field(Field::Fq, &fe(f2));
    assert_eq!(field_to_u256(&e1), fe(f1));
    assert_eq!(field_to_u256(&e2), fe(f2));
    assert_eq!(e1, u256_to_field(Field::Fr, &field_to_u256(&e1)));
    assert_eq!(e2, u256_to_field(Field::Fq, &field_to_u256(&e2)));
}

#[test]
fn group_types_conversion() {
    let p1 = Affine::Infinity;
    let p1_sol = p1.encode();
    assert_eq!(p1_sol.x, U256::from_u64(0));
    assert_eq!(p1_sol.y, U256::from_u64(0));
    assert_eq!(p1, p1_sol.decode(Curve::Pallas));

    let p2 = Affine::Finite { x: U256::from_u64(12345), y: U256::from_u64(2) };
    let p2_sol = p2.encode();
    assert_eq!(p2_sol.x, U256::from_u64(12345));
    assert_eq!(p2_sol.y, U256::from_u64(2));
    assert_eq!(p2, p2_sol.decode(Curve::Pallas));

    let p1_sol = p1.encode();
    assert_eq!(p1, p1_sol.decode(Curve::Vesta));
    let p2_sol = p2.encode();
    assert_eq!(p2, p2_sol.decode(Curve::Vesta));
}

#[test]
fn pallas_mul_by_field_element_checks_inverse() {
    let rng = &mut ark_std::test_rng();
    let f = Fq::rand(rng);
    let inv = invert(Field::Fq, &fe(f)).unwrap();
    assert_eq!(field_mul(Field::Fq, &fe(f), &inv), U256::from_u64(1));
}

fn fe_modulus(m: BigInteger256) -> U256 {
    U256 { l0: m.0[0], l1: m.0[1], l2: m.0[2], l3: m.0[3] }
}
