use pasta_ops::curve::{validate_curve_point, validate_scalar_field, Affine, Curve, CurveError, EncodedPoint};
use pasta_ops::field::{field_add, field_neg, field_sub, from_bytes_mod_order, pow_small, Field};
use pasta_ops::u256::U256;

fn u(l0: u64, l1: u64, l2: u64, l3: u64) -> U256 {
    U256 { l0, l1, l2, l3 }
}

fn fr_modulus() -> U256 {
    u(0x8c46eb2100000001, 0x224698fc0994a8dd, 0, 0x4000000000000000)
}

fn fq_modulus() -> U256 {
    u(0x992d30ed00000001, 0x224698fc094cf91b, 0, 0x4000000000000000)
}

#[test]
fn identity_is_neutral() {
    for c in [Curve::Pallas, Curve::Vesta] {
        let g = Affine::generator(c);
        assert_eq!(g.add(c, &Affine::Infinity), g);
        assert_eq!(Affine::Infinity.add(c, &g), g);
        assert_eq!(Affine::Infinity.add(c, &Affine::Infinity), Affine::Infinity);
    }
}

#[test]
fn point_plus_negation_is_identity() {
    for c in [Curve::Pallas, Curve::Vesta] {
        let g = Affine::generator(c);
        let h = g.scalar_mul(c, &U256::from_u64(7));
        assert_eq!(g.add(c, &g.negate(c)), Affine::Infinity);
        assert_eq!(h.add(c, &h.negate(c)), Affine::Infinity);
        assert_eq!(Affine::Infinity.negate(c), Affine::Infinity);
    }
}

#[test]
fn doubling_is_self_addition() {
    for c in [Curve::Pallas, Curve::Vesta] {
        let g = Affine::generator(c);
        assert_eq!(g.double(c), g.add(c, &g));
        assert_eq!(Affine::Infinity.double(c), Affine::Infinity);
        assert_ne!(g.double(c), g);
    }
}

#[test]
fn scalar_mul_is_additive_in_the_scalar() {
    let c = Curve::Pallas;
    let g = Affine::generator(c);
    let a = g.scalar_mul(c, &U256::from_u64(12345));
    let b = g.scalar_mul(c, &U256::from_u64(67890));
    assert_eq!(g.scalar_mul(c, &U256::from_u64(12345 + 67890)), a.add(c, &b));
    assert_eq!(g.scalar_mul(c, &U256::from_u64(1)), g);
    assert_eq!(g.scalar_mul(c, &U256::zero()), Affine::Infinity);
    assert_eq!(g.scalar_mul(c, &U256::from_u64(2)), g.double(c));
    // (r - 1)·G + 2·G = (r + 1)·G = G, the group order being r.
    let mut r_minus_one = fr_modulus();
    r_minus_one.l0 -= 1;
    let lhs = g.scalar_mul(c, &r_minus_one).add(c, &g.scalar_mul(c, &U256::from_u64(2)));
    assert_eq!(lhs, g);
    assert_eq!(g.scalar_mul(c, &fr_modulus()), Affine::Infinity);
}

#[test]
fn msm_is_the_sum_of_products() {
    for c in [Curve::Pallas, Curve::Vesta] {
        let g = Affine::generator(c);
        let points = vec![g, g.double(c), g.scalar_mul(c, &U256::from_u64(5))];
        let scalars = vec![U256::from_u64(3), U256::from_u64(11), U256::from_u64(0)];
        let mut expected = Affine::Infinity;
        for i in 0..3 {
            expected = expected.add(c, &points[i].scalar_mul(c, &scalars[i]));
        }
        assert_eq!(Affine::multi_scalar_mul(c, &points, &scalars), expected);
        assert_eq!(expected, g.scalar_mul(c, &U256::from_u64(25)));
        assert_eq!(Affine::multi_scalar_mul(c, &vec![], &vec![]), Affine::Infinity);
    }
}

#[test]
fn encoding_round_trips() {
    for c in [Curve::Pallas, Curve::Vesta] {
        let g = Affine::generator(c);
        let h = g.scalar_mul(c, &U256::from_u64(99));
        assert_eq!(g.encode().decode(c), g);
        assert_eq!(h.encode().decode(c), h);
        assert_eq!(Affine::Infinity.encode(), EncodedPoint { x: U256::zero(), y: U256::zero() });
        assert_eq!(Affine::Infinity.encode().decode(c), Affine::Infinity);
    }
    // A coordinate at or above the prime is reduced on decoding.
    let e = EncodedPoint { x: fq_modulus(), y: U256::from_u64(2) };
    assert_eq!(e.decode(Curve::Pallas), Affine::Finite { x: U256::zero(), y: U256::from_u64(2) });
}

#[test]
fn validation_accepts_points_and_rejects_the_rest() {
    let c = Curve::Pallas;
    let g = Affine::generator(c).encode();
    assert_eq!(validate_curve_point(c, &g), Ok(()));
    let h = Affine::generator(c).scalar_mul(c, &U256::from_u64(1234)).encode();
    assert_eq!(validate_curve_point(c, &h), Ok(()));
    let infinity = EncodedPoint { x: U256::zero(), y: U256::zero() };
    assert_eq!(validate_curve_point(c, &infinity), Err(CurveError::InvalidPoint));
    let off = EncodedPoint { x: g.x, y: U256::from_u64(3) };
    assert_eq!(validate_curve_point(c, &off), Err(CurveError::InvalidPoint));
    let at_p = EncodedPoint { x: fq_modulus(), y: g.y };
    assert_eq!(validate_curve_point(c, &at_p), Err(CurveError::InvalidPoint));
    // Pallas's generator is off Vesta: its x is not below Vesta's base prime minus one.
    let v = Affine::generator(Curve::Vesta).encode();
    assert_eq!(validate_curve_point(Curve::Vesta, &v), Ok(()));
    assert_eq!(validate_curve_point(Curve::Vesta, &g), Err(CurveError::InvalidPoint));
}

#[test]
fn scalar_validation_boundary() {
    let r = fr_modulus();
    let mut r_minus_one = r;
    r_minus_one.l0 -= 1;
    let mut r_plus_one = r;
    r_plus_one.l0 += 1;
    assert_eq!(validate_scalar_field(Curve::Pallas, &r), Err(CurveError::InvalidScalar));
    assert_eq!(validate_scalar_field(Curve::Pallas, &r_plus_one), Err(CurveError::InvalidScalar));
    assert_eq!(validate_scalar_field(Curve::Pallas, &r_minus_one), Ok(()));
    assert_eq!(validate_scalar_field(Curve::Pallas, &U256::zero()), Ok(()));
    // Vesta's scalars are below Pallas's base prime, which is smaller than r.
    assert_eq!(validate_scalar_field(Curve::Vesta, &r_minus_one), Err(CurveError::InvalidScalar));
    let mut q_minus_one = fq_modulus();
    q_minus_one.l0 -= 1;
    assert_eq!(validate_scalar_field(Curve::Vesta, &q_minus_one), Ok(()));
}

#[test]
fn y_sign_flips_under_negation() {
    for c in [Curve::Pallas, Curve::Vesta] {
        let g = Affine::generator(c);
        // y = 2 is below -2 = p - 2.
        assert!(g.is_y_negative(c));
        assert!(!g.negate(c).is_y_negative(c));
        assert!(!Affine::Infinity.is_y_negative(c));
    }
}

#[test]
fn bytes_reduce_as_big_integers() {
    let all_ones_48 = [0xffu8; 48];
    assert_eq!(
        from_bytes_mod_order(Field::Fr, &all_ones_48),
        u(0xa4d4c16300000002, 0x66d3caf41cbdfa98, 0xcee4537bfffffffc, 0x36e59c0fd9ad5c89)
    );
    assert_eq!(
        from_bytes_mod_order(Field::Fq, &all_ones_48),
        u(0xcb8792c700000002, 0x66d3caf41be6eb52, 0x9b4b3c4bfffffffc, 0x36e59c0fdacc1b91)
    );
    let all_ones_32 = [0xffu8; 32];
    assert_eq!(
        from_bytes_mod_order(Field::Fr, &all_ones_32),
        u(0x5b2b3e9cfffffffc, 0x992c350be3420567, 0xffffffffffffffff, 0x3fffffffffffffff)
    );
    assert_eq!(from_bytes_mod_order(Field::Fr, &[]), U256::zero());
    assert_eq!(from_bytes_mod_order(Field::Fr, &[0x34, 0x12]), U256::from_u64(0x1234));
}

#[test]
fn scalar_modulus_of_pallas() {
    let r = fr_modulus();
    assert_eq!(validate_scalar_field(Curve::Pallas, &r), Err(CurveError::InvalidScalar));
    let mut r_minus_one = r;
    r_minus_one.l0 -= 1;
    assert_eq!(validate_scalar_field(Curve::Pallas, &r_minus_one), Ok(()));
    assert_eq!(Field::Fr.modulus_u256(), r);
}

#[test]
fn field_operations_wrap_at_the_modulus() {
    let mut p_minus_one = fq_modulus();
    p_minus_one.l0 -= 1;
    assert_eq!(field_add(Field::Fq, &p_minus_one, &U256::from_u64(2)), U256::from_u64(1));
    assert_eq!(field_sub(Field::Fq, &U256::zero(), &U256::from_u64(1)), p_minus_one);
    assert_eq!(field_neg(Field::Fq, &U256::zero()), U256::zero());
    assert_eq!(field_neg(Field::Fq, &U256::from_u64(1)), p_minus_one);
}

#[test]
fn pow_small_values() {
    let r = fr_modulus();
    assert_eq!(pow_small(&U256::from_u64(2), &U256::from_u64(10), &r), Some(U256::from_u64(1024)));
    assert_eq!(pow_small(&U256::from_u64(7), &U256::zero(), &r), Some(U256::from_u64(1)));
    assert_eq!(pow_small(&U256::from_u64(2), &U256::from_u64(10), &U256::from_u64(1000)), None);
    // Fermat: a^(p-1) = 1 for a nonzero residue.
    let q = fq_modulus();
    let mut q_minus_one = q;
    q_minus_one.l0 -= 1;
    assert_eq!(pow_small(&U256::from_u64(5), &q_minus_one, &q), Some(U256::from_u64(1)));
}

#[test]
fn u256_bytes_and_order() {
    let v = u(0x0102030405060708, 0, 0, 0x1100000000000000);
    let b = v.to_le_bytes();
    assert_eq!(b.len(), 32);
    assert_eq!(b[0], 0x08);
    assert_eq!(b[7], 0x01);
    assert_eq!(b[31], 0x11);
    assert!(U256::from_u64(3).lt(&v));
    assert!(!v.lt(&v));
    assert!(v.same(&v));
    let bits = U256::from_u64(5).to_bits();
    assert_eq!(bits.len(), 256);
    assert_eq!(&bits[253..], &[true, false, true]);
}
