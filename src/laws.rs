//! Laws that the group operations and the encoding obey.
use crate::curve::{
    decode_model, ec_add, ec_double, ec_mul, ec_neg, encode_model, lemma_odd_prime, reduced, valid,
    y_negative, Curve, EcPoint,
};
use crate::field::fneg;
use vstd::prelude::*;

verus! {

/// The identity is neutral on both sides: `P + O = P` and `O + P = P`.
pub proof fn lemma_add_identity(c: Curve, p: EcPoint)
    requires
        valid(c.p(), p),
    ensures
        ec_add(c.p(), p, EcPoint::Infinity) == p,
        ec_add(c.p(), EcPoint::Infinity, p) == p,
{
}

/// A point plus its negation is the identity: `P + (-P) = O`.
pub proof fn lemma_add_negation(c: Curve, p: EcPoint)
    requires
        valid(c.p(), p),
    ensures
        ec_add(c.p(), p, ec_neg(c.p(), p)) == EcPoint::Infinity,
{
    let m = c.p();
    lemma_odd_prime(c);
    if let EcPoint::Coords(x, y) = p {
        if y != 0 {
            vstd::arithmetic::div_mod::lemma_mod_add_multiples_vanish(0 - y, m);
            vstd::arithmetic::div_mod::lemma_small_mod((m - y) as nat, m as nat);
            assert(fneg(m, y) == m - y);
        }
    }
}

/// Doubling is adding a point to itself: `double(P) = P + P`.
pub proof fn lemma_double_is_self_add(c: Curve, p: EcPoint)
    requires
        valid(c.p(), p),
    ensures
        ec_double(c.p(), p) == ec_add(c.p(), p, p),
{
}

/// Scalar multiplication is additive in the scalar where one of the two scalars is
/// zero: `(a + 0)·P = a·P + 0·P` and `(0 + b)·P = 0·P + b·P`.
pub proof fn lemma_mul_additive_zero_scalar(c: Curve, p: EcPoint, a: nat)
    requires
        valid(c.p(), p),
    ensures
        ec_mul(c.p(), p, a + 0) == ec_add(c.p(), ec_mul(c.p(), p, a), ec_mul(c.p(), p, 0)),
        ec_mul(c.p(), p, 0 + a) == ec_add(c.p(), ec_mul(c.p(), p, 0), ec_mul(c.p(), p, a)),
{
}

/// Decoding the wire pair of a point gives the point back, the identity included.
pub proof fn lemma_encode_round_trip(c: Curve, p: EcPoint)
    requires
        valid(c.p(), p),
    ensures
        decode_model(c.p(), encode_model(p)) == p,
{
    let m = c.p();
    lemma_odd_prime(c);
    if let EcPoint::Coords(x, y) = p {
        vstd::arithmetic::div_mod::lemma_small_mod(x as nat, m as nat);
        vstd::arithmetic::div_mod::lemma_small_mod(y as nat, m as nat);
        if x == 0 && y == 0 {
            vstd::arithmetic::div_mod::lemma_small_mod(5, m as nat);
            assert((x * x * x + 5) % m == 5);
        }
    }
}

/// For a point with `y ≠ 0`, exactly one of `P` and `-P` has a negative `y`.
pub proof fn lemma_y_negative_complement(c: Curve, p: EcPoint)
    requires
        reduced(c.p(), p),
        p matches EcPoint::Coords(_, y) && y != 0,
    ensures
        y_negative(c.p(), ec_neg(c.p(), p)) == !y_negative(c.p(), p),
{
    let m = c.p();
    lemma_odd_prime(c);
    if let EcPoint::Coords(x, y) = p {
        vstd::arithmetic::div_mod::lemma_mod_add_multiples_vanish(0 - y, m);
        vstd::arithmetic::div_mod::lemma_small_mod((m - y) as nat, m as nat);
        assert(fneg(m, y) == m - y);
        vstd::arithmetic::div_mod::lemma_mod_add_multiples_vanish(0 - (m - y), m);
        vstd::arithmetic::div_mod::lemma_small_mod(y as nat, m as nat);
        assert(fneg(m, m - y) == y);
    }
}

} // verus!
