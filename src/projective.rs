//! Projective points `(X, Y, Z)`, standing for the affine point `(X/Z, Y/Z)`.
use crate::curve::{ec_add, ec_double, ec_mul, Affine, Curve, EcPoint};
use crate::field::{field_mul, finv, fmul, invert, u256_to_field};
use crate::u256::U256;
use vstd::prelude::*;

verus! {

/// The affine point of a projective triple modulo `m`: the identity where `Z = 0`,
/// else `(X/Z, Y/Z)`.
pub open spec fn projective_model(m: int, x: int, y: int, z: int) -> EcPoint {
    if z == 0 {
        EcPoint::Infinity
    } else {
        let zi = finv(m, z);
        EcPoint::Coords(fmul(m, x, zi), fmul(m, y, zi))
    }
}

/// A projective triple on the wire: three little-endian 256-bit integers,
/// `(0, 0, 0)` for the identity.
#[derive(Clone, Copy, Debug, PartialEq, Eq, Structural)]
pub struct EncodedProjective {
    pub x: U256,
    pub y: U256,
    pub z: U256,
}

/// A projective point over the base field of a curve.
#[derive(Clone, Copy, Debug, PartialEq, Eq, Structural)]
pub struct Projective {
    pub x: U256,
    pub y: U256,
    pub z: U256,
}

impl Projective {
    /// The coordinates are canonical residues of the curve's base field.
    pub open spec fn wf(self, c: Curve) -> bool {
        self.x.val() < c.p() && self.y.val() < c.p() && self.z.val() < c.p()
    }

    /// The affine point that the triple stands for.
    pub open spec fn model(self, c: Curve) -> EcPoint {
        projective_model(c.p(), self.x.val() as int, self.y.val() as int, self.z.val() as int)
    }

    /// The identity, `(1, 1, 0)`.
    pub fn zero() -> (r: Projective)
        ensures
            r.x.val() == 1,
            r.y.val() == 1,
            r.z.val() == 0,
            forall|c: Curve| r.wf(c) && r.model(c) == EcPoint::Infinity,
    {
        proof {
            assert forall|c: Curve| 1 < c.p() by {
                crate::curve::lemma_odd_prime(c);
            }
        }
        Projective { x: U256::from_u64(1), y: U256::from_u64(1), z: U256::zero() }
    }

    /// The triple `(x, y, 1)` of an affine point; the identity for the identity.
    pub fn from_affine(c: Curve, p: &Affine) -> (r: Projective)
        requires
            p.wf(c),
        ensures
            r.wf(c),
            r.model(c) == p@,
    {
        proof {
            crate::curve::lemma_odd_prime(c);
        }
        match p {
            Affine::Infinity => Projective::zero(),
            Affine::Finite { x, y } => {
                proof {
                    let m = c.p();
                    vstd::arithmetic::div_mod::lemma_small_mod(1, m as nat);
                    crate::field::lemma_finv_is(m, 1, 1);
                    vstd::arithmetic::div_mod::lemma_small_mod(x.val(), m as nat);
                    vstd::arithmetic::div_mod::lemma_small_mod(y.val(), m as nat);
                }
                Projective { x: *x, y: *y, z: U256::from_u64(1) }
            },
        }
    }

    pub fn is_infinity(&self, c: Curve) -> (r: bool)
        requires
            self.wf(c),
        ensures
            r == (self.model(c) == EcPoint::Infinity),
    {
        self.z.is_zero()
    }

    /// The affine point `(X/Z, Y/Z)`, or the identity where `Z = 0`.
    pub fn to_affine(&self, c: Curve) -> (r: Affine)
        requires
            self.wf(c),
        ensures
            r.wf(c),
            r@ == self.model(c),
    {
        let f = c.base();
        match invert(f, &self.z) {
            Err(_) => Affine::Infinity,
            Ok(zi) => Affine::Finite { x: field_mul(f, &self.x, &zi), y: field_mul(f, &self.y, &zi) },
        }
    }

    /// The sum of two points, as a triple with `Z = 1` (or the identity).
    pub fn add(&self, c: Curve, q: &Projective) -> (r: Projective)
        requires
            self.wf(c),
            q.wf(c),
        ensures
            r.wf(c),
            r.model(c) == ec_add(c.p(), self.model(c), q.model(c)),
    {
        let a = self.to_affine(c);
        let b = q.to_affine(c);
        Projective::from_affine(c, &a.add(c, &b))
    }

    /// The double of a point, as a triple with `Z = 1` (or the identity).
    pub fn double(&self, c: Curve) -> (r: Projective)
        requires
            self.wf(c),
        ensures
            r.wf(c),
            r.model(c) == ec_double(c.p(), self.model(c)),
    {
        let a = self.to_affine(c);
        Projective::from_affine(c, &a.double(c))
    }

    /// `scalar` times a point, as a triple with `Z = 1` (or the identity).
    pub fn scalar_mul(&self, c: Curve, scalar: &U256) -> (r: Projective)
        requires
            self.wf(c),
        ensures
            r.wf(c),
            r.model(c) == ec_mul(c.p(), self.model(c), scalar.val()),
    {
        let a = self.to_affine(c);
        Projective::from_affine(c, &a.scalar_mul(c, scalar))
    }

    /// The wire triple: `(0, 0, 0)` for any triple with `Z = 0`, else the coordinates.
    pub fn encode(&self) -> (r: EncodedProjective)
        ensures
            self.z.val() == 0 ==> r.x.val() == 0 && r.y.val() == 0 && r.z.val() == 0,
            self.z.val() != 0 ==> r.x == self.x && r.y == self.y && r.z == self.z,
    {
        if self.z.is_zero() {
            EncodedProjective { x: U256::zero(), y: U256::zero(), z: U256::zero() }
        } else {
            EncodedProjective { x: self.x, y: self.y, z: self.z }
        }
    }
}

impl EncodedProjective {
    /// The wire form of the identity, `(0, 0, 0)`.
    pub open spec fn all_zero(self) -> bool {
        self.x.val() == 0 && self.y.val() == 0 && self.z.val() == 0
    }

    /// The triple that the wire form stands for on curve `c`: the identity `(1, 1, 0)`
    /// for `(0, 0, 0)`, else the coordinates reduced modulo the base prime.
    pub fn decode(&self, c: Curve) -> (r: Projective)
        ensures
            r.wf(c),
            self.all_zero() ==> r.x.val() == 1 && r.y.val() == 1 && r.z.val() == 0,
            !self.all_zero() ==> r.x.val() == self.x.val() % c.base_field().modulus(),
            !self.all_zero() ==> r.y.val() == self.y.val() % c.base_field().modulus(),
            !self.all_zero() ==> r.z.val() == self.z.val() % c.base_field().modulus(),
    {
        if self.x.is_zero() && self.y.is_zero() && self.z.is_zero() {
            Projective::zero()
        } else {
            let f = c.base();
            let x = u256_to_field(f, &self.x);
            let y = u256_to_field(f, &self.y);
            let z = u256_to_field(f, &self.z);
            Projective { x: x.value, y: y.value, z: z.value }
        }
    }
}

} // verus!
