//! Affine points of Pallas and Vesta and their group law.
//!
//! Both curves are `y^2 = x^3 + 5`; Pallas lies over `Field::Fq`, Vesta over
//! `Field::Fr`, and each one's group order is the other's base prime.
use crate::field::{
    field_add, field_mul, field_neg, field_sub, finv, fmul, fneg, fsub, invert, u256_to_field,
    Field,
};
use crate::u256::{bits_value, lemma_bits_value_push, U256};
use vstd::prelude::*;

verus! {

/// One of the two curves of the Pasta cycle.
#[derive(Clone, Copy, Debug, PartialEq, Eq, Structural)]
pub enum Curve {
    Pallas,
    Vesta,
}

impl Curve {
    /// The field of the coordinates.
    pub open spec fn base_field(self) -> Field {
        match self {
            Curve::Pallas => Field::Fq,
            Curve::Vesta => Field::Fr,
        }
    }

    /// The field of the scalars: integers modulo the group order.
    pub open spec fn scalar_field(self) -> Field {
        match self {
            Curve::Pallas => Field::Fr,
            Curve::Vesta => Field::Fq,
        }
    }

    /// The base prime.
    pub open spec fn p(self) -> int {
        self.base_field().modulus() as int
    }

    pub fn base(&self) -> (r: Field)
        ensures
            r == self.base_field(),
    {
        match self {
            Curve::Pallas => Field::Fq,
            Curve::Vesta => Field::Fr,
        }
    }

    pub fn scalar(&self) -> (r: Field)
        ensures
            r == self.scalar_field(),
    {
        match self {
            Curve::Pallas => Field::Fr,
            Curve::Vesta => Field::Fq,
        }
    }
}

/// A point of a curve in the mathematical model: the identity, or two residues.
pub enum EcPoint {
    Infinity,
    Coords(int, int),
}

/// The point satisfies `y^2 = x^3 + 5` modulo `m`.
pub open spec fn on_curve(m: int, x: int, y: int) -> bool {
    (y * y) % m == (x * x * x + 5) % m
}

/// Both coordinates are residues modulo `m`.
pub open spec fn reduced(m: int, p: EcPoint) -> bool {
    match p {
        EcPoint::Infinity => true,
        EcPoint::Coords(x, y) => 0 <= x < m && 0 <= y < m,
    }
}

/// A point of the curve over `m`: the identity, or reduced coordinates on the curve.
pub open spec fn valid(m: int, p: EcPoint) -> bool {
    match p {
        EcPoint::Infinity => true,
        EcPoint::Coords(x, y) => 0 <= x < m && 0 <= y < m && on_curve(m, x, y),
    }
}

/// The negation of a point: `(x, -y)`.
pub open spec fn ec_neg(m: int, p: EcPoint) -> EcPoint {
    match p {
        EcPoint::Infinity => EcPoint::Infinity,
        EcPoint::Coords(x, y) => EcPoint::Coords(x, fneg(m, y)),
    }
}

/// The double of a point by the tangent rule; a point with `y = 0` doubles to the
/// identity.
pub open spec fn ec_double(m: int, p: EcPoint) -> EcPoint {
    match p {
        EcPoint::Infinity => EcPoint::Infinity,
        EcPoint::Coords(x, y) => if y == 0 {
            EcPoint::Infinity
        } else {
            let l = fmul(m, fmul(m, 3, fmul(m, x, x)), finv(m, fmul(m, 2, y)));
            let x3 = fsub(m, fmul(m, l, l), fmul(m, 2, x));
            EcPoint::Coords(x3, fsub(m, fmul(m, l, fsub(m, x, x3)), y))
        },
    }
}

/// The sum of two points by the chord rule: the identity is neutral, a point plus
/// itself is its double, and two points with one `x` and different `y` sum to the
/// identity.
pub open spec fn ec_add(m: int, p: EcPoint, q: EcPoint) -> EcPoint {
    match (p, q) {
        (EcPoint::Infinity, _) => q,
        (_, EcPoint::Infinity) => p,
        (EcPoint::Coords(x1, y1), EcPoint::Coords(x2, y2)) => if x1 == x2 {
            if y1 == y2 {
                ec_double(m, p)
            } else {
                EcPoint::Infinity
            }
        } else {
            let l = fmul(m, fsub(m, y2, y1), finv(m, fsub(m, x2, x1)));
            let x3 = fsub(m, fsub(m, fmul(m, l, l), x1), x2);
            EcPoint::Coords(x3, fsub(m, fmul(m, l, fsub(m, x1, x3)), y1))
        },
    }
}

/// `n` times `p`, by the binary expansion of `n`: `n·p` is the double of
/// `(n / 2)·p`, plus `p` when `n` is odd.
pub open spec fn ec_mul(m: int, p: EcPoint, n: nat) -> EcPoint
    decreases n,
{
    if n == 0 {
        EcPoint::Infinity
    } else {
        let d = ec_double(m, ec_mul(m, p, n / 2));
        if n % 2 == 1 {
            ec_add(m, d, p)
        } else {
            d
        }
    }
}

/// The sum, from the identity and in order, of a sequence of points.
pub open spec fn ec_sum(m: int, terms: Seq<EcPoint>) -> EcPoint {
    terms.fold_left(EcPoint::Infinity, |acc: EcPoint, t: EcPoint| ec_add(m, acc, t))
}

/// Both primes are odd.
pub proof fn lemma_odd_prime(c: Curve)
    ensures
        c.p() % 2 == 1,
        c.p() > 5,
        c.scalar_field().modulus() % 2 == 1,
{
}

/// Twice a nonzero residue modulo an odd `m` is nonzero.
pub proof fn lemma_twice_nonzero(m: int, y: int)
    requires
        0 < y < m,
        m % 2 == 1,
    ensures
        (2 * y) % m != 0,
{
    if 2 * y < m {
        vstd::arithmetic::div_mod::lemma_small_mod((2 * y) as nat, m as nat);
    } else {
        vstd::arithmetic::div_mod::lemma_mod_sub_multiples_vanish(2 * y, m);
        vstd::arithmetic::div_mod::lemma_small_mod((2 * y - m) as nat, m as nat);
    }
}

/// The terms `scalars[i]·points[i]` of a multi-scalar multiplication.
pub open spec fn msm_terms(m: int, points: Seq<Affine>, scalars: Seq<U256>) -> Seq<EcPoint> {
    Seq::new(points.len(), |i: int| ec_mul(m, points[i]@, scalars[i].val()))
}

/// Whether the point's `y` exceeds its negation `-y`, both taken as canonical
/// residues; the identity counts as `y = 0`, which is not negative.
pub open spec fn y_negative(m: int, p: EcPoint) -> bool {
    match p {
        EcPoint::Infinity => false,
        EcPoint::Coords(_, y) => y < fneg(m, y),
    }
}

/// The wire pair of a point: the identity is `(0, 0)`, any other point its coordinates.
pub open spec fn encode_model(p: EcPoint) -> (int, int) {
    match p {
        EcPoint::Infinity => (0, 0),
        EcPoint::Coords(x, y) => (x, y),
    }
}

/// The point of a wire pair: `(0, 0)` is the identity, any other pair its coordinates
/// reduced modulo `m`.
pub open spec fn decode_model(m: int, e: (int, int)) -> EcPoint {
    if e.0 == 0 && e.1 == 0 {
        EcPoint::Infinity
    } else {
        EcPoint::Coords(e.0 % m, e.1 % m)
    }
}

/// The checks that a wire pair must pass to stand for a point of the curve: no zero
/// coordinate, both below the base prime, and on the curve.
pub open spec fn acceptable_point(m: int, x: int, y: int) -> bool {
    x != 0 && y != 0 && x < m && y < m && on_curve(m, x, y)
}

/// Errors of curve validation.
#[derive(Clone, Copy, Debug, PartialEq, Eq, Structural)]
pub enum CurveError {
    /// A coordinate is zero or not below the base prime, or the point is off the curve.
    InvalidPoint,
    /// A scalar is not below the group order.
    InvalidScalar,
}

/// A point on the wire: two little-endian 256-bit integers, `(0, 0)` for the identity.
#[derive(Clone, Copy, Debug, PartialEq, Eq, Structural)]
pub struct EncodedPoint {
    pub x: U256,
    pub y: U256,
}

impl EncodedPoint {
    /// The point that the pair stands for on curve `c`; coordinates are reduced modulo
    /// the base prime.
    pub fn decode(&self, c: Curve) -> (r: Affine)
        ensures
            r.wf(c),
            r@ == decode_model(c.p(), (self.x.val() as int, self.y.val() as int)),
    {
        if self.x.is_zero() && self.y.is_zero() {
            Affine::Infinity
        } else {
            let f = c.base();
            let x = u256_to_field(f, &self.x);
            let y = u256_to_field(f, &self.y);
            Affine::Finite { x: x.value, y: y.value }
        }
    }
}

/// Checks that a wire pair stands for a point of curve `c`: both coordinates nonzero
/// and below the base prime, and `y^2 = x^3 + 5`.
pub fn validate_curve_point(c: Curve, e: &EncodedPoint) -> (r: Result<(), CurveError>)
    ensures
        r is Ok <==> acceptable_point(c.p(), e.x.val() as int, e.y.val() as int),
        r matches Err(err) ==> err == CurveError::InvalidPoint,
{
    let f = c.base();
    if e.x.is_zero() || e.y.is_zero() || !f.is_canonical(&e.x) || !f.is_canonical(&e.y) {
        return Err(CurveError::InvalidPoint);
    }
    let yy = field_mul(f, &e.y, &e.y);
    let xx = field_mul(f, &e.x, &e.x);
    let xxx = field_mul(f, &xx, &e.x);
    let rhs = field_add(f, &xxx, &U256::from_u64(5));
    proof {
        let m = c.p();
        let x = e.x.val() as int;
        lemma_odd_prime(c);
        vstd::arithmetic::div_mod::lemma_mul_mod_noop_left(x * x, x, m);
        vstd::arithmetic::div_mod::lemma_add_mod_noop(x * x * x, 5, m);
        vstd::arithmetic::div_mod::lemma_small_mod(5, m as nat);
        vstd::arithmetic::div_mod::lemma_mod_twice(x * x * x, m);
    }
    if yy.same(&rhs) {
        Ok(())
    } else {
        Err(CurveError::InvalidPoint)
    }
}

/// Checks that a scalar is below the group order of curve `c`.
pub fn validate_scalar_field(c: Curve, s: &U256) -> (r: Result<(), CurveError>)
    ensures
        r is Ok <==> s.val() < c.scalar_field().modulus(),
        r matches Err(err) ==> err == CurveError::InvalidScalar,
{
    if c.scalar().is_canonical(s) {
        Ok(())
    } else {
        Err(CurveError::InvalidScalar)
    }
}

/// An affine point: the identity, or two coordinates of the base field.
#[derive(Clone, Copy, Debug, PartialEq, Eq, Structural)]
pub enum Affine {
    Infinity,
    Finite { x: U256, y: U256 },
}

impl View for Affine {
    type V = EcPoint;

    open spec fn view(&self) -> EcPoint {
        match *self {
            Affine::Infinity => EcPoint::Infinity,
            Affine::Finite { x, y } => EcPoint::Coords(x.val() as int, y.val() as int),
        }
    }
}

impl Affine {
    /// The coordinates are canonical residues of the curve's base field.
    pub open spec fn wf(self, c: Curve) -> bool {
        reduced(c.p(), self@)
    }

    pub fn is_infinity(&self) -> (r: bool)
        ensures
            r == (self@ == EcPoint::Infinity),
    {
        match self {
            Affine::Infinity => true,
            Affine::Finite { .. } => false,
        }
    }

    /// The wire pair of the point.
    pub fn encode(&self) -> (r: EncodedPoint)
        ensures
            (r.x.val() as int, r.y.val() as int) == encode_model(self@),
    {
        match self {
            Affine::Infinity => EncodedPoint { x: U256::zero(), y: U256::zero() },
            Affine::Finite { x, y } => EncodedPoint { x: *x, y: *y },
        }
    }

    /// The generator `(-1, 2)` of curve `c`.
    pub fn generator(c: Curve) -> (r: Affine)
        ensures
            r@ == EcPoint::Coords(c.p() - 1, 2),
            valid(c.p(), r@),
    {
        let x = match c {
            Curve::Pallas => U256 {
                l0: 0x992d30ed00000000,
                l1: 0x224698fc094cf91b,
                l2: 0,
                l3: 0x4000000000000000,
            },
            Curve::Vesta => U256 {
                l0: 0x8c46eb2100000000,
                l1: 0x224698fc0994a8dd,
                l2: 0,
                l3: 0x4000000000000000,
            },
        };
        proof {
            let m = c.p();
            let x = m - 1;
            assert(x * x * x + 5 == m * (m * m - 3 * m + 3) + 4) by (nonlinear_arith)
                requires
                    x == m - 1,
            ;
            vstd::arithmetic::div_mod::lemma_mod_multiples_vanish(m * m - 3 * m + 3, 4, m);
            vstd::arithmetic::div_mod::lemma_small_mod(4, m as nat);
        }
        Affine::Finite { x, y: U256::from_u64(2) }
    }

    /// Whether `y` exceeds `-y` as canonical residues; false for the identity.
    pub fn is_y_negative(&self, c: Curve) -> (r: bool)
        requires
            self.wf(c),
        ensures
            r == y_negative(c.p(), self@),
    {
        match self {
            Affine::Infinity => false,
            Affine::Finite { y, .. } => y.lt(&field_neg(c.base(), y)),
        }
    }

    /// The negation `(x, -y)`.
    pub fn negate(&self, c: Curve) -> (r: Affine)
        requires
            self.wf(c),
        ensures
            r.wf(c),
            r@ == ec_neg(c.p(), self@),
    {
        match self {
            Affine::Infinity => Affine::Infinity,
            Affine::Finite { x, y } => Affine::Finite { x: *x, y: field_neg(c.base(), y) },
        }
    }

    /// The sum of two points.
    pub fn add(&self, c: Curve, q: &Affine) -> (r: Affine)
        requires
            self.wf(c),
            q.wf(c),
        ensures
            r.wf(c),
            r@ == ec_add(c.p(), self@, q@),
    {
        let f = c.base();
        match self {
            Affine::Infinity => *q,
            Affine::Finite { x: x1, y: y1 } => match q {
                Affine::Infinity => *self,
                Affine::Finite { x: x2, y: y2 } => {
                    if x1.same(x2) {
                        if y1.same(y2) {
                            self.double(c)
                        } else {
                            Affine::Infinity
                        }
                    } else {
                        let dy = field_sub(f, y2, y1);
                        let dx = field_sub(f, x2, x1);
                        proof {
                            assert(dx.val() != 0) by {
                                let a = x2.val() as int;
                                let b = x1.val() as int;
                                if a >= b {
                                    vstd::arithmetic::div_mod::lemma_small_mod((a - b) as nat, c.p() as nat);
                                } else {
                                    vstd::arithmetic::div_mod::lemma_mod_add_multiples_vanish(a - b, c.p());
                                    vstd::arithmetic::div_mod::lemma_small_mod((a - b + c.p()) as nat, c.p() as nat);
                                }
                            }
                        }
                        let inv = match invert(f, &dx) {
                            Ok(v) => v,
                            Err(_) => {
                                proof {
                                    assert(false);
                                }
                                U256::zero()
                            },
                        };
                        let l = field_mul(f, &dy, &inv);
                        let ll = field_mul(f, &l, &l);
                        let t = field_sub(f, &ll, x1);
                        let x3 = field_sub(f, &t, x2);
                        let d = field_sub(f, x1, &x3);
                        let ld = field_mul(f, &l, &d);
                        let y3 = field_sub(f, &ld, y1);
                        Affine::Finite { x: x3, y: y3 }
                    }
                },
            },
        }
    }

    /// `scalar` times the point, by double-and-add over the scalar's binary digits
    /// from the most significant one down.
    pub fn scalar_mul(&self, c: Curve, scalar: &U256) -> (r: Affine)
        requires
            self.wf(c),
        ensures
            r.wf(c),
            r@ == ec_mul(c.p(), self@, scalar.val()),
    {
        let ghost m = c.p();
        let bits = scalar.to_bits();
        let mut acc = Affine::Infinity;
        let mut i: usize = 0;
        proof {
            assert(bits@.take(0) =~= Seq::<bool>::empty());
            assert(bits@.take(256) =~= bits@);
        }
        while i < 256
            invariant
                i <= 256,
                bits@.len() == 256,
                bits_value(bits@) == scalar.val(),
                m == c.p(),
                self.wf(c),
                acc.wf(c),
                acc@ == ec_mul(m, self@, bits_value(bits@.take(i as int))),
            decreases 256 - i,
        {
            let ghost n = bits_value(bits@.take(i as int));
            proof {
                assert(bits@.take(i + 1) =~= bits@.take(i as int).push(bits@[i as int]));
                lemma_bits_value_push(bits@.take(i as int), bits@[i as int]);
                let n2 = bits_value(bits@.take(i + 1));
                assert(n2 / 2 == n);
                if n2 == 0 {
                    assert(ec_double(m, ec_mul(m, self@, n)) == EcPoint::Infinity);
                }
            }
            let d = acc.double(c);
            if bits[i] {
                acc = d.add(c, self);
            } else {
                acc = d;
            }
            i = i + 1;
        }
        acc
    }

    /// `Σ scalars[i]·points[i]`, accumulated in order from the identity.
    pub fn multi_scalar_mul(c: Curve, points: &Vec<Affine>, scalars: &Vec<U256>) -> (r: Affine)
        requires
            points@.len() == scalars@.len(),
            forall|i: int| 0 <= i < points@.len() ==> (#[trigger] points@[i]).wf(c),
        ensures
            r.wf(c),
            r@ == ec_sum(c.p(), msm_terms(c.p(), points@, scalars@)),
    {
        let ghost m = c.p();
        let ghost terms = msm_terms(m, points@, scalars@);
        let mut acc = Affine::Infinity;
        let mut i: usize = 0;
        proof {
            assert(terms.take(0) =~= Seq::<EcPoint>::empty());
        }
        while i < points.len()
            invariant
                i <= points@.len(),
                points@.len() == scalars@.len(),
                forall|j: int| 0 <= j < points@.len() ==> (#[trigger] points@[j]).wf(c),
                m == c.p(),
                terms == msm_terms(m, points@, scalars@),
                acc.wf(c),
                acc@ == ec_sum(m, terms.take(i as int)),
            decreases points@.len() - i,
        {
            let t = points[i].scalar_mul(c, &scalars[i]);
            proof {
                assert(terms.take(i + 1).drop_last() =~= terms.take(i as int));
            }
            acc = acc.add(c, &t);
            i = i + 1;
        }
        proof {
            assert(terms.take(points@.len() as int) =~= terms);
        }
        acc
    }

    /// The double of the point.
    pub fn double(&self, c: Curve) -> (r: Affine)
        requires
            self.wf(c),
        ensures
            r.wf(c),
            r@ == ec_double(c.p(), self@),
    {
        let f = c.base();
        proof {
            lemma_odd_prime(c);
        }
        match self {
            Affine::Infinity => Affine::Infinity,
            Affine::Finite { x, y } => {
                if y.is_zero() {
                    Affine::Infinity
                } else {
                    let two = U256::from_u64(2);
                    let three = U256::from_u64(3);
                    let xx = field_mul(f, x, x);
                    let num = field_mul(f, &three, &xx);
                    let den = field_mul(f, &two, y);
                    proof {
                        vstd::arithmetic::div_mod::lemma_mul_mod_noop_right(2, y.val() as int, c.p());
                        vstd::arithmetic::div_mod::lemma_small_mod(y.val(), c.p() as nat);
                        lemma_twice_nonzero(c.p(), y.val() as int);
                    }
                    let inv = match invert(f, &den) {
                        Ok(v) => v,
                        Err(_) => {
                            proof {
                                assert(false);
                            }
                            U256::zero()
                        },
                    };
                    let l = field_mul(f, &num, &inv);
                    let ll = field_mul(f, &l, &l);
                    let two_x = field_mul(f, &two, x);
                    let x3 = field_sub(f, &ll, &two_x);
                    let dx = field_sub(f, x, &x3);
                    let ldx = field_mul(f, &l, &dx);
                    let y3 = field_sub(f, &ldx, y);
                    Affine::Finite { x: x3, y: y3 }
                }
            },
        }
    }
}

} // verus!
