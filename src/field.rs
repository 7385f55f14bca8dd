//! Arithmetic in the two prime fields of the Pasta cycle.
//!
//! `Field::Fq` is the base field of Pallas and the scalar field of Vesta; `Field::Fr`
//! is the scalar field of Pallas and the base field of Vesta. Elements are held as
//! canonical residues in a `U256`; the modular operations themselves are carried out
//! by `ark_ff` on `ark_pallas::Fq` and `ark_pallas::Fr`.
use crate::u256::{bits_value, le_value, lemma_bits_value_push, limb_base, U256};
use vstd::arithmetic::power::{lemma_pow0, lemma_pow1, lemma_pow_adds, lemma_pow_mod_noop, pow};
use vstd::prelude::*;

verus! {

/// The base prime of Pallas,
/// 28948022309329048855892746252171976963363056481941560715954676764349967630337.
pub open spec fn fq_modulus() -> nat {
    (0x992d30ed00000001 + limb_base() * (0x224698fc094cf91b + limb_base() * (limb_base()
        * 0x4000000000000000))) as nat
}

/// The scalar prime of Pallas,
/// 28948022309329048855892746252171976963363056481941647379679742748393362948097.
pub open spec fn fr_modulus() -> nat {
    (0x8c46eb2100000001 + limb_base() * (0x224698fc0994a8dd + limb_base() * (limb_base()
        * 0x4000000000000000))) as nat
}

/// A canonical residue of one of the two fields.
#[derive(Clone, Copy, Debug, PartialEq, Eq, Structural)]
pub struct FieldElement {
    pub field: Field,
    pub value: U256,
}

impl FieldElement {
    /// The value is below the field's modulus.
    pub open spec fn wf(self) -> bool {
        self.value.val() < self.field.modulus()
    }
}

/// One of the two prime fields.
#[derive(Clone, Copy, Debug, PartialEq, Eq, Structural)]
pub enum Field {
    Fq,
    Fr,
}

/// Errors of field arithmetic.
#[derive(Clone, Copy, Debug, PartialEq, Eq, Structural)]
pub enum FieldError {
    /// Zero has no inverse.
    DivisionByZero,
}

impl Field {
    pub open spec fn modulus(self) -> nat {
        match self {
            Field::Fq => fq_modulus(),
            Field::Fr => fr_modulus(),
        }
    }

    /// The modulus as a 256-bit integer.
    pub fn modulus_u256(&self) -> (r: U256)
        ensures
            r.val() == self.modulus(),
    {
        match self {
            Field::Fq => U256 {
                l0: 0x992d30ed00000001,
                l1: 0x224698fc094cf91b,
                l2: 0,
                l3: 0x4000000000000000,
            },
            Field::Fr => U256 {
                l0: 0x8c46eb2100000001,
                l1: 0x224698fc0994a8dd,
                l2: 0,
                l3: 0x4000000000000000,
            },
        }
    }

    /// The field whose modulus is `m`, if `m` is one of the two primes.
    pub fn from_modulus(m: &U256) -> (r: Option<Field>)
        ensures
            r == Some(Field::Fq) <==> m.val() == fq_modulus(),
            r == Some(Field::Fr) <==> m.val() == fr_modulus(),
            r is None <==> (m.val() != fq_modulus() && m.val() != fr_modulus()),
    {
        if m.same(&Field::Fq.modulus_u256()) {
            Some(Field::Fq)
        } else if m.same(&Field::Fr.modulus_u256()) {
            Some(Field::Fr)
        } else {
            None
        }
    }

    /// Whether `v` is a canonical residue, below the modulus.
    pub fn is_canonical(&self, v: &U256) -> (r: bool)
        ensures
            r == (v.val() < self.modulus()),
    {
        v.lt(&self.modulus_u256())
    }
}

/// The sum of two residues modulo `m`.
pub open spec fn fadd(m: int, a: int, b: int) -> int {
    (a + b) % m
}

/// The difference of two residues modulo `m`.
pub open spec fn fsub(m: int, a: int, b: int) -> int {
    (a - b) % m
}

/// The product of two residues modulo `m`.
pub open spec fn fmul(m: int, a: int, b: int) -> int {
    (a * b) % m
}

/// The additive inverse of a residue modulo `m`.
pub open spec fn fneg(m: int, a: int) -> int {
    (0 - a) % m
}

/// The multiplicative inverse of `a` modulo `m`: the residue `r` with `a * r ≡ 1`.
pub open spec fn finv(m: int, a: int) -> int {
    choose|r: int| 0 <= r < m && #[trigger] (a * r) % m == 1
}

/// An inverse modulo `m` is unique.
pub proof fn lemma_inverse_unique(m: int, a: int, r: int, s: int)
    requires
        m > 1,
        0 <= r < m,
        0 <= s < m,
        (a * r) % m == 1,
        (a * s) % m == 1,
    ensures
        r == s,
{
    vstd::arithmetic::div_mod::lemma_mul_mod_noop_right(r, a * s, m);
    vstd::arithmetic::div_mod::lemma_mul_mod_noop_left(a * r, s, m);
    assert(r * (a * s) == (a * r) * s) by (nonlinear_arith);
    vstd::arithmetic::div_mod::lemma_small_mod(r as nat, m as nat);
    vstd::arithmetic::div_mod::lemma_small_mod(s as nat, m as nat);
}

/// A residue with an inverse has exactly that one as `finv`.
pub proof fn lemma_finv_is(m: int, a: int, r: int)
    requires
        m > 1,
        0 <= r < m,
        (a * r) % m == 1,
    ensures
        finv(m, a) == r,
{
    let s = finv(m, a);
    assert(0 <= s < m && (a * s) % m == 1);
    lemma_inverse_unique(m, a, r, s);
}

/// Relies on ark_ff's `PrimeField::from_le_bytes_mod_order` for `ark_pallas::Fq`: the
/// little-endian integer of any length, reduced modulo the base prime of Pallas.
#[verifier::external_body]
fn fq_from_le_bytes_mod_order(bytes: &[u8]) -> (r: U256)
    ensures
        r.val() == le_value(bytes@) % fq_modulus(),
{
    let f = <ark_pallas::Fq as ark_ff::PrimeField>::from_le_bytes_mod_order(bytes);
    let z = ark_ff::PrimeField::into_repr(&f).0;
    U256 { l0: z[0], l1: z[1], l2: z[2], l3: z[3] }
}

/// Relies on ark_ff's `PrimeField::from_le_bytes_mod_order` for `ark_pallas::Fr`: the
/// little-endian integer of any length, reduced modulo the scalar prime of Pallas.
#[verifier::external_body]
fn fr_from_le_bytes_mod_order(bytes: &[u8]) -> (r: U256)
    ensures
        r.val() == le_value(bytes@) % fr_modulus(),
{
    let f = <ark_pallas::Fr as ark_ff::PrimeField>::from_le_bytes_mod_order(bytes);
    let z = ark_ff::PrimeField::into_repr(&f).0;
    U256 { l0: z[0], l1: z[1], l2: z[2], l3: z[3] }
}

/// Relies on ark_ff's addition of `ark_pallas::Fq` elements: the sum modulo the base
/// prime of Pallas.
#[verifier::external_body]
fn fq_add(a: &U256, b: &U256) -> (r: U256)
    requires
        a.val() < fq_modulus(),
        b.val() < fq_modulus(),
    ensures
        r.val() == (a.val() + b.val()) % fq_modulus(),
{
    let x = <ark_pallas::Fq as ark_ff::PrimeField>::from_repr(ark_ff::BigInteger256([a.l0, a.l1, a.l2, a.l3])).unwrap();
    let y = <ark_pallas::Fq as ark_ff::PrimeField>::from_repr(ark_ff::BigInteger256([b.l0, b.l1, b.l2, b.l3])).unwrap();
    let z = ark_ff::PrimeField::into_repr(&(x + y)).0;
    U256 { l0: z[0], l1: z[1], l2: z[2], l3: z[3] }
}

/// Relies on ark_ff's addition of `ark_pallas::Fr` elements: the sum modulo the scalar
/// prime of Pallas.
#[verifier::external_body]
fn fr_add(a: &U256, b: &U256) -> (r: U256)
    requires
        a.val() < fr_modulus(),
        b.val() < fr_modulus(),
    ensures
        r.val() == (a.val() + b.val()) % fr_modulus(),
{
    let x = <ark_pallas::Fr as ark_ff::PrimeField>::from_repr(ark_ff::BigInteger256([a.l0, a.l1, a.l2, a.l3])).unwrap();
    let y = <ark_pallas::Fr as ark_ff::PrimeField>::from_repr(ark_ff::BigInteger256([b.l0, b.l1, b.l2, b.l3])).unwrap();
    let z = ark_ff::PrimeField::into_repr(&(x + y)).0;
    U256 { l0: z[0], l1: z[1], l2: z[2], l3: z[3] }
}

/// Relies on ark_ff's subtraction of `ark_pallas::Fq` elements: the difference modulo
/// the base prime of Pallas.
#[verifier::external_body]
fn fq_sub(a: &U256, b: &U256) -> (r: U256)
    requires
        a.val() < fq_modulus(),
        b.val() < fq_modulus(),
    ensures
        r.val() == (a.val() - b.val()) % (fq_modulus() as int),
{
    let x = <ark_pallas::Fq as ark_ff::PrimeField>::from_repr(ark_ff::BigInteger256([a.l0, a.l1, a.l2, a.l3])).unwrap();
    let y = <ark_pallas::Fq as ark_ff::PrimeField>::from_repr(ark_ff::BigInteger256([b.l0, b.l1, b.l2, b.l3])).unwrap();
    let z = ark_ff::PrimeField::into_repr(&(x - y)).0;
    U256 { l0: z[0], l1: z[1], l2: z[2], l3: z[3] }
}

/// Relies on ark_ff's subtraction of `ark_pallas::Fr` elements: the difference modulo
/// the scalar prime of Pallas.
#[verifier::external_body]
fn fr_sub(a: &U256, b: &U256) -> (r: U256)
    requires
        a.val() < fr_modulus(),
        b.val() < fr_modulus(),
    ensures
        r.val() == (a.val() - b.val()) % (fr_modulus() as int),
{
    let x = <ark_pallas::Fr as ark_ff::PrimeField>::from_repr(ark_ff::BigInteger256([a.l0, a.l1, a.l2, a.l3])).unwrap();
    let y = <ark_pallas::Fr as ark_ff::PrimeField>::from_repr(ark_ff::BigInteger256([b.l0, b.l1, b.l2, b.l3])).unwrap();
    let z = ark_ff::PrimeField::into_repr(&(x - y)).0;
    U256 { l0: z[0], l1: z[1], l2: z[2], l3: z[3] }
}

/// Relies on ark_ff's multiplication of `ark_pallas::Fq` elements: the product modulo
/// the base prime of Pallas.
#[verifier::external_body]
fn fq_mul(a: &U256, b: &U256) -> (r: U256)
    requires
        a.val() < fq_modulus(),
        b.val() < fq_modulus(),
    ensures
        r.val() == (a.val() * b.val()) % fq_modulus(),
{
    let x = <ark_pallas::Fq as ark_ff::PrimeField>::from_repr(ark_ff::BigInteger256([a.l0, a.l1, a.l2, a.l3])).unwrap();
    let y = <ark_pallas::Fq as ark_ff::PrimeField>::from_repr(ark_ff::BigInteger256([b.l0, b.l1, b.l2, b.l3])).unwrap();
    let z = ark_ff::PrimeField::into_repr(&(x * y)).0;
    U256 { l0: z[0], l1: z[1], l2: z[2], l3: z[3] }
}

/// Relies on ark_ff's multiplication of `ark_pallas::Fr` elements: the product modulo
/// the scalar prime of Pallas.
#[verifier::external_body]
fn fr_mul(a: &U256, b: &U256) -> (r: U256)
    requires
        a.val() < fr_modulus(),
        b.val() < fr_modulus(),
    ensures
        r.val() == (a.val() * b.val()) % fr_modulus(),
{
    let x = <ark_pallas::Fr as ark_ff::PrimeField>::from_repr(ark_ff::BigInteger256([a.l0, a.l1, a.l2, a.l3])).unwrap();
    let y = <ark_pallas::Fr as ark_ff::PrimeField>::from_repr(ark_ff::BigInteger256([b.l0, b.l1, b.l2, b.l3])).unwrap();
    let z = ark_ff::PrimeField::into_repr(&(x * y)).0;
    U256 { l0: z[0], l1: z[1], l2: z[2], l3: z[3] }
}

/// Relies on ark_ff's `Field::inverse` for `ark_pallas::Fq`: `None` for zero, else the
/// residue whose product with the argument is one modulo the base prime of Pallas.
#[verifier::external_body]
fn fq_inverse(a: &U256) -> (r: Option<U256>)
    requires
        a.val() < fq_modulus(),
    ensures
        r is None <==> a.val() == 0,
        r matches Some(v) ==> v.val() < fq_modulus() && (a.val() * v.val()) % fq_modulus() == 1,
{
    let x = <ark_pallas::Fq as ark_ff::PrimeField>::from_repr(ark_ff::BigInteger256([a.l0, a.l1, a.l2, a.l3])).unwrap();
    match ark_ff::Field::inverse(&x) {
        Some(v) => {
            let z = ark_ff::PrimeField::into_repr(&v).0;
            Some(U256 { l0: z[0], l1: z[1], l2: z[2], l3: z[3] })
        },
        None => None,
    }
}

/// Relies on ark_ff's `Field::inverse` for `ark_pallas::Fr`: `None` for zero, else the
/// residue whose product with the argument is one modulo the scalar prime of Pallas.
#[verifier::external_body]
fn fr_inverse(a: &U256) -> (r: Option<U256>)
    requires
        a.val() < fr_modulus(),
    ensures
        r is None <==> a.val() == 0,
        r matches Some(v) ==> v.val() < fr_modulus() && (a.val() * v.val()) % fr_modulus() == 1,
{
    let x = <ark_pallas::Fr as ark_ff::PrimeField>::from_repr(ark_ff::BigInteger256([a.l0, a.l1, a.l2, a.l3])).unwrap();
    match ark_ff::Field::inverse(&x) {
        Some(v) => {
            let z = ark_ff::PrimeField::into_repr(&v).0;
            Some(U256 { l0: z[0], l1: z[1], l2: z[2], l3: z[3] })
        },
        None => None,
    }
}

/// Reduces a little-endian byte string of any length modulo the field's prime.
pub fn from_bytes_mod_order(f: Field, bytes: &[u8]) -> (r: U256)
    ensures
        r.val() == le_value(bytes@) % f.modulus(),
{
    match f {
        Field::Fq => fq_from_le_bytes_mod_order(bytes),
        Field::Fr => fr_from_le_bytes_mod_order(bytes),
    }
}

/// The sum of two residues.
pub fn field_add(f: Field, a: &U256, b: &U256) -> (r: U256)
    requires
        a.val() < f.modulus(),
        b.val() < f.modulus(),
    ensures
        r.val() == fadd(f.modulus() as int, a.val() as int, b.val() as int),
{
    match f {
        Field::Fq => fq_add(a, b),
        Field::Fr => fr_add(a, b),
    }
}

/// The difference of two residues.
pub fn field_sub(f: Field, a: &U256, b: &U256) -> (r: U256)
    requires
        a.val() < f.modulus(),
        b.val() < f.modulus(),
    ensures
        r.val() == fsub(f.modulus() as int, a.val() as int, b.val() as int),
{
    match f {
        Field::Fq => fq_sub(a, b),
        Field::Fr => fr_sub(a, b),
    }
}

/// The product of two residues.
pub fn field_mul(f: Field, a: &U256, b: &U256) -> (r: U256)
    requires
        a.val() < f.modulus(),
        b.val() < f.modulus(),
    ensures
        r.val() == fmul(f.modulus() as int, a.val() as int, b.val() as int),
{
    match f {
        Field::Fq => fq_mul(a, b),
        Field::Fr => fr_mul(a, b),
    }
}

/// The additive inverse of a residue.
pub fn field_neg(f: Field, a: &U256) -> (r: U256)
    requires
        a.val() < f.modulus(),
    ensures
        r.val() == fneg(f.modulus() as int, a.val() as int),
{
    field_sub(f, &U256::zero(), a)
}

/// The multiplicative inverse of a residue; zero has none.
pub fn invert(f: Field, a: &U256) -> (r: Result<U256, FieldError>)
    requires
        a.val() < f.modulus(),
    ensures
        r is Err <==> a.val() == 0,
        r matches Err(e) ==> e == FieldError::DivisionByZero,
        r matches Ok(v) ==> v.val() < f.modulus() && v.val() == finv(f.modulus() as int, a.val() as int),
{
    let inv = match f {
        Field::Fq => fq_inverse(a),
        Field::Fr => fr_inverse(a),
    };
    match inv {
        Some(v) => {
            proof {
                lemma_finv_is(f.modulus() as int, a.val() as int, v.val() as int);
            }
            Ok(v)
        },
        None => Err(FieldError::DivisionByZero),
    }
}

/// The wire form of a field element: its canonical residue.
pub fn field_to_u256(e: &FieldElement) -> (r: U256)
    requires
        e.wf(),
    ensures
        r == e.value,
        r.val() < e.field.modulus(),
{
    e.value
}

/// The element of `f` that a 256-bit integer stands for: the integer reduced modulo
/// the field's prime, through its little-endian bytes.
pub fn u256_to_field(f: Field, v: &U256) -> (r: FieldElement)
    ensures
        r.wf(),
        r.field == f,
        r.value.val() == v.val() % f.modulus(),
{
    let bytes = v.to_le_bytes();
    let value = from_bytes_mod_order(f, bytes.as_slice());
    FieldElement { field: f, value }
}

/// `base` raised to `exponent` in the field, by square-and-multiply over the
/// exponent's binary digits from the most significant one down.
pub fn field_pow(f: Field, base: &U256, exponent: &U256) -> (r: U256)
    requires
        base.val() < f.modulus(),
    ensures
        r.val() == pow(base.val() as int, exponent.val()) % (f.modulus() as int),
{
    let ghost m = f.modulus() as int;
    let ghost b = base.val() as int;
    let bits = exponent.to_bits();
    let mut acc = U256::from_u64(1);
    let mut i: usize = 0;
    proof {
        lemma_pow0(b);
        assert(bits@.take(0) =~= Seq::<bool>::empty());
        assert(bits_value(bits@.take(0)) == 0);
        assert(bits@.take(256) =~= bits@);
        assert(m > 1);
        vstd::arithmetic::div_mod::lemma_small_mod(1, m as nat);
    }
    while i < 256
        invariant
            i <= 256,
            bits@.len() == 256,
            bits_value(bits@) == exponent.val(),
            m == f.modulus(),
            b == base.val(),
            b < m,
            acc.val() < m,
            acc.val() == pow(b, bits_value(bits@.take(i as int))) % m,
        decreases 256 - i,
    {
        let ghost n = bits_value(bits@.take(i as int));
        let sq = field_mul(f, &acc, &acc);
        proof {
            lemma_pow_adds(b, n, n);
            vstd::arithmetic::div_mod::lemma_mul_mod_noop(pow(b, n), pow(b, n), m);
            assert(bits@.take(i + 1) =~= bits@.take(i as int).push(bits@[i as int]));
            lemma_bits_value_push(bits@.take(i as int), bits@[i as int]);
        }
        if bits[i] {
            acc = field_mul(f, &sq, base);
            proof {
                lemma_pow_adds(b, n + n, 1);
                lemma_pow1(b);
                vstd::arithmetic::div_mod::lemma_mul_mod_noop_left(pow(b, n + n), b, m);
            }
        } else {
            acc = sq;
        }
        i = i + 1;
    }
    acc
}

/// `base` raised to `exponent` modulo `modulus`, where the modulus is one of the two
/// primes; `None` for any other modulus.
pub fn pow_small(base: &U256, exponent: &U256, modulus: &U256) -> (r: Option<U256>)
    ensures
        r is None <==> (modulus.val() != fq_modulus() && modulus.val() != fr_modulus()),
        r matches Some(v) ==> v.val() == pow(base.val() as int, exponent.val()) % (
        modulus.val() as int),
{
    match Field::from_modulus(modulus) {
        Some(f) => {
            let b = u256_to_field(f, base);
            let v = field_pow(f, &b.value, exponent);
            proof {
                lemma_pow_mod_noop(base.val() as int, exponent.val(), f.modulus() as int);
            }
            Some(v)
        },
        None => None,
    }
}

} // verus!
