//! Unsigned 256-bit integers, the wire form of field elements and scalars.
use vstd::arithmetic::power::{lemma_pow_positive, pow};
use vstd::arithmetic::power2::{lemma2_to64, lemma_pow2_pos, lemma_pow2_unfold, pow2};
use vstd::prelude::*;

verus! {

/// The weight of one 64-bit limb.
pub open spec fn limb_base() -> int {
    0x1_0000_0000_0000_0000
}

/// The integer that a little-endian byte string spells.
pub open spec fn le_value(bytes: Seq<u8>) -> nat
    decreases bytes.len(),
{
    if bytes.len() == 0 {
        0
    } else {
        (bytes[0] + 256 * le_value(bytes.drop_first())) as nat
    }
}

/// An unsigned 256-bit integer as four 64-bit limbs, least significant first.
#[derive(Clone, Copy, Debug, PartialEq, Eq, Structural)]
pub struct U256 {
    pub l0: u64,
    pub l1: u64,
    pub l2: u64,
    pub l3: u64,
}

/// Two numbers in base `limb_base()` whose lowest digits are `a0` and `b0` compare
/// as their higher parts do, and by the lowest digit where the higher parts agree.
proof fn lemma_digit_order(a0: int, x: int, b0: int, y: int)
    requires
        0 <= a0 < limb_base(),
        0 <= b0 < limb_base(),
        0 <= x,
        0 <= y,
    ensures
        x < y ==> a0 + limb_base() * x < b0 + limb_base() * y,
        x == y ==> (a0 + limb_base() * x < b0 + limb_base() * y <==> a0 < b0),
{
    let b = limb_base();
    if x < y {
        assert(a0 + b * x < b0 + b * y) by (nonlinear_arith)
            requires
                0 <= a0 < b,
                0 <= b0,
                x < y,
                b > 0,
        ;
    }
}


/// The value of two byte strings one after the other.
pub proof fn lemma_le_value_concat(a: Seq<u8>, b: Seq<u8>)
    ensures
        le_value(a + b) == le_value(a) + pow(256, a.len()) * le_value(b),
    decreases a.len(),
{
    reveal(pow);
    if a.len() == 0 {
        assert(a + b =~= b);
    } else {
        assert((a + b).drop_first() =~= a.drop_first() + b);
        lemma_le_value_concat(a.drop_first(), b);
        let p = pow(256, (a.len() - 1) as nat);
        let x = le_value(a.drop_first()) as int;
        let y = le_value(b) as int;
        assert(256 * (x + p * y) == 256 * x + (256 * p) * y) by (nonlinear_arith);
    }
}

/// The integer that a string of binary digits spells, most significant first.
pub open spec fn bits_value(bits: Seq<bool>) -> nat
    decreases bits.len(),
{
    if bits.len() == 0 {
        0
    } else {
        (2 * bits_value(bits.drop_last()) + if bits.last() {
            1int
        } else {
            0int
        }) as nat
    }
}

/// One more digit doubles the value and adds the digit.
pub proof fn lemma_bits_value_push(bits: Seq<bool>, b: bool)
    ensures
        bits_value(bits.push(b)) == 2 * bits_value(bits) + if b {
            1int
        } else {
            0int
        },
{
    assert(bits.push(b).drop_last() =~= bits);
}

/// Appends the eight binary digits of `b`, most significant first.
fn push_byte_bits(out: &mut Vec<bool>, b: u8)
    ensures
        bits_value(final(out)@) == 256 * bits_value(old(out)@) + b,
        final(out)@.len() == old(out)@.len() + 8,
{
    let ghost hi = bits_value(out@) as int;
    let mut c: u32 = 256;
    let ghost mut k: nat = 8;
    let ghost mut q: int = 1;
    proof {
        lemma2_to64();
    }
    while c > 1
        invariant
            c == pow2(k),
            k <= 8,
            q * c == 256,
            q >= 1,
            bits_value(out@) == hi * q + (b as int) / (c as int),
            out@.len() == old(out)@.len() + 8 - k,
            hi == bits_value(old(out)@),
        decreases c,
    {
        proof {
            lemma2_to64();
            assert(k > 0);
            lemma_pow2_unfold(k);
        }
        let d: u32 = c / 2;
        let bit: bool = ((b as u32) / d) % 2 == 1;
        proof {
            let x = b as int;
            vstd::arithmetic::div_mod::lemma_div_denominator(x, d as int, 2);
            assert(2 * (hi * q) == hi * (2 * q)) by (nonlinear_arith);
            assert((2 * q) * d == q * c) by (nonlinear_arith)
                requires
                    c == 2 * d,
            ;
            lemma_bits_value_push(out@, bit);
        }
        out.push(bit);
        c = d;
        proof {
            k = (k - 1) as nat;
            q = 2 * q;
        }
    }
    proof {
        lemma_pow2_pos(k);
        assert(c == 1);
        assert(q == 256) by (nonlinear_arith)
            requires
                q * c == 256,
                c == 1,
        ;
        vstd::arithmetic::div_mod::lemma_div_basics(b as int);
        assert((b as int) / (c as int) == b as int);
        assert(hi * q == 256 * hi);
    }
}

/// Eight bytes make one limb.
proof fn lemma_pow_limb()
    ensures
        pow(256, 8) == limb_base(),
{
    reveal_with_fuel(pow, 9);
}

/// Appends the eight little-endian bytes of `w` to `out`.
fn push_limb_le(out: &mut Vec<u8>, w: u64)
    ensures
        final(out)@.len() == old(out)@.len() + 8,
        final(out)@.subrange(0, old(out)@.len() as int) == old(out)@,
        le_value(final(out)@.subrange(old(out)@.len() as int, final(out)@.len() as int)) == w,
{
    let ghost start = out@.len() as int;
    let mut rest: u64 = w;
    let mut j: usize = 0;
    proof {
        reveal(pow);
        assert(out@.subrange(start, start) =~= Seq::<u8>::empty());
    }
    while j < 8
        invariant
            j <= 8,
            out@.len() == start + j,
            out@.subrange(0, start) == old(out)@,
            start == old(out)@.len(),
            le_value(out@.subrange(start, start + j)) + pow(256, j as nat) * rest == w,
            rest * pow(256, j as nat) <= w,
        decreases 8 - j,
    {
        let ghost before = out@.subrange(start, start + j);
        let d = (rest % 256) as u8;
        out.push(d);
        proof {
            assert(out@.subrange(start, start + j + 1) =~= before + seq![d]);
            assert(out@.subrange(0, start) =~= old(out)@);
            lemma_le_value_concat(before, seq![d]);
            assert(le_value(seq![d]) == d) by {
                reveal_with_fuel(le_value, 2);
                assert(seq![d].drop_first() =~= Seq::<u8>::empty());
            }
            reveal(pow);
            let p = pow(256, j as nat);
            let q = (rest / 256) as int;
            assert(rest == d + 256 * q);
            assert(p * rest == p * d + (256 * p) * q) by (nonlinear_arith)
                requires
                    rest == d + 256 * q,
            ;
            assert(pow(256, (j + 1) as nat) == 256 * p);
            lemma_pow_positive(256, j as nat);
            assert(q * (256 * p) <= rest * p) by (nonlinear_arith)
                requires
                    256 * q <= rest,
                    p >= 0,
            ;
        }
        rest = rest / 256;
        j = j + 1;
    }
    proof {
        lemma_pow_limb();
        assert(rest == 0) by (nonlinear_arith)
            requires
                rest * limb_base() <= w,
                w < limb_base(),
                rest >= 0,
        ;
    }
}

impl U256 {
    /// The integer that the limbs spell.
    pub open spec fn val(self) -> nat {
        (self.l0 + limb_base() * (self.l1 + limb_base() * (self.l2 + limb_base() * self.l3))) as nat
    }

    /// The value of the three upper limbs.
    spec fn upper3(self) -> int {
        self.l1 + limb_base() * (self.l2 + limb_base() * self.l3)
    }

    /// The value of the two upper limbs.
    spec fn upper2(self) -> int {
        self.l2 + limb_base() * self.l3
    }

    proof fn lemma_order(self, o: U256)
        ensures
            self.val() < o.val() <==> (self.l3 < o.l3 || (self.l3 == o.l3 && (self.l2 < o.l2 || (
            self.l2 == o.l2 && (self.l1 < o.l1 || (self.l1 == o.l1 && self.l0 < o.l0)))))),
            self.val() == o.val() <==> self == o,
    {
        assert(0 <= self.upper2() && 0 <= o.upper2()) by (nonlinear_arith)
            requires
                self.l2 >= 0,
                self.l3 >= 0,
                o.l2 >= 0,
                o.l3 >= 0,
                limb_base() > 0,
        ;
        assert(0 <= self.upper3() && 0 <= o.upper3()) by (nonlinear_arith)
            requires
                self.l1 >= 0,
                o.l1 >= 0,
                self.upper2() >= 0,
                o.upper2() >= 0,
                limb_base() > 0,
        ;
        lemma_digit_order(self.l2 as int, self.l3 as int, o.l2 as int, o.l3 as int);
        lemma_digit_order(o.l2 as int, o.l3 as int, self.l2 as int, self.l3 as int);
        lemma_digit_order(self.l1 as int, self.upper2(), o.l1 as int, o.upper2());
        lemma_digit_order(o.l1 as int, o.upper2(), self.l1 as int, self.upper2());
        lemma_digit_order(self.l0 as int, self.upper3(), o.l0 as int, o.upper3());
        lemma_digit_order(o.l0 as int, o.upper3(), self.l0 as int, self.upper3());
    }

    pub fn zero() -> (r: U256)
        ensures
            r.val() == 0,
    {
        U256 { l0: 0, l1: 0, l2: 0, l3: 0 }
    }

    pub fn from_u64(v: u64) -> (r: U256)
        ensures
            r.val() == v,
    {
        U256 { l0: v, l1: 0, l2: 0, l3: 0 }
    }

    pub fn is_zero(&self) -> (r: bool)
        ensures
            r == (self.val() == 0),
    {
        proof {
            self.lemma_order(U256 { l0: 0, l1: 0, l2: 0, l3: 0 });
        }
        self.l0 == 0 && self.l1 == 0 && self.l2 == 0 && self.l3 == 0
    }

    /// The 32 little-endian bytes of `self`.
    pub fn to_le_bytes(&self) -> (r: Vec<u8>)
        ensures
            r@.len() == 32,
            le_value(r@) == self.val(),
    {
        let mut out: Vec<u8> = Vec::new();
        push_limb_le(&mut out, self.l0);
        let ghost s1 = out@;
        push_limb_le(&mut out, self.l1);
        let ghost s2 = out@;
        push_limb_le(&mut out, self.l2);
        let ghost s3 = out@;
        push_limb_le(&mut out, self.l3);
        proof {
            let s = out@;
            assert(s.subrange(0, 8) =~= s1.subrange(0, 8));
            assert(s.subrange(8, 16) =~= s2.subrange(8, 16));
            assert(s.subrange(16, 24) =~= s3.subrange(16, 24));
            let b0 = s.subrange(0, 8);
            let b1 = s.subrange(8, 16);
            let b2 = s.subrange(16, 24);
            let b3 = s.subrange(24, 32);
            lemma_pow_limb();
            assert(b2 + b3 =~= s.subrange(16, 32));
            assert(b1 + s.subrange(16, 32) =~= s.subrange(8, 32));
            assert(b0 + s.subrange(8, 32) =~= s);
            lemma_le_value_concat(b2, b3);
            lemma_le_value_concat(b1, s.subrange(16, 32));
            lemma_le_value_concat(b0, s.subrange(8, 32));
        }
        out
    }

    /// The 256 binary digits of `self`, most significant first.
    pub fn to_bits(&self) -> (r: Vec<bool>)
        ensures
            r@.len() == 256,
            bits_value(r@) == self.val(),
    {
        let bytes = self.to_le_bytes();
        let mut out: Vec<bool> = Vec::new();
        let mut i: usize = 32;
        proof {
            assert(bytes@.subrange(32, 32) =~= Seq::<u8>::empty());
            assert(bytes@.subrange(0, 32) =~= bytes@);
        }
        while i > 0
            invariant
                i <= 32,
                bytes@.len() == 32,
                le_value(bytes@) == self.val(),
                bits_value(out@) == le_value(bytes@.subrange(i as int, 32)),
                out@.len() == 8 * (32 - i),
            decreases i,
        {
            i = i - 1;
            let b = bytes[i];
            proof {
                assert(bytes@.subrange(i as int, 32).drop_first() =~= bytes@.subrange(i + 1, 32));
            }
            push_byte_bits(&mut out, b);
        }
        proof {
            assert(bytes@.subrange(0, 32) =~= bytes@);
        }
        out
    }

    /// Whether `self` is less than `o`.
    pub fn lt(&self, o: &U256) -> (r: bool)
        ensures
            r == (self.val() < o.val()),
    {
        proof {
            self.lemma_order(*o);
        }
        if self.l3 != o.l3 {
            self.l3 < o.l3
        } else if self.l2 != o.l2 {
            self.l2 < o.l2
        } else if self.l1 != o.l1 {
            self.l1 < o.l1
        } else {
            self.l0 < o.l0
        }
    }

    /// Whether `self` and `o` hold the same integer.
    pub fn same(&self, o: &U256) -> (r: bool)
        ensures
            r == (self.val() == o.val()),
    {
        proof {
            self.lemma_order(*o);
        }
        self.l0 == o.l0 && self.l1 == o.l1 && self.l2 == o.l2 && self.l3 == o.l3
    }
}

} // verus!
