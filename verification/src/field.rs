//! Field elements of the Pallas curve, modelled by their canonical
//! little-endian 64-bit limbs.
//!
//! The circuit works over the Pallas base field (equally: the Vesta scalar
//! field) of order `p`; commitment randomness lives in the Pallas scalar
//! field of order `q`. A value is canonical when it is below its modulus.

use vstd::prelude::*;
use vstd::arithmetic::power2::*;
use crate::bits::{
    bits_range,
    bytes_to_le_bits,
    le_bits_value,
    le_bytes_value,
    lemma_le_bits_value_split,
    lemma_le_bytes_value_bound,
    lemma_le_bytes_value_concat,
    lemma_le_bytes_value_push,
};

verus! {

/// Order of the Pallas base field.
pub open spec fn p_modulus() -> nat {
    0x40000000000000000000000000000000224698fc094cf91b992d30ed00000001nat
}

/// Order of the Pallas scalar field.
pub open spec fn q_modulus() -> nat {
    0x40000000000000000000000000000000224698fc0994a8dd8c46eb2100000001nat
}

/// Low limb of `p`.
pub const P_LIMB_0: u64 = 0x992d30ed00000001;

/// Second limb of `p`.
pub const P_LIMB_1: u64 = 0x224698fc094cf91b;

/// Third limb of `p` (and of `q`): zero.
pub const PQ_LIMB_2: u64 = 0;

/// High limb of `p` (and of `q`).
pub const PQ_LIMB_3: u64 = 0x4000000000000000;

/// Low limb of `q`.
pub const Q_LIMB_0: u64 = 0x8c46eb2100000001;

/// Second limb of `q`.
pub const Q_LIMB_1: u64 = 0x224698fc0994a8dd;

/// A 256-bit value in four little-endian 64-bit limbs.
#[derive(Clone, Copy, PartialEq, Eq, Structural, Debug)]
pub struct FieldElem {
    /// Bits 0..64.
    pub l0: u64,
    /// Bits 64..128.
    pub l1: u64,
    /// Bits 128..192.
    pub l2: u64,
    /// Bits 192..256.
    pub l3: u64,
}

impl FieldElem {
    /// The integer this element stands for.
    pub open spec fn value(self) -> nat {
        (self.l0 + self.l1 * pow2(64) + self.l2 * pow2(128) + self.l3 * pow2(192)) as nat
    }

    /// Canonical as a Pallas base field element.
    pub open spec fn is_base_canonical(self) -> bool {
        self.value() < p_modulus()
    }

    /// Canonical as a Pallas scalar field element.
    pub open spec fn is_scalar_canonical(self) -> bool {
        self.value() < q_modulus()
    }

    /// The zero element.
    pub fn zero() -> (r: FieldElem)
        ensures
            r.value() == 0,
            r.is_base_canonical(),
            r.is_scalar_canonical(),
    {
        FieldElem { l0: 0, l1: 0, l2: 0, l3: 0 }
    }

    /// Lifts a 64-bit integer, such as a note value, into the field.
    pub fn from_u64(v: u64) -> (r: FieldElem)
        ensures
            r.value() == v,
            r.is_base_canonical(),
            r.is_scalar_canonical(),
    {
        FieldElem { l0: v, l1: 0, l2: 0, l3: 0 }
    }

    /// Whether this value is below the Pallas base field order `p`.
    pub fn check_base_canonical(&self) -> (r: bool)
        ensures
            r <==> self.is_base_canonical(),
    {
        proof {
            lemma_limb_decomposition(*self);
            lemma_limb_weights();
        }
        lex_lt(self.l0, self.l1, self.l2, self.l3, P_LIMB_0, P_LIMB_1, PQ_LIMB_2, PQ_LIMB_3)
    }

    /// Whether this value is below the Pallas scalar field order `q`.
    pub fn check_scalar_canonical(&self) -> (r: bool)
        ensures
            r <==> self.is_scalar_canonical(),
    {
        proof {
            lemma_limb_decomposition(*self);
            lemma_limb_weights();
        }
        lex_lt(self.l0, self.l1, self.l2, self.l3, Q_LIMB_0, Q_LIMB_1, PQ_LIMB_2, PQ_LIMB_3)
    }
}

/// Writes a 64-bit word as its eight little-endian bytes.
pub fn u64_to_le_bytes(x: u64) -> (r: Vec<u8>)
    ensures
        r@.len() == 8,
        le_bytes_value(r@) == x,
{
    proof {
        lemma2_to64();
        vstd::arithmetic::div_mod::lemma_fundamental_div_mod_converse(x as int, 1, x as int, 0);
    }
    let mut out: Vec<u8> = Vec::new();
    let mut cur: u64 = x;
    let mut i: usize = 0;
    while i < 8
        invariant
            i <= 8,
            out@.len() == i,
            cur == x as nat / pow2(8 * i as nat),
            le_bytes_value(out@) == x as nat % pow2(8 * i as nat),
        decreases 8 - i,
    {
        proof {
            lemma2_to64();
            lemma_pow2_adds(8 * i as nat, 8);
            lemma_pow2_pos(8 * i as nat);
            lemma_le_bytes_value_push(out@, (cur % 256) as u8);
            vstd::arithmetic::div_mod::lemma_breakdown(x as int, pow2(8 * i as nat) as int, 256);
            vstd::arithmetic::mul::lemma_mul_is_commutative(
                pow2(8 * i as nat) as int,
                (cur % 256) as int,
            );
            vstd::arithmetic::div_mod::lemma_div_denominator(
                x as int,
                pow2(8 * i as nat) as int,
                256,
            );
        }
        let b = (cur % 256) as u8;
        out.push(b);
        cur = cur / 256;
        i = i + 1;
    }
    proof {
        lemma2_to64();
        vstd::arithmetic::div_mod::lemma_small_mod(x as nat, pow2(64));
    }
    out
}

/// Reads a 64-bit word from eight little-endian bytes at `start`.
pub fn u64_from_le_bytes(bytes: &Vec<u8>, start: usize) -> (r: u64)
    requires
        start + 8 <= bytes@.len(),
    ensures
        r == le_bytes_value(bytes@.subrange(start as int, start + 8)),
{
    let avail = bytes.len();
    proof {
        lemma2_to64();
    }
    let mut acc: u64 = 0;
    let mut weight: u64 = 1;
    let mut i: usize = 0;
    while i < 8
        invariant
            i <= 8,
            start + 8 <= avail,
            avail == bytes@.len(),
            i < 8 ==> weight == pow2(8 * i as nat),
            acc == le_bytes_value(bytes@.subrange(start as int, start + i)),
            acc < pow2(8 * i as nat),
        decreases 8 - i,
    {
        proof {
            lemma2_to64();
            lemma2_to64_rest();
            lemma_pow2_adds(8 * i as nat, 8);
            if 8 * (i + 1) < 64 {
                lemma_pow2_strictly_increases(8 * (i + 1) as nat, 64);
            }
            assert(bytes@.subrange(start as int, start + i).push(bytes@[start + i])
                =~= bytes@.subrange(start as int, start + i + 1));
            lemma_le_bytes_value_push(bytes@.subrange(start as int, start + i), bytes@[start + i]);
            assert(acc + bytes@[start + i] * pow2(8 * i as nat) < pow2(8 * (i + 1) as nat))
                by (nonlinear_arith)
                requires
                    acc < pow2(8 * i as nat),
                    bytes@[start + i] < 256,
                    pow2(8 * (i + 1) as nat) == 256 * pow2(8 * i as nat),
            ;
        }
        let b = bytes[start + i];
        acc = acc + (b as u64) * weight;
        if i < 7 {
            weight = weight * 256;
        }
        i = i + 1;
    }
    acc
}

impl FieldElem {
    /// The canonical 32-byte little-endian encoding of this element.
    pub fn to_le_bytes(&self) -> (r: Vec<u8>)
        ensures
            r@.len() == 32,
            le_bytes_value(r@) == self.value(),
    {
        let mut out = u64_to_le_bytes(self.l0);
        let mut b1 = u64_to_le_bytes(self.l1);
        let mut b2 = u64_to_le_bytes(self.l2);
        let mut b3 = u64_to_le_bytes(self.l3);
        let ghost g0 = out@;
        let ghost gb1 = b1@;
        let ghost gb2 = b2@;
        let ghost gb3 = b3@;
        out.append(&mut b1);
        out.append(&mut b2);
        out.append(&mut b3);
        proof {
            lemma_limb_weights();
            assert(out@ =~= g0 + gb1 + gb2 + gb3);
            lemma_le_bytes_value_concat(g0 + gb1 + gb2, gb3);
            lemma_le_bytes_value_concat(g0 + gb1, gb2);
            lemma_le_bytes_value_concat(g0, gb1);
            assert(le_bytes_value(g0 + gb1) == self.l0 + 0x10000000000000000nat * self.l1);
            assert(le_bytes_value(g0 + gb1 + gb2) == self.l0 + 0x10000000000000000nat * self.l1
                + 0x100000000000000000000000000000000nat * self.l2);
            assert(le_bytes_value(out@) == self.l0 + 0x10000000000000000nat * self.l1
                + 0x100000000000000000000000000000000nat * self.l2
                + 0x1000000000000000000000000000000000000000000000000nat * self.l3);
        }
        out
    }

    /// Reads an element from 32 little-endian bytes at `start`; the result
    /// stands for the value those bytes encode, canonical or not.
    pub fn from_le_bytes(bytes: &Vec<u8>, start: usize) -> (r: FieldElem)
        requires
            start + 32 <= bytes@.len(),
        ensures
            r.value() == le_bytes_value(bytes@.subrange(start as int, start + 32)),
    {
        let avail = bytes.len();
        let l0 = u64_from_le_bytes(bytes, start);
        let l1 = u64_from_le_bytes(bytes, start + 8);
        let l2 = u64_from_le_bytes(bytes, start + 16);
        let l3 = u64_from_le_bytes(bytes, start + 24);
        let r = FieldElem { l0, l1, l2, l3 };
        proof {
            let s = bytes@.subrange(start as int, start + 32);
            lemma_limb_weights();
            lemma_le_bytes_value_concat(s.take(8), s.skip(8));
            lemma_le_bytes_value_concat(s.skip(8).take(8), s.skip(16));
            lemma_le_bytes_value_concat(s.skip(16).take(8), s.skip(24));
            assert(s.take(8) + s.skip(8) =~= s);
            assert(s.skip(8).take(8) + s.skip(16) =~= s.skip(8));
            assert(s.skip(16).take(8) + s.skip(24) =~= s.skip(16));
            assert(s.take(8) =~= bytes@.subrange(start as int, start + 8));
            assert(s.skip(8).take(8) =~= bytes@.subrange(start + 8, start + 16));
            assert(s.skip(16).take(8) =~= bytes@.subrange(start + 16, start + 24));
            assert(s.skip(24) =~= bytes@.subrange(start + 24, start + 32));
            assert(le_bytes_value(s.skip(16)) == l2 + 0x10000000000000000nat * l3);
            assert(le_bytes_value(s.skip(8)) == l1 + 0x10000000000000000nat * l2
                + 0x100000000000000000000000000000000nat * l3) by (nonlinear_arith)
                requires
                    le_bytes_value(s.skip(8)) == l1 + 0x10000000000000000nat * le_bytes_value(
                        s.skip(16),
                    ),
                    le_bytes_value(s.skip(16)) == l2 + 0x10000000000000000nat * l3,
            ;
            assert(le_bytes_value(s) == l0 + 0x10000000000000000nat * l1
                + 0x100000000000000000000000000000000nat * l2
                + 0x1000000000000000000000000000000000000000000000000nat * l3)
                by (nonlinear_arith)
                requires
                    le_bytes_value(s) == l0 + 0x10000000000000000nat * le_bytes_value(s.skip(8)),
                    le_bytes_value(s.skip(8)) == l1 + 0x10000000000000000nat * l2
                        + 0x100000000000000000000000000000000nat * l3,
            ;
        }
        r
    }
}

/// The low `n` little-endian bits of a field element, as the running-sum
/// decomposition consumes them.
impl FieldElem {
    /// The lowest `n` bits of this element, little-endian.
    pub fn le_bits(&self, n: usize) -> (r: Vec<bool>)
        requires
            n <= 256,
        ensures
            r@.len() == n,
            le_bits_value(r@) == self.value() % pow2(n as nat),
    {
        let bytes = self.to_le_bytes();
        let bits = bytes_to_le_bits(&bytes);
        let out = bits_range(&bits, 0, n);
        proof {
            assert(out@ =~= bits@.take(n as int));
            lemma_le_bits_value_split(bits@, n as int);
        }
        out
    }
}

/// Limb representations are unique: two elements stand for the same
/// integer exactly when their limbs agree.
pub proof fn lemma_value_injective(a: FieldElem, b: FieldElem)
    ensures
        a.value() == b.value() <==> a == b,
{
    if a.value() == b.value() {
        lemma_limb_decomposition(a);
        lemma_limb_decomposition(b);
        lemma2_to64();
        lemma_pow2_pos(128);
        lemma_pow2_pos(64);
        vstd::arithmetic::div_mod::lemma_fundamental_div_mod_converse(
            a.value() as int,
            pow2(128) as int,
            (a.l2 + a.l3 * pow2(64)) as int,
            (a.l0 + a.l1 * pow2(64)) as int,
        );
        vstd::arithmetic::div_mod::lemma_fundamental_div_mod_converse(
            b.value() as int,
            pow2(128) as int,
            (b.l2 + b.l3 * pow2(64)) as int,
            (b.l0 + b.l1 * pow2(64)) as int,
        );
        vstd::arithmetic::div_mod::lemma_fundamental_div_mod_converse(
            (a.l0 + a.l1 * pow2(64)) as int,
            pow2(64) as int,
            a.l1 as int,
            a.l0 as int,
        );
        vstd::arithmetic::div_mod::lemma_fundamental_div_mod_converse(
            (b.l0 + b.l1 * pow2(64)) as int,
            pow2(64) as int,
            b.l1 as int,
            b.l0 as int,
        );
        vstd::arithmetic::div_mod::lemma_fundamental_div_mod_converse(
            (a.l2 + a.l3 * pow2(64)) as int,
            pow2(64) as int,
            a.l3 as int,
            a.l2 as int,
        );
        vstd::arithmetic::div_mod::lemma_fundamental_div_mod_converse(
            (b.l2 + b.l3 * pow2(64)) as int,
            pow2(64) as int,
            b.l3 as int,
            b.l2 as int,
        );
    }
}

/// The powers of two at the limb boundaries, as literals.
pub proof fn lemma_limb_weights()
    ensures
        pow2(64) == 0x10000000000000000nat,
        pow2(128) == 0x100000000000000000000000000000000nat,
        pow2(192) == 0x1000000000000000000000000000000000000000000000000nat,
{
    lemma2_to64();
    lemma_pow2_adds(64, 64);
    lemma_pow2_adds(64, 128);
}

/// Two-limb comparison: with both low parts below the base, the number with
/// the greater high part is greater, and equal high parts compare by the
/// low parts.
proof fn lemma_two_limb_lt(lo_a: nat, hi_a: nat, lo_b: nat, hi_b: nat, base: nat)
    requires
        lo_a < base,
        lo_b < base,
    ensures
        (lo_a + hi_a * base < lo_b + hi_b * base) <==> (hi_a < hi_b || (hi_a == hi_b && lo_a
            < lo_b)),
{
    assert((lo_a + hi_a * base < lo_b + hi_b * base) <==> (hi_a < hi_b || (hi_a == hi_b && lo_a
        < lo_b))) by (nonlinear_arith)
        requires
            lo_a < base,
            lo_b < base,
    ;
}

/// The value of four limbs, seen as two 128-bit halves.
proof fn lemma_limb_decomposition(e: FieldElem)
    ensures
        e.value() == (e.l0 + e.l1 * pow2(64)) + (e.l2 + e.l3 * pow2(64)) * pow2(128),
        e.l0 + e.l1 * pow2(64) < pow2(128),
        e.l2 + e.l3 * pow2(64) < pow2(128),
{
    lemma2_to64();
    lemma_pow2_adds(64, 64);
    lemma_pow2_adds(64, 128);
    assert((e.l2 + e.l3 * pow2(64)) * pow2(128) == e.l2 * pow2(128) + e.l3 * (pow2(64) * pow2(
        128,
    ))) by (nonlinear_arith);
    assert(e.l1 * pow2(64) <= (pow2(64) - 1) * pow2(64)) by (nonlinear_arith)
        requires
            e.l1 < pow2(64),
    ;
    assert(e.l3 * pow2(64) <= (pow2(64) - 1) * pow2(64)) by (nonlinear_arith)
        requires
            e.l3 < pow2(64),
    ;
    assert((pow2(64) - 1) * pow2(64) + pow2(64) == pow2(64) * pow2(64)) by (nonlinear_arith);
}

/// Lexicographic comparison of two four-limb values, most significant limb
/// first; equivalent to comparing the values they stand for.
fn lex_lt(a0: u64, a1: u64, a2: u64, a3: u64, b0: u64, b1: u64, b2: u64, b3: u64) -> (r: bool)
    ensures
        r <==> (a0 + a1 * pow2(64) + a2 * pow2(128) + a3 * pow2(192)) < (b0 + b1 * pow2(64) + b2
            * pow2(128) + b3 * pow2(192)),
{
    proof {
        lemma_limb_decomposition(FieldElem { l0: a0, l1: a1, l2: a2, l3: a3 });
        lemma_limb_decomposition(FieldElem { l0: b0, l1: b1, l2: b2, l3: b3 });
        lemma2_to64();
        lemma_two_limb_lt(
            (a0 + a1 * pow2(64)) as nat,
            (a2 + a3 * pow2(64)) as nat,
            (b0 + b1 * pow2(64)) as nat,
            (b2 + b3 * pow2(64)) as nat,
            pow2(128),
        );
        lemma_two_limb_lt(a0 as nat, a1 as nat, b0 as nat, b1 as nat, pow2(64));
        lemma_two_limb_lt(a2 as nat, a3 as nat, b2 as nat, b3 as nat, pow2(64));
    }
    if a3 != b3 {
        return a3 < b3;
    }
    if a2 != b2 {
        return a2 < b2;
    }
    if a1 != b1 {
        return a1 < b1;
    }
    a0 < b0
}

} // verus!
