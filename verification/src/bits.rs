//! Little-endian bit sequences and their numeric values.
//!
//! Every bit-vector conversion in this crate is little-endian: bit 0 is the
//! least significant and carries weight 2^0.

use vstd::prelude::*;
use vstd::arithmetic::power2::*;

verus! {

/// Numeric value of a little-endian bit sequence.
pub open spec fn le_bits_value(bits: Seq<bool>) -> nat
    decreases bits.len(),
{
    if bits.len() == 0 {
        0
    } else {
        (if bits[0] {
            1nat
        } else {
            0nat
        }) + 2 * le_bits_value(bits.skip(1))
    }
}

/// Appending one bit on the most-significant end adds its weight.
pub proof fn lemma_le_bits_value_push(bits: Seq<bool>, b: bool)
    ensures
        le_bits_value(bits.push(b)) == le_bits_value(bits) + (if b {
            pow2(bits.len())
        } else {
            0nat
        }),
    decreases bits.len(),
{
    if bits.len() == 0 {
        reveal_with_fuel(le_bits_value, 2);
        assert(bits.push(b).skip(1) =~= Seq::<bool>::empty());
        assert(le_bits_value(bits.push(b)) == (if b {
            1nat
        } else {
            0nat
        }));
        lemma2_to64();
    } else {
        assert(bits.push(b).skip(1) =~= bits.skip(1).push(b));
        lemma_le_bits_value_push(bits.skip(1), b);
        lemma_pow2_adds(1, (bits.len() - 1) as nat);
        lemma2_to64();
        assert(le_bits_value(bits.skip(1).push(b)) == le_bits_value(bits.skip(1)) + (if b {
            pow2((bits.len() - 1) as nat)
        } else {
            0nat
        }));
        assert(le_bits_value(bits.push(b)) == (if bits[0] {
            1nat
        } else {
            0nat
        }) + 2 * le_bits_value(bits.skip(1).push(b)));
        assert(2 * pow2((bits.len() - 1) as nat) == pow2(bits.len()));
    }
}

/// A bit sequence's value is below 2^len.
pub proof fn lemma_le_bits_value_bound(bits: Seq<bool>)
    ensures
        le_bits_value(bits) < pow2(bits.len()),
    decreases bits.len(),
{
    if bits.len() == 0 {
        lemma2_to64();
    } else {
        lemma_le_bits_value_bound(bits.skip(1));
        lemma_pow2_adds(1, (bits.len() - 1) as nat);
        lemma2_to64();
    }
}

/// Splitting a bit sequence splits its value: the low part is the prefix,
/// the high part is the suffix scaled by the prefix's weight.
pub proof fn lemma_le_bits_value_concat(lo: Seq<bool>, hi: Seq<bool>)
    ensures
        le_bits_value(lo + hi) == le_bits_value(lo) + pow2(lo.len()) * le_bits_value(hi),
    decreases lo.len(),
{
    if lo.len() == 0 {
        assert(lo + hi =~= hi);
        lemma2_to64();
        assert(pow2(0) * le_bits_value(hi) == le_bits_value(hi));
    } else {
        assert((lo + hi).skip(1) =~= lo.skip(1) + hi);
        assert((lo + hi)[0] == lo[0]);
        lemma_le_bits_value_concat(lo.skip(1), hi);
        lemma_pow2_adds(1, (lo.len() - 1) as nat);
        lemma2_to64();
        assert(le_bits_value(lo + hi) == (if lo[0] {
            1nat
        } else {
            0nat
        }) + 2 * (le_bits_value(lo.skip(1)) + pow2((lo.len() - 1) as nat) * le_bits_value(hi)));
        assert(2 * (le_bits_value(lo.skip(1)) + pow2((lo.len() - 1) as nat) * le_bits_value(hi))
            == 2 * le_bits_value(lo.skip(1)) + 2 * pow2((lo.len() - 1) as nat) * le_bits_value(hi))
            by (nonlinear_arith);
        assert(2 * pow2((lo.len() - 1) as nat) == pow2(lo.len()));
    }
}

/// Dropping the `s` low bits divides the value by 2^s; keeping them
/// takes the value modulo 2^s.
pub proof fn lemma_le_bits_value_split(bits: Seq<bool>, s: int)
    requires
        0 <= s <= bits.len(),
    ensures
        le_bits_value(bits.skip(s)) == le_bits_value(bits) / pow2(s as nat),
        le_bits_value(bits.take(s)) == le_bits_value(bits) % pow2(s as nat),
{
    assert(bits.take(s) + bits.skip(s) =~= bits);
    lemma_le_bits_value_concat(bits.take(s), bits.skip(s));
    lemma_le_bits_value_bound(bits.take(s));
    lemma_pow2_pos(s as nat);
    vstd::arithmetic::mul::lemma_mul_is_commutative(
        pow2(s as nat) as int,
        le_bits_value(bits.skip(s)) as int,
    );
    vstd::arithmetic::div_mod::lemma_fundamental_div_mod_converse(
        le_bits_value(bits) as int,
        pow2(s as nat) as int,
        le_bits_value(bits.skip(s)) as int,
        le_bits_value(bits.take(s)) as int,
    );
}

/// Copies the bit range `[start, end)` out of a vector.
pub fn bits_range(bits: &Vec<bool>, start: usize, end: usize) -> (r: Vec<bool>)
    requires
        start <= end <= bits@.len(),
    ensures
        r@ == bits@.subrange(start as int, end as int),
{
    let mut out: Vec<bool> = Vec::new();
    let mut i: usize = start;
    while i < end
        invariant
            start <= i <= end <= bits@.len(),
            out@ =~= bits@.subrange(start as int, i as int),
        decreases end - i,
    {
        let b = bits[i];
        out.push(b);
        proof {
            assert(out@ =~= bits@.subrange(start as int, i + 1));
        }
        i = i + 1;
    }
    out
}

/// Writes a byte as its eight little-endian bits.
pub fn u8_to_le_bits(x: u8) -> (r: Vec<bool>)
    ensures
        r@.len() == 8,
        le_bits_value(r@) == x,
{
    proof {
        lemma2_to64();
        vstd::arithmetic::div_mod::lemma_fundamental_div_mod_converse(x as int, 1, x as int, 0);
    }
    let mut out: Vec<bool> = Vec::new();
    let mut cur: u8 = x;
    let mut i: usize = 0;
    while i < 8
        invariant
            i <= 8,
            out@.len() == i,
            cur == x as nat / pow2(i as nat),
            le_bits_value(out@) == x as nat % pow2(i as nat),
        decreases 8 - i,
    {
        proof {
            lemma2_to64();
            lemma_pow2_adds(i as nat, 1);
            lemma_pow2_pos(i as nat);
            lemma_le_bits_value_push(out@, cur % 2 == 1);
            vstd::arithmetic::div_mod::lemma_breakdown(x as int, pow2(i as nat) as int, 2);
            vstd::arithmetic::div_mod::lemma_div_denominator(x as int, pow2(i as nat) as int, 2);
        }
        out.push(cur % 2 == 1);
        cur = cur / 2;
        i = i + 1;
    }
    proof {
        lemma2_to64();
        vstd::arithmetic::div_mod::lemma_small_mod(x as nat, pow2(8));
    }
    out
}

/// Expands bytes to their little-endian bits, least significant byte and
/// bit first; the numeric value is unchanged.
pub fn bytes_to_le_bits(bytes: &Vec<u8>) -> (r: Vec<bool>)
    ensures
        r@.len() == 8 * bytes@.len(),
        le_bits_value(r@) == le_bytes_value(bytes@),
{
    let mut out: Vec<bool> = Vec::new();
    let mut i: usize = 0;
    let n = bytes.len();
    while i < n
        invariant
            i <= n,
            n == bytes@.len(),
            out@.len() == 8 * i,
            le_bits_value(out@) == le_bytes_value(bytes@.take(i as int)),
        decreases n - i,
    {
        let b = bytes[i];
        let mut bits = u8_to_le_bits(b);
        let ghost gout = out@;
        let ghost gbits = bits@;
        out.append(&mut bits);
        proof {
            assert(out@ =~= gout + gbits);
            lemma_le_bits_value_concat(gout, gbits);
            assert(bytes@.take(i as int).push(bytes@[i as int]) =~= bytes@.take(i + 1));
            lemma_le_bytes_value_push(bytes@.take(i as int), bytes@[i as int]);
            vstd::arithmetic::mul::lemma_mul_is_commutative(
                pow2(8 * i as nat) as int,
                b as int,
            );
        }
        i = i + 1;
    }
    proof {
        assert(bytes@.take(n as int) =~= bytes@);
    }
    out
}

/// Numeric value of a little-endian byte sequence: byte 0 has weight 256^0.
pub open spec fn le_bytes_value(bytes: Seq<u8>) -> nat
    decreases bytes.len(),
{
    if bytes.len() == 0 {
        0
    } else {
        (bytes[0] + 256 * le_bytes_value(bytes.skip(1))) as nat
    }
}

/// Appending one byte on the most-significant end adds its weight.
pub proof fn lemma_le_bytes_value_push(bytes: Seq<u8>, x: u8)
    ensures
        le_bytes_value(bytes.push(x)) == le_bytes_value(bytes) + x * pow2(8 * bytes.len()),
    decreases bytes.len(),
{
    if bytes.len() == 0 {
        reveal_with_fuel(le_bytes_value, 2);
        assert(bytes.push(x).skip(1) =~= Seq::<u8>::empty());
        lemma2_to64();
    } else {
        assert(bytes.push(x).skip(1) =~= bytes.skip(1).push(x));
        lemma_le_bytes_value_push(bytes.skip(1), x);
        lemma_pow2_adds(8, 8 * (bytes.len() - 1) as nat);
        lemma2_to64();
        assert(le_bytes_value(bytes.push(x)) == bytes[0] + 256 * (le_bytes_value(bytes.skip(1)) + x
            * pow2(8 * (bytes.len() - 1) as nat)));
        assert(256 * (le_bytes_value(bytes.skip(1)) + x * pow2(8 * (bytes.len() - 1) as nat)) == 256
            * le_bytes_value(bytes.skip(1)) + x * (256 * pow2(8 * (bytes.len() - 1) as nat)))
            by (nonlinear_arith);
    }
}

/// A byte sequence's value is below 256^len.
pub proof fn lemma_le_bytes_value_bound(bytes: Seq<u8>)
    ensures
        le_bytes_value(bytes) < pow2(8 * bytes.len()),
    decreases bytes.len(),
{
    if bytes.len() == 0 {
        lemma2_to64();
    } else {
        lemma_le_bytes_value_bound(bytes.skip(1));
        lemma_pow2_adds(8, 8 * (bytes.len() - 1) as nat);
        lemma2_to64();
        assert(256 * le_bytes_value(bytes.skip(1)) + 256 <= 256 * pow2(8 * (bytes.len() - 1) as nat))
            by (nonlinear_arith)
            requires
                le_bytes_value(bytes.skip(1)) < pow2(8 * (bytes.len() - 1) as nat),
        ;
    }
}

/// Splitting a byte sequence splits its value, the high part scaled by the
/// prefix's weight.
pub proof fn lemma_le_bytes_value_concat(lo: Seq<u8>, hi: Seq<u8>)
    ensures
        le_bytes_value(lo + hi) == le_bytes_value(lo) + pow2(8 * lo.len()) * le_bytes_value(hi),
    decreases lo.len(),
{
    if lo.len() == 0 {
        assert(lo + hi =~= hi);
        lemma2_to64();
        assert(pow2(0) * le_bytes_value(hi) == le_bytes_value(hi));
    } else {
        assert((lo + hi).skip(1) =~= lo.skip(1) + hi);
        assert((lo + hi)[0] == lo[0]);
        lemma_le_bytes_value_concat(lo.skip(1), hi);
        lemma_pow2_adds(8, 8 * (lo.len() - 1) as nat);
        lemma2_to64();
        assert(le_bytes_value(lo + hi) == lo[0] + 256 * (le_bytes_value(lo.skip(1)) + pow2(
            8 * (lo.len() - 1) as nat,
        ) * le_bytes_value(hi)));
        assert(256 * (le_bytes_value(lo.skip(1)) + pow2(8 * (lo.len() - 1) as nat)
            * le_bytes_value(hi)) == 256 * le_bytes_value(lo.skip(1)) + (256 * pow2(
            8 * (lo.len() - 1) as nat,
        )) * le_bytes_value(hi)) by (nonlinear_arith);
        assert(8 * lo.len() == 8 + 8 * (lo.len() - 1) as nat);
        assert(pow2(8 * lo.len()) == 256 * pow2(8 * (lo.len() - 1) as nat));
        assert(le_bytes_value(lo) == lo[0] + 256 * le_bytes_value(lo.skip(1)));
    }
}

/// Dropping the `s` low bytes divides the value by 256^s; keeping them
/// takes the value modulo 256^s.
pub proof fn lemma_le_bytes_value_split(bytes: Seq<u8>, s: int)
    requires
        0 <= s <= bytes.len(),
    ensures
        le_bytes_value(bytes.skip(s)) == le_bytes_value(bytes) / pow2(8 * s as nat),
        le_bytes_value(bytes.take(s)) == le_bytes_value(bytes) % pow2(8 * s as nat),
{
    assert(bytes.take(s) + bytes.skip(s) =~= bytes);
    lemma_le_bytes_value_concat(bytes.take(s), bytes.skip(s));
    lemma_le_bytes_value_bound(bytes.take(s));
    lemma_pow2_pos(8 * s as nat);
    vstd::arithmetic::mul::lemma_mul_is_commutative(
        pow2(8 * s as nat) as int,
        le_bytes_value(bytes.skip(s)) as int,
    );
    vstd::arithmetic::div_mod::lemma_fundamental_div_mod_converse(
        le_bytes_value(bytes) as int,
        pow2(8 * s as nat) as int,
        le_bytes_value(bytes.skip(s)) as int,
        le_bytes_value(bytes.take(s)) as int,
    );
}

/// A byte sequence's value is zero exactly when every byte is zero.
pub proof fn lemma_le_bytes_value_zero_iff(bytes: Seq<u8>)
    ensures
        le_bytes_value(bytes) == 0 <==> (forall|i: int| 0 <= i < bytes.len() ==> bytes[i] == 0),
    decreases bytes.len(),
{
    if bytes.len() > 0 {
        lemma_le_bytes_value_zero_iff(bytes.skip(1));
        if le_bytes_value(bytes) == 0 {
            assert forall|i: int| 0 <= i < bytes.len() implies bytes[i] == 0 by {
                if i >= 1 {
                    assert(bytes[i] == bytes.skip(1)[i - 1]);
                }
            }
        }
    }
}

} // verus!
