//! Pallas curve points as the circuit reads them: affine coordinates plus
//! an identity flag, with the 32-byte compressed encoding.
//!
//! The compressed encoding is the canonical x-coordinate bytes with the
//! parity of y in the top bit of the last byte; the identity encodes as 32
//! zero bytes. Compression is computed here; decompression needs the curve
//! equation and is delegated to the curve library.

use vstd::prelude::*;
use vstd::arithmetic::power2::*;
use vstd::arithmetic::div_mod::{lemma_div_denominator, lemma_mod_multiples_vanish};
use crate::bits::{
    le_bytes_value,
    lemma_le_bytes_value_concat,
    lemma_le_bytes_value_split,
    lemma_le_bytes_value_zero_iff,
};
use crate::field::{lemma_limb_weights, p_modulus, FieldElem};
use group::GroupEncoding;
use ff::PrimeField;
use pasta_curves::arithmetic::CurveAffine;

verus! {

/// A Pallas point: affine coordinates, or the identity.
#[derive(Clone, Copy, PartialEq, Eq, Structural, Debug)]
pub struct CurvePoint {
    /// The affine x-coordinate; zero for the identity.
    pub x: FieldElem,
    /// The affine y-coordinate; zero for the identity.
    pub y: FieldElem,
    /// Whether this is the group's identity element.
    pub is_identity: bool,
}

/// Whether 32 bytes are the canonical compressed encoding of some Pallas
/// point; only the curve equation can decide this.
pub uninterp spec fn is_point_repr(b: Seq<u8>) -> bool;

/// The canonical encoding of the y-coordinate of the point that the bytes
/// `b` encode; a function of the bytes alone.
pub uninterp spec fn y_repr_of(b: Seq<u8>) -> Seq<u8>;

impl CurvePoint {
    /// Coordinates are canonical field elements, and the identity carries
    /// zero coordinates.
    pub open spec fn wf(self) -> bool {
        &&& self.x.is_base_canonical()
        &&& self.y.is_base_canonical()
        &&& (self.is_identity ==> self.x.value() == 0 && self.y.value() == 0)
    }

    /// The integer that this point's compressed encoding stands for: the
    /// x-coordinate, with the parity of y carrying weight 2^255; zero for
    /// the identity.
    pub open spec fn encoding_value(self) -> nat {
        if self.is_identity {
            0
        } else {
            self.x.value() + pow2(255) * (self.y.value() % 2)
        }
    }

    /// The identity element.
    pub fn identity() -> (r: CurvePoint)
        ensures
            r.wf(),
            r.is_identity,
            r.encoding_value() == 0,
    {
        CurvePoint { x: FieldElem::zero(), y: FieldElem::zero(), is_identity: true }
    }

    /// Builds a non-identity point from its affine coordinates.
    pub fn from_coordinates(x: FieldElem, y: FieldElem) -> (r: CurvePoint)
        requires
            x.is_base_canonical(),
            y.is_base_canonical(),
        ensures
            r.wf(),
            !r.is_identity,
            r.x == x,
            r.y == y,
    {
        CurvePoint { x, y, is_identity: false }
    }

    /// The 32-byte compressed encoding: the x-coordinate little-endian,
    /// with the parity of y in the top bit; all zeros for the identity.
    pub fn compress(&self) -> (r: Vec<u8>)
        requires
            self.wf(),
        ensures
            r@.len() == 32,
            le_bytes_value(r@) == self.encoding_value(),
    {
        if self.is_identity {
            let mut out: Vec<u8> = Vec::new();
            let mut i: usize = 0;
            while i < 32
                invariant
                    i <= 32,
                    out@.len() == i,
                    forall|j: int| 0 <= j < i ==> out@[j] == 0,
                decreases 32 - i,
            {
                out.push(0);
                i = i + 1;
            }
            proof {
                lemma_le_bytes_value_zero_iff(out@);
            }
            return out;
        }
        let mut bytes = self.x.to_le_bytes();
        proof {
            lemma_le_bytes_value_split(bytes@, 31);
            assert(le_bytes_value(bytes@.skip(31)) == bytes@[31] + 256 * le_bytes_value(
                bytes@.skip(31).skip(1),
            ));
            assert(bytes@.skip(31).skip(1) =~= Seq::<u8>::empty());
            lemma_limb_weights();
            lemma_pow2_adds(7, 248);
            lemma_pow2_adds(192, 63);
            lemma2_to64();
            lemma2_to64_rest();
            assert(pow2(255) == pow2(192) * pow2(63));
            assert(p_modulus() < pow2(255));
            assert(self.x.value() < 128 * pow2(248));
            vstd::arithmetic::div_mod::lemma_multiply_divide_lt(
                self.x.value() as int,
                pow2(248) as int,
                128,
            );
            lemma_parity(self.y);
        }
        let parity = self.y.l0 % 2 == 1;
        if parity {
            let b31 = bytes[31];
            let ghost pre = bytes@;
            bytes.set(31, b31 + 128);
            proof {
                assert(pre =~= pre.take(31) + pre.skip(31));
                assert(bytes@ =~= pre.take(31) + bytes@.skip(31));
                lemma_le_bytes_value_concat(pre.take(31), pre.skip(31));
                lemma_le_bytes_value_concat(pre.take(31), bytes@.skip(31));
                assert(le_bytes_value(pre.skip(31)) == b31 + 256 * le_bytes_value(
                    pre.skip(31).skip(1),
                ));
                assert(le_bytes_value(bytes@.skip(31)) == (b31 + 128) + 256 * le_bytes_value(
                    bytes@.skip(31).skip(1),
                ));
                assert(pre.skip(31).skip(1) =~= Seq::<u8>::empty());
                assert(bytes@.skip(31).skip(1) =~= Seq::<u8>::empty());
                lemma_pow2_adds(7, 248);
                assert(pow2(248) * ((b31 + 128) as nat) == pow2(248) * (b31 as nat) + 128 * pow2(
                    248,
                )) by (nonlinear_arith);
                assert(le_bytes_value(bytes@) == le_bytes_value(pre) + 128 * pow2(248));
            }
        }
        proof {
            assert(128 * pow2(248) == pow2(7) * pow2(248));
            if parity {
                assert(self.y.value() % 2 == 1);
                assert(pow2(255) * (self.y.value() % 2) == pow2(255));
                assert(le_bytes_value(bytes@) == self.x.value() + pow2(255));
            } else {
                assert(self.y.value() % 2 == 0);
                assert(pow2(255) * (self.y.value() % 2) == 0) by (nonlinear_arith)
                    requires
                        self.y.value() % 2 == 0,
                ;
                assert(le_bytes_value(bytes@) == self.x.value());
            }
        }
        bytes
    }

    /// Parses a 32-byte compressed encoding. Returns `None` exactly when
    /// the bytes are not the canonical encoding of a Pallas point; the
    /// returned point's x-coordinate is the low 255 bits of the encoding,
    /// and the identity is the all-zero encoding.
    pub fn decompress(bytes: &Vec<u8>) -> (r: Option<CurvePoint>)
        requires
            bytes@.len() == 32,
        ensures
            r is Some <==> is_point_repr(bytes@),
            r matches Some(p) ==> {
                &&& p.wf()
                &&& p.x.value() == le_bytes_value(bytes@) % pow2(255)
                &&& p.y.value() == le_bytes_value(y_repr_of(bytes@))
                &&& (p.is_identity <==> le_bytes_value(bytes@) == 0)
            },
    {
        match point_decompress_raw(bytes) {
            None => None,
            Some((xr, yr)) => {
                let x = FieldElem::from_le_bytes(&xr, 0);
                let y = FieldElem::from_le_bytes(&yr, 0);
                let ident = x.l0 == 0 && x.l1 == 0 && x.l2 == 0 && x.l3 == 0 && y.l0 == 0 && y.l1
                    == 0 && y.l2 == 0 && y.l3 == 0;
                proof {
                    assert(xr@.subrange(0, 32) =~= xr@);
                    assert(yr@.subrange(0, 32) =~= yr@);
                    lemma_limb_weights();
                }
                Some(CurvePoint { x, y, is_identity: ident })
            },
        }
    }
}

/// The parity of a four-limb value is the parity of its low limb.
proof fn lemma_parity(e: FieldElem)
    ensures
        e.value() % 2 == e.l0 % 2,
{
    lemma_limb_weights();
    let k = (e.l1 * pow2(63) + e.l2 * pow2(127) + e.l3 * pow2(191)) as int;
    assert(pow2(64) == 2 * pow2(63) && pow2(128) == 2 * pow2(127) && pow2(192) == 2 * pow2(191))
        by {
        lemma_pow2_adds(1, 63);
        lemma_pow2_adds(1, 127);
        lemma_pow2_adds(1, 191);
        lemma2_to64();
    }
    assert(e.value() == 2 * k + e.l0) by (nonlinear_arith)
        requires
            e.value() == (e.l0 + e.l1 * (2 * pow2(63)) + e.l2 * (2 * pow2(127)) + e.l3 * (2 * pow2(
                191,
            ))) as nat,
            k == e.l1 * pow2(63) + e.l2 * pow2(127) + e.l3 * pow2(191),
    ;
    lemma_mod_multiples_vanish(k, e.l0 as int, 2);
}

/// Relies on pasta_curves: `EpAffine::from_bytes` accepts exactly the
/// canonical compressed encodings (x canonical, top bit the parity of y,
/// the identity all zeros), and `coordinates` with `to_repr` yield the
/// canonical coordinate bytes, with x the low 255 bits of the encoding.
/// Only the identity, whose encoding is zero, has zero coordinates.
#[verifier::external_body]
fn point_decompress_raw(b: &Vec<u8>) -> (r: Option<(Vec<u8>, Vec<u8>)>)
    requires
        b@.len() == 32,
    ensures
        r is Some <==> is_point_repr(b@),
        r matches Some(xy) ==> {
            &&& xy.0@.len() == 32
            &&& xy.1@.len() == 32
            &&& le_bytes_value(xy.0@) == le_bytes_value(b@) % pow2(255)
            &&& le_bytes_value(xy.0@) < p_modulus()
            &&& xy.1@ == y_repr_of(b@)
            &&& le_bytes_value(xy.1@) < p_modulus()
            &&& (le_bytes_value(b@) == 0 <==> le_bytes_value(xy.0@) == 0 && le_bytes_value(xy.1@)
                == 0)
        },
{
    let mut arr = [0u8; 32];
    arr.copy_from_slice(&b[..]);
    let parsed = Option::<pasta_curves::EpAffine>::from(pasta_curves::EpAffine::from_bytes(&arr));
    parsed.map(
        |a|
            if bool::from(group::CurveAffine::is_identity(&a)) {
                (vec![0u8; 32], vec![0u8; 32])
            } else {
                let c = a.coordinates().unwrap();
                (c.x().to_repr().to_vec(), c.y().to_repr().to_vec())
            },
    )
}

} // verus!
