//! Public inputs to the action circuit: the seven externally visible
//! values, their packing into the nine public-input slots, and the
//! byte-level serialization used to exchange an instance with its proof.
//!
//! A serialized instance is 162 bytes: five 32-byte slots (anchor, value
//! commitment, nullifier, randomized verification key, extracted note
//! commitment) followed by two flag bytes, and then the raw proof bytes.

use vstd::prelude::*;
use vstd::arithmetic::power2::pow2;
use crate::bits::le_bytes_value;
use crate::field::{p_modulus, FieldElem};
use crate::gate::flag_value;
use crate::point::{is_point_repr, y_repr_of, CurvePoint};
use crate::proof_bytes::Proof;

verus! {

/// Absolute offset of the anchor in the public-input vector.
pub const ANCHOR: usize = 0;

/// Absolute offset of the value commitment's x-coordinate.
pub const CV_NET_X: usize = 1;

/// Absolute offset of the value commitment's y-coordinate.
pub const CV_NET_Y: usize = 2;

/// Absolute offset of the spent note's nullifier.
pub const NF_OLD: usize = 3;

/// Absolute offset of the randomized verification key's x-coordinate.
pub const RK_X: usize = 4;

/// Absolute offset of the randomized verification key's y-coordinate.
pub const RK_Y: usize = 5;

/// Absolute offset of the new note commitment's x-coordinate.
pub const CMX: usize = 6;

/// Absolute offset of the spend-enable flag.
pub const ENABLE_SPEND: usize = 7;

/// Absolute offset of the output-enable flag.
pub const ENABLE_OUTPUT: usize = 8;

/// Number of bytes a serialized instance occupies before the proof.
pub const INSTANCE_BYTES: usize = 162;

/// What can go wrong reading a serialized instance.
#[derive(Clone, Copy, PartialEq, Eq, Structural, Debug)]
pub enum EncodingError {
    /// Fewer bytes than a serialized instance occupies.
    TooShort,
    /// A field-element slot holds a non-canonical encoding.
    MalformedFieldElement,
    /// A point slot does not hold the canonical encoding of a curve point;
    /// for the verification key slot, the identity counts as invalid, as
    /// it has no affine coordinates to bind to the public inputs.
    NonCanonicalPoint,
    /// A flag byte is neither 0x00 nor 0x01.
    NonBooleanByte,
}

/// Public inputs to the action circuit.
pub struct Instance {
    /// The Merkle root the spent note belongs to.
    pub anchor: FieldElem,
    /// Commitment to the net value `v_old - v_new`.
    pub cv_net: CurvePoint,
    /// Nullifier of the spent note.
    pub nf_old: FieldElem,
    /// The randomized spend-authorization verification key.
    pub rk: CurvePoint,
    /// x-coordinate of the new note's commitment.
    pub cmx: FieldElem,
    /// Whether spends of nonzero value are enabled.
    pub enable_spend: bool,
    /// Whether outputs of nonzero value are enabled.
    pub enable_output: bool,
}

/// The anchor slot of a serialized instance holds a canonical field
/// element.
pub open spec fn anchor_slot_ok(b: Seq<u8>) -> bool {
    le_bytes_value(b.subrange(0, 32)) < p_modulus()
}

/// The value-commitment slot holds a canonical compressed point.
pub open spec fn cv_slot_ok(b: Seq<u8>) -> bool {
    is_point_repr(b.subrange(32, 64))
}

/// The nullifier slot holds a canonical field element.
pub open spec fn nf_slot_ok(b: Seq<u8>) -> bool {
    le_bytes_value(b.subrange(64, 96)) < p_modulus()
}

/// The verification-key slot holds a canonical compressed point other
/// than the identity.
pub open spec fn rk_slot_ok(b: Seq<u8>) -> bool {
    is_point_repr(b.subrange(96, 128)) && le_bytes_value(b.subrange(96, 128)) != 0
}

/// The note-commitment slot holds a canonical field element.
pub open spec fn cmx_slot_ok(b: Seq<u8>) -> bool {
    le_bytes_value(b.subrange(128, 160)) < p_modulus()
}

/// Both flag bytes are 0x00 or 0x01.
pub open spec fn flags_ok(b: Seq<u8>) -> bool {
    (b[160] == 0 || b[160] == 1) && (b[161] == 0 || b[161] == 1)
}

/// Every slot of a serialized instance is valid.
pub open spec fn instance_bytes_ok(b: Seq<u8>) -> bool {
    &&& b.len() >= 162
    &&& anchor_slot_ok(b)
    &&& cv_slot_ok(b)
    &&& nf_slot_ok(b)
    &&& rk_slot_ok(b)
    &&& cmx_slot_ok(b)
    &&& flags_ok(b)
}

impl Instance {
    /// All parts hold canonical values, and the verification key is a
    /// proper point.
    pub open spec fn wf(self) -> bool {
        &&& self.anchor.is_base_canonical()
        &&& self.cv_net.wf()
        &&& self.nf_old.is_base_canonical()
        &&& self.rk.wf()
        &&& !self.rk.is_identity
        &&& self.cmx.is_base_canonical()
    }

    /// Constructs an instance from its constituent parts.
    pub fn from_parts(
        anchor: FieldElem,
        cv_net: CurvePoint,
        nf_old: FieldElem,
        rk: CurvePoint,
        cmx: FieldElem,
        enable_spend: bool,
        enable_output: bool,
    ) -> (r: Instance)
        ensures
            r.anchor == anchor,
            r.cv_net == cv_net,
            r.nf_old == nf_old,
            r.rk == rk,
            r.cmx == cmx,
            r.enable_spend == enable_spend,
            r.enable_output == enable_output,
    {
        Instance { anchor, cv_net, nf_old, rk, cmx, enable_spend, enable_output }
    }

    /// Packs the seven values into the nine public-input slots, at their
    /// fixed absolute offsets.
    pub fn to_public_inputs(&self) -> (r: Vec<FieldElem>)
        ensures
            r@.len() == 9,
            r@[ANCHOR as int] == self.anchor,
            r@[CV_NET_X as int] == self.cv_net.x,
            r@[CV_NET_Y as int] == self.cv_net.y,
            r@[NF_OLD as int] == self.nf_old,
            r@[RK_X as int] == self.rk.x,
            r@[RK_Y as int] == self.rk.y,
            r@[CMX as int] == self.cmx,
            r@[ENABLE_SPEND as int].value() == flag_value(self.enable_spend),
            r@[ENABLE_OUTPUT as int].value() == flag_value(self.enable_output),
    {
        let mut out: Vec<FieldElem> = Vec::new();
        out.push(self.anchor);
        out.push(self.cv_net.x);
        out.push(self.cv_net.y);
        out.push(self.nf_old);
        out.push(self.rk.x);
        out.push(self.rk.y);
        out.push(self.cmx);
        out.push(FieldElem::from_u64(if self.enable_spend {
            1
        } else {
            0
        }));
        out.push(FieldElem::from_u64(if self.enable_output {
            1
        } else {
            0
        }));
        out
    }

    /// Serializes the instance: the five 32-byte slots in order, then the
    /// two flag bytes.
    pub fn to_bytes(&self) -> (r: Vec<u8>)
        requires
            self.wf(),
        ensures
            r@.len() == 162,
            le_bytes_value(r@.subrange(0, 32)) == self.anchor.value(),
            le_bytes_value(r@.subrange(32, 64)) == self.cv_net.encoding_value(),
            le_bytes_value(r@.subrange(64, 96)) == self.nf_old.value(),
            le_bytes_value(r@.subrange(96, 128)) == self.rk.encoding_value(),
            le_bytes_value(r@.subrange(128, 160)) == self.cmx.value(),
            r@[160] == (if self.enable_spend {
                1u8
            } else {
                0u8
            }),
            r@[161] == (if self.enable_output {
                1u8
            } else {
                0u8
            }),
    {
        let mut out = self.anchor.to_le_bytes();
        let ghost s0 = out@;
        let mut cv = self.cv_net.compress();
        let ghost scv = cv@;
        out.append(&mut cv);
        let mut nf = self.nf_old.to_le_bytes();
        let ghost snf = nf@;
        out.append(&mut nf);
        let mut rk = self.rk.compress();
        let ghost srk = rk@;
        out.append(&mut rk);
        let mut cmx = self.cmx.to_le_bytes();
        let ghost scmx = cmx@;
        out.append(&mut cmx);
        out.push(if self.enable_spend {
            1
        } else {
            0
        });
        out.push(if self.enable_output {
            1
        } else {
            0
        });
        proof {
            assert(out@.subrange(0, 32) =~= s0);
            assert(out@.subrange(32, 64) =~= scv);
            assert(out@.subrange(64, 96) =~= snf);
            assert(out@.subrange(96, 128) =~= srk);
            assert(out@.subrange(128, 160) =~= scmx);
        }
        out
    }

    /// Reads a serialized instance followed by raw proof bytes. Succeeds
    /// exactly when every slot is valid; the first invalid slot, in
    /// serialization order, names the error.
    pub fn parse(bytes: &Vec<u8>) -> (r: Result<(Instance, Proof), EncodingError>)
        ensures
            r is Ok <==> instance_bytes_ok(bytes@),
            (r matches Err(e) && e == EncodingError::TooShort) <==> bytes@.len() < 162,
            (r matches Err(e) && e == EncodingError::MalformedFieldElement) <==> (bytes@.len()
                >= 162 && (!anchor_slot_ok(bytes@) || (anchor_slot_ok(bytes@) && cv_slot_ok(bytes@)
                && !nf_slot_ok(bytes@)) || (anchor_slot_ok(bytes@) && cv_slot_ok(bytes@)
                && nf_slot_ok(bytes@) && rk_slot_ok(bytes@) && !cmx_slot_ok(bytes@)))),
            (r matches Err(e) && e == EncodingError::NonCanonicalPoint) <==> (bytes@.len() >= 162
                && ((anchor_slot_ok(bytes@) && !cv_slot_ok(bytes@)) || (anchor_slot_ok(bytes@)
                && cv_slot_ok(bytes@) && nf_slot_ok(bytes@) && !rk_slot_ok(bytes@)))),
            (r matches Err(e) && e == EncodingError::NonBooleanByte) <==> (bytes@.len() >= 162
                && anchor_slot_ok(bytes@) && cv_slot_ok(bytes@) && nf_slot_ok(bytes@)
                && rk_slot_ok(bytes@) && cmx_slot_ok(bytes@) && !flags_ok(bytes@)),
            r matches Ok(ip) ==> {
                &&& ip.0.wf()
                &&& ip.0.anchor.value() == le_bytes_value(bytes@.subrange(0, 32))
                &&& ip.0.cv_net.x.value() == le_bytes_value(bytes@.subrange(32, 64)) % pow2(255)
                &&& ip.0.cv_net.y.value() == le_bytes_value(y_repr_of(bytes@.subrange(32, 64)))
                &&& (ip.0.cv_net.is_identity <==> le_bytes_value(bytes@.subrange(32, 64)) == 0)
                &&& ip.0.nf_old.value() == le_bytes_value(bytes@.subrange(64, 96))
                &&& ip.0.rk.x.value() == le_bytes_value(bytes@.subrange(96, 128)) % pow2(255)
                &&& ip.0.rk.y.value() == le_bytes_value(y_repr_of(bytes@.subrange(96, 128)))
                &&& ip.0.cmx.value() == le_bytes_value(bytes@.subrange(128, 160))
                &&& ip.0.enable_spend == (bytes@[160] == 1)
                &&& ip.0.enable_output == (bytes@[161] == 1)
                &&& ip.1@ == bytes@.skip(162)
            },
    {
        let n = bytes.len();
        if n < INSTANCE_BYTES {
            return Err(EncodingError::TooShort);
        }
        let anchor = FieldElem::from_le_bytes(bytes, 0);
        if !anchor.check_base_canonical() {
            return Err(EncodingError::MalformedFieldElement);
        }
        let cv_bytes = bytes_range(bytes, 32, 64);
        let cv_net = match CurvePoint::decompress(&cv_bytes) {
            None => {
                return Err(EncodingError::NonCanonicalPoint);
            },
            Some(p) => p,
        };
        let nf_old = FieldElem::from_le_bytes(bytes, 64);
        if !nf_old.check_base_canonical() {
            return Err(EncodingError::MalformedFieldElement);
        }
        let rk_bytes = bytes_range(bytes, 96, 128);
        let rk = match CurvePoint::decompress(&rk_bytes) {
            None => {
                return Err(EncodingError::NonCanonicalPoint);
            },
            Some(p) => p,
        };
        if rk.is_identity {
            return Err(EncodingError::NonCanonicalPoint);
        }
        let cmx = FieldElem::from_le_bytes(bytes, 128);
        if !cmx.check_base_canonical() {
            return Err(EncodingError::MalformedFieldElement);
        }
        let b_spend = bytes[160];
        let b_output = bytes[161];
        if !(b_spend == 0 || b_spend == 1) || !(b_output == 0 || b_output == 1) {
            return Err(EncodingError::NonBooleanByte);
        }
        let proof_bytes = bytes_range(bytes, INSTANCE_BYTES, n);
        proof {
            assert(bytes@.subrange(162, n as int) =~= bytes@.skip(162));
        }
        let instance = Instance {
            anchor,
            cv_net,
            nf_old,
            rk,
            cmx,
            enable_spend: b_spend == 1,
            enable_output: b_output == 1,
        };
        Ok((instance, Proof::new(proof_bytes)))
    }
}

/// Copies the byte range `[start, end)` out of a vector.
fn bytes_range(bytes: &Vec<u8>, start: usize, end: usize) -> (r: Vec<u8>)
    requires
        start <= end <= bytes@.len(),
    ensures
        r@ == bytes@.subrange(start as int, end as int),
{
    let mut out: Vec<u8> = Vec::new();
    let mut i: usize = start;
    while i < end
        invariant
            start <= i <= end <= bytes@.len(),
            out@ =~= bytes@.subrange(start as int, i as int),
        decreases end - i,
    {
        let b = bytes[i];
        out.push(b);
        proof {
            assert(out@ =~= bytes@.subrange(start as int, i + 1));
        }
        i = i + 1;
    }
    out
}

} // verus!
