//! The action circuit's witness: the private inputs a prover fills in, and
//! the witness computations that feed the action gate.
//!
//! Every field is optional: keys are generated against a circuit without
//! witnesses, and proving demands that every field is present. The depth of
//! the note commitment tree is 32.

use vstd::prelude::*;
use crate::field::FieldElem;
use crate::gate::{balance_semantics, GateRow, Sign};
use crate::point::CurvePoint;

verus! {

/// Depth of the Merkle tree of note commitments.
pub const MERKLE_DEPTH: usize = 32;

/// The private inputs to one action proof.
pub struct Circuit {
    /// The 32 sibling hashes authenticating the spent note's commitment.
    pub path: Option<Vec<FieldElem>>,
    /// The spent note's position in the commitment tree.
    pub pos: Option<u32>,
    /// The spent note's diversifier base point; never the identity.
    pub g_d_old: Option<CurvePoint>,
    /// The spent note's transmission key; never the identity.
    pub pk_d_old: Option<CurvePoint>,
    /// The spent note's value.
    pub v_old: Option<u64>,
    /// The nullifier seed of the spent note.
    pub rho_old: Option<FieldElem>,
    /// The spent note's randomness `psi`.
    pub psi_old: Option<FieldElem>,
    /// The spent note's commitment trapdoor; a scalar.
    pub rcm_old: Option<FieldElem>,
    /// The spent note's commitment, witnessed independently.
    pub cm_old: Option<CurvePoint>,
    /// The spend-authorization randomizer; a scalar.
    pub alpha: Option<FieldElem>,
    /// The spend validating key; never the identity.
    pub ak: Option<CurvePoint>,
    /// The nullifier deriving key.
    pub nk: Option<FieldElem>,
    /// The IVK commitment randomness; a scalar.
    pub rivk: Option<FieldElem>,
    /// The new note's diversifier base point; never the identity.
    pub g_d_new: Option<CurvePoint>,
    /// The new note's transmission key; never the identity.
    pub pk_d_new: Option<CurvePoint>,
    /// The new note's value.
    pub v_new: Option<u64>,
    /// The new note's randomness `psi`.
    pub psi_new: Option<FieldElem>,
    /// The new note's commitment trapdoor; a scalar.
    pub rcm_new: Option<FieldElem>,
    /// The value-commitment trapdoor; a scalar.
    pub rcv: Option<FieldElem>,
}

impl Circuit {
    /// Whether every private input is present, as proving requires.
    pub open spec fn is_witnessed(self) -> bool {
        &&& self.path is Some
        &&& self.pos is Some
        &&& self.g_d_old is Some
        &&& self.pk_d_old is Some
        &&& self.v_old is Some
        &&& self.rho_old is Some
        &&& self.psi_old is Some
        &&& self.rcm_old is Some
        &&& self.cm_old is Some
        &&& self.alpha is Some
        &&& self.ak is Some
        &&& self.nk is Some
        &&& self.rivk is Some
        &&& self.g_d_new is Some
        &&& self.pk_d_new is Some
        &&& self.v_new is Some
        &&& self.psi_new is Some
        &&& self.rcm_new is Some
        &&& self.rcv is Some
    }

    /// The circuit that key generation uses: the same shape, with no
    /// witness in any field.
    pub fn without_witnesses(&self) -> (r: Circuit)
        ensures
            !r.is_witnessed(),
            r.path is None,
            r.pos is None,
            r.g_d_old is None,
            r.pk_d_old is None,
            r.v_old is None,
            r.rho_old is None,
            r.psi_old is None,
            r.rcm_old is None,
            r.cm_old is None,
            r.alpha is None,
            r.ak is None,
            r.nk is None,
            r.rivk is None,
            r.g_d_new is None,
            r.pk_d_new is None,
            r.v_new is None,
            r.psi_new is None,
            r.rcm_new is None,
            r.rcv is None,
    {
        Circuit {
            path: None,
            pos: None,
            g_d_old: None,
            pk_d_old: None,
            v_old: None,
            rho_old: None,
            psi_old: None,
            rcm_old: None,
            cm_old: None,
            alpha: None,
            ak: None,
            nk: None,
            rivk: None,
            g_d_new: None,
            pk_d_new: None,
            v_new: None,
            psi_new: None,
            rcm_new: None,
            rcv: None,
        }
    }

    /// Whether every private input is present; proving a circuit with a
    /// missing witness is a synthesis error.
    pub fn check_witnessed(&self) -> (r: bool)
        ensures
            r <==> self.is_witnessed(),
    {
        self.path.is_some() && self.pos.is_some() && self.g_d_old.is_some()
            && self.pk_d_old.is_some() && self.v_old.is_some() && self.rho_old.is_some()
            && self.psi_old.is_some() && self.rcm_old.is_some() && self.cm_old.is_some()
            && self.alpha.is_some() && self.ak.is_some() && self.nk.is_some()
            && self.rivk.is_some() && self.g_d_new.is_some() && self.pk_d_new.is_some()
            && self.v_new.is_some() && self.psi_new.is_some() && self.rcm_new.is_some()
            && self.rcv.is_some()
    }

    /// The row that the final selector-driven region copies together: the
    /// witnessed values, the magnitude and sign of their difference, the
    /// in-circuit anchor, and the published anchor and flags. Absent
    /// witnesses are a synthesis error, reported as `None`.
    pub fn q_orchard_row(
        &self,
        anchor: FieldElem,
        pub_input_anchor: FieldElem,
        enable_spend: bool,
        enable_output: bool,
    ) -> (r: Option<GateRow>)
        ensures
            r is Some <==> (self.v_old is Some && self.v_new is Some),
            r matches Some(row) ==> {
                &&& row.v_old == self.v_old.unwrap()
                &&& row.v_new == self.v_new.unwrap()
                &&& balance_semantics(row)
                &&& row.anchor == anchor
                &&& row.pub_input_anchor == pub_input_anchor
                &&& row.enable_spend == enable_spend
                &&& row.enable_output == enable_output
            },
    {
        match (self.v_old, self.v_new) {
            (Some(v_old), Some(v_new)) => {
                let (magnitude, sign) = magnitude_sign(v_old, v_new);
                Some(
                    GateRow {
                        v_old,
                        v_new,
                        magnitude,
                        sign,
                        anchor,
                        pub_input_anchor,
                        enable_spend,
                        enable_output,
                    },
                )
            },
            _ => None,
        }
    }
}

/// The magnitude and sign of `v_old - v_new`: the witnessed pair that
/// constraint 1 binds to the two values.
pub fn magnitude_sign(v_old: u64, v_new: u64) -> (r: (u64, Sign))
    ensures
        r.1 == Sign::Positive ==> v_old == v_new + r.0,
        r.1 == Sign::Negative ==> v_new == v_old + r.0,
        r.1 == Sign::Positive <==> v_old >= v_new,
{
    if v_old >= v_new {
        (v_old - v_new, Sign::Positive)
    } else {
        (v_new - v_old, Sign::Negative)
    }
}

} // verus!
