//! The action gate: the four constraints that one selector activates on a
//! single row of the circuit.
//!
//! The row binds the spent value `v_old`, the new value `v_new`, the
//! magnitude and sign of their difference, the in-circuit Merkle root
//! `anchor`, the published anchor, and the two authority flags. The selector
//! activates these constraint polynomials over the Pallas base field:
//!
//! 1. `v_old - v_new - magnitude * sign = 0`
//! 2. `v_old * (anchor - pub_input_anchor) = 0`
//! 3. `v_old * (1 - enable_spend) = 0`
//! 4. `v_new * (1 - enable_output) = 0`

use vstd::prelude::*;
use vstd::arithmetic::div_mod::{
    lemma_mod_add_multiples_vanish,
    lemma_mod_multiples_vanish,
    lemma_small_mod,
};
use crate::field::{p_modulus, FieldElem};

verus! {

/// Sign of the net value `v_old - v_new`.
#[derive(Clone, Copy, PartialEq, Eq, Structural, Debug)]
pub enum Sign {
    /// The spent note is worth at least the new one.
    Positive,
    /// The new note is worth more than the spent one.
    Negative,
}

/// The field element a sign is witnessed as: `+1`, or `-1 = p - 1`.
pub open spec fn sign_value(s: Sign) -> nat {
    match s {
        Sign::Positive => 1,
        Sign::Negative => (p_modulus() - 1) as nat,
    }
}

/// The field element a boolean flag is witnessed as.
pub open spec fn flag_value(b: bool) -> nat {
    if b {
        1
    } else {
        0
    }
}

/// The row of values the four constraints read: note values and the
/// magnitude are 64-bit words carried into the field, the sign is `+1` or
/// `-1`, anchors
/// are field elements, and the flags are boolean public inputs.
pub struct GateRow {
    /// Value of the spent note.
    pub v_old: u64,
    /// Value of the new note.
    pub v_new: u64,
    /// Magnitude of `v_old - v_new`.
    pub magnitude: u64,
    /// Sign of `v_old - v_new`.
    pub sign: Sign,
    /// The Merkle root computed in the circuit.
    pub anchor: FieldElem,
    /// The anchor published as a public input.
    pub pub_input_anchor: FieldElem,
    /// Whether spends of nonzero value are enabled.
    pub enable_spend: bool,
    /// Whether outputs of nonzero value are enabled.
    pub enable_output: bool,
}

impl GateRow {
    /// The anchors hold canonical field elements.
    pub open spec fn wf(self) -> bool {
        self.anchor.is_base_canonical() && self.pub_input_anchor.is_base_canonical()
    }
}

/// Constraint 1 as a field identity: `v_old - v_new = magnitude * sign`
/// modulo `p`.
pub open spec fn balance_poly_holds(row: GateRow) -> bool {
    (row.v_old - row.v_new - row.magnitude * sign_value(row.sign)) % (p_modulus() as int) == 0
}

/// Constraint 2 as a field identity: `v_old * (anchor - pub_input_anchor)`
/// vanishes modulo `p`.
pub open spec fn anchor_poly_holds(row: GateRow) -> bool {
    (row.v_old * (row.anchor.value() - row.pub_input_anchor.value())) % (p_modulus() as int) == 0
}

/// Constraint 3 as a field identity: `v_old * (1 - enable_spend)` vanishes
/// modulo `p`.
pub open spec fn spend_poly_holds(row: GateRow) -> bool {
    (row.v_old * (1 - flag_value(row.enable_spend))) % (p_modulus() as int) == 0
}

/// Constraint 4 as a field identity: `v_new * (1 - enable_output)` vanishes
/// modulo `p`.
pub open spec fn output_poly_holds(row: GateRow) -> bool {
    (row.v_new * (1 - flag_value(row.enable_output))) % (p_modulus() as int) == 0
}

/// The whole gate: all four constraint polynomials vanish on the row.
pub open spec fn action_gate_holds(row: GateRow) -> bool {
    &&& balance_poly_holds(row)
    &&& anchor_poly_holds(row)
    &&& spend_poly_holds(row)
    &&& output_poly_holds(row)
}

/// What constraint 1 says of the integers on the row: the signed magnitude
/// accounts exactly for the difference of the note values.
pub open spec fn balance_semantics(row: GateRow) -> bool {
    match row.sign {
        Sign::Positive => row.v_old == row.v_new + row.magnitude,
        Sign::Negative => row.v_new == row.v_old + row.magnitude,
    }
}

/// The row a prover following the protocol fills in, together with the
/// published anchor and flags: both anchors equal, flags as published.
pub open spec fn honest_row_semantics(row: GateRow) -> bool {
    &&& balance_semantics(row)
    &&& (row.v_old == 0 || row.anchor.value() == row.pub_input_anchor.value())
    &&& (row.v_old == 0 || row.enable_spend)
    &&& (row.v_new == 0 || row.enable_output)
}

/// An integer strictly between `-p` and `p` vanishes modulo `p` exactly
/// when it is zero.
proof fn lemma_small_cong(e: int)
    requires
        -(p_modulus() as int) < e < p_modulus() as int,
    ensures
        e % (p_modulus() as int) == 0 <==> e == 0,
{
    let p = p_modulus() as int;
    if e >= 0 {
        lemma_small_mod(e as nat, p_modulus());
    } else {
        lemma_mod_add_multiples_vanish(e, p);
        lemma_small_mod((e + p) as nat, p_modulus());
    }
}

/// Constraint 1 is exactly the integer balance: the field identity
/// `v_old - v_new = magnitude * sign` holds if and only if the 64-bit
/// values satisfy `v_old - v_new = +-magnitude`. In particular, any row
/// whose magnitude and sign do not account for the value difference
/// violates constraint 1.
pub proof fn lemma_balance_characterization(row: GateRow)
    ensures
        balance_poly_holds(row) <==> balance_semantics(row),
{
    let p = p_modulus() as int;
    let m = row.magnitude as int;
    match row.sign {
        Sign::Positive => {
            lemma_small_cong(row.v_old - row.v_new - m);
        },
        Sign::Negative => {
            let x = row.v_old - row.v_new + m;
            let s = sign_value(row.sign) as int;
            assert(s == p - 1);
            assert(m * s == m * p - m) by (nonlinear_arith)
                requires
                    s == p - 1,
            ;
            assert(p * (-m) == -(m * p)) by (nonlinear_arith);
            assert(row.v_old - row.v_new - m * s == p * (-m) + x);
            lemma_mod_multiples_vanish(-m, x, p);
            lemma_small_cong(x);
        },
    }
}

/// A dummy spend bypasses the anchor check: with `v_old = 0`, constraint 2
/// vanishes whatever the published anchor, so the computed Merkle root is
/// not bound to it.
pub proof fn lemma_dummy_spend_anchor_bypass(row: GateRow)
    requires
        row.v_old == 0,
    ensures
        anchor_poly_holds(row),
{
    let d = row.anchor.value() - row.pub_input_anchor.value();
    assert(0int * d == 0) by (nonlinear_arith);
    lemma_small_mod(0, p_modulus());
}

/// Constraint 3 read over the integers: with spends disabled, it rejects
/// any nonzero spent value.
pub proof fn lemma_spend_flag_characterization(row: GateRow)
    ensures
        spend_poly_holds(row) <==> (row.v_old == 0 || row.enable_spend),
{
    if row.enable_spend {
        assert(flag_value(row.enable_spend) == 1);
        assert(row.v_old * (1 - flag_value(row.enable_spend)) == 0);
        lemma_small_mod(0, p_modulus());
    } else {
        assert(flag_value(row.enable_spend) == 0);
        assert(row.v_old * (1 - flag_value(row.enable_spend)) == row.v_old);
        lemma_small_cong(row.v_old as int);
    }
}

/// Constraint 4 read over the integers: with outputs disabled, it rejects
/// any nonzero new value.
pub proof fn lemma_output_flag_characterization(row: GateRow)
    ensures
        output_poly_holds(row) <==> (row.v_new == 0 || row.enable_output),
{
    if row.enable_output {
        assert(flag_value(row.enable_output) == 1);
        assert(row.v_new * (1 - flag_value(row.enable_output)) == 0);
        lemma_small_mod(0, p_modulus());
    } else {
        assert(flag_value(row.enable_output) == 0);
        assert(row.v_new * (1 - flag_value(row.enable_output)) == row.v_new);
        lemma_small_cong(row.v_new as int);
    }
}

/// An honest row satisfies the whole gate. (The converse for constraint 2
/// rests on `p` being prime, which the constraint system supplies: over a
/// prime field a vanishing product has a vanishing factor.)
pub proof fn lemma_honest_row_satisfies_gate(row: GateRow)
    requires
        honest_row_semantics(row),
    ensures
        action_gate_holds(row),
{
    lemma_balance_characterization(row);
    lemma_spend_flag_characterization(row);
    lemma_output_flag_characterization(row);
    if row.v_old == 0 {
        lemma_dummy_spend_anchor_bypass(row);
    } else {
        assert(row.v_old * (row.anchor.value() - row.pub_input_anchor.value()) == 0)
            by (nonlinear_arith)
            requires
                row.anchor.value() == row.pub_input_anchor.value(),
        ;
        lemma_small_mod(0, p_modulus());
    }
}

/// Evaluates all four constraints on a row, in the semantic reading an
/// honest prover establishes; a passing row satisfies the polynomials too.
pub fn action_gate(row: &GateRow) -> (r: bool)
    ensures
        r <==> honest_row_semantics(*row),
        r ==> action_gate_holds(*row),
{
    proof {
        lemma_honest_row_satisfies_gate_auto();
        crate::field::lemma_value_injective(row.anchor, row.pub_input_anchor);
    }
    let balance = match row.sign {
        Sign::Positive => row.v_old >= row.v_new && row.v_old - row.v_new == row.magnitude,
        Sign::Negative => row.v_new >= row.v_old && row.v_new - row.v_old == row.magnitude,
    };
    let anchor_ok = row.v_old == 0 || row.anchor == row.pub_input_anchor;
    let spend_ok = row.v_old == 0 || row.enable_spend;
    let output_ok = row.v_new == 0 || row.enable_output;
    balance && anchor_ok && spend_ok && output_ok
}

/// Helper for [`action_gate`]: the implication for every row.
proof fn lemma_honest_row_satisfies_gate_auto()
    ensures
        forall|row: GateRow| honest_row_semantics(row) ==> #[trigger] action_gate_holds(row),
{
    assert forall|row: GateRow| honest_row_semantics(row) implies #[trigger] action_gate_holds(
        row,
    ) by {
        lemma_honest_row_satisfies_gate(row);
    }
}

} // verus!
