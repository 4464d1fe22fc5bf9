use orchard_action::circuit::{magnitude_sign, Circuit, MERKLE_DEPTH};
use orchard_action::field::FieldElem;
use orchard_action::gate::{action_gate, GateRow, Sign};

fn honest_row(v_old: u64, v_new: u64, anchor: u64) -> GateRow {
    let (magnitude, sign) = magnitude_sign(v_old, v_new);
    GateRow {
        v_old,
        v_new,
        magnitude,
        sign,
        anchor: FieldElem::from_u64(anchor),
        pub_input_anchor: FieldElem::from_u64(anchor),
        enable_spend: true,
        enable_output: true,
    }
}

#[test]
fn gate_accepts_honest_rows() {
    assert!(action_gate(&honest_row(100, 30, 7)));
    assert!(action_gate(&honest_row(30, 100, 7)));
    assert!(action_gate(&honest_row(0, 0, 7)));
}

#[test]
fn gate_rejects_wrong_value_balance() {
    // v_old - v_new = 70, but the witnessed magnitude claims 71.
    let mut row = honest_row(100, 30, 7);
    row.magnitude = 71;
    assert!(!action_gate(&row));

    // Right magnitude, wrong sign.
    let mut row = honest_row(100, 30, 7);
    row.sign = Sign::Negative;
    assert!(!action_gate(&row));

    // Magnitude 0 forces the values to be equal.
    let mut row = honest_row(5, 5, 7);
    row.v_new = 6;
    assert!(!action_gate(&row));
}

#[test]
fn dummy_spend_bypasses_the_anchor() {
    // With v_old = 0, any published anchor passes, whatever the computed
    // Merkle root says.
    let mut row = honest_row(0, 0, 7);
    row.pub_input_anchor = FieldElem::from_u64(12345);
    assert!(action_gate(&row));

    // With v_old > 0, the anchors must agree.
    let mut row = honest_row(100, 100, 7);
    row.pub_input_anchor = FieldElem::from_u64(12345);
    assert!(!action_gate(&row));
}

#[test]
fn authority_flags_gate_nonzero_values() {
    // Nonzero spend with spends disabled fails.
    let mut row = honest_row(100, 30, 7);
    row.enable_spend = false;
    assert!(!action_gate(&row));

    // Nonzero output with outputs disabled fails.
    let mut row = honest_row(100, 30, 7);
    row.enable_output = false;
    assert!(!action_gate(&row));

    // Zero-valued sides are allowed with their flag off.
    let mut row = honest_row(0, 0, 7);
    row.enable_spend = false;
    row.enable_output = false;
    assert!(action_gate(&row));
}

#[test]
fn magnitude_sign_splits_the_difference() {
    assert_eq!(magnitude_sign(10, 3), (7, Sign::Positive));
    assert_eq!(magnitude_sign(3, 10), (7, Sign::Negative));
    assert_eq!(magnitude_sign(4, 4), (0, Sign::Positive));
}

#[test]
fn witnessless_circuit_is_empty() {
    let circuit = Circuit {
        path: Some(vec![FieldElem::from_u64(0); MERKLE_DEPTH]),
        pos: Some(0),
        g_d_old: None,
        pk_d_old: None,
        v_old: Some(100),
        rho_old: None,
        psi_old: None,
        rcm_old: None,
        cm_old: None,
        alpha: None,
        ak: None,
        nk: None,
        rivk: None,
        g_d_new: None,
        pk_d_new: None,
        v_new: Some(30),
        psi_new: None,
        rcm_new: None,
        rcv: None,
    };
    assert!(!circuit.check_witnessed());
    let empty = circuit.without_witnesses();
    assert!(empty.v_old.is_none());
    assert!(empty.path.is_none());
    assert!(!empty.check_witnessed());
}

#[test]
fn q_orchard_row_carries_the_witness() {
    let circuit = Circuit {
        path: None,
        pos: None,
        g_d_old: None,
        pk_d_old: None,
        v_old: Some(100),
        rho_old: None,
        psi_old: None,
        rcm_old: None,
        cm_old: None,
        alpha: None,
        ak: None,
        nk: None,
        rivk: None,
        g_d_new: None,
        pk_d_new: None,
        v_new: Some(30),
        psi_new: None,
        rcm_new: None,
        rcv: None,
    };
    let anchor = FieldElem::from_u64(7);
    let row = circuit
        .q_orchard_row(anchor, anchor, true, true)
        .expect("both values are witnessed");
    assert_eq!(row.magnitude, 70);
    assert_eq!(row.sign, Sign::Positive);
    assert!(action_gate(&row));

    let empty = circuit.without_witnesses();
    assert!(empty.q_orchard_row(anchor, anchor, true, true).is_none());
}
