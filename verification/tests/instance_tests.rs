use orchard_action::field::FieldElem;
use orchard_action::instance::{
    EncodingError, Instance, ANCHOR, CMX, CV_NET_X, CV_NET_Y, ENABLE_OUTPUT, ENABLE_SPEND, NF_OLD,
    RK_X, RK_Y,
};
use orchard_action::point::CurvePoint;
use orchard_action::proof_bytes::Proof;
use orchard_action::sinsemilla::hash_to_point;

fn sample_point(tag: Vec<bool>) -> CurvePoint {
    let enc = hash_to_point("z.cash:test-point", tag);
    let p = CurvePoint::decompress(&enc).expect("a hashed point has a canonical encoding");
    assert!(!p.is_identity);
    p
}

fn sample_instance() -> Instance {
    Instance::from_parts(
        FieldElem::from_u64(7777),
        sample_point(vec![true, false]),
        FieldElem::from_u64(4141),
        sample_point(vec![false, true, true]),
        FieldElem::from_u64(99),
        true,
        false,
    )
}

#[test]
fn field_elem_byte_round_trip() {
    let e = FieldElem {
        l0: 0x0123456789abcdef,
        l1: 0xfedcba9876543210,
        l2: 0x1111222233334444,
        l3: 0x0400000000000000,
    };
    let bytes = e.to_le_bytes();
    assert_eq!(bytes.len(), 32);
    assert_eq!(bytes[0], 0xef);
    assert_eq!(bytes[7], 0x01);
    assert_eq!(FieldElem::from_le_bytes(&bytes, 0), e);
}

#[test]
fn canonicity_is_strictly_below_the_modulus() {
    // p - 1 is canonical; p itself is not.
    let p_minus_1 = FieldElem {
        l0: 0x992d30ed00000000,
        l1: 0x224698fc094cf91b,
        l2: 0,
        l3: 0x4000000000000000,
    };
    assert!(p_minus_1.check_base_canonical());
    let p = FieldElem { l0: 0x992d30ed00000001, ..p_minus_1 };
    assert!(!p.check_base_canonical());

    // q - 1 is a canonical scalar; q is not.
    let q_minus_1 = FieldElem {
        l0: 0x8c46eb2100000000,
        l1: 0x224698fc0994a8dd,
        l2: 0,
        l3: 0x4000000000000000,
    };
    assert!(q_minus_1.check_scalar_canonical());
    let q = FieldElem { l0: 0x8c46eb2100000001, ..q_minus_1 };
    assert!(!q.check_scalar_canonical());
}

#[test]
fn point_compression_round_trips() {
    let p = sample_point(vec![true, true, false]);
    let enc = p.compress();
    assert_eq!(enc.len(), 32);
    let q = CurvePoint::decompress(&enc).expect("compression is canonical");
    assert_eq!(p, q);

    let identity = CurvePoint::identity();
    assert_eq!(identity.compress(), vec![0u8; 32]);
}

#[test]
fn public_inputs_sit_at_their_offsets() {
    let instance = sample_instance();
    let inputs = instance.to_public_inputs();
    assert_eq!(inputs.len(), 9);
    assert_eq!(inputs[ANCHOR], instance.anchor);
    assert_eq!(inputs[CV_NET_X], instance.cv_net.x);
    assert_eq!(inputs[CV_NET_Y], instance.cv_net.y);
    assert_eq!(inputs[NF_OLD], instance.nf_old);
    assert_eq!(inputs[RK_X], instance.rk.x);
    assert_eq!(inputs[RK_Y], instance.rk.y);
    assert_eq!(inputs[CMX], instance.cmx);
    assert_eq!(inputs[ENABLE_SPEND], FieldElem::from_u64(1));
    assert_eq!(inputs[ENABLE_OUTPUT], FieldElem::from_u64(0));
}

#[test]
fn serialized_instance_round_trips() {
    let instance = sample_instance();
    let mut bytes = instance.to_bytes();
    assert_eq!(bytes.len(), 162);
    assert_eq!(bytes[160], 1);
    assert_eq!(bytes[161], 0);

    // Append a proof and read the whole test case back.
    let proof = Proof::new(vec![0xab; 57]);
    bytes.extend_from_slice(proof.as_bytes());
    let (parsed, parsed_proof) = Instance::parse(&bytes).expect("serialized instance is valid");
    assert_eq!(parsed.anchor, instance.anchor);
    assert_eq!(parsed.cv_net, instance.cv_net);
    assert_eq!(parsed.nf_old, instance.nf_old);
    assert_eq!(parsed.rk, instance.rk);
    assert_eq!(parsed.cmx, instance.cmx);
    assert_eq!(parsed.enable_spend, instance.enable_spend);
    assert_eq!(parsed.enable_output, instance.enable_output);
    assert_eq!(parsed_proof.as_bytes(), proof.as_bytes());
    assert_eq!(parsed_proof.len(), 57);
}

#[test]
fn parse_rejects_short_input() {
    let bytes = vec![0u8; 161];
    assert!(matches!(
        Instance::parse(&bytes),
        Err(EncodingError::TooShort)
    ));
}

#[test]
fn parse_rejects_non_canonical_field_element() {
    let instance = sample_instance();
    let mut bytes = instance.to_bytes();
    // Overwrite the anchor slot with all-ones: far above the field order.
    for i in 0..32 {
        bytes[i] = 0xff;
    }
    assert!(matches!(
        Instance::parse(&bytes),
        Err(EncodingError::MalformedFieldElement)
    ));
}

#[test]
fn parse_rejects_non_canonical_point() {
    let instance = sample_instance();
    let mut bytes = instance.to_bytes();
    // An all-ones value-commitment slot is not a canonical encoding.
    for i in 32..64 {
        bytes[i] = 0xff;
    }
    assert!(matches!(
        Instance::parse(&bytes),
        Err(EncodingError::NonCanonicalPoint)
    ));

    // The identity has no coordinates to bind to RK_X and RK_Y.
    let mut bytes = instance.to_bytes();
    for i in 96..128 {
        bytes[i] = 0;
    }
    assert!(matches!(
        Instance::parse(&bytes),
        Err(EncodingError::NonCanonicalPoint)
    ));
}

#[test]
fn parse_rejects_non_boolean_byte() {
    let instance = sample_instance();
    let mut bytes = instance.to_bytes();
    bytes[160] = 2;
    assert!(matches!(
        Instance::parse(&bytes),
        Err(EncodingError::NonBooleanByte)
    ));
}

#[test]
fn le_bits_expands_the_low_bits() {
    let e = FieldElem::from_u64(0b1011);
    let bits = e.le_bits(4);
    assert_eq!(bits, vec![true, true, false, true]);
    let bits = e.le_bits(6);
    assert_eq!(bits, vec![true, true, false, true, false, false]);
    // Truncation keeps only the requested low bits.
    let bits = e.le_bits(3);
    assert_eq!(bits, vec![true, true, false]);
}
