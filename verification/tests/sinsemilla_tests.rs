use orchard_action::field::FieldElem;
use orchard_action::sinsemilla::{commit, extract_p, hash, hash_to_point, lebs2ip_k, short_commit, Pad};

fn collect_pad(bits: Vec<bool>) -> Vec<bool> {
    let mut p = Pad::new(bits);
    let mut out = Vec::new();
    while let Some(b) = p.next() {
        out.push(b);
    }
    out
}

#[test]
fn pad() {
    let empty: Vec<bool> = vec![];
    assert_eq!(collect_pad(empty.clone()), empty);
    assert_eq!(
        collect_pad(vec![true]),
        vec![true, false, false, false, false, false, false, false, false, false]
    );
    assert_eq!(
        collect_pad(vec![true, true]),
        vec![true, true, false, false, false, false, false, false, false, false]
    );
    assert_eq!(
        collect_pad(vec![true, true, true]),
        vec![true, true, true, false, false, false, false, false, false, false]
    );
    assert_eq!(
        collect_pad(vec![
            true, true, false, true, false, true, false, true, false, true
        ]),
        vec![true, true, false, true, false, true, false, true, false, true]
    );
    assert_eq!(
        collect_pad(vec![
            true, true, false, true, false, true, false, true, false, true, true
        ]),
        vec![
            true, true, false, true, false, true, false, true, false, true, true, false, false,
            false, false, false, false, false, false, false
        ]
    );
}

#[test]
fn pad_function_matches_iterator() {
    let msg = vec![true, false, true, true];
    assert_eq!(orchard_action::sinsemilla::pad(msg.clone()), collect_pad(msg));
}

#[test]
fn lebs2ip_k_is_little_endian() {
    let mut bits = vec![false; 10];
    bits[0] = true;
    assert_eq!(lebs2ip_k(&bits), 1);
    let mut bits = vec![false; 10];
    bits[9] = true;
    assert_eq!(lebs2ip_k(&bits), 512);
    let bits = vec![true; 10];
    assert_eq!(lebs2ip_k(&bits), 1023);
    let mut bits = vec![false; 10];
    bits[1] = true;
    bits[3] = true;
    assert_eq!(lebs2ip_k(&bits), 10);
}

#[test]
fn hash_to_point_is_deterministic() {
    let msg = vec![true, false, true];
    let a = hash_to_point("z.cash:test-Sinsemilla", msg.clone());
    let b = hash_to_point("z.cash:test-Sinsemilla", msg);
    assert_eq!(a, b);
    assert_eq!(a.len(), 32);
}

#[test]
fn hash_distinguishes_messages_and_domains() {
    let h1 = hash("z.cash:test-Sinsemilla", vec![true, false, true]);
    let h2 = hash("z.cash:test-Sinsemilla", vec![true, false, false]);
    let h3 = hash("z.cash:another", vec![true, false, true]);
    assert_ne!(h1, h2);
    assert_ne!(h1, h3);
}

#[test]
fn padding_does_not_collide_across_chunk_boundary() {
    // Ten message bits followed by an eleventh zero bit pad to different
    // chunk counts, so the hashes must differ.
    let ten = vec![true, true, false, true, false, true, false, true, false, true];
    let mut eleven = ten.clone();
    eleven.push(false);
    let h_ten = hash("z.cash:test-Sinsemilla", ten);
    let h_eleven = hash("z.cash:test-Sinsemilla", eleven);
    assert_ne!(h_ten, h_eleven);
}

#[test]
fn commit_blinds_the_hash() {
    let msg = vec![true, false, true, true, false];
    let r0 = FieldElem::from_u64(0);
    let r1 = FieldElem::from_u64(1);
    let c0 = commit("z.cash:test", msg.clone(), &r0);
    let c1 = commit("z.cash:test", msg.clone(), &r1);
    assert_ne!(c0, c1);
    // A zero trapdoor adds the zero multiple of the blinding generator, so
    // the commitment coincides with the plain hash under the -M domain.
    let h = hash_to_point("z.cash:test-M", msg);
    assert_eq!(c0, h);
}

#[test]
fn extract_p_takes_low_bits() {
    let p = hash_to_point("z.cash:test-Sinsemilla", vec![true]);
    let x = extract_p(&p);
    let bytes = x.to_le_bytes();
    // The x-coordinate is the encoding with the sign bit cleared.
    for i in 0..31 {
        assert_eq!(bytes[i], p[i]);
    }
    assert_eq!(bytes[31], p[31] & 0x7f);
}

#[test]
fn short_commit_extracts_the_commitment() {
    let msg = vec![false, true, true, false, true];
    let r = FieldElem::from_u64(42);
    let c = commit("z.cash:test", msg.clone(), &r);
    let sc = short_commit("z.cash:test", msg, &r);
    assert_eq!(sc, extract_p(&c));
}

#[test]
fn hash_is_the_extraction_of_hash_to_point() {
    let msg = vec![true, true, true];
    let p = hash_to_point("z.cash:test-Sinsemilla", msg.clone());
    let h = hash("z.cash:test-Sinsemilla", msg);
    assert_eq!(h, extract_p(&p));
}
