use ibc::commitment::{commit, random_blinding, verify, Commitment, Opening};
use ibc::params::{hash_identity, value_to_scalar, PublicParams};

fn sample() -> (PublicParams, Opening) {
    let pp = PublicParams::setup();
    let o = Opening { id: hash_identity(b"user_42"), val: value_to_scalar(1_500), blinding: random_blinding() };
    (pp, o)
}

#[test]
fn commit_then_verify() {
    let (pp, o) = sample();
    let c = commit(&pp, &o);
    assert!(verify(&pp, &c, &o));
}

#[test]
fn wrong_blinding_fails() {
    let (pp, o) = sample();
    let c = commit(&pp, &o);
    let bad = Opening { blinding: random_blinding(), ..o };
    assert!(!verify(&pp, &c, &bad));
}

#[test]
fn commitment_wrong_value_fails() {
    let (pp, o) = sample();
    let c = commit(&pp, &o);
    let bad = Opening { val: value_to_scalar(9_999), ..o };
    assert!(!verify(&pp, &c, &bad));
}

#[test]
fn commitment_wrong_identity_fails() {
    let (pp, o) = sample();
    let c = commit(&pp, &o);
    let bad = Opening { id: hash_identity(b"user_43"), ..o };
    assert!(!verify(&pp, &c, &bad));
}

#[test]
fn hiding_same_opening_different_blinding_differs() {
    let (pp, o) = sample();
    let a = commit(&pp, &o);
    let b = commit(&pp, &Opening { blinding: random_blinding(), ..o });
    assert_ne!(a, b);
}

#[test]
fn bytes_roundtrip() {
    let (pp, o) = sample();
    let c = commit(&pp, &o);
    assert_eq!(Commitment::from_bytes(&c.to_bytes()), Some(c));
}

#[test]
fn homomorphism_holds() {
    let pp = PublicParams::setup();
    let o1 = Opening { id: hash_identity(b"a"), val: value_to_scalar(10), blinding: random_blinding() };
    let o2 = Opening { id: hash_identity(b"b"), val: value_to_scalar(20), blinding: random_blinding() };
    let sum = Opening {
        id: o1.id.add(&o2.id),
        val: o1.val.add(&o2.val),
        blinding: o1.blinding.add(&o2.blinding),
    };
    assert_eq!(commit(&pp, &o1).add(commit(&pp, &o2)), commit(&pp, &sum));
}

#[test]
fn difference_of_commitments_to_the_same_identity_has_no_identity_term() {
    let pp = PublicParams::setup();
    let id = hash_identity(b"alice");
    let o1 = Opening { id, val: value_to_scalar(300), blinding: random_blinding() };
    let o2 = Opening { id, val: value_to_scalar(100), blinding: random_blinding() };
    let diff = Opening {
        id: value_to_scalar(0),
        val: value_to_scalar(200),
        blinding: o1.blinding.sub(&o2.blinding),
    };
    assert_eq!(commit(&pp, &o1).sub(commit(&pp, &o2)), commit(&pp, &diff));
}

#[test]
fn malformed_commitment_bytes_are_rejected() {
    assert_eq!(Commitment::from_bytes(&[0xffu8; 32]), None);
}

#[test]
fn commitment_to_zero_opening_is_the_identity() {
    let pp = PublicParams::setup();
    let zero = value_to_scalar(0);
    let c = commit(&pp, &Opening { id: zero, val: zero, blinding: zero });
    assert_eq!(c.to_bytes(), [0u8; 32]);
}
