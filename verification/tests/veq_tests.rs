use ibc::commitment::{commit, random_blinding, Opening};
use ibc::params::{hash_identity, value_to_scalar, PublicParams};
use ibc::veq::VEqProof;

#[test]
fn same_value_verifies() {
    let pp = PublicParams::setup();
    let v = value_to_scalar(500);
    let o0 = Opening { id: hash_identity(b"alice"), val: v, blinding: random_blinding() };
    let o1 = Opening { id: hash_identity(b"alice"), val: v, blinding: random_blinding() };
    let c0 = commit(&pp, &o0);
    let c1 = commit(&pp, &o1);
    let proof = VEqProof::prove(&pp, &c0, &c1, &o0, &o1, b"tx-001");
    assert!(proof.verify(&pp, &c0, &c1, b"tx-001"));
}

#[test]
fn different_values_fail() {
    let pp = PublicParams::setup();
    let id = hash_identity(b"alice");
    let o0 = Opening { id, val: value_to_scalar(500), blinding: random_blinding() };
    let o1 = Opening { id, val: value_to_scalar(501), blinding: random_blinding() };
    let c0 = commit(&pp, &o0);
    let c1 = commit(&pp, &o1);
    let proof = VEqProof::prove(&pp, &c0, &c1, &o0, &o1, b"tx-001");
    assert!(!proof.verify(&pp, &c0, &c1, b"tx-001"));
}

#[test]
fn same_value_across_two_users() {
    let pp = PublicParams::setup();
    let v = value_to_scalar(500);
    let o0 = Opening { id: hash_identity(b"sender"), val: v, blinding: random_blinding() };
    let o1 = Opening { id: hash_identity(b"receiver"), val: v, blinding: random_blinding() };
    let c0 = commit(&pp, &o0);
    let c1 = commit(&pp, &o1);
    let proof = VEqProof::prove(&pp, &c0, &c1, &o0, &o1, b"tx-001");
    assert!(proof.verify(&pp, &c0, &c1, b"tx-001"));
}

#[test]
fn veq_proof_is_bound_to_the_context() {
    let pp = PublicParams::setup();
    let v = value_to_scalar(500);
    let o0 = Opening { id: hash_identity(b"alice"), val: v, blinding: random_blinding() };
    let o1 = Opening { id: hash_identity(b"bob"), val: v, blinding: random_blinding() };
    let c0 = commit(&pp, &o0);
    let c1 = commit(&pp, &o1);
    let proof = VEqProof::prove(&pp, &c0, &c1, &o0, &o1, b"tx-001");
    assert!(!proof.verify(&pp, &c0, &c1, b"tx-002"));
}

#[test]
fn veq_proof_is_bound_to_the_statement() {
    let pp = PublicParams::setup();
    let v = value_to_scalar(500);
    let o0 = Opening { id: hash_identity(b"alice"), val: v, blinding: random_blinding() };
    let o1 = Opening { id: hash_identity(b"bob"), val: v, blinding: random_blinding() };
    let c0 = commit(&pp, &o0);
    let c1 = commit(&pp, &o1);
    let proof = VEqProof::prove(&pp, &c0, &c1, &o0, &o1, b"tx-001");
    let o2 = Opening { id: hash_identity(b"bob"), val: value_to_scalar(999), blinding: random_blinding() };
    let c2 = commit(&pp, &o2);
    assert!(!proof.verify(&pp, &c0, &c2, b"tx-001"));
}

#[test]
fn veq_proof_does_not_transfer_to_a_shifted_pair() {
    let pp = PublicParams::setup();
    let v = value_to_scalar(500);
    let o0 = Opening { id: hash_identity(b"alice"), val: v, blinding: random_blinding() };
    let o1 = Opening { id: hash_identity(b"bob"), val: v, blinding: random_blinding() };
    let c0 = commit(&pp, &o0);
    let c1 = commit(&pp, &o1);
    let proof = VEqProof::prove(&pp, &c0, &c1, &o0, &o1, b"tx-001");
    assert!(proof.verify(&pp, &c0, &c1, b"tx-001"));
    let ox = Opening { id: hash_identity(b"carol"), val: value_to_scalar(7), blinding: random_blinding() };
    let x = commit(&pp, &ox);
    assert!(!proof.verify(&pp, &c0.add(x), &c1.add(x), b"tx-001"));
}

#[test]
fn veq_two_proofs_for_the_same_statement_differ() {
    let pp = PublicParams::setup();
    let v = value_to_scalar(500);
    let o0 = Opening { id: hash_identity(b"alice"), val: v, blinding: random_blinding() };
    let o1 = Opening { id: hash_identity(b"bob"), val: v, blinding: random_blinding() };
    let c0 = commit(&pp, &o0);
    let c1 = commit(&pp, &o1);
    let p1 = VEqProof::prove(&pp, &c0, &c1, &o0, &o1, b"tx-001");
    let p2 = VEqProof::prove(&pp, &c0, &c1, &o0, &o1, b"tx-001");
    assert_ne!(p1.0.t, p2.0.t);
}

#[test]
fn veq_proof_has_two_responses() {
    let pp = PublicParams::setup();
    let v = value_to_scalar(500);
    let o0 = Opening { id: hash_identity(b"alice"), val: v, blinding: random_blinding() };
    let o1 = Opening { id: hash_identity(b"bob"), val: v, blinding: random_blinding() };
    let c0 = commit(&pp, &o0);
    let c1 = commit(&pp, &o1);
    let p = VEqProof::prove(&pp, &c0, &c1, &o0, &o1, b"tx-001");
    assert_eq!(p.0.z.len(), 2);
}
