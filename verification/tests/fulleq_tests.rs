use ibc::commitment::{commit, random_blinding, Commitment, Opening};
use ibc::fulleq::FullEqProof;
use ibc::params::{hash_identity, value_to_scalar, PublicParams};

fn rerandomised_pair() -> (PublicParams, Opening, Opening, Commitment, Commitment) {
    let pp = PublicParams::setup();
    let o0 = Opening { id: hash_identity(b"alice"), val: value_to_scalar(1_500), blinding: random_blinding() };
    let rho = random_blinding();
    let o1 = Opening { blinding: o0.blinding.add(&rho), ..o0 };
    let c0 = commit(&pp, &o0);
    let c1 = commit(&pp, &o1);
    (pp, o0, o1, c0, c1)
}

#[test]
fn rerandomisation_verifies() {
    let (pp, o0, o1, c0, c1) = rerandomised_pair();
    let proof = FullEqProof::prove(&pp, &c0, &c1, &o0, &o1, b"tx-001");
    assert!(proof.verify(&pp, &c0, &c1, b"tx-001"));
}

#[test]
fn different_identity_fails() {
    let pp = PublicParams::setup();
    let o0 = Opening { id: hash_identity(b"alice"), val: value_to_scalar(1_500), blinding: random_blinding() };
    let o1 = Opening { id: hash_identity(b"bob"), val: value_to_scalar(1_500), blinding: random_blinding() };
    let c0 = commit(&pp, &o0);
    let c1 = commit(&pp, &o1);
    let proof = FullEqProof::prove(&pp, &c0, &c1, &o0, &o1, b"tx-001");
    assert!(!proof.verify(&pp, &c0, &c1, b"tx-001"));
}

#[test]
fn different_value_fails() {
    let pp = PublicParams::setup();
    let id = hash_identity(b"alice");
    let o0 = Opening { id, val: value_to_scalar(1_500), blinding: random_blinding() };
    let o1 = Opening { id, val: value_to_scalar(1_501), blinding: random_blinding() };
    let c0 = commit(&pp, &o0);
    let c1 = commit(&pp, &o1);
    let proof = FullEqProof::prove(&pp, &c0, &c1, &o0, &o1, b"tx-001");
    assert!(!proof.verify(&pp, &c0, &c1, b"tx-001"));
}

#[test]
fn fulleq_proof_is_bound_to_the_context() {
    let (pp, o0, o1, c0, c1) = rerandomised_pair();
    let proof = FullEqProof::prove(&pp, &c0, &c1, &o0, &o1, b"tx-001");
    assert!(!proof.verify(&pp, &c0, &c1, b"tx-002"));
}

#[test]
fn fulleq_proof_does_not_transfer_to_a_shifted_pair() {
    let (pp, o0, o1, c0, c1) = rerandomised_pair();
    let proof = FullEqProof::prove(&pp, &c0, &c1, &o0, &o1, b"tx-001");
    assert!(proof.verify(&pp, &c0, &c1, b"tx-001"));
    let ox = Opening { id: hash_identity(b"carol"), val: value_to_scalar(7), blinding: random_blinding() };
    let x = commit(&pp, &ox);
    assert!(!proof.verify(&pp, &c0.add(x), &c1.add(x), b"tx-001"));
}

#[test]
fn proof_size_is_64_bytes() {
    let (pp, o0, o1, c0, c1) = rerandomised_pair();
    let bytes = FullEqProof::prove(&pp, &c0, &c1, &o0, &o1, b"tx-001").to_bytes();
    assert_eq!(bytes.len(), 64);
    let decoded = FullEqProof::from_bytes(&bytes).expect("valid encoding");
    assert!(decoded.verify(&pp, &c0, &c1, b"tx-001"));
}

#[test]
fn fulleq_malformed_bytes_are_rejected() {
    let (pp, o0, o1, c0, c1) = rerandomised_pair();
    let bytes = FullEqProof::prove(&pp, &c0, &c1, &o0, &o1, b"tx-001").to_bytes();
    assert!(FullEqProof::from_bytes(&bytes[..63]).is_none());
    assert!(FullEqProof::from_bytes(&[bytes.as_slice(), &[0u8; 32]].concat()).is_none());
    let mut bad_point = bytes.clone();
    bad_point[..32].copy_from_slice(&[0xffu8; 32]);
    assert!(FullEqProof::from_bytes(&bad_point).is_none());
    let mut bad_scalar = bytes.clone();
    bad_scalar[32..].copy_from_slice(&[0xffu8; 32]);
    assert!(FullEqProof::from_bytes(&bad_scalar).is_none());
}
