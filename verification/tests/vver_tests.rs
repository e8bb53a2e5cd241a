use ibc::commitment::{random_blinding, Commitment, Opening};
use ibc::params::{hash_identity, value_to_scalar, PublicParams};
use ibc::scalar::Scalar;
use ibc::vver::{challenge, check, commit, respond, VVerProof};

fn commit_to(pp: &PublicParams, o: &Opening) -> Commitment {
    ibc::commitment::commit(pp, o)
}

fn honest(pp: &PublicParams, o: &Opening) -> (VVerProof, Scalar) {
    let (masks, t) = commit(pp);
    let beta = random_blinding();
    let (z_iden, z_ran) = respond(masks, beta, o);
    (VVerProof { t, z_iden, z_ran }, beta)
}

#[test]
fn correct_value_verifies() {
    let pp = PublicParams::setup();
    let v = value_to_scalar(1_500);
    let o = Opening { id: hash_identity(b"alice"), val: v, blinding: random_blinding() };
    let c = commit_to(&pp, &o);
    let (proof, beta) = honest(&pp, &o);
    assert!(check(&pp, &c, v, &proof, beta));
}

#[test]
fn wrong_public_value_fails() {
    let pp = PublicParams::setup();
    let v = value_to_scalar(1_500);
    let o = Opening { id: hash_identity(b"alice"), val: v, blinding: random_blinding() };
    let c = commit_to(&pp, &o);
    let (proof, beta) = honest(&pp, &o);
    assert!(!check(&pp, &c, value_to_scalar(1_501), &proof, beta));
}

#[test]
fn wrong_identity_witness_fails() {
    let pp = PublicParams::setup();
    let v = value_to_scalar(1_500);
    let o = Opening { id: hash_identity(b"alice"), val: v, blinding: random_blinding() };
    let c = commit_to(&pp, &o);
    let o_bad = Opening { id: hash_identity(b"mallory"), ..o };
    let (proof, beta) = honest(&pp, &o_bad);
    assert!(!check(&pp, &c, v, &proof, beta));
}

#[test]
fn wrong_blinding_witness_fails() {
    let pp = PublicParams::setup();
    let v = value_to_scalar(1_500);
    let o = Opening { id: hash_identity(b"alice"), val: v, blinding: random_blinding() };
    let c = commit_to(&pp, &o);
    let o_bad = Opening { blinding: random_blinding(), ..o };
    let (proof, beta) = honest(&pp, &o_bad);
    assert!(!check(&pp, &c, v, &proof, beta));
}

#[test]
fn zero_value_verifies() {
    let pp = PublicParams::setup();
    let v = value_to_scalar(0);
    let o = Opening { id: hash_identity(b"alice"), val: v, blinding: random_blinding() };
    let c = commit_to(&pp, &o);
    let (proof, beta) = honest(&pp, &o);
    assert!(check(&pp, &c, v, &proof, beta));
}

#[test]
fn proof_against_different_commitment_fails() {
    let pp = PublicParams::setup();
    let v = value_to_scalar(1_500);
    let o = Opening { id: hash_identity(b"alice"), val: v, blinding: random_blinding() };
    let (proof, beta) = honest(&pp, &o);
    let other = Opening { id: hash_identity(b"bob"), val: v, blinding: random_blinding() };
    let c_other = commit_to(&pp, &other);
    assert!(!check(&pp, &c_other, v, &proof, beta));
}

#[test]
fn vver_extractor_recovers_the_witness() {
    let pp = PublicParams::setup();
    let v = value_to_scalar(1_500);
    let o = Opening { id: hash_identity(b"alice"), val: v, blinding: random_blinding() };
    let (masks, _t) = commit(&pp);
    let beta1 = random_blinding();
    let beta2 = random_blinding();
    let (zi1, zr1) = respond(masks, beta1, &o);
    let (zi2, zr2) = respond(masks, beta2, &o);
    let inv = beta1.sub(&beta2).invert();
    assert_eq!(zi1.sub(&zi2).mul(&inv), o.id);
    assert_eq!(zr1.sub(&zr2).mul(&inv), o.blinding);
}

#[test]
fn vver_ni_proof_verifies() {
    let pp = PublicParams::setup();
    let v = value_to_scalar(1_500);
    let o = Opening { id: hash_identity(b"alice"), val: v, blinding: random_blinding() };
    let c = commit_to(&pp, &o);
    let proof = VVerProof::prove(&pp, &c, v, &o, b"tx-001");
    assert!(proof.verify(&pp, &c, v, b"tx-001"));
}

#[test]
fn vver_proof_is_bound_to_the_claimed_value() {
    let pp = PublicParams::setup();
    let v = value_to_scalar(1_500);
    let o = Opening { id: hash_identity(b"alice"), val: v, blinding: random_blinding() };
    let c = commit_to(&pp, &o);
    let proof = VVerProof::prove(&pp, &c, v, &o, b"tx-001");
    assert!(!proof.verify(&pp, &c, value_to_scalar(1_501), b"tx-001"));
}

#[test]
fn vver_proof_is_bound_to_the_context() {
    let pp = PublicParams::setup();
    let v = value_to_scalar(1_500);
    let o = Opening { id: hash_identity(b"alice"), val: v, blinding: random_blinding() };
    let c = commit_to(&pp, &o);
    let proof = VVerProof::prove(&pp, &c, v, &o, b"tx-001");
    assert!(!proof.verify(&pp, &c, v, b"tx-002"));
}

#[test]
fn vver_proof_is_bound_to_the_statement() {
    let pp = PublicParams::setup();
    let v = value_to_scalar(1_500);
    let o = Opening { id: hash_identity(b"alice"), val: v, blinding: random_blinding() };
    let c = commit_to(&pp, &o);
    let proof = VVerProof::prove(&pp, &c, v, &o, b"tx-001");
    let other = Opening { id: hash_identity(b"bob"), val: v, blinding: random_blinding() };
    let c_other = commit_to(&pp, &other);
    assert!(!proof.verify(&pp, &c_other, v, b"tx-001"));
}

#[test]
fn vver_fiat_shamir_equals_the_interactive_protocol() {
    let pp = PublicParams::setup();
    let v = value_to_scalar(1_500);
    let o = Opening { id: hash_identity(b"alice"), val: v, blinding: random_blinding() };
    let c = commit_to(&pp, &o);
    let proof = VVerProof::prove(&pp, &c, v, &o, b"tx-001");
    let beta = challenge(&pp, &c, &v, b"tx-001", &proof.t);
    assert!(check(&pp, &c, v, &proof, beta));
}

#[test]
fn vver_two_proofs_for_the_same_statement_differ() {
    let pp = PublicParams::setup();
    let v = value_to_scalar(1_500);
    let o = Opening { id: hash_identity(b"alice"), val: v, blinding: random_blinding() };
    let c = commit_to(&pp, &o);
    let p1 = VVerProof::prove(&pp, &c, v, &o, b"tx-001");
    let p2 = VVerProof::prove(&pp, &c, v, &o, b"tx-001");
    assert_ne!(p1.t, p2.t);
}

#[test]
fn vver_responses_are_the_masked_identity_and_blinding() {
    let o = Opening { id: Scalar::from_u64(6), val: Scalar::from_u64(1_500), blinding: Scalar::from_u64(9) };
    let (zi, zr) = respond((Scalar::from_u64(1), Scalar::from_u64(2)), Scalar::from_u64(10), &o);
    assert_eq!(zi, Scalar::from_u64(61));
    assert_eq!(zr, Scalar::from_u64(92));
}
