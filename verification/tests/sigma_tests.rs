use ibc::commitment::{commit, random_blinding, Commitment, Opening};
use ibc::ideq::IdEqProof;
use ibc::params::{hash_identity, value_to_scalar, PublicParams};
use ibc::point::Point;
use ibc::scalar::Scalar;
use ibc::sigma::{linear_combination, prove, verify, verify_terms, SigmaProof};
use ibc::transcript::Challenge;
use ibc::vver::VVerProof;

fn two_base_stmt(pp: &PublicParams, w0: Scalar, w1: Scalar) -> Point {
    pp.g_iden.mul(&w0).add(&pp.g_ran.mul(&w1))
}

#[test]
fn honest_two_base_verifies() {
    let pp = PublicParams::setup();
    let bases = [pp.g_iden, pp.g_ran];
    let w = [value_to_scalar(7), value_to_scalar(9)];
    let u = two_base_stmt(&pp, w[0], w[1]);
    let proof = prove(&pp, b"test/2base", &bases, &w, |ch: Challenge| ch.point(b"u", &u));
    assert!(verify(&pp, b"test/2base", &bases, &u, &proof, |ch: Challenge| ch.point(b"u", &u)));
}

#[test]
fn honest_one_base_verifies() {
    let pp = PublicParams::setup();
    let bases = [pp.g_ran];
    let w = [random_blinding()];
    let u = pp.g_ran.mul(&w[0]);
    let proof = prove(&pp, b"test/1base", &bases, &w, |ch: Challenge| ch.point(b"u", &u));
    assert!(verify(&pp, b"test/1base", &bases, &u, &proof, |ch: Challenge| ch.point(b"u", &u)));
}

#[test]
fn sigma_wrong_witness_fails() {
    let pp = PublicParams::setup();
    let bases = [pp.g_iden, pp.g_ran];
    let w = [value_to_scalar(7), value_to_scalar(9)];
    let u = two_base_stmt(&pp, w[0], w[1]);
    let bad = [value_to_scalar(7), value_to_scalar(10)];
    let proof = prove(&pp, b"test/2base", &bases, &bad, |ch: Challenge| ch.point(b"u", &u));
    assert!(!verify(&pp, b"test/2base", &bases, &u, &proof, |ch: Challenge| ch.point(b"u", &u)));
}

#[test]
fn wrong_statement_binding_fails() {
    let pp = PublicParams::setup();
    let bases = [pp.g_iden, pp.g_ran];
    let w = [value_to_scalar(7), value_to_scalar(9)];
    let u = two_base_stmt(&pp, w[0], w[1]);
    let proof = prove(&pp, b"test/2base", &bases, &w, |ch: Challenge| ch.bytes(b"ctx", b"A"));
    assert!(!verify(&pp, b"test/2base", &bases, &u, &proof, |ch: Challenge| ch.bytes(b"ctx", b"B")));
}

#[test]
fn length_mismatch_is_rejected() {
    let pp = PublicParams::setup();
    let bases = [pp.g_iden, pp.g_ran];
    let w = [value_to_scalar(7), value_to_scalar(9)];
    let u = two_base_stmt(&pp, w[0], w[1]);
    let mut proof = prove(&pp, b"test/2base", &bases, &w, |ch: Challenge| ch.point(b"u", &u));
    proof.z.pop();
    assert!(!verify(&pp, b"test/2base", &bases, &u, &proof, |ch: Challenge| ch.point(b"u", &u)));
}

#[test]
fn sigma_simulator_produces_an_accepting_transcript() {
    let pp = PublicParams::setup();
    let bases = [pp.g_iden, pp.g_ran];
    let u = two_base_stmt(&pp, value_to_scalar(7), value_to_scalar(9));
    let z = [random_blinding(), random_blinding()];
    let beta = random_blinding();
    let t = linear_combination(&z, &bases).sub(&u.mul(&beta));
    assert_eq!(linear_combination(&z, &bases), t.add(&u.mul(&beta)));
}

#[test]
fn sigma_extractor_recovers_the_witness() {
    let pp = PublicParams::setup();
    let bases = [pp.g_iden, pp.g_ran];
    let w = [value_to_scalar(7), value_to_scalar(9)];
    let alphas = [random_blinding(), random_blinding()];
    let t = linear_combination(&alphas, &bases);
    let beta1 = random_blinding();
    let beta2 = random_blinding();
    let z1: Vec<Scalar> = w.iter().zip(&alphas).map(|(x, a)| beta1.mul(x).add(a)).collect();
    let z2: Vec<Scalar> = w.iter().zip(&alphas).map(|(x, a)| beta2.mul(x).add(a)).collect();
    let inv = beta1.sub(&beta2).invert();
    for i in 0..2 {
        let extracted = z1[i].sub(&z2[i]).mul(&inv);
        assert_eq!(extracted, w[i]);
    }
    let _ = t;
}

fn same_id_pair() -> (PublicParams, Opening, Opening, Commitment, Commitment) {
    let pp = PublicParams::setup();
    let id = hash_identity(b"alice");
    let o0 = Opening { id, val: value_to_scalar(100), blinding: random_blinding() };
    let o1 = Opening { id, val: value_to_scalar(250), blinding: random_blinding() };
    let c0 = commit(&pp, &o0);
    let c1 = commit(&pp, &o1);
    (pp, o0, o1, c0, c1)
}

#[test]
fn engine_proof_is_accepted_by_the_real_ideq_verifier() {
    let (pp, o0, o1, c0, c1) = same_id_pair();
    let ctx: &[u8] = b"tx-001";
    let sp = prove(
        &pp,
        b"IBC/v1/IDEq",
        &[pp.g_val, pp.g_ran],
        &[o0.val.sub(&o1.val), o0.blinding.sub(&o1.blinding)],
        |ch: Challenge| ch.point(b"c0", &c0.0).point(b"c1", &c1.0).bytes(b"ctx", ctx),
    );
    let idproof = IdEqProof { t: sp.t, z_val: sp.z[0], z_ran: sp.z[1] };
    assert!(idproof.verify(&pp, &c0, &c1, ctx));
}

#[test]
fn real_ideq_proof_is_accepted_by_the_engine() {
    let (pp, o0, o1, c0, c1) = same_id_pair();
    let ctx: &[u8] = b"tx-001";
    let real = IdEqProof::prove(&pp, &c0, &c1, &o0, &o1, ctx);
    let sp = SigmaProof { t: real.t, z: vec![real.z_val, real.z_ran] };
    assert!(verify(
        &pp,
        b"IBC/v1/IDEq",
        &[pp.g_val, pp.g_ran],
        &c0.0.sub(&c1.0),
        &sp,
        |ch: Challenge| ch.point(b"c0", &c0.0).point(b"c1", &c1.0).bytes(b"ctx", ctx),
    ));
}

#[test]
fn engine_proof_is_accepted_by_the_real_vver_verifier() {
    let pp = PublicParams::setup();
    let v = value_to_scalar(1_500);
    let o = Opening { id: hash_identity(b"alice"), val: v, blinding: random_blinding() };
    let c = commit(&pp, &o);
    let ctx: &[u8] = b"tx-001";
    let u = c.0.sub(&pp.g_val.mul(&v));
    let sp = prove(
        &pp,
        b"IBC/v1/VVer",
        &[pp.g_iden, pp.g_ran],
        &[o.id, o.blinding],
        |ch: Challenge| ch.point(b"c", &c.0).scalar(b"v", &v).bytes(b"ctx", ctx),
    );
    let _ = u;
    let vproof = VVerProof { t: sp.t, z_iden: sp.z[0], z_ran: sp.z[1] };
    assert!(vproof.verify(&pp, &c, v, ctx));
}

#[test]
fn real_vver_proof_is_accepted_by_the_engine() {
    let pp = PublicParams::setup();
    let v = value_to_scalar(1_500);
    let o = Opening { id: hash_identity(b"alice"), val: v, blinding: random_blinding() };
    let c = commit(&pp, &o);
    let ctx: &[u8] = b"tx-001";
    let real = VVerProof::prove(&pp, &c, v, &o, ctx);
    let sp = SigmaProof { t: real.t, z: vec![real.z_iden, real.z_ran] };
    assert!(verify(
        &pp,
        b"IBC/v1/VVer",
        &[pp.g_iden, pp.g_ran],
        &c.0.sub(&pp.g_val.mul(&v)),
        &sp,
        |ch: Challenge| ch.point(b"c", &c.0).scalar(b"v", &v).bytes(b"ctx", ctx),
    ));
}

#[test]
fn linear_combination_of_small_multiples() {
    let g = Point::hash_from_bytes(b"lc/test/g");
    let h = Point::hash_from_bytes(b"lc/test/h");
    let lc = linear_combination(&[Scalar::from_u64(2), Scalar::from_u64(3)], &[g, h]);
    assert_eq!(lc, g.add(&g).add(&h).add(&h).add(&h));
    assert_eq!(linear_combination(&[], &[]), Point::identity());
}

#[test]
fn verify_terms_matches_verify_on_the_same_target() {
    let pp = PublicParams::setup();
    let bases = [pp.g_iden, pp.g_ran];
    let w = [value_to_scalar(7), value_to_scalar(9)];
    let u = two_base_stmt(&pp, w[0], w[1]);
    let proof = prove(&pp, b"test/2base", &bases, &w, |ch: Challenge| ch.point(b"u", &u));
    let terms = [(w[0], pp.g_iden), (w[1], pp.g_ran)];
    assert!(verify_terms(&pp, b"test/2base", &bases, &terms, &proof, |ch: Challenge| ch.point(b"u", &u)));
    let wrong = [(w[1], pp.g_iden), (w[0], pp.g_ran)];
    assert!(!verify_terms(&pp, b"test/2base", &bases, &wrong, &proof, |ch: Challenge| ch.point(b"u", &u)));
}

#[test]
fn sigma_proof_bytes_roundtrip() {
    let pp = PublicParams::setup();
    let bases = [pp.g_iden, pp.g_ran];
    let w = [value_to_scalar(7), value_to_scalar(9)];
    let u = two_base_stmt(&pp, w[0], w[1]);
    let proof = prove(&pp, b"test/2base", &bases, &w, |ch: Challenge| ch.point(b"u", &u));
    let bytes = proof.to_bytes();
    assert_eq!(bytes.len(), 96);
    let back = SigmaProof::from_bytes(&bytes, 2).unwrap();
    assert_eq!(back.t, proof.t);
    assert_eq!(back.z, proof.z);
    assert!(SigmaProof::from_bytes(&bytes, 3).is_none());
}
