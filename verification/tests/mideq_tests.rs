use ibc::commitment::{commit, random_blinding, Commitment, Opening};
use ibc::mideq::{bind, domain, gammas, MIDEqProof};
use ibc::params::{hash_identity, value_to_scalar, PublicParams};
use ibc::scalar::Scalar;
use ibc::transcript::Challenge;

fn commitments(pp: &PublicParams, id_label: &[&[u8]]) -> (Vec<Commitment>, Vec<Opening>) {
    let mut cs = Vec::new();
    let mut os = Vec::new();
    for (k, lbl) in id_label.iter().enumerate() {
        let o = Opening { id: hash_identity(lbl), val: value_to_scalar(100 + k as u64), blinding: random_blinding() };
        cs.push(commit(pp, &o));
        os.push(o);
    }
    (cs, os)
}

#[test]
fn all_same_identity_verifies() {
    let pp = PublicParams::setup();
    let labels: Vec<&[u8]> = vec![b"alice", b"alice", b"alice", b"alice", b"alice"];
    let (cs, os) = commitments(&pp, &labels);
    let proof = MIDEqProof::prove(&pp, &cs, &os, b"batch-1");
    assert!(proof.verify(&pp, &cs, b"batch-1"));
}

#[test]
fn a_different_identity_in_any_position_fails() {
    let pp = PublicParams::setup();
    for pos in 0..5 {
        let mut labels: Vec<&[u8]> = vec![b"alice" as &[u8]; 5];
        labels[pos] = b"mallory";
        let (cs, os) = commitments(&pp, &labels);
        let proof = MIDEqProof::prove(&pp, &cs, &os, b"batch-1");
        assert!(!proof.verify(&pp, &cs, b"batch-1"), "mallory at position {}", pos + 1);
    }
}

#[test]
fn n_equals_2_verifies() {
    let pp = PublicParams::setup();
    let labels: Vec<&[u8]> = vec![b"alice", b"alice"];
    let (cs, os) = commitments(&pp, &labels);
    let proof = MIDEqProof::prove(&pp, &cs, &os, b"batch-1");
    assert!(proof.verify(&pp, &cs, b"batch-1"));
}

#[test]
fn proof_is_constant_size() {
    let pp = PublicParams::setup();
    let small: Vec<&[u8]> = vec![b"alice", b"alice"];
    let (cs2, os2) = commitments(&pp, &small);
    let p2 = MIDEqProof::prove(&pp, &cs2, &os2, b"b");
    let big_labels: Vec<&[u8]> = (0..100).map(|_| b"alice" as &[u8]).collect();
    let (cs100, os100) = commitments(&pp, &big_labels);
    let p100 = MIDEqProof::prove(&pp, &cs100, &os100, b"b");
    assert_eq!(p2.0.z.len(), 2);
    assert_eq!(p100.0.z.len(), 2);
}

#[test]
fn mideq_proof_is_bound_to_the_context() {
    let pp = PublicParams::setup();
    let labels: Vec<&[u8]> = vec![b"alice", b"alice", b"alice"];
    let (cs, os) = commitments(&pp, &labels);
    let proof = MIDEqProof::prove(&pp, &cs, &os, b"batch-1");
    assert!(!proof.verify(&pp, &cs, b"batch-2"));
}

#[test]
fn reordering_commitments_fails() {
    let pp = PublicParams::setup();
    let labels: Vec<&[u8]> = vec![b"alice", b"alice", b"alice"];
    let (cs, os) = commitments(&pp, &labels);
    let proof = MIDEqProof::prove(&pp, &cs, &os, b"batch-1");
    let reordered = vec![cs[0], cs[2], cs[1]];
    assert!(!proof.verify(&pp, &reordered, b"batch-1"));
}

#[test]
fn every_hash_binds_every_commitment() {
    let pp = PublicParams::setup();
    let labels: Vec<&[u8]> = vec![b"alice" as &[u8]; 4];
    let (cs, _) = commitments(&pp, &labels);
    let hashes = |cs: &[Commitment], ctx: &[u8]| -> Vec<Scalar> {
        let mut h = gammas(&pp, cs, ctx);
        h.push(bind(Challenge::new(domain(), &pp), cs, ctx).finish());
        h
    };
    let base = hashes(&cs, b"batch-1");
    assert!(base[0] != base[1] && base[1] != base[2] && base[0] != base[2]);
    for j in 0..cs.len() {
        let mut changed = cs.clone();
        changed[j] = Commitment(pp.g_iden.mul(&random_blinding()));
        for (old, new) in base.iter().zip(hashes(&changed, b"batch-1")) {
            assert_ne!(*old, new, "commitment {} not bound", j + 1);
        }
    }
    for (old, new) in base.iter().zip(hashes(&cs, b"batch-2")) {
        assert_ne!(*old, new, "ctx not bound");
    }
}

#[test]
fn identities_cannot_be_made_to_cancel() {
    let pp = PublicParams::setup();
    let ctx: &[u8] = b"batch-1";
    let id1 = hash_identity(b"alice");
    let id2 = hash_identity(b"mallory");
    let o1 = Opening { id: id1, val: value_to_scalar(100), blinding: random_blinding() };
    let o2 = Opening { id: id2, val: value_to_scalar(101), blinding: random_blinding() };
    let draft = Opening { id: id1, val: value_to_scalar(102), blinding: random_blinding() };
    let (c1, c2) = (commit(&pp, &o1), commit(&pp, &o2));
    let g = gammas(&pp, &[c1, c2, commit(&pp, &draft)], ctx);
    let id3 = id1.add(&g[0].mul(&id1.sub(&id2)).mul(&g[1].invert()));
    let o3 = Opening { id: id3, ..draft };
    let cs = [c1, c2, commit(&pp, &o3)];
    let proof = MIDEqProof::prove(&pp, &cs, &[o1, o2, o3], ctx);
    assert!(!proof.verify(&pp, &cs, ctx));
}

#[test]
fn gammas_match_the_spec_formula() {
    let pp = PublicParams::setup();
    let labels: Vec<&[u8]> = vec![b"alice" as &[u8]; 5];
    let (cs, _) = commitments(&pp, &labels);
    let fast = gammas(&pp, &cs, b"batch-1");
    for i in 2..=cs.len() {
        let slow = cs
            .iter()
            .fold(Challenge::new(b"IBC/v1/MIDEq-gamma", &pp), |ch, c| ch.point(b"c", &c.0))
            .bytes(b"ctx", b"batch-1")
            .bytes(b"i", &(i as u64).to_le_bytes())
            .finish();
        assert_eq!(fast[i - 2], slow, "gamma_{i}");
    }
}

#[test]
fn gammas_of_a_single_commitment_are_empty() {
    let pp = PublicParams::setup();
    let labels: Vec<&[u8]> = vec![b"alice"];
    let (cs, _) = commitments(&pp, &labels);
    assert!(gammas(&pp, &cs, b"batch-1").is_empty());
}
