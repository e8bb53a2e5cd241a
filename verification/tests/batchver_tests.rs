use ibc::batchver::{batch_verify, weights, BatchItem};
use ibc::commitment::{commit, random_blinding, Commitment, Opening};
use ibc::ideq::IdEqProof;
use ibc::params::{hash_identity, value_to_scalar, PublicParams};
use ibc::scalar::Scalar;

fn valid_item(ctx: &'static [u8]) -> BatchItem<'static> {
    let pp = PublicParams::setup();
    let id = hash_identity(b"alice");
    let o0 = Opening { id, val: value_to_scalar(100), blinding: random_blinding() };
    let o1 = Opening { id, val: value_to_scalar(250), blinding: random_blinding() };
    let c0 = commit(&pp, &o0);
    let c1 = commit(&pp, &o1);
    let proof = IdEqProof::prove(&pp, &c0, &c1, &o0, &o1, ctx);
    BatchItem { c0, c1, ctx, proof }
}

fn copy<'a>(it: &BatchItem<'a>) -> BatchItem<'a> {
    let proof = IdEqProof { t: it.proof.t, z_val: it.proof.z_val, z_ran: it.proof.z_ran };
    BatchItem { c0: it.c0, c1: it.c1, ctx: it.ctx, proof }
}

fn individually_valid(pp: &PublicParams, it: &BatchItem) -> bool {
    it.proof.verify(pp, &it.c0, &it.c1, it.ctx)
}

#[test]
fn all_valid_batch_accepts() {
    let pp = PublicParams::setup();
    let items = vec![valid_item(b"a"), valid_item(b"b"), valid_item(b"c")];
    assert!(batch_verify(&pp, &items));
}

#[test]
fn one_bad_proof_rejects() {
    let pp = PublicParams::setup();
    for bad in 0..3 {
        let mut items = vec![valid_item(b"a"), valid_item(b"b"), valid_item(b"c")];
        items[bad].proof.z_val = items[bad].proof.z_val.add(&Scalar::one());
        assert!(!batch_verify(&pp, &items), "bad proof at position {}", bad + 1);
    }
}

#[test]
fn empty_batch_accepts() {
    let pp = PublicParams::setup();
    assert!(batch_verify(&pp, &[]));
}

#[test]
fn single_proof_batch_matches() {
    let pp = PublicParams::setup();
    let items = vec![valid_item(b"solo")];
    assert!(batch_verify(&pp, &items));
    assert!(individually_valid(&pp, &items[0]));
}

#[test]
fn wrong_ctx_in_one_item_rejects() {
    let pp = PublicParams::setup();
    let mut it = valid_item(b"right");
    it.ctx = b"wrong";
    let items = vec![it];
    assert!(!batch_verify(&pp, &items));
}

#[test]
fn batch_agrees_with_individual() {
    let pp = PublicParams::setup();
    let mut items = vec![valid_item(b"a"), valid_item(b"b"), valid_item(b"c")];
    items[2].proof.z_ran = items[2].proof.z_ran.add(&Scalar::one());
    let individual_all = items.iter().all(|it| individually_valid(&pp, it));
    assert_eq!(batch_verify(&pp, &items), individual_all);
    assert!(!individual_all);
}

#[test]
fn errors_cannot_be_made_to_cancel() {
    let pp = PublicParams::setup();
    let mut items = vec![valid_item(b"a"), valid_item(b"b"), valid_item(b"c")];
    let d = weights(&pp, &items);
    let k = random_blinding();
    items[0].proof.z_val = items[0].proof.z_val.add(&k.mul(&d[0].invert()));
    items[1].proof.z_val = items[1].proof.z_val.sub(&k.mul(&d[1].invert()));
    assert!(!individually_valid(&pp, &items[0]) && !individually_valid(&pp, &items[1]));
    assert!(!batch_verify(&pp, &items));
}

#[test]
fn weights_depend_on_every_part_of_every_item() {
    let pp = PublicParams::setup();
    let items = vec![valid_item(b"a"), valid_item(b"b"), valid_item(b"c")];
    let base = weights(&pp, &items);
    assert!(base[0] != base[1] && base[1] != base[2] && base[0] != base[2]);
    let x = pp.g_iden.mul(&random_blinding());
    let s = random_blinding();
    for j in 0..items.len() {
        for field in 0..6 {
            let mut changed: Vec<BatchItem> = items.iter().map(copy).collect();
            let it = &mut changed[j];
            match field {
                0 => it.c0 = Commitment(x),
                1 => it.c1 = Commitment(x),
                2 => it.ctx = b"other",
                3 => it.proof.t = x,
                4 => it.proof.z_val = s,
                _ => it.proof.z_ran = s,
            }
            for (old, new) in base.iter().zip(weights(&pp, &changed)) {
                assert_ne!(*old, new, "item {}, field {} not bound", j + 1, field);
            }
        }
    }
}

#[test]
fn weights_has_one_weight_per_item() {
    let pp = PublicParams::setup();
    assert!(weights(&pp, &[]).is_empty());
    let items = vec![valid_item(b"a"), valid_item(b"b")];
    assert_eq!(weights(&pp, &items).len(), 2);
}

#[test]
fn a_proof_of_different_identities_spoils_the_batch() {
    let pp = PublicParams::setup();
    let o0 = Opening { id: hash_identity(b"alice"), val: value_to_scalar(100), blinding: random_blinding() };
    let o1 = Opening { id: hash_identity(b"bob"), val: value_to_scalar(250), blinding: random_blinding() };
    let c0 = commit(&pp, &o0);
    let c1 = commit(&pp, &o1);
    let proof = IdEqProof::prove(&pp, &c0, &c1, &o0, &o1, b"x");
    let items = vec![valid_item(b"a"), BatchItem { c0, c1, ctx: b"x", proof }];
    assert!(!batch_verify(&pp, &items));
}

#[test]
fn single_tampered_proof_batch_matches() {
    let pp = PublicParams::setup();
    let mut items = vec![valid_item(b"solo")];
    items[0].proof.z_ran = items[0].proof.z_ran.add(&Scalar::one());
    assert!(!batch_verify(&pp, &items));
    assert!(!individually_valid(&pp, &items[0]));
}
