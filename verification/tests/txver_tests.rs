use curve25519_dalek::ristretto::RistrettoPoint;
use ibc::commitment::{commit, random_blinding, Commitment, Opening};
use ibc::params::{hash_identity, value_to_scalar, PublicParams};
use ibc::point::Point;
use ibc::scalar::Scalar;
use ibc::txver::{challenge, merge_weight, TxVerProof};
use rand_core::OsRng;

fn valid_tx(v: u64) -> (PublicParams, Commitment, Commitment, Opening, Opening, Scalar) {
    let pp = PublicParams::setup();
    let id = hash_identity(b"alice");
    let v_pub = value_to_scalar(v);
    let o_ref = Opening { id, val: value_to_scalar(0), blinding: random_blinding() };
    let o_tx = Opening { id, val: v_pub, blinding: random_blinding() };
    let c_ref = commit(&pp, &o_ref);
    let c_tx = commit(&pp, &o_tx);
    (pp, c_ref, c_tx, o_ref, o_tx, v_pub)
}

#[test]
fn valid_transaction_verifies() {
    let (pp, c_ref, c_tx, o_ref, o_tx, v) = valid_tx(1_500);
    let proof = TxVerProof::prove(&pp, &c_ref, &c_tx, v, &o_ref, &o_tx, b"tx-001");
    assert!(proof.verify(&pp, &c_ref, &c_tx, v, b"tx-001"));
}

#[test]
fn txver_wrong_identity_fails() {
    let pp = PublicParams::setup();
    let v = value_to_scalar(1_500);
    let o_ref = Opening { id: hash_identity(b"alice"), val: value_to_scalar(0), blinding: random_blinding() };
    let o_tx = Opening { id: hash_identity(b"mallory"), val: v, blinding: random_blinding() };
    let c_ref = commit(&pp, &o_ref);
    let c_tx = commit(&pp, &o_tx);
    let proof = TxVerProof::prove(&pp, &c_ref, &c_tx, v, &o_ref, &o_tx, b"tx-001");
    assert!(!proof.verify(&pp, &c_ref, &c_tx, v, b"tx-001"));
}

#[test]
fn txver_wrong_value_fails() {
    let pp = PublicParams::setup();
    let id = hash_identity(b"alice");
    let o_ref = Opening { id, val: value_to_scalar(0), blinding: random_blinding() };
    let o_tx = Opening { id, val: value_to_scalar(999), blinding: random_blinding() };
    let c_ref = commit(&pp, &o_ref);
    let c_tx = commit(&pp, &o_tx);
    let declared = value_to_scalar(1_500);
    let proof = TxVerProof::prove(&pp, &c_ref, &c_tx, declared, &o_ref, &o_tx, b"tx-001");
    assert!(!proof.verify(&pp, &c_ref, &c_tx, declared, b"tx-001"));
}

#[test]
fn declared_value_mismatch_fails() {
    let (pp, c_ref, c_tx, o_ref, o_tx, v) = valid_tx(1_500);
    let proof = TxVerProof::prove(&pp, &c_ref, &c_tx, v, &o_ref, &o_tx, b"tx-001");
    assert!(!proof.verify(&pp, &c_ref, &c_tx, value_to_scalar(1_501), b"tx-001"));
}

#[test]
fn txver_proof_is_bound_to_the_context() {
    let (pp, c_ref, c_tx, o_ref, o_tx, v) = valid_tx(1_500);
    let proof = TxVerProof::prove(&pp, &c_ref, &c_tx, v, &o_ref, &o_tx, b"tx-001");
    assert!(!proof.verify(&pp, &c_ref, &c_tx, v, b"tx-002"));
}

#[test]
fn clauses_cannot_be_mixed() {
    let (pp, c_ref, c_tx, o_ref, o_tx, v) = valid_tx(1_500);
    let a = TxVerProof::prove(&pp, &c_ref, &c_tx, v, &o_ref, &o_tx, b"tx-001");
    let b = TxVerProof::prove(&pp, &c_ref, &c_tx, v, &o_ref, &o_tx, b"tx-001");
    let spliced = TxVerProof { t1: a.t1, z_val: a.z_val, z_1: a.z_1, t2: b.t2, z_iden: b.z_iden, z_2: b.z_2 };
    assert!(!spliced.verify(&pp, &c_ref, &c_tx, v, b"tx-001"));
}

#[test]
fn challenge_depends_on_every_input() {
    let (pp, c_ref, c_tx, o_ref, o_tx, v) = valid_tx(1_500);
    let p = TxVerProof::prove(&pp, &c_ref, &c_tx, v, &o_ref, &o_tx, b"tx-001");
    let beta = challenge(&pp, &c_ref, &c_tx, &v, b"tx-001", &p.t1, &p.t2);
    let x = Point::from_bytes(&RistrettoPoint::random(&mut OsRng).compress().to_bytes()).unwrap();
    let other = Commitment(x);
    assert_ne!(beta, challenge(&pp, &other, &c_tx, &v, b"tx-001", &p.t1, &p.t2));
    assert_ne!(beta, challenge(&pp, &c_ref, &other, &v, b"tx-001", &p.t1, &p.t2));
    assert_ne!(beta, challenge(&pp, &c_ref, &c_tx, &v.add(&Scalar::one()), b"tx-001", &p.t1, &p.t2));
    assert_ne!(beta, challenge(&pp, &c_ref, &c_tx, &v, b"tx-002", &p.t1, &p.t2));
    assert_ne!(beta, challenge(&pp, &c_ref, &c_tx, &v, b"tx-001", &x, &p.t2));
    assert_ne!(beta, challenge(&pp, &c_ref, &c_tx, &v, b"tx-001", &p.t1, &x));
}

#[test]
fn value_clause_cannot_be_forged_backwards() {
    let pp = PublicParams::setup();
    let id = hash_identity(b"alice");
    let o_ref = Opening { id, val: value_to_scalar(0), blinding: random_blinding() };
    let o_tx = Opening { id, val: value_to_scalar(999), blinding: random_blinding() };
    let c_ref = commit(&pp, &o_ref);
    let c_tx = commit(&pp, &o_tx);
    let declared = value_to_scalar(1_500);
    let alpha_val = random_blinding();
    let alpha_1 = random_blinding();
    let t1 = pp.g_val.mul(&alpha_val).add(&pp.g_ran.mul(&alpha_1));
    let beta = challenge(&pp, &c_ref, &c_tx, &declared, b"tx-001", &t1, &Point::identity());
    let z_val = beta.mul(&o_ref.val.sub(&o_tx.val)).add(&alpha_val);
    let z_1 = beta.mul(&o_ref.blinding.sub(&o_tx.blinding)).add(&alpha_1);
    let z_iden = random_blinding();
    let z_2 = random_blinding();
    let u2 = c_tx.0.sub(&pp.g_val.mul(&declared));
    let t2 = pp.g_iden.mul(&z_iden).add(&pp.g_ran.mul(&z_2)).sub(&u2.mul(&beta));
    let forged = TxVerProof { t1, t2, z_val, z_1, z_iden, z_2 };
    assert!(!forged.verify(&pp, &c_ref, &c_tx, declared, b"tx-001"));
}

#[test]
fn masks_do_not_leak_the_identity() {
    let (pp, c_ref, c_tx, o_ref, o_tx, v) = valid_tx(1_500);
    let p = TxVerProof::prove(&pp, &c_ref, &c_tx, v, &o_ref, &o_tx, b"tx-001");
    let beta = challenge(&pp, &c_ref, &c_tx, &v, b"tx-001", &p.t1, &p.t2);
    let two = Scalar::from_u64(2);
    let d = p.z_1.sub(&p.z_2).mul(&beta.invert());
    let fingerprint = c_tx.0.mul(&two).add(&pp.g_ran.mul(&d)).sub(&pp.g_val.mul(&two.mul(&v))).sub(&c_ref.0);
    assert_ne!(fingerprint, pp.g_iden.mul(&hash_identity(b"alice")));
}

#[test]
fn plain_sum_forgery_is_rejected() {
    let pp = PublicParams::setup();
    let o_ref = Opening { id: hash_identity(b"alice"), val: value_to_scalar(0), blinding: random_blinding() };
    let o_other = Opening { id: hash_identity(b"mallory"), val: value_to_scalar(999), blinding: random_blinding() };
    let c_ref = commit(&pp, &o_ref);
    let c_tx = commit(&pp, &o_other);
    let declared = value_to_scalar(1_500);
    let (a_val, a_ran, a_iden) = (random_blinding(), random_blinding(), random_blinding());
    let t1 = pp.g_val.mul(&a_val).add(&pp.g_ran.mul(&a_ran));
    let t2 = pp.g_iden.mul(&a_iden);
    let beta = challenge(&pp, &c_ref, &c_tx, &declared, b"tx-001", &t1, &t2);
    let forged = TxVerProof {
        t1,
        t2,
        z_val: beta.mul(&o_ref.val.sub(&declared)).add(&a_val),
        z_1: beta.mul(&o_ref.blinding).add(&a_ran),
        z_iden: beta.mul(&o_ref.id).add(&a_iden),
        z_2: Scalar::zero(),
    };
    let lhs = pp
        .g_val
        .mul(&forged.z_val)
        .add(&pp.g_ran.mul(&forged.z_1.add(&forged.z_2)))
        .add(&pp.g_iden.mul(&forged.z_iden));
    assert_eq!(lhs, t1.add(&t2).add(&c_ref.0.sub(&pp.g_val.mul(&declared)).mul(&beta)));
    assert!(!forged.verify(&pp, &c_ref, &c_tx, declared, b"tx-001"));
}

#[test]
fn merge_weight_depends_on_the_responses() {
    let (pp, c_ref, c_tx, o_ref, o_tx, v) = valid_tx(1_500);
    let p = TxVerProof::prove(&pp, &c_ref, &c_tx, v, &o_ref, &o_tx, b"tx-001");
    let delta = merge_weight(&pp, &c_ref, &c_tx, &v, b"tx-001", &p);
    let one = Scalar::one();
    let changed = [
        TxVerProof { z_val: p.z_val.add(&one), ..p },
        TxVerProof { z_1: p.z_1.add(&one), ..p },
        TxVerProof { z_iden: p.z_iden.add(&one), ..p },
        TxVerProof { z_2: p.z_2.add(&one), ..p },
    ];
    for q in &changed {
        assert_ne!(delta, merge_weight(&pp, &c_ref, &c_tx, &v, b"tx-001", q));
    }
}

#[test]
fn proof_size_is_192_bytes() {
    let (pp, c_ref, c_tx, o_ref, o_tx, v) = valid_tx(1_500);
    let p = TxVerProof::prove(&pp, &c_ref, &c_tx, v, &o_ref, &o_tx, b"tx-001");
    let size = p.t1.to_bytes().len()
        + p.t2.to_bytes().len()
        + p.z_val.as_bytes().len()
        + p.z_1.as_bytes().len()
        + p.z_iden.as_bytes().len()
        + p.z_2.as_bytes().len();
    assert_eq!(size, 192);
}

#[test]
fn txver_first_messages_are_fresh() {
    let (pp, c_ref, c_tx, o_ref, o_tx, v) = valid_tx(1_500);
    let a = TxVerProof::prove(&pp, &c_ref, &c_tx, v, &o_ref, &o_tx, b"tx-001");
    let b = TxVerProof::prove(&pp, &c_ref, &c_tx, v, &o_ref, &o_tx, b"tx-001");
    assert_ne!(a.t1, b.t1);
    assert_ne!(a.t2, b.t2);
}
