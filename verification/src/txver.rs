//! Π.TxVer: a transaction commitment c_tx carries the identity of a
//! registration commitment c_ref (clause 1) and holds the declared value v'
//! (clause 2). The two clauses are answered under one challenge β and checked
//! together, merged by a weight δ drawn after the whole proof, in a single
//! multiscalar multiplication.
use crate::algebra::{inner_product, inner_product_prefix, lemma_inner_product_modl};
use crate::commitment::{committed, Commitment, Opening};
use crate::ideq::{lemma_ideq_check_residual, lemma_ideq_honest_sound, IdEqProof};
use crate::vver::{lemma_vver_check_residual, lemma_vver_honest_sound, VVerProof};
use crate::params::PublicParams;
use crate::point::{point_values, scalar_values, Point};
use crate::scalar::{
    group_order, invertible, lemma_modl_add, lemma_modl_affine, lemma_modl_bound,
    lemma_modl_cancel, lemma_modl_eq_diff, lemma_modl_mul, lemma_modl_shift, lemma_modl_small,
    lemma_modl_sub, lemma_modl_term, modl, Scalar,
};
use crate::transcript::{
    append_op, beta_of, params_log, point_op, scalar_op, Challenge, TranscriptOp,
};
use vstd::prelude::*;
use vstd::string::StringSliceAdditionalSpecFns;

verus! {

broadcast use crate::scalar::lemma_scalar_view_bound, crate::point::lemma_point_view_bound;

/// A Π.TxVer proof: two first messages and four responses.
pub struct TxVerProof {
    pub t1: Point,
    pub t2: Point,
    pub z_val: Scalar,
    pub z_1: Scalar,
    pub z_iden: Scalar,
    pub z_2: Scalar,
}

/// The public inputs and first messages, in transcript order.
pub open spec fn txver_statement(
    c_ref: Commitment,
    c_tx: Commitment,
    v_pub: Scalar,
    ctx: Seq<u8>,
    t1: Point,
    t2: Point,
) -> Seq<TranscriptOp> {
    seq![
        point_op("c_ref".spec_bytes(), c_ref.0),
        point_op("c_tx".spec_bytes(), c_tx.0),
        scalar_op("v".spec_bytes(), v_pub),
        append_op("ctx".spec_bytes(), ctx),
        point_op("t1".spec_bytes(), t1),
        point_op("t2".spec_bytes(), t2),
    ]
}

/// β = H(ds, pp, c_ref, c_tx, v', ctx, t1, t2).
pub open spec fn txver_beta(
    pp: PublicParams,
    c_ref: Commitment,
    c_tx: Commitment,
    v_pub: Scalar,
    ctx: Seq<u8>,
    t1: Point,
    t2: Point,
) -> int {
    beta_of(params_log("IBC/v1/TxVer".spec_bytes(), pp) + txver_statement(c_ref, c_tx, v_pub, ctx, t1, t2))
}

/// δ = H(ds_delta, pp, c_ref, c_tx, v', ctx, t1, t2, z_val, z_1, z_iden, z_2).
pub open spec fn txver_delta(
    pp: PublicParams,
    c_ref: Commitment,
    c_tx: Commitment,
    v_pub: Scalar,
    ctx: Seq<u8>,
    proof: TxVerProof,
) -> int {
    beta_of(
        params_log("IBC/v1/TxVer-delta".spec_bytes(), pp) + txver_statement(
            c_ref,
            c_tx,
            v_pub,
            ctx,
            proof.t1,
            proof.t2,
        ) + seq![
            scalar_op("z_val".spec_bytes(), proof.z_val),
            scalar_op("z_1".spec_bytes(), proof.z_1),
            scalar_op("z_iden".spec_bytes(), proof.z_iden),
            scalar_op("z_2".spec_bytes(), proof.z_2),
        ],
    )
}

/// Clause 1, c_tx carries c_ref's identity, as the residual
/// E1 = z_val·g_val + z_1·g_ran − t1 − β·(c_ref − c_tx).
pub open spec fn txver_clause1(pp: PublicParams, c_ref: Commitment, c_tx: Commitment, proof: TxVerProof, beta: int) -> int {
    proof.z_val@ * pp.g_val@ + proof.z_1@ * pp.g_ran@ - proof.t1@ - beta * (c_ref.0@ - c_tx.0@)
}

/// Clause 2, c_tx holds the declared value v', as the residual
/// E2 = z_iden·g_iden + z_2·g_ran − t2 − β·(c_tx − v'·g_val).
pub open spec fn txver_clause2(pp: PublicParams, c_tx: Commitment, v_pub: int, proof: TxVerProof, beta: int) -> int {
    proof.z_iden@ * pp.g_iden@ + proof.z_2@ * pp.g_ran@ - proof.t2@ - beta * (c_tx.0@ - v_pub * pp.g_val@)
}

/// The merged check E1 + δ·E2 = 0.
pub open spec fn txver_equation(
    pp: PublicParams,
    c_ref: Commitment,
    c_tx: Commitment,
    v_pub: int,
    proof: TxVerProof,
    beta: int,
    delta: int,
) -> bool {
    modl(txver_clause1(pp, c_ref, c_tx, proof, beta) + delta * txver_clause2(pp, c_tx, v_pub, proof, beta)) == 0
}

/// E1 + δ·E2, collected by base: the seven coefficients that `verify` hands to
/// its multiscalar multiplication.
proof fn lemma_txver_merged_form(
    pp: PublicParams,
    c_ref: Commitment,
    c_tx: Commitment,
    v_pub: int,
    proof: TxVerProof,
    beta: int,
    delta: int,
)
    ensures
        delta * proof.z_iden@ * pp.g_iden@ + (proof.z_val@ + delta * beta * v_pub) * pp.g_val@
            + (proof.z_1@ + delta * proof.z_2@) * pp.g_ran@ - proof.t1@ - delta * proof.t2@
            - beta * c_ref.0@ + (beta - delta * beta) * c_tx.0@
            == txver_clause1(pp, c_ref, c_tx, proof, beta) + delta * txver_clause2(pp, c_tx, v_pub, proof, beta),
{
    let (gi, gv, gr) = (pp.g_iden@, pp.g_val@, pp.g_ran@);
    let (zi, zv, z1, z2, t1, t2, cr, ct) = (
        proof.z_iden@,
        proof.z_val@,
        proof.z_1@,
        proof.z_2@,
        proof.t1@,
        proof.t2@,
        c_ref.0@,
        c_tx.0@,
    );
    let (p, q) = (zi * gi, z2 * gr);
    let r = beta * (ct - v_pub * gv);
    let bc = beta * ct;
    let bvg = beta * (v_pub * gv);
    assert(r == bc - bvg) by (nonlinear_arith)
        requires
            r == beta * (ct - v_pub * gv),
            bc == beta * ct,
            bvg == beta * (v_pub * gv),
    ;
    assert(delta * (p + q - t2 - r) == delta * p + delta * q - delta * t2 - delta * bc + delta * bvg) by (nonlinear_arith)
        requires
            r == bc - bvg,
    ;
    assert(delta * zi * gi == delta * p) by (nonlinear_arith)
        requires
            p == zi * gi,
    ;
    assert(delta * q == (delta * z2) * gr) by (nonlinear_arith)
        requires
            q == z2 * gr,
    ;
    assert(delta * bvg == (delta * beta * v_pub) * gv) by (nonlinear_arith)
        requires
            bvg == beta * (v_pub * gv),
    ;
    assert(delta * bc == (delta * beta) * ct) by (nonlinear_arith)
        requires
            bc == beta * ct,
    ;
    assert((zv + delta * beta * v_pub) * gv == zv * gv + (delta * beta * v_pub) * gv) by (nonlinear_arith);
    assert((z1 + delta * z2) * gr == z1 * gr + (delta * z2) * gr) by (nonlinear_arith);
    assert((beta - delta * beta) * ct == bc - (delta * beta) * ct) by (nonlinear_arith)
        requires
            bc == beta * ct,
    ;
    assert(beta * (cr - ct) == beta * cr - bc) by (nonlinear_arith)
        requires
            bc == beta * ct,
    ;
}

/// The merge weight forces both clauses: if the merged check holds at one β
/// for two weights whose difference is invertible, each clause holds alone.
pub proof fn lemma_txver_merge_forces_both(
    pp: PublicParams,
    c_ref: Commitment,
    c_tx: Commitment,
    v_pub: int,
    proof: TxVerProof,
    beta: int,
    delta1: int,
    delta2: int,
)
    requires
        txver_equation(pp, c_ref, c_tx, v_pub, proof, beta, delta1),
        txver_equation(pp, c_ref, c_tx, v_pub, proof, beta, delta2),
        invertible(delta1 - delta2),
    ensures
        modl(txver_clause1(pp, c_ref, c_tx, proof, beta)) == 0,
        modl(txver_clause2(pp, c_tx, v_pub, proof, beta)) == 0,
{
    let e1 = txver_clause1(pp, c_ref, c_tx, proof, beta);
    let e2 = txver_clause2(pp, c_tx, v_pub, proof, beta);
    lemma_modl_eq_diff(e1 + delta1 * e2, e1 + delta2 * e2);
    assert((e1 + delta1 * e2) - (e1 + delta2 * e2) == (delta1 - delta2) * e2) by (nonlinear_arith);
    lemma_modl_cancel(delta1 - delta2, e2);
    lemma_modl_mul(delta1, e2);
    let m = modl(e2);
    assert(delta1 * m == 0) by (nonlinear_arith)
        requires
            m == 0,
    ;
    lemma_modl_small(0);
    lemma_modl_sub(e1 + delta1 * e2, delta1 * e2);
}

/// What the verifier accepts.
pub open spec fn txver_accepts(
    pp: PublicParams,
    c_ref: Commitment,
    c_tx: Commitment,
    v_pub: Scalar,
    ctx: Seq<u8>,
    proof: TxVerProof,
) -> bool {
    txver_equation(
        pp,
        c_ref,
        c_tx,
        v_pub@,
        proof,
        txver_beta(pp, c_ref, c_tx, v_pub, ctx, proof.t1, proof.t2),
        txver_delta(pp, c_ref, c_tx, v_pub, ctx, proof),
    )
}

/// Honest first messages and responses for masks (αv, α1, αi, α2) and challenge β.
pub open spec fn txver_responds(
    pp: PublicParams,
    o_ref: Opening,
    o_tx: Opening,
    beta: int,
    alpha_val: int,
    alpha_1: int,
    alpha_iden: int,
    alpha_2: int,
    proof: TxVerProof,
) -> bool {
    &&& proof.t1@ == modl(alpha_val * pp.g_val@ + alpha_1 * pp.g_ran@)
    &&& proof.t2@ == modl(alpha_iden * pp.g_iden@ + alpha_2 * pp.g_ran@)
    &&& proof.z_val@ == modl(beta * (o_ref.val@ - o_tx.val@) + alpha_val)
    &&& proof.z_1@ == modl(beta * (o_ref.blinding@ - o_tx.blinding@) + alpha_1)
    &&& proof.z_iden@ == modl(beta * o_tx.id@ + alpha_iden)
    &&& proof.z_2@ == modl(beta * o_tx.blinding@ + alpha_2)
}

/// The weighted sum that E is, with every reduced quantity replaced by the
/// expression it reduces: it is identically zero.
proof fn lemma_txver_identity(
    gi: int, gv: int, gr: int,
    id: int, vr: int, vt: int, rr: int, rt: int,
    av: int, a1: int, ai: int, a2: int,
    beta: int, delta: int,
)
    ensures
        delta * (beta * id + ai) * gi + ((beta * (vr - vt) + av) + delta * beta * vt) * gv
            + ((beta * (rr - rt) + a1) + delta * (beta * rt + a2)) * gr - (av * gv + a1 * gr)
            - delta * (ai * gi + a2 * gr) - beta * (id * gi + vr * gv + rr * gr)
            + (beta - delta * beta) * (id * gi + vt * gv + rt * gr) == 0,
{
    // the g_iden terms
    let pi = beta * id;
    assert(delta * (pi + ai) * gi == delta * (pi * gi) + delta * (ai * gi)) by (nonlinear_arith);
    assert(beta * (id * gi) == pi * gi) by (nonlinear_arith)
        requires
            pi == beta * id,
    ;
    assert((beta - delta * beta) * (id * gi) == pi * gi - delta * (pi * gi)) by (nonlinear_arith)
        requires
            pi == beta * id,
    ;
    // the g_val terms
    let pv = beta * vt;
    let u = beta * (vr - vt) + av;
    assert(u == beta * vr - pv + av) by (nonlinear_arith)
        requires
            pv == beta * vt,
            u == beta * (vr - vt) + av,
    ;
    assert(delta * beta * vt == delta * pv) by (nonlinear_arith)
        requires
            pv == beta * vt,
    ;
    assert((u + delta * pv) * gv == (beta * vr) * gv - pv * gv + av * gv + delta * (pv * gv)) by (nonlinear_arith)
        requires
            u == beta * vr - pv + av,
    ;
    assert(beta * (vr * gv) == (beta * vr) * gv) by (nonlinear_arith);
    assert((beta - delta * beta) * (vt * gv) == pv * gv - delta * (pv * gv)) by (nonlinear_arith)
        requires
            pv == beta * vt,
    ;
    // the g_ran terms
    let (p, q) = (beta * rr, beta * rt);
    let x = (beta * (rr - rt) + a1) + delta * (beta * rt + a2);
    assert(x == p - q + a1 + delta * q + delta * a2) by (nonlinear_arith)
        requires
            p == beta * rr,
            q == beta * rt,
            x == (beta * (rr - rt) + a1) + delta * (beta * rt + a2),
    ;
    assert(x * gr == p * gr - q * gr + a1 * gr + delta * (q * gr) + delta * (a2 * gr)) by (nonlinear_arith)
        requires
            x == p - q + a1 + delta * q + delta * a2,
    ;
    assert(beta * (rr * gr) == p * gr) by (nonlinear_arith)
        requires
            p == beta * rr,
    ;
    assert((beta - delta * beta) * (rt * gr) == q * gr - delta * (q * gr)) by (nonlinear_arith)
        requires
            q == beta * rt,
    ;
    assert(delta * (ai * gi + a2 * gr) == delta * (ai * gi) + delta * (a2 * gr)) by (nonlinear_arith);
    assert(beta * (id * gi + vr * gv + rr * gr) == beta * (id * gi) + beta * (vr * gv) + beta * (rr * gr)) by (nonlinear_arith);
    assert((beta - delta * beta) * (id * gi + vt * gv + rt * gr) == (beta - delta * beta) * (id * gi) + (beta - delta * beta) * (vt * gv) + (beta - delta * beta) * (rt * gr)) by (nonlinear_arith);
}

/// Completeness of Π.TxVer: when c_tx carries c_ref's identity and holds the
/// declared value, honest responses pass the merged check for every β and δ.
pub proof fn lemma_txver_complete(
    pp: PublicParams,
    c_ref: Commitment,
    c_tx: Commitment,
    o_ref: Opening,
    o_tx: Opening,
    v_pub: int,
    proof: TxVerProof,
    beta: int,
    delta: int,
    alpha_val: int,
    alpha_1: int,
    alpha_iden: int,
    alpha_2: int,
)
    requires
        c_ref.0@ == committed(pp, o_ref),
        c_tx.0@ == committed(pp, o_tx),
        o_ref.id@ == o_tx.id@,
        o_tx.val@ == v_pub,
        txver_responds(pp, o_ref, o_tx, beta, alpha_val, alpha_1, alpha_iden, alpha_2, proof),
    ensures
        txver_equation(pp, c_ref, c_tx, v_pub, proof, beta, delta),
{
    let (gi, gv, gr) = (pp.g_iden@, pp.g_val@, pp.g_ran@);
    let (id, vr, vt, rr, rt) = (o_tx.id@, o_ref.val@, o_tx.val@, o_ref.blinding@, o_tx.blinding@);
    let (av, a1, ai, a2) = (alpha_val, alpha_1, alpha_iden, alpha_2);
    // each reduced quantity, times its coefficient, differs from the raw one by a multiple of ℓ
    let k1 = lemma_modl_term(beta * id + ai, delta * gi);
    let k2 = lemma_modl_term(beta * (vr - vt) + av, gv);
    let k3 = lemma_modl_term(beta * (rr - rt) + a1, gr);
    let k4 = lemma_modl_term(beta * rt + a2, delta * gr);
    let k5 = lemma_modl_term(av * gv + a1 * gr, -1);
    let k6 = lemma_modl_term(ai * gi + a2 * gr, -delta);
    let k7 = lemma_modl_term(id * gi + vr * gv + rr * gr, -beta);
    let k8 = lemma_modl_term(id * gi + vt * gv + rt * gr, beta - delta * beta);
    let (zi, zv, z1, z2) = (proof.z_iden@, proof.z_val@, proof.z_1@, proof.z_2@);
    let (t1, t2, cr, ct) = (proof.t1@, proof.t2@, c_ref.0@, c_tx.0@);
    let e = delta * zi * gi + (zv + delta * beta * vt) * gv + (z1 + delta * z2) * gr - t1 - delta * t2 - beta * cr
        + (beta - delta * beta) * ct;
    let raw = delta * (beta * id + ai) * gi + ((beta * (vr - vt) + av) + delta * beta * vt) * gv
        + ((beta * (rr - rt) + a1) + delta * (beta * rt + a2)) * gr - (av * gv + a1 * gr)
        - delta * (ai * gi + a2 * gr) - beta * (id * gi + vr * gv + rr * gr)
        + (beta - delta * beta) * (id * gi + vt * gv + rt * gr);
    lemma_txver_identity(gi, gv, gr, id, vr, vt, rr, rt, av, a1, ai, a2, beta, delta);
    assert(delta * zi * gi == zi * (delta * gi)) by (nonlinear_arith);
    assert(delta * (beta * id + ai) * gi == (beta * id + ai) * (delta * gi)) by (nonlinear_arith);
    assert((zv + delta * beta * vt) * gv == zv * gv + delta * beta * vt * gv) by (nonlinear_arith);
    assert(((beta * (vr - vt) + av) + delta * beta * vt) * gv == (beta * (vr - vt) + av) * gv + delta * beta * vt * gv) by (nonlinear_arith);
    assert((z1 + delta * z2) * gr == z1 * gr + z2 * (delta * gr)) by (nonlinear_arith);
    assert(((beta * (rr - rt) + a1) + delta * (beta * rt + a2)) * gr == (beta * (rr - rt) + a1) * gr + (beta * rt + a2) * (delta * gr)) by (nonlinear_arith);
    assert(-t1 == t1 * (-1));
    assert(-(av * gv + a1 * gr) == (av * gv + a1 * gr) * (-1));
    assert(-(delta * t2) == t2 * (-delta)) by (nonlinear_arith);
    assert(-(delta * (ai * gi + a2 * gr)) == (ai * gi + a2 * gr) * (-delta)) by (nonlinear_arith);
    assert(-(beta * cr) == cr * (-beta)) by (nonlinear_arith);
    assert(-(beta * (id * gi + vr * gv + rr * gr)) == (id * gi + vr * gv + rr * gr) * (-beta)) by (nonlinear_arith);
    assert((beta - delta * beta) * ct == ct * (beta - delta * beta)) by (nonlinear_arith);
    assert((beta - delta * beta) * (id * gi + vt * gv + rt * gr) == (id * gi + vt * gv + rt * gr) * (beta - delta * beta)) by (nonlinear_arith);
    assert(e == raw + group_order() * (k1 + k2 + k3 + k4 + k5 + k6 + k7 + k8));
    lemma_modl_shift(e, raw, k1 + k2 + k3 + k4 + k5 + k6 + k7 + k8);
    lemma_modl_small(0);
    lemma_txver_merged_form(pp, c_ref, c_tx, v_pub, proof, beta, delta);
}

/// An honest Π.TxVer prover convinces of each clause exactly when it is true:
/// for an invertible challenge β and weight δ, and generators of invertible
/// log, when c_tx carries c_ref's identity the merged check holds iff c_tx
/// holds the declared value, and when c_tx holds the declared value it holds
/// iff c_tx carries c_ref's identity.
pub proof fn lemma_txver_honest_sound(
    pp: PublicParams,
    c_ref: Commitment,
    c_tx: Commitment,
    o_ref: Opening,
    o_tx: Opening,
    v_pub: int,
    proof: TxVerProof,
    beta: int,
    delta: int,
    alpha_val: int,
    alpha_1: int,
    alpha_iden: int,
    alpha_2: int,
)
    requires
        c_ref.0@ == committed(pp, o_ref),
        c_tx.0@ == committed(pp, o_tx),
        0 <= v_pub < group_order(),
        txver_responds(pp, o_ref, o_tx, beta, alpha_val, alpha_1, alpha_iden, alpha_2, proof),
        invertible(beta),
        invertible(delta),
        invertible(pp.g_iden@),
        invertible(pp.g_val@),
    ensures
        o_ref.id@ == o_tx.id@ ==> (txver_equation(pp, c_ref, c_tx, v_pub, proof, beta, delta) <==> o_tx.val@ == v_pub),
        o_tx.val@ == v_pub ==> (txver_equation(pp, c_ref, c_tx, v_pub, proof, beta, delta) <==> o_ref.id@ == o_tx.id@),
{
    let p1 = IdEqProof { t: proof.t1, z_val: proof.z_val, z_ran: proof.z_1 };
    let p2 = VVerProof { t: proof.t2, z_iden: proof.z_iden, z_ran: proof.z_2 };
    let e1 = txver_clause1(pp, c_ref, c_tx, proof, beta);
    let e2 = txver_clause2(pp, c_tx, v_pub, proof, beta);
    // clause 1 is the Π.IDEq check of (c_ref, c_tx), clause 2 the Π.VVer check of c_tx
    lemma_ideq_check_residual(pp, c_ref, c_tx, p1, beta);
    lemma_ideq_honest_sound(pp, c_ref, c_tx, o_ref, o_tx, p1, beta, alpha_val, alpha_1);
    lemma_vver_check_residual(pp, c_tx, v_pub, p2, beta);
    lemma_vver_honest_sound(pp, c_tx, o_tx, v_pub, p2, beta, alpha_iden, alpha_2);
    assert(modl(e1) == 0 <==> o_ref.id@ == o_tx.id@);
    assert(modl(e2) == 0 <==> o_tx.val@ == v_pub);
    lemma_modl_small(0);
    lemma_modl_add(e1, delta * e2);
    lemma_modl_cancel(delta, e2);
    if o_ref.id@ == o_tx.id@ {
        assert(modl(e1 + delta * e2) == modl(0 + delta * e2));
    }
    if o_tx.val@ == v_pub {
        assert(modl(delta * e2) == 0);
        assert(modl(e1 + delta * e2) == modl(e1 + 0));
    }
}

/// What the Π.TxVer verifier accepts of an honest proof, at the recomputed β
/// and δ: when c_tx carries c_ref's identity, acceptance is exactly "c_tx
/// holds the declared value"; when c_tx holds the declared value, acceptance
/// is exactly "c_tx carries c_ref's identity".
pub proof fn lemma_txver_accepts_honest(
    pp: PublicParams,
    c_ref: Commitment,
    c_tx: Commitment,
    o_ref: Opening,
    o_tx: Opening,
    v_pub: Scalar,
    ctx: Seq<u8>,
    proof: TxVerProof,
    alpha_val: int,
    alpha_1: int,
    alpha_iden: int,
    alpha_2: int,
)
    requires
        c_ref.0@ == committed(pp, o_ref),
        c_tx.0@ == committed(pp, o_tx),
        txver_responds(
            pp,
            o_ref,
            o_tx,
            txver_beta(pp, c_ref, c_tx, v_pub, ctx, proof.t1, proof.t2),
            alpha_val,
            alpha_1,
            alpha_iden,
            alpha_2,
            proof,
        ),
        invertible(txver_beta(pp, c_ref, c_tx, v_pub, ctx, proof.t1, proof.t2)),
        invertible(txver_delta(pp, c_ref, c_tx, v_pub, ctx, proof)),
        invertible(pp.g_iden@),
        invertible(pp.g_val@),
    ensures
        o_ref.id@ == o_tx.id@ ==> (txver_accepts(pp, c_ref, c_tx, v_pub, ctx, proof) <==> o_tx.val@ == v_pub@),
        o_tx.val@ == v_pub@ ==> (txver_accepts(pp, c_ref, c_tx, v_pub, ctx, proof) <==> o_ref.id@ == o_tx.id@),
{
    lemma_txver_honest_sound(
        pp,
        c_ref,
        c_tx,
        o_ref,
        o_tx,
        v_pub@,
        proof,
        txver_beta(pp, c_ref, c_tx, v_pub, ctx, proof.t1, proof.t2),
        txver_delta(pp, c_ref, c_tx, v_pub, ctx, proof),
        alpha_val,
        alpha_1,
        alpha_iden,
        alpha_2,
    );
}

/// The seven reduced coefficients of the multiscalar multiplication in
/// `verify` combine the seven points to E, modulo ℓ.
proof fn lemma_txver_msm(
    s: Seq<int>,
    p: Seq<int>,
    zi: int,
    zv: int,
    z1: int,
    z2: int,
    v: int,
    beta: int,
    delta: int,
)
    requires
        s == seq![
            modl(delta * zi),
            modl(zv + modl(modl(delta * beta) * v)),
            modl(z1 + modl(delta * z2)),
            modl(-1),
            modl(-delta),
            modl(-beta),
            modl(beta - modl(delta * beta)),
        ],
        p.len() == 7,
    ensures
        modl(inner_product(s, p)) == modl(
            delta * zi * p[0] + (zv + delta * beta * v) * p[1] + (z1 + delta * z2) * p[2] - p[3] - delta * p[4]
                - beta * p[5] + (beta - delta * beta) * p[6],
        ),
{
    let raw = seq![delta * zi, zv + delta * beta * v, z1 + delta * z2, -1, -delta, -beta, beta - delta * beta];
    assert forall|i: int| 0 <= i < 7 implies modl(#[trigger] s[i]) == modl(raw[i]) by {
        lemma_modl_bound(raw[i]);
        if i == 1 {
            lemma_modl_add(zv, modl(delta * beta) * v);
            let k = lemma_modl_term(delta * beta, v);
            lemma_modl_shift(zv + modl(delta * beta) * v, zv + delta * beta * v, k);
            lemma_modl_bound(zv + modl(modl(delta * beta) * v));
            lemma_modl_small(s[1]);
        } else if i == 2 {
            lemma_modl_add(z1, delta * z2);
            lemma_modl_bound(z1 + modl(delta * z2));
            lemma_modl_small(s[2]);
        } else if i == 6 {
            lemma_modl_sub(beta, delta * beta);
            lemma_modl_bound(beta - modl(delta * beta));
            lemma_modl_small(s[6]);
        } else {
            lemma_modl_small(modl(raw[i]));
        }
    }
    lemma_inner_product_modl(s, raw, p, 7);
    reveal_with_fuel(inner_product_prefix, 8);
    assert(inner_product(raw, p) == delta * zi * p[0] + (zv + delta * beta * v) * p[1] + (z1 + delta * z2) * p[2]
        - p[3] - delta * p[4] - beta * p[5] + (beta - delta * beta) * p[6]) by (nonlinear_arith)
        requires
            raw == seq![delta * zi, zv + delta * beta * v, z1 + delta * z2, -1, -delta, -beta, beta - delta * beta],
            inner_product(raw, p) == 0 + raw[0] * p[0] + raw[1] * p[1] + raw[2] * p[2] + raw[3] * p[3] + raw[4] * p[4] + raw[5] * p[5] + raw[6] * p[6],
    ;
}

/// The public inputs and first messages, appended to a transcript.
fn bind(
    ch: Challenge,
    c_ref: &Commitment,
    c_tx: &Commitment,
    v_pub: &Scalar,
    ctx: &[u8],
    t1: &Point,
    t2: &Point,
) -> (r: Challenge)
    requires
        ctx@.len() <= u32::MAX,
    ensures
        r@ == ch@ + txver_statement(*c_ref, *c_tx, *v_pub, ctx@, *t1, *t2),
{
    let r = ch.point("c_ref".as_bytes(), &c_ref.0)
        .point("c_tx".as_bytes(), &c_tx.0)
        .scalar("v".as_bytes(), v_pub)
        .bytes("ctx".as_bytes(), ctx)
        .point("t1".as_bytes(), t1)
        .point("t2".as_bytes(), t2);
    assert(r@ =~= ch@ + txver_statement(*c_ref, *c_tx, *v_pub, ctx@, *t1, *t2));
    r
}

/// The Fiat–Shamir challenge β = H(ds, pp, c_ref, c_tx, v', ctx, t1, t2).
pub fn challenge(
    pp: &PublicParams,
    c_ref: &Commitment,
    c_tx: &Commitment,
    v_pub: &Scalar,
    ctx: &[u8],
    t1: &Point,
    t2: &Point,
) -> (r: Scalar)
    requires
        ctx@.len() <= u32::MAX,
    ensures
        r@ == txver_beta(*pp, *c_ref, *c_tx, *v_pub, ctx@, *t1, *t2),
{
    proof {
        reveal_strlit("IBC/v1/TxVer");
        crate::transcript::lemma_label_fits("IBC/v1/TxVer", 12);
    }
    bind(Challenge::new("IBC/v1/TxVer".as_bytes(), pp), c_ref, c_tx, v_pub, ctx, t1, t2).finish()
}

/// The merge weight δ, drawn after the whole proof is fixed.
pub fn merge_weight(
    pp: &PublicParams,
    c_ref: &Commitment,
    c_tx: &Commitment,
    v_pub: &Scalar,
    ctx: &[u8],
    proof: &TxVerProof,
) -> (r: Scalar)
    requires
        ctx@.len() <= u32::MAX,
    ensures
        r@ == txver_delta(*pp, *c_ref, *c_tx, *v_pub, ctx@, *proof),
{
    proof {
        reveal_strlit("IBC/v1/TxVer-delta");
        crate::transcript::lemma_label_fits("IBC/v1/TxVer-delta", 18);
    }
    let ch = bind(Challenge::new("IBC/v1/TxVer-delta".as_bytes(), pp), c_ref, c_tx, v_pub, ctx, &proof.t1, &proof.t2)
        .scalar("z_val".as_bytes(), &proof.z_val)
        .scalar("z_1".as_bytes(), &proof.z_1)
        .scalar("z_iden".as_bytes(), &proof.z_iden)
        .scalar("z_2".as_bytes(), &proof.z_2);
    let ghost base = params_log("IBC/v1/TxVer-delta".spec_bytes(), *pp) + txver_statement(*c_ref, *c_tx, *v_pub, ctx@, proof.t1, proof.t2);
    assert(ch@ =~= base + seq![
        scalar_op("z_val".spec_bytes(), proof.z_val),
        scalar_op("z_1".spec_bytes(), proof.z_1),
        scalar_op("z_iden".spec_bytes(), proof.z_iden),
        scalar_op("z_2".spec_bytes(), proof.z_2),
    ]);
    ch.finish()
}

impl TxVerProof {
    /// The non-interactive proof of both clauses under one challenge.
    pub fn prove(
        pp: &PublicParams,
        c_ref: &Commitment,
        c_tx: &Commitment,
        v_pub: Scalar,
        o_ref: &Opening,
        o_tx: &Opening,
        ctx: &[u8],
    ) -> (r: TxVerProof)
        requires
            ctx@.len() <= u32::MAX,
        ensures
            exists|alpha_val: int, alpha_1: int, alpha_iden: int, alpha_2: int|
                #[trigger] txver_responds(
                    *pp,
                    *o_ref,
                    *o_tx,
                    txver_beta(*pp, *c_ref, *c_tx, v_pub, ctx@, r.t1, r.t2),
                    alpha_val,
                    alpha_1,
                    alpha_iden,
                    alpha_2,
                    r,
                ),
            c_ref.0@ == committed(*pp, *o_ref) && c_tx.0@ == committed(*pp, *o_tx) && o_ref.id@ == o_tx.id@
                && o_tx.val@ == v_pub@ ==> txver_accepts(*pp, *c_ref, *c_tx, v_pub, ctx@, r),
            c_ref.0@ == committed(*pp, *o_ref) && c_tx.0@ == committed(*pp, *o_tx) && invertible(
                txver_beta(*pp, *c_ref, *c_tx, v_pub, ctx@, r.t1, r.t2),
            ) && invertible(txver_delta(*pp, *c_ref, *c_tx, v_pub, ctx@, r)) && invertible(pp.g_iden@) && invertible(
                pp.g_val@,
            ) ==> {
                &&& o_ref.id@ == o_tx.id@ ==> (txver_accepts(*pp, *c_ref, *c_tx, v_pub, ctx@, r) <==> o_tx.val@ == v_pub@)
                &&& o_tx.val@ == v_pub@ ==> (txver_accepts(*pp, *c_ref, *c_tx, v_pub, ctx@, r) <==> o_ref.id@ == o_tx.id@)
            },
    {
        let alpha_val = Scalar::random();
        let alpha_1 = Scalar::random();
        let alpha_iden = Scalar::random();
        let alpha_2 = Scalar::random();
        let t1 = pp.g_val.mul(&alpha_val).add(&pp.g_ran.mul(&alpha_1));
        let t2 = pp.g_iden.mul(&alpha_iden).add(&pp.g_ran.mul(&alpha_2));
        let beta = challenge(pp, c_ref, c_tx, &v_pub, ctx, &t1, &t2);
        let z_val = beta.mul(&o_ref.val.sub(&o_tx.val)).add(&alpha_val);
        let z_1 = beta.mul(&o_ref.blinding.sub(&o_tx.blinding)).add(&alpha_1);
        let z_iden = beta.mul(&o_tx.id).add(&alpha_iden);
        let z_2 = beta.mul(&o_tx.blinding).add(&alpha_2);
        let r = TxVerProof { t1, t2, z_val, z_1, z_iden, z_2 };
        proof {
            lemma_modl_add(alpha_val@ * pp.g_val@, alpha_1@ * pp.g_ran@);
            lemma_modl_add(alpha_iden@ * pp.g_iden@, alpha_2@ * pp.g_ran@);
            lemma_modl_affine(beta@, o_ref.val@ - o_tx.val@, alpha_val@);
            lemma_modl_affine(beta@, o_ref.blinding@ - o_tx.blinding@, alpha_1@);
            lemma_modl_add(beta@ * o_tx.id@, alpha_iden@);
            lemma_modl_add(beta@ * o_tx.blinding@, alpha_2@);
            assert(txver_responds(*pp, *o_ref, *o_tx, beta@, alpha_val@, alpha_1@, alpha_iden@, alpha_2@, r));
            if c_ref.0@ == committed(*pp, *o_ref) && c_tx.0@ == committed(*pp, *o_tx) && o_ref.id@ == o_tx.id@
                && o_tx.val@ == v_pub@ {
                lemma_txver_complete(
                    *pp, *c_ref, *c_tx, *o_ref, *o_tx, v_pub@, r, beta@,
                    txver_delta(*pp, *c_ref, *c_tx, v_pub, ctx@, r),
                    alpha_val@, alpha_1@, alpha_iden@, alpha_2@,
                );
            }
            if c_ref.0@ == committed(*pp, *o_ref) && c_tx.0@ == committed(*pp, *o_tx) && invertible(beta@)
                && invertible(txver_delta(*pp, *c_ref, *c_tx, v_pub, ctx@, r)) && invertible(pp.g_iden@)
                && invertible(pp.g_val@) {
                lemma_txver_accepts_honest(
                    *pp, *c_ref, *c_tx, *o_ref, *o_tx, v_pub, ctx@, r,
                    alpha_val@, alpha_1@, alpha_iden@, alpha_2@,
                );
            }
        }
        r
    }

    /// Recomputes β and δ and checks E = 0 with one multiscalar multiplication.
    pub fn verify(&self, pp: &PublicParams, c_ref: &Commitment, c_tx: &Commitment, v_pub: Scalar, ctx: &[u8]) -> (r: bool)
        requires
            ctx@.len() <= u32::MAX,
        ensures
            r == txver_accepts(*pp, *c_ref, *c_tx, v_pub, ctx@, *self),
    {
        let beta = challenge(pp, c_ref, c_tx, &v_pub, ctx, &self.t1, &self.t2);
        let delta = merge_weight(pp, c_ref, c_tx, &v_pub, ctx, self);
        let db = delta.mul(&beta);
        let scalars = vec![
            delta.mul(&self.z_iden),
            self.z_val.add(&db.mul(&v_pub)),
            self.z_1.add(&delta.mul(&self.z_2)),
            Scalar::one().neg(),
            delta.neg(),
            beta.neg(),
            beta.sub(&db),
        ];
        let points = vec![pp.g_iden, pp.g_val, pp.g_ran, self.t1, self.t2, c_ref.0, c_tx.0];
        let m = Point::vartime_multiscalar_mul(scalars.as_slice(), points.as_slice());
        proof {
            let s = scalar_values(scalars@);
            let p = point_values(points@);
            assert(s =~= seq![
                modl(delta@ * self.z_iden@),
                modl(self.z_val@ + modl(modl(delta@ * beta@) * v_pub@)),
                modl(self.z_1@ + modl(delta@ * self.z_2@)),
                modl(-1),
                modl(-delta@),
                modl(-beta@),
                modl(beta@ - modl(delta@ * beta@)),
            ]);
            lemma_txver_msm(s, p, self.z_iden@, self.z_val@, self.z_1@, self.z_2@, v_pub@, beta@, delta@);
            assert(p[0] == pp.g_iden@ && p[1] == pp.g_val@ && p[2] == pp.g_ran@ && p[3] == self.t1@);
            assert(p[4] == self.t2@ && p[5] == c_ref.0@ && p[6] == c_tx.0@);
            lemma_txver_merged_form(*pp, *c_ref, *c_tx, v_pub@, *self, beta@, delta@);
        }
        m.equals(&Point::identity())
    }
}

} // verus!
