//! Batch verification of Π.IDEq proofs: m proofs are checked with one
//! multiscalar multiplication over 2m + 2 bases, each proof's equation weighted
//! by a challenge δ_j drawn after every item is bound into a transcript.
use crate::algebra::inner_product_prefix;
use crate::commitment::Commitment;
use crate::ideq::{
    challenge as ideq_challenge, ideq_accepts, ideq_beta, ideq_check, lemma_ideq_check_residual,
    IdEqProof,
};
use crate::params::PublicParams;
use crate::point::{point_values, scalar_values, Point};
use crate::scalar::{
    group_order, invertible, is_inverse, lemma_modl_add, lemma_modl_bound, lemma_modl_cancel,
    lemma_modl_quotient, lemma_modl_shift, lemma_modl_small, lemma_modl_sub, lemma_modl_term, modl,
    Scalar,
};
use crate::transcript::{
    append_op, challenge_op, challenge_value, params_log, point_op, scalar_op, Challenge,
    TranscriptOp,
};
use vstd::prelude::*;
use vstd::string::StringSliceAdditionalSpecFns;

verus! {

broadcast use crate::scalar::lemma_scalar_view_bound, crate::point::lemma_point_view_bound;

/// One Π.IDEq statement and its proof.
pub struct BatchItem<'a> {
    pub c0: Commitment,
    pub c1: Commitment,
    pub ctx: &'a [u8],
    pub proof: IdEqProof,
}

/// What one item appends to the weight transcript.
pub open spec fn item_ops(it: BatchItem) -> Seq<TranscriptOp> {
    seq![
        point_op("c0".spec_bytes(), it.c0.0),
        point_op("c1".spec_bytes(), it.c1.0),
        append_op("ctx".spec_bytes(), it.ctx@),
        point_op("t".spec_bytes(), it.proof.t),
        scalar_op("zv".spec_bytes(), it.proof.z_val),
        scalar_op("zr".spec_bytes(), it.proof.z_ran),
    ]
}

/// The items, bound one after another.
pub open spec fn items_log(items: Seq<BatchItem>) -> Seq<TranscriptOp>
    decreases items.len(),
{
    if items.len() == 0 {
        Seq::empty()
    } else {
        items_log(items.drop_last()) + item_ops(items.last())
    }
}

/// The weight transcript once every item is bound.
pub open spec fn weights_log(pp: PublicParams, items: Seq<BatchItem>) -> Seq<TranscriptOp> {
    params_log("IBC/v1/BatchVer".spec_bytes(), pp) + items_log(items)
}

/// `n` draws under "delta".
pub open spec fn delta_ops(n: nat) -> Seq<TranscriptOp> {
    Seq::new(n, |_i: int| challenge_op("delta".spec_bytes()))
}

/// δ_j: the (j+1)-th scalar drawn under "delta" from the weight transcript.
pub open spec fn batch_weight(pp: PublicParams, items: Seq<BatchItem>, j: int) -> int {
    challenge_value(weights_log(pp, items) + delta_ops(j as nat), "delta".spec_bytes())
}

/// (δ_0, …, δ_{m−1}).
pub open spec fn batch_weights(pp: PublicParams, items: Seq<BatchItem>) -> Seq<int> {
    Seq::new(items.len(), |j: int| batch_weight(pp, items, j))
}

/// (β_0, …, β_{m−1}): each item's own Π.IDEq challenge.
pub open spec fn batch_betas(pp: PublicParams, items: Seq<BatchItem>) -> Seq<int> {
    Seq::new(
        items.len(),
        |j: int| ideq_beta(pp, items[j].c0, items[j].c1, items[j].ctx@, items[j].proof.t),
    )
}

/// Position-wise products a[j]·b[j].
pub open spec fn products(a: Seq<int>, b: Seq<int>) -> Seq<int> {
    Seq::new(a.len(), |j: int| a[j] * b[j])
}

pub open spec fn z_vals(items: Seq<BatchItem>) -> Seq<int> {
    items.map_values(|it: BatchItem| it.proof.z_val@)
}

pub open spec fn z_rans(items: Seq<BatchItem>) -> Seq<int> {
    items.map_values(|it: BatchItem| it.proof.z_ran@)
}

pub open spec fn firsts(items: Seq<BatchItem>) -> Seq<int> {
    items.map_values(|it: BatchItem| it.proof.t@)
}

/// D_j = c0_j − c1_j, on discrete logs.
pub open spec fn differences(items: Seq<BatchItem>) -> Seq<int> {
    items.map_values(|it: BatchItem| it.c0.0@ - it.c1.0@)
}

/// The batched equation
/// Z_val·g_val + Z_ran·g_ran − Σ δ_j·t_j − Σ (δ_j·β_j)·D_j = 0,
/// with Z_val = Σ δ_j·z_val_j and Z_ran = Σ δ_j·z_ran_j.
pub open spec fn batch_equation(pp: PublicParams, items: Seq<BatchItem>, deltas: Seq<int>, betas: Seq<int>) -> bool {
    modl(
        inner_product_prefix(deltas, z_vals(items), items.len()) * pp.g_val@
            + inner_product_prefix(deltas, z_rans(items), items.len()) * pp.g_ran@
            - inner_product_prefix(deltas, firsts(items), items.len())
            - inner_product_prefix(products(deltas, betas), differences(items), items.len()),
    ) == 0
}

/// What the batch verifier accepts: the empty batch, or a batch whose
/// weighted equation holds.
pub open spec fn batch_accepts(pp: PublicParams, items: Seq<BatchItem>) -> bool {
    items.len() == 0 || batch_equation(pp, items, batch_weights(pp, items), batch_betas(pp, items))
}

/// Every context is short enough to be bound into a transcript.
pub open spec fn contexts_fit(items: Seq<BatchItem>) -> bool {
    forall|j: int| 0 <= j < items.len() ==> (#[trigger] items[j]).ctx@.len() <= u32::MAX
}

/// Factors that agree modulo ℓ give products that agree modulo ℓ.
proof fn lemma_congruent_product(s: int, u: int, p: int, v: int) -> (k: int)
    requires
        modl(s) == modl(u),
        modl(p) == modl(v),
    ensures
        s * p == u * v + group_order() * k,
{
    let l = group_order() as int;
    let (qs, qu) = (lemma_modl_quotient(s), lemma_modl_quotient(u));
    let (qp, qv) = (lemma_modl_quotient(p), lemma_modl_quotient(v));
    let (a, b) = (qs - qu, qp - qv);
    assert(s * p == u * p + l * (a * p)) by (nonlinear_arith)
        requires
            s == u + l * a,
    ;
    assert(u * p == u * v + l * (u * b)) by (nonlinear_arith)
        requires
            p == v + l * b,
    ;
    assert(a * p == a * v + l * (a * b)) by (nonlinear_arith)
        requires
            p == v + l * b,
    ;
    assert(l * (a * v + l * (a * b)) == l * (a * v) + l * (l * (a * b))) by (nonlinear_arith);
    assert(l * (a * v + u * b + l * a * b) == l * (a * v) + l * (u * b) + l * (l * (a * b))) by (nonlinear_arith);
    a * v + u * b + l * a * b
}

/// Slots 2k+2 and 2k+3 of (s, p) hold −a[k]·x[k] and −b[k]·y[k], modulo ℓ.
pub open spec fn interleaved_at(
    s: Seq<int>,
    p: Seq<int>,
    a: Seq<int>,
    x: Seq<int>,
    b: Seq<int>,
    y: Seq<int>,
    k: int,
) -> bool {
    &&& modl(s[2 * k + 2]) == modl(-a[k])
    &&& p[2 * k + 2] == x[k]
    &&& modl(s[2 * k + 3]) == modl(-b[k])
    &&& modl(p[2 * k + 3]) == modl(y[k])
}

/// A combination whose first two terms are followed by n interleaved pairs
/// is, modulo ℓ, the first two terms minus Σ a·x and Σ b·y.
proof fn lemma_interleaved(s: Seq<int>, p: Seq<int>, a: Seq<int>, x: Seq<int>, b: Seq<int>, y: Seq<int>, n: nat) -> (q: int)
    requires
        forall|k: int| 0 <= k < n ==> #[trigger] interleaved_at(s, p, a, x, b, y, k),
    ensures
        inner_product_prefix(s, p, (2 * n + 2) as nat) == s[0] * p[0] + s[1] * p[1] - inner_product_prefix(a, x, n)
            - inner_product_prefix(b, y, n) + group_order() * q,
    decreases n,
{
    if n == 0 {
        reveal_with_fuel(inner_product_prefix, 3);
        0
    } else {
        let m = (n - 1) as nat;
        let q0 = lemma_interleaved(s, p, a, x, b, y, m);
        assert(interleaved_at(s, p, a, x, b, y, m as int));
        let i = 2 * (m as int) + 2;
        let k1 = lemma_congruent_product(s[i], -a[m as int], p[i], x[m as int]);
        let k2 = lemma_congruent_product(s[i + 1], -b[m as int], p[i + 1], y[m as int]);
        assert(inner_product_prefix(s, p, (i + 2) as nat) == inner_product_prefix(s, p, (i + 1) as nat) + s[i + 1] * p[i + 1]);
        assert(inner_product_prefix(s, p, (i + 1) as nat) == inner_product_prefix(s, p, i as nat) + s[i] * p[i]);
        assert((-a[m as int]) * x[m as int] == -(a[m as int] * x[m as int])) by (nonlinear_arith);
        assert((-b[m as int]) * y[m as int] == -(b[m as int] * y[m as int])) by (nonlinear_arith);
        q0 + k1 + k2
    }
}

/// An item that passes its Π.IDEq check at β leaves a residual
/// z_val·g_val + z_ran·g_ran − t − β·D that is a multiple of ℓ.
proof fn lemma_item_residual(pp: PublicParams, it: BatchItem, beta: int) -> (k: int)
    requires
        ideq_check(pp, it.c0, it.c1, it.proof, beta),
    ensures
        it.proof.z_val@ * pp.g_val@ + it.proof.z_ran@ * pp.g_ran@ - it.proof.t@ - beta * (it.c0.0@ - it.c1.0@)
            == group_order() * k,
{
    reveal_with_fuel(inner_product_prefix, 3);
    let l = group_order() as int;
    let d = it.c0.0@ - it.c1.0@;
    let lhs = it.proof.z_val@ * pp.g_val@ + it.proof.z_ran@ * pp.g_ran@;
    let rhs = it.proof.t@ + beta * modl(d);
    assert(modl(lhs) == modl(rhs));
    let (ql, qr) = (lemma_modl_quotient(lhs), lemma_modl_quotient(rhs));
    let kd = lemma_modl_term(d, beta);
    assert(beta * modl(d) == modl(d) * beta && beta * d == d * beta) by (nonlinear_arith);
    assert(lhs - it.proof.t@ - beta * d == l * (ql - qr + kd)) by (nonlinear_arith)
        requires
            lhs - l * ql == rhs - l * qr,
            rhs == it.proof.t@ + beta * modl(d),
            beta * modl(d) == beta * d + l * kd,
    ;
    ql - qr + kd
}

/// When the first n items pass their checks, the first n terms of the batched
/// equation sum to a multiple of ℓ, whatever the weights.
proof fn lemma_batch_prefix(pp: PublicParams, items: Seq<BatchItem>, deltas: Seq<int>, betas: Seq<int>, n: nat) -> (k: int)
    requires
        n <= items.len(),
        deltas.len() == items.len(),
        betas.len() == items.len(),
        forall|j: int| 0 <= j < n ==> #[trigger] ideq_check(pp, items[j].c0, items[j].c1, items[j].proof, betas[j]),
    ensures
        inner_product_prefix(deltas, z_vals(items), n) * pp.g_val@ + inner_product_prefix(deltas, z_rans(items), n)
            * pp.g_ran@ - inner_product_prefix(deltas, firsts(items), n) - inner_product_prefix(
            products(deltas, betas),
            differences(items),
            n,
        ) == group_order() * k,
    decreases n,
{
    if n == 0 {
        0
    } else {
        let m = (n - 1) as nat;
        let k0 = lemma_batch_prefix(pp, items, deltas, betas, m);
        let j = m as int;
        let it = items[j];
        assert(ideq_check(pp, items[j].c0, items[j].c1, items[j].proof, betas[j]));
        let kr = lemma_item_residual(pp, it, betas[j]);
        let (gv, gr) = (pp.g_val@, pp.g_ran@);
        let (d, b) = (deltas[j], betas[j]);
        let (zv, zr, t, dd) = (it.proof.z_val@, it.proof.z_ran@, it.proof.t@, it.c0.0@ - it.c1.0@);
        assert(z_vals(items)[j] == zv && z_rans(items)[j] == zr && firsts(items)[j] == t);
        assert(differences(items)[j] == dd && products(deltas, betas)[j] == d * b);
        let (pv, pr, pt, pd) = (
            inner_product_prefix(deltas, z_vals(items), m),
            inner_product_prefix(deltas, z_rans(items), m),
            inner_product_prefix(deltas, firsts(items), m),
            inner_product_prefix(products(deltas, betas), differences(items), m),
        );
        let l = group_order() as int;
        let (ea, eb, ec) = (zv * gv, zr * gr, b * dd);
        assert((pv + d * zv) * gv == pv * gv + d * ea) by (nonlinear_arith)
            requires
                ea == zv * gv,
        ;
        assert((pr + d * zr) * gr == pr * gr + d * eb) by (nonlinear_arith)
            requires
                eb == zr * gr,
        ;
        assert((d * b) * dd == d * ec) by (nonlinear_arith)
            requires
                ec == b * dd,
        ;
        assert(d * ea + d * eb - d * t - d * ec == d * (ea + eb - t - ec)) by (nonlinear_arith);
        assert(d * (l * kr) == l * (d * kr)) by (nonlinear_arith);
        k0 + d * kr
    }
}

/// Batching is complete: if every item passes its own Π.IDEq verification,
/// the batch verifier accepts.
pub proof fn lemma_batch_complete(pp: PublicParams, items: Seq<BatchItem>)
    requires
        forall|j: int|
            0 <= j < items.len() ==> #[trigger] ideq_accepts(pp, items[j].c0, items[j].c1, items[j].ctx@, items[j].proof),
    ensures
        batch_accepts(pp, items),
{
    if items.len() > 0 {
        let (deltas, betas) = (batch_weights(pp, items), batch_betas(pp, items));
        assert forall|j: int| 0 <= j < items.len() implies #[trigger] ideq_check(
            pp,
            items[j].c0,
            items[j].c1,
            items[j].proof,
            betas[j],
        ) by {
            assert(ideq_accepts(pp, items[j].c0, items[j].c1, items[j].ctx@, items[j].proof));
        }
        let k = lemma_batch_prefix(pp, items, deltas, betas, items.len());
        let e = inner_product_prefix(deltas, z_vals(items), items.len()) * pp.g_val@ + inner_product_prefix(
            deltas,
            z_rans(items),
            items.len(),
        ) * pp.g_ran@ - inner_product_prefix(deltas, firsts(items), items.len()) - inner_product_prefix(
            products(deltas, betas),
            differences(items),
            items.len(),
        );
        lemma_modl_shift(e, 0, k);
        lemma_modl_small(0);
    }
}

/// An item's residual z_val·g_val + z_ran·g_ran − t − β·(c0 − c1).
pub open spec fn item_residual(pp: PublicParams, it: BatchItem, beta: int) -> int {
    it.proof.z_val@ * pp.g_val@ + it.proof.z_ran@ * pp.g_ran@ - it.proof.t@ - beta * (it.c0.0@ - it.c1.0@)
}

/// The residuals of all items, each at its own challenge.
pub open spec fn residuals(pp: PublicParams, items: Seq<BatchItem>, betas: Seq<int>) -> Seq<int> {
    Seq::new(items.len(), |j: int| item_residual(pp, items[j], betas[j]))
}

/// The first n terms of the batched equation are the weighted sum of the
/// first n residuals: Σ_{j<n} δ_j·e_j.
proof fn lemma_batch_sum(pp: PublicParams, items: Seq<BatchItem>, deltas: Seq<int>, betas: Seq<int>, n: nat)
    requires
        n <= items.len(),
        deltas.len() == items.len(),
        betas.len() == items.len(),
    ensures
        inner_product_prefix(deltas, z_vals(items), n) * pp.g_val@ + inner_product_prefix(deltas, z_rans(items), n)
            * pp.g_ran@ - inner_product_prefix(deltas, firsts(items), n) - inner_product_prefix(
            products(deltas, betas),
            differences(items),
            n,
        ) == inner_product_prefix(deltas, residuals(pp, items, betas), n),
    decreases n,
{
    if n > 0 {
        let m = (n - 1) as nat;
        lemma_batch_sum(pp, items, deltas, betas, m);
        let j = m as int;
        let it = items[j];
        let (gv, gr) = (pp.g_val@, pp.g_ran@);
        let (d, b) = (deltas[j], betas[j]);
        let (zv, zr, t, dd) = (it.proof.z_val@, it.proof.z_ran@, it.proof.t@, it.c0.0@ - it.c1.0@);
        assert(z_vals(items)[j] == zv && z_rans(items)[j] == zr && firsts(items)[j] == t);
        assert(differences(items)[j] == dd && products(deltas, betas)[j] == d * b);
        let e = residuals(pp, items, betas)[j];
        assert(e == zv * gv + zr * gr - t - b * dd);
        let (pv, pr) = (inner_product_prefix(deltas, z_vals(items), m), inner_product_prefix(deltas, z_rans(items), m));
        let (ea, eb, ec) = (zv * gv, zr * gr, b * dd);
        assert((pv + d * zv) * gv == pv * gv + d * ea) by (nonlinear_arith)
            requires
                ea == zv * gv,
        ;
        assert((pr + d * zr) * gr == pr * gr + d * eb) by (nonlinear_arith)
            requires
                eb == zr * gr,
        ;
        assert((d * b) * dd == d * ec) by (nonlinear_arith)
            requires
                ec == b * dd,
        ;
        assert(d * ea + d * eb - d * t - d * ec == d * (ea + eb - t - ec)) by (nonlinear_arith);
    }
}

/// A weighted sum over positions where b is 0 is 0.
proof fn lemma_sum_of_zeros(a: Seq<int>, b: Seq<int>, n: nat)
    requires
        forall|i: int| 0 <= i < n ==> #[trigger] b[i] == 0,
    ensures
        inner_product_prefix(a, b, n) == 0,
    decreases n,
{
    if n > 0 {
        lemma_sum_of_zeros(a, b, (n - 1) as nat);
        assert(b[n - 1] == 0);
        assert(a[n - 1] * b[n - 1] == 0) by (nonlinear_arith)
            requires
                b[n - 1] == 0,
        ;
    }
}

/// A weighted sum over positions where b is 0 but at j is a[j]·b[j].
proof fn lemma_sum_of_one(a: Seq<int>, b: Seq<int>, j: int, n: nat)
    requires
        0 <= j < n,
        forall|i: int| 0 <= i < n && i != j ==> #[trigger] b[i] == 0,
    ensures
        inner_product_prefix(a, b, n) == a[j] * b[j],
    decreases n,
{
    let m = (n - 1) as nat;
    if j == m {
        lemma_sum_of_zeros(a, b, m);
    } else {
        lemma_sum_of_one(a, b, j, m);
        assert(b[m as int] == 0);
        assert(a[m as int] * b[m as int] == 0) by (nonlinear_arith)
            requires
                b[m as int] == 0,
        ;
    }
}

/// One bad proof cannot hide among good ones: in a batch where every item but
/// the one at position j passes its own Π.IDEq verification, and j's weight is
/// invertible, the batch is accepted exactly when item j passes too.
pub proof fn lemma_batch_one_bad(pp: PublicParams, items: Seq<BatchItem>, j: int)
    requires
        0 <= j < items.len(),
        forall|i: int|
            0 <= i < items.len() && i != j ==> #[trigger] ideq_accepts(
                pp,
                items[i].c0,
                items[i].c1,
                items[i].ctx@,
                items[i].proof,
            ),
        invertible(batch_weight(pp, items, j)),
    ensures
        batch_accepts(pp, items) == ideq_accepts(pp, items[j].c0, items[j].c1, items[j].ctx@, items[j].proof),
{
    let n = items.len();
    let (deltas, betas) = (batch_weights(pp, items), batch_betas(pp, items));
    let r = residuals(pp, items, betas);
    let r1 = Seq::new(n, |i: int| if i == j { r[j] } else { 0 });
    lemma_batch_sum(pp, items, deltas, betas, n);
    lemma_modl_small(0);
    assert forall|i: int| 0 <= i < n implies modl(#[trigger] r[i]) == modl(r1[i]) by {
        if i != j {
            assert(ideq_accepts(pp, items[i].c0, items[i].c1, items[i].ctx@, items[i].proof));
            lemma_ideq_check_residual(pp, items[i].c0, items[i].c1, items[i].proof, betas[i]);
        }
    }
    crate::algebra::lemma_inner_product_modl_right(deltas, r, r1, n);
    lemma_sum_of_one(deltas, r1, j, n);
    lemma_ideq_check_residual(pp, items[j].c0, items[j].c1, items[j].proof, betas[j]);
    assert(deltas[j] == batch_weight(pp, items, j));
    lemma_modl_cancel(deltas[j], r[j]);
}

/// A batch of one item whose weight is invertible modulo ℓ is accepted exactly
/// when the item passes its own Π.IDEq verification.
pub proof fn lemma_batch_single(pp: PublicParams, items: Seq<BatchItem>)
    requires
        items.len() == 1,
        exists|inv: int| #[trigger] is_inverse(batch_weight(pp, items, 0), inv),
    ensures
        batch_accepts(pp, items) == ideq_accepts(pp, items[0].c0, items[0].c1, items[0].ctx@, items[0].proof),
{
    let it = items[0];
    let (deltas, betas) = (batch_weights(pp, items), batch_betas(pp, items));
    let (d, b) = (deltas[0], betas[0]);
    let inv = choose|inv: int| #[trigger] is_inverse(batch_weight(pp, items, 0), inv);
    let (gv, gr) = (pp.g_val@, pp.g_ran@);
    let (zv, zr, t, dd) = (it.proof.z_val@, it.proof.z_ran@, it.proof.t@, it.c0.0@ - it.c1.0@);
    let e = zv * gv + zr * gr - t - b * dd;
    assert(z_vals(items)[0] == zv && z_rans(items)[0] == zr && firsts(items)[0] == t);
    assert(differences(items)[0] == dd && products(deltas, betas)[0] == d * b);
    reveal_with_fuel(inner_product_prefix, 2);
    let big = inner_product_prefix(deltas, z_vals(items), 1) * gv + inner_product_prefix(deltas, z_rans(items), 1) * gr
        - inner_product_prefix(deltas, firsts(items), 1) - inner_product_prefix(products(deltas, betas), differences(items), 1);
    assert(big == (d * zv) * gv + (d * zr) * gr - d * t - (d * b) * dd);
    let (ea, eb, ec) = (zv * gv, zr * gr, b * dd);
    assert((d * zv) * gv == d * ea) by (nonlinear_arith)
        requires
            ea == zv * gv,
    ;
    assert((d * zr) * gr == d * eb) by (nonlinear_arith)
        requires
            eb == zr * gr,
    ;
    assert((d * b) * dd == d * ec) by (nonlinear_arith)
        requires
            ec == b * dd,
    ;
    assert(d * ea + d * eb - d * t - d * ec == d * (ea + eb - t - ec)) by (nonlinear_arith);
    lemma_ideq_check_residual(pp, it.c0, it.c1, it.proof, b);
    assert(ideq_accepts(pp, it.c0, it.c1, it.ctx@, it.proof) == ideq_check(pp, it.c0, it.c1, it.proof, b));
    // modl(δ·e) = 0 ⟺ modl(e) = 0, as δ is invertible
    crate::scalar::lemma_modl_mul(d, e);
    crate::scalar::lemma_modl_mul(inv, d * e);
    crate::scalar::lemma_modl_mul(d * inv, e);
    assert(inv * (d * e) == (d * inv) * e) by (nonlinear_arith);
    lemma_modl_small(0);
    assert(modl(e) == 0 ==> modl(d * e) == 0) by {
        assert(d * 0 == 0);
    }
    assert(modl(d * e) == 0 ==> modl(e) == 0) by {
        assert(inv * 0 == 0);
        assert(1 * e == e);
    }
}

/// The weights δ_0, …, δ_{m−1}: every item is bound into one transcript, then
/// m scalars are drawn from it under "delta".
pub fn weights(pp: &PublicParams, items: &[BatchItem]) -> (r: Vec<Scalar>)
    requires
        contexts_fit(items@),
    ensures
        r@.len() == items@.len(),
        forall|j: int| 0 <= j < r@.len() ==> #[trigger] r@[j]@ == batch_weight(*pp, items@, j),
{
    proof {
        reveal_strlit("IBC/v1/BatchVer");
        crate::transcript::lemma_label_fits("IBC/v1/BatchVer", 15);
    }
    let mut ch = Challenge::new("IBC/v1/BatchVer".as_bytes(), pp);
    let mut i: usize = 0;
    while i < items.len()
        invariant
            i <= items@.len(),
            contexts_fit(items@),
            ch@ == weights_log(*pp, items@.take(i as int)),
        decreases items@.len() - i,
    {
        let it = &items[i];
        assert(items@[i as int].ctx@.len() <= u32::MAX);
        let ghost before = ch@;
        ch = ch.point("c0".as_bytes(), &it.c0.0)
            .point("c1".as_bytes(), &it.c1.0)
            .bytes("ctx".as_bytes(), it.ctx)
            .point("t".as_bytes(), &it.proof.t)
            .scalar("zv".as_bytes(), &it.proof.z_val)
            .scalar("zr".as_bytes(), &it.proof.z_ran);
        proof {
            let next = items@.take(i + 1);
            assert(next.drop_last() =~= items@.take(i as int));
            assert(next.last() == items@[i as int]);
            assert(ch@ =~= before + item_ops(items@[i as int]));
            assert(ch@ =~= weights_log(*pp, next));
        }
        i += 1;
    }
    assert(items@.take(items@.len() as int) =~= items@);
    let mut out: Vec<Scalar> = Vec::new();
    let mut j: usize = 0;
    while j < items.len()
        invariant
            j <= items@.len(),
            out@.len() == j,
            ch@ == weights_log(*pp, items@) + delta_ops(j as nat),
            forall|k: int| 0 <= k < j ==> #[trigger] out@[k]@ == batch_weight(*pp, items@, k),
        decreases items@.len() - j,
    {
        let d = ch.challenge_scalar("delta".as_bytes());
        out.push(d);
        assert(delta_ops((j + 1) as nat) =~= delta_ops(j as nat).push(challenge_op("delta".spec_bytes())));
        j += 1;
    }
    out
}

/// Checks every Π.IDEq proof of the batch at once; the empty batch is accepted.
pub fn batch_verify(pp: &PublicParams, items: &[BatchItem]) -> (r: bool)
    requires
        contexts_fit(items@),
    ensures
        r == batch_accepts(*pp, items@),
{
    let m = items.len();
    if m == 0 {
        return true;
    }
    let ghost betas_v = batch_betas(*pp, items@);
    let mut betas: Vec<Scalar> = Vec::new();
    let mut ds: Vec<Point> = Vec::new();
    let mut i: usize = 0;
    while i < m
        invariant
            m == items@.len(),
            i <= m,
            contexts_fit(items@),
            betas_v == batch_betas(*pp, items@),
            betas@.len() == i,
            ds@.len() == i,
            forall|k: int| 0 <= k < i ==> #[trigger] betas@[k]@ == betas_v[k],
            forall|k: int| 0 <= k < i ==> #[trigger] ds@[k]@ == modl(differences(items@)[k]),
        decreases m - i,
    {
        let it = &items[i];
        assert(items@[i as int].ctx@.len() <= u32::MAX);
        let beta = ideq_challenge(pp, &it.c0, &it.c1, it.ctx, &it.proof.t);
        assert(beta@ == betas_v[i as int]);
        betas.push(beta);
        ds.push(it.c0.0.sub(&it.c1.0));
        i += 1;
    }
    let deltas = weights(pp, items);
    let ghost dv = batch_weights(*pp, items@);
    let mut z_val = Scalar::zero();
    let mut z_ran = Scalar::zero();
    let mut i: usize = 0;
    while i < m
        invariant
            m == items@.len(),
            i <= m,
            deltas@.len() == m,
            dv.len() == m,
            forall|k: int| 0 <= k < m ==> #[trigger] deltas@[k]@ == dv[k],
            z_val@ == modl(inner_product_prefix(dv, z_vals(items@), i as nat)),
            z_ran@ == modl(inner_product_prefix(dv, z_rans(items@), i as nat)),
        decreases m - i,
    {
        let it = &items[i];
        let ghost (pv, pr) = (
            inner_product_prefix(dv, z_vals(items@), i as nat),
            inner_product_prefix(dv, z_rans(items@), i as nat),
        );
        assert(deltas@[i as int]@ == dv[i as int]);
        z_val = z_val.add(&deltas[i].mul(&it.proof.z_val));
        z_ran = z_ran.add(&deltas[i].mul(&it.proof.z_ran));
        proof {
            lemma_modl_add(pv, dv[i as int] * it.proof.z_val@);
            lemma_modl_add(pr, dv[i as int] * it.proof.z_ran@);
            assert(z_vals(items@)[i as int] == it.proof.z_val@);
            assert(z_rans(items@)[i as int] == it.proof.z_ran@);
            assert(inner_product_prefix(dv, z_vals(items@), (i + 1) as nat) == pv + dv[i as int] * it.proof.z_val@);
            assert(inner_product_prefix(dv, z_rans(items@), (i + 1) as nat) == pr + dv[i as int] * it.proof.z_ran@);
        }
        i += 1;
    }
    let ghost (a, x, b, y) = (dv, firsts(items@), products(dv, betas_v), differences(items@));
    let mut scalars: Vec<Scalar> = vec![z_val, z_ran];
    let mut points: Vec<Point> = vec![pp.g_val, pp.g_ran];
    let mut i: usize = 0;
    while i < m
        invariant
            m == items@.len(),
            i <= m,
            deltas@.len() == m,
            betas@.len() == m,
            ds@.len() == m,
            dv.len() == m,
            betas_v.len() == m,
            a == dv,
            x == firsts(items@),
            b == products(dv, betas_v),
            y == differences(items@),
            forall|k: int| 0 <= k < m ==> #[trigger] deltas@[k]@ == dv[k],
            forall|k: int| 0 <= k < m ==> #[trigger] betas@[k]@ == betas_v[k],
            forall|k: int| 0 <= k < m ==> #[trigger] ds@[k]@ == modl(differences(items@)[k]),
            scalars@.len() == 2 * i + 2,
            points@.len() == 2 * i + 2,
            scalars@[0] == z_val,
            scalars@[1] == z_ran,
            points@[0] == pp.g_val,
            points@[1] == pp.g_ran,
            forall|k: int|
                0 <= k < i ==> #[trigger] interleaved_at(
                    scalar_values(scalars@),
                    point_values(points@),
                    a,
                    x,
                    b,
                    y,
                    k,
                ),
        decreases m - i,
    {
        let ghost (s_old, p_old) = (scalar_values(scalars@), point_values(points@));
        let ghost (d, be) = (deltas@[i as int]@, betas@[i as int]@);
        assert(deltas@[i as int]@ == dv[i as int] && betas@[i as int]@ == betas_v[i as int]);
        scalars.push(deltas[i].neg());
        points.push(items[i].proof.t);
        scalars.push(deltas[i].mul(&betas[i]).neg());
        points.push(ds[i]);
        proof {
            let (s, p) = (scalar_values(scalars@), point_values(points@));
            let j = i as int;
            assert forall|k: int| 0 <= k < i + 1 implies #[trigger] interleaved_at(s, p, a, x, b, y, k) by {
                if k < i {
                    assert(interleaved_at(s_old, p_old, a, x, b, y, k));
                    assert(s[2 * k + 2] == s_old[2 * k + 2] && s[2 * k + 3] == s_old[2 * k + 3]);
                    assert(p[2 * k + 2] == p_old[2 * k + 2] && p[2 * k + 3] == p_old[2 * k + 3]);
                } else {
                    assert(k == j);
                    lemma_modl_bound(-d);
                    lemma_modl_small(modl(-d));
                    assert(s[2 * k + 2] == modl(-d));
                    lemma_modl_bound(-modl(d * be));
                    lemma_modl_small(modl(-modl(d * be)));
                    lemma_modl_sub(0, d * be);
                    assert(s[2 * k + 3] == modl(-modl(d * be)));
                    assert(b[k] == d * be);
                    assert(p[2 * k + 2] == items@[k].proof.t@);
                    assert(x[k] == items@[k].proof.t@);
                    assert(p[2 * k + 3] == ds@[k]@);
                    lemma_modl_bound(y[k]);
                    lemma_modl_small(modl(y[k]));
                }
            }
        }
        i += 1;
    }
    let msm = Point::vartime_multiscalar_mul(scalars.as_slice(), points.as_slice());
    proof {
        let (s, p) = (scalar_values(scalars@), point_values(points@));
        let n = items@.len();
        let q = lemma_interleaved(s, p, a, x, b, y, n);
        let zv = inner_product_prefix(dv, z_vals(items@), n);
        let zr = inner_product_prefix(dv, z_rans(items@), n);
        let kv = lemma_modl_term(zv, pp.g_val@);
        let kr = lemma_modl_term(zr, pp.g_ran@);
        assert(s[0] == modl(zv) && s[1] == modl(zr) && p[0] == pp.g_val@ && p[1] == pp.g_ran@);
        let e = zv * pp.g_val@ + zr * pp.g_ran@ - inner_product_prefix(a, x, n) - inner_product_prefix(b, y, n);
        assert(s.len() == 2 * n + 2 && p.len() == 2 * n + 2);
        lemma_modl_shift(inner_product_prefix(s, p, (2 * n + 2) as nat), e, q + kv + kr);
    }
    msm.equals(&Point::identity())
}

} // verus!
