//! Π.MIDEq: n ≥ 2 commitments all carry one identity, in a proof of constant
//! size. Random weights γ_i, each hashed from all commitments and ctx, fold the
//! n − 1 differences c1 − ci into one target D = Σ γ_i·(c1 − ci), and a Σ proof
//! over (g_val, g_ran) shows that D has no identity term.
use crate::algebra::{
    inner_product, inner_product_prefix, lemma_inner_product_combine,
    lemma_inner_product_congruent, lemma_inner_product_cons, lemma_inner_product_modl_right,
    lemma_inner_product_scale,
};
use crate::commitment::{committed, lemma_commitment_difference, Commitment, Opening};
use crate::params::PublicParams;
use crate::point::{point_values, scalar_values, Point};
use crate::scalar::{
    group_order, invertible, lemma_modl_add, lemma_modl_affine_inner, lemma_modl_bound,
    lemma_modl_cancel, lemma_modl_eq_diff, lemma_modl_shift, lemma_modl_small, lemma_modl_term,
    modl, Scalar,
};
use crate::sigma::{
    lemma_sigma_complete, lemma_sigma_honest_sound, self, sigma_beta, sigma_holds, terms_value,
    SigmaProof,
};
use crate::transcript::{append_op, beta_of, params_log, point_op, Challenge, TranscriptOp};
use vstd::bytes::{spec_u64_to_le_bytes, u64_to_le_bytes};
use vstd::prelude::*;
use vstd::string::StringSliceAdditionalSpecFns;

verus! {

broadcast use crate::scalar::lemma_scalar_view_bound, crate::point::lemma_point_view_bound;

/// A Π.MIDEq proof: a Σ proof over the bases (g_val, g_ran).
pub struct MIDEqProof(pub SigmaProof);

/// Appending each commitment under "c", in order.
pub open spec fn commits_ops(cs: Seq<Commitment>) -> Seq<TranscriptOp>
    decreases cs.len(),
{
    if cs.len() == 0 {
        seq![]
    } else {
        commits_ops(cs.drop_last()).push(point_op("c".spec_bytes(), cs.last().0))
    }
}

/// The statement appended to the transcript: c1..cn, then ctx.
pub open spec fn mideq_statement(cs: Seq<Commitment>, ctx: Seq<u8>) -> Seq<TranscriptOp> {
    commits_ops(cs).push(append_op("ctx".spec_bytes(), ctx))
}

/// The transcript from which the weights are drawn.
pub open spec fn gamma_log(pp: PublicParams, cs: Seq<Commitment>, ctx: Seq<u8>) -> Seq<TranscriptOp> {
    params_log("IBC/v1/MIDEq-gamma".spec_bytes(), pp) + mideq_statement(cs, ctx)
}

/// The transcript of the Σ proof before t.
pub open spec fn mideq_log(pp: PublicParams, cs: Seq<Commitment>, ctx: Seq<u8>) -> Seq<TranscriptOp> {
    params_log("IBC/v1/MIDEq".spec_bytes(), pp) + mideq_statement(cs, ctx)
}

/// γ_i = H(ds_gamma, pp, c1..cn, ctx, i), for i = k + 2.
pub open spec fn gamma_value(pp: PublicParams, cs: Seq<Commitment>, ctx: Seq<u8>, k: int) -> int {
    beta_of(gamma_log(pp, cs, ctx).push(append_op("i".spec_bytes(), spec_u64_to_le_bytes((k + 2) as u64))))
}

/// The number of weights, one for each of c2..cn.
pub open spec fn n_weights(n: int) -> nat {
    if n >= 1 {
        (n - 1) as nat
    } else {
        0
    }
}

/// The weights γ_2..γ_n.
pub open spec fn gammas_of(pp: PublicParams, cs: Seq<Commitment>, ctx: Seq<u8>) -> Seq<int> {
    Seq::new(n_weights(cs.len() as int), |k: int| gamma_value(pp, cs, ctx, k))
}

/// The differences x1 − x_{k+2}.
pub open spec fn diffs(xs: Seq<int>) -> Seq<int> {
    Seq::new(n_weights(xs.len() as int), |k: int| xs[0] - xs[k + 1])
}

pub open spec fn commit_values(cs: Seq<Commitment>) -> Seq<int> {
    cs.map_values(|c: Commitment| c.0@)
}

pub open spec fn val_values(os: Seq<Opening>) -> Seq<int> {
    os.map_values(|o: Opening| o.val@)
}

pub open spec fn blinding_values(os: Seq<Opening>) -> Seq<int> {
    os.map_values(|o: Opening| o.blinding@)
}

/// The target D = Σ γ_i·(c1 − ci).
pub open spec fn mideq_target(pp: PublicParams, cs: Seq<Commitment>, ctx: Seq<u8>) -> int {
    modl(inner_product(gammas_of(pp, cs, ctx), diffs(commit_values(cs))))
}

/// What the verifier accepts: n ≥ 2 and two responses with
/// z0·g_val + z1·g_ran = t + β·D, β = H(ds, pp, c1..cn, ctx, t).
pub open spec fn mideq_accepts(pp: PublicParams, cs: Seq<Commitment>, ctx: Seq<u8>, proof: MIDEqProof) -> bool {
    &&& cs.len() >= 2
    &&& proof.0.z@.len() == 2
    &&& sigma_holds(
        seq![pp.g_val@, pp.g_ran@],
        mideq_target(pp, cs, ctx),
        proof.0.t@,
        scalar_values(proof.0.z@),
        sigma_beta(mideq_log(pp, cs, ctx), proof.0.t),
    )
}

/// Honest responses: the witness is (Σ γ_i·(v1 − vi), Σ γ_i·(r1 − ri)).
pub open spec fn mideq_responds(os: Seq<Opening>, gs: Seq<int>, beta: int, alpha_val: int, alpha_ran: int, z0: int, z1: int) -> bool {
    &&& z0 == modl(beta * inner_product(gs, diffs(val_values(os))) + alpha_val)
    &&& z1 == modl(beta * inner_product(gs, diffs(blinding_values(os))) + alpha_ran)
}

/// All openings carry the identity of the first, and each commitment is to its opening.
pub open spec fn same_identity_commitments(pp: PublicParams, cs: Seq<Commitment>, os: Seq<Opening>) -> bool {
    &&& cs.len() == os.len()
    &&& forall|i: int| 0 <= i < cs.len() ==> (#[trigger] cs[i]).0@ == committed(pp, os[i])
    &&& forall|i: int| 0 <= i < os.len() ==> (#[trigger] os[i]).id@ == os[0].id@
}

/// Completeness of Π.MIDEq: for commitments that share one identity, the
/// target D is the committed combination of value and blinding differences,
/// so honest responses pass, whatever the weights, masks and challenge.
pub proof fn lemma_mideq_complete(
    pp: PublicParams,
    cs: Seq<Commitment>,
    os: Seq<Opening>,
    gs: Seq<int>,
    proof: MIDEqProof,
    beta: int,
    alpha_val: int,
    alpha_ran: int,
)
    requires
        cs.len() >= 2,
        same_identity_commitments(pp, cs, os),
        gs.len() == cs.len() - 1,
        proof.0.z@.len() == 2,
        proof.0.t@ == modl(alpha_val * pp.g_val@ + alpha_ran * pp.g_ran@),
        mideq_responds(os, gs, beta, alpha_val, alpha_ran, proof.0.z@[0]@, proof.0.z@[1]@),
    ensures
        sigma_holds(
            seq![pp.g_val@, pp.g_ran@],
            modl(inner_product(gs, diffs(commit_values(cs)))),
            proof.0.t@,
            scalar_values(proof.0.z@),
            beta,
        ),
{
    let m = (cs.len() - 1) as nat;
    let (gv, gr) = (pp.g_val@, pp.g_ran@);
    let cd = diffs(commit_values(cs));
    let vd = diffs(val_values(os));
    let rd = diffs(blinding_values(os));
    let e = Seq::new(m, |k: int| vd[k] * gv + rd[k] * gr);
    assert forall|k: int| 0 <= k < m implies modl(#[trigger] cd[k]) == modl(e[k]) by {
        let (o0, ok) = (os[0], os[k + 1]);
        assert(cs[0].0@ == committed(pp, o0));
        assert(cs[k + 1].0@ == committed(pp, ok));
        assert(ok.id@ == o0.id@);
        lemma_commitment_difference(pp, o0.id@, o0.val@, o0.blinding@, ok.id@, ok.val@, ok.blinding@);
        assert((o0.id@ - ok.id@) * pp.g_iden@ == 0);
    }
    lemma_inner_product_modl_right(gs, cd, e, m);
    lemma_inner_product_combine(gs, e, vd, rd, gv, gr, m);
    let a = inner_product(gs, vd);
    let b = inner_product(gs, rd);
    reveal_with_fuel(inner_product_prefix, 3);
    let z = scalar_values(proof.0.z@);
    assert(z[0] == proof.0.z@[0]@);
    assert(z[1] == proof.0.z@[1]@);
    lemma_sigma_complete(
        seq![gv, gr],
        seq![a, b],
        seq![alpha_val, alpha_ran],
        z,
        modl(inner_product(gs, cd)),
        proof.0.t@,
        beta,
    );
}

pub open spec fn id_values(os: Seq<Opening>) -> Seq<int> {
    os.map_values(|o: Opening| o.id@)
}

/// Each commitment is the commitment to the opening at its position.
pub open spec fn commitments_to(pp: PublicParams, cs: Seq<Commitment>, os: Seq<Opening>) -> bool {
    &&& cs.len() == os.len()
    &&& forall|i: int| 0 <= i < cs.len() ==> (#[trigger] cs[i]).0@ == committed(pp, os[i])
}

/// An honest Π.MIDEq prover convinces exactly when the weighted identity
/// differences vanish: for an invertible challenge and a g_iden of invertible
/// log, honest responses pass against D = Σ γ_i·(c1 − ci) iff
/// Σ γ_i·(id1 − idi) ≡ 0.
pub proof fn lemma_mideq_honest_sound(
    pp: PublicParams,
    cs: Seq<Commitment>,
    os: Seq<Opening>,
    gs: Seq<int>,
    proof: MIDEqProof,
    beta: int,
    alpha_val: int,
    alpha_ran: int,
)
    requires
        cs.len() >= 2,
        commitments_to(pp, cs, os),
        gs.len() == cs.len() - 1,
        proof.0.z@.len() == 2,
        proof.0.t@ == modl(alpha_val * pp.g_val@ + alpha_ran * pp.g_ran@),
        mideq_responds(os, gs, beta, alpha_val, alpha_ran, proof.0.z@[0]@, proof.0.z@[1]@),
        invertible(beta),
        invertible(pp.g_iden@),
    ensures
        sigma_holds(
            seq![pp.g_val@, pp.g_ran@],
            modl(inner_product(gs, diffs(commit_values(cs)))),
            proof.0.t@,
            scalar_values(proof.0.z@),
            beta,
        ) <==> modl(inner_product(gs, diffs(id_values(os)))) == 0,
{
    let m = (cs.len() - 1) as nat;
    let (gi, gv, gr) = (pp.g_iden@, pp.g_val@, pp.g_ran@);
    let cd = diffs(commit_values(cs));
    let vd = diffs(val_values(os));
    let rd = diffs(blinding_values(os));
    let idd = diffs(id_values(os));
    let f = Seq::new(m, |k: int| vd[k] * gv + rd[k] * gr);
    let e = Seq::new(m, |k: int| idd[k] * gi + f[k] * 1);
    assert forall|k: int| 0 <= k < m implies modl(#[trigger] cd[k]) == modl(e[k]) by {
        let (o0, ok) = (os[0], os[k + 1]);
        assert(cs[0].0@ == committed(pp, o0));
        assert(cs[k + 1].0@ == committed(pp, ok));
        lemma_commitment_difference(pp, o0.id@, o0.val@, o0.blinding@, ok.id@, ok.val@, ok.blinding@);
    }
    lemma_inner_product_modl_right(gs, cd, e, m);
    lemma_inner_product_combine(gs, e, idd, f, gi, 1, m);
    lemma_inner_product_combine(gs, f, vd, rd, gv, gr, m);
    let a = inner_product(gs, vd);
    let b = inner_product(gs, rd);
    let i = inner_product(gs, idd);
    let x = a * gv + b * gr;
    reveal_with_fuel(inner_product_prefix, 3);
    let z = scalar_values(proof.0.z@);
    assert(z[0] == proof.0.z@[0]@);
    assert(z[1] == proof.0.z@[1]@);
    assert(inner_product(seq![a, b], seq![gv, gr]) == 0 + a * gv + b * gr);
    let u = modl(inner_product(gs, cd));
    lemma_sigma_honest_sound(seq![gv, gr], seq![a, b], seq![alpha_val, alpha_ran], z, u, proof.0.t@, beta);
    lemma_modl_bound(inner_product(gs, cd));
    lemma_modl_small(u);
    assert(inner_product(gs, e) == i * gi + x);
    lemma_modl_eq_diff(i * gi + x, x);
    assert(i * gi == gi * i) by (nonlinear_arith);
    lemma_modl_cancel(gi, i);
}

/// What the Π.MIDEq verifier accepts of an honest proof: for an invertible
/// challenge and a g_iden of invertible log, acceptance is exactly
/// Σ γ_i·(id1 − idi) ≡ 0 under the weights drawn from the commitments.
pub proof fn lemma_mideq_accepts_honest(
    pp: PublicParams,
    cs: Seq<Commitment>,
    os: Seq<Opening>,
    ctx: Seq<u8>,
    proof: MIDEqProof,
    alpha_val: int,
    alpha_ran: int,
)
    requires
        cs.len() >= 2,
        commitments_to(pp, cs, os),
        proof.0.z@.len() == 2,
        proof.0.t@ == modl(alpha_val * pp.g_val@ + alpha_ran * pp.g_ran@),
        mideq_responds(
            os,
            gammas_of(pp, cs, ctx),
            sigma_beta(mideq_log(pp, cs, ctx), proof.0.t),
            alpha_val,
            alpha_ran,
            proof.0.z@[0]@,
            proof.0.z@[1]@,
        ),
        invertible(sigma_beta(mideq_log(pp, cs, ctx), proof.0.t)),
        invertible(pp.g_iden@),
    ensures
        mideq_accepts(pp, cs, ctx, proof) <==> modl(inner_product(gammas_of(pp, cs, ctx), diffs(id_values(os)))) == 0,
{
    lemma_mideq_honest_sound(
        pp,
        cs,
        os,
        gammas_of(pp, cs, ctx),
        proof,
        sigma_beta(mideq_log(pp, cs, ctx), proof.0.t),
        alpha_val,
        alpha_ran,
    );
}

/// With two commitments and an invertible weight γ_2, an honest Π.MIDEq proof
/// is accepted exactly when the two commitments carry the same identity.
pub proof fn lemma_mideq_pair_honest_sound(
    pp: PublicParams,
    cs: Seq<Commitment>,
    os: Seq<Opening>,
    ctx: Seq<u8>,
    proof: MIDEqProof,
    alpha_val: int,
    alpha_ran: int,
)
    requires
        cs.len() == 2,
        commitments_to(pp, cs, os),
        proof.0.z@.len() == 2,
        proof.0.t@ == modl(alpha_val * pp.g_val@ + alpha_ran * pp.g_ran@),
        mideq_responds(
            os,
            gammas_of(pp, cs, ctx),
            sigma_beta(mideq_log(pp, cs, ctx), proof.0.t),
            alpha_val,
            alpha_ran,
            proof.0.z@[0]@,
            proof.0.z@[1]@,
        ),
        invertible(sigma_beta(mideq_log(pp, cs, ctx), proof.0.t)),
        invertible(pp.g_iden@),
        invertible(gammas_of(pp, cs, ctx)[0]),
    ensures
        mideq_accepts(pp, cs, ctx, proof) <==> os[0].id@ == os[1].id@,
{
    lemma_mideq_accepts_honest(pp, cs, os, ctx, proof, alpha_val, alpha_ran);
    let gs = gammas_of(pp, cs, ctx);
    let idd = diffs(id_values(os));
    reveal_with_fuel(inner_product_prefix, 2);
    assert(idd[0] == os[0].id@ - os[1].id@);
    assert(inner_product(gs, idd) == 0 + gs[0] * idd[0]);
    lemma_modl_cancel(gs[0], idd[0]);
    lemma_modl_eq_diff(os[0].id@, os[1].id@);
    lemma_modl_small(os[0].id@);
    lemma_modl_small(os[1].id@);
}

/// The (scalar, point) terms [(Σγ, c1), (−γ_2, c2), …, (−γ_n, cn)] sum to
/// Σ γ_i·(c1 − ci).
pub proof fn lemma_target_terms(gs: Seq<int>, s: int, negs: Seq<int>, c0: int, rest: Seq<int>)
    requires
        negs.len() == gs.len(),
        rest.len() == gs.len(),
        s == modl(inner_product(gs, Seq::new(gs.len(), |k: int| 1int))),
        forall|k: int| 0 <= k < gs.len() ==> #[trigger] negs[k] == modl(-gs[k]),
    ensures
        modl(inner_product(seq![s] + negs, seq![c0] + rest)) == modl(
            inner_product(gs, Seq::new(gs.len(), |k: int| c0 - rest[k])),
        ),
{
    let m = gs.len();
    let ones = Seq::new(m, |k: int| 1int);
    let cd = Seq::new(m, |k: int| c0 - rest[k]);
    let raw = Seq::new(m, |k: int| -gs[k]);
    lemma_inner_product_cons(s, negs, c0, rest, m);
    assert((seq![s] + negs).len() == m + 1);
    assert forall|k: int| 0 <= k < m implies modl(#[trigger] negs[k]) == modl(raw[k]) by {
        lemma_modl_bound(raw[k]);
        lemma_modl_small(modl(raw[k]));
    }
    let k2 = lemma_inner_product_congruent(negs, raw, rest, m);
    lemma_inner_product_scale(raw, gs, rest, -1, m);
    let x = inner_product(gs, ones);
    let k1 = lemma_modl_term(x, c0);
    assert forall|k: int| 0 <= k < m implies #[trigger] cd[k] == ones[k] * c0 + rest[k] * (-1) by {
        assert(ones[k] == 1);
    }
    lemma_inner_product_combine(gs, cd, ones, rest, c0, -1, m);
    let total = s * c0 + inner_product_prefix(negs, rest, m);
    assert(total == (x * c0 - inner_product(gs, rest)) + group_order() * (k1 + k2));
    lemma_modl_shift(total, x * c0 - inner_product(gs, rest), k1 + k2);
}

/// Appends the statement (c1..cn, ctx) to a transcript.
pub fn bind(ch: Challenge, commits: &[Commitment], ctx: &[u8]) -> (r: Challenge)
    requires
        ctx@.len() <= u32::MAX,
    ensures
        r@ == ch@ + mideq_statement(commits@, ctx@),
{
    let ghost start = ch@;
    let mut ch = ch;
    let mut i: usize = 0;
    while i < commits.len()
        invariant
            i <= commits@.len(),
            ch@ == start + commits_ops(commits@.subrange(0, i as int)),
        decreases commits@.len() - i,
    {
        ch = ch.point("c".as_bytes(), &commits[i].0);
        proof {
            let s = commits@.subrange(0, i + 1);
            assert(s.drop_last() =~= commits@.subrange(0, i as int));
            assert(ch@ =~= start + commits_ops(s));
        }
        i += 1;
    }
    assert(commits@.subrange(0, commits@.len() as int) =~= commits@);
    let r = ch.bytes("ctx".as_bytes(), ctx);
    assert(r@ =~= start + mideq_statement(commits@, ctx@));
    r
}

/// The weights γ_2..γ_n, each from the shared transcript state plus its index.
pub fn gammas(pp: &PublicParams, commits: &[Commitment], ctx: &[u8]) -> (r: Vec<Scalar>)
    requires
        ctx@.len() <= u32::MAX,
    ensures
        scalar_values(r@) == gammas_of(*pp, commits@, ctx@),
{
    proof {
        reveal_strlit("IBC/v1/MIDEq-gamma");
        crate::transcript::lemma_label_fits("IBC/v1/MIDEq-gamma", 18);
    }
    let base = bind(Challenge::new("IBC/v1/MIDEq-gamma".as_bytes(), pp), commits, ctx);
    let n = commits.len();
    let m = if n >= 1 {
        n - 1
    } else {
        0
    };
    let ghost cs = commits@;
    let mut out: Vec<Scalar> = Vec::new();
    let mut k: usize = 0;
    while k < m
        invariant
            m == n_weights(cs.len() as int),
            n == cs.len(),
            k <= m,
            base@ == gamma_log(*pp, cs, ctx@),
            out@.len() == k,
            forall|j: int| 0 <= j < k ==> (#[trigger] out@[j])@ == gamma_value(*pp, cs, ctx@, j),
        decreases m - k,
    {
        let idx = u64_to_le_bytes((k + 2) as u64);
        let g = base.clone().bytes("i".as_bytes(), idx.as_slice()).finish();
        out.push(g);
        k += 1;
    }
    assert(scalar_values(out@) =~= gammas_of(*pp, commits@, ctx@));
    out
}

/// The target D as (scalar, point) terms: (Σγ_i, c1), then (−γ_i, ci).
fn target_d(pp: &PublicParams, commits: &[Commitment], ctx: &[u8]) -> (r: Vec<(Scalar, Point)>)
    requires
        commits@.len() >= 1,
        ctx@.len() <= u32::MAX,
    ensures
        terms_value(r@) == mideq_target(*pp, commits@, ctx@),
{
    let g = gammas(pp, commits, ctx);
    let ghost gs = gammas_of(*pp, commits@, ctx@);
    let ghost ones = Seq::new(gs.len(), |k: int| 1int);
    let mut sum = Scalar::zero();
    proof {
        lemma_modl_small(0);
    }
    let mut k: usize = 0;
    while k < g.len()
        invariant
            k <= g@.len(),
            gs == scalar_values(g@),
            ones == Seq::new(gs.len(), |k: int| 1int),
            sum@ == modl(inner_product_prefix(gs, ones, k as nat)),
        decreases g@.len() - k,
    {
        let next = sum.add(&g[k]);
        proof {
            lemma_modl_add(inner_product_prefix(gs, ones, k as nat), gs[k as int]);
            assert(gs[k as int] == g@[k as int]@);
            assert(ones[k as int] == 1);
        }
        sum = next;
        k += 1;
    }
    let mut terms: Vec<(Scalar, Point)> = Vec::new();
    terms.push((sum, commits[0].0));
    let mut j: usize = 0;
    while j < g.len()
        invariant
            j <= g@.len(),
            g@.len() + 1 == commits@.len(),
            gs == scalar_values(g@),
            terms@.len() == j + 1,
            terms@[0] == (sum, commits@[0].0),
            forall|t: int| 0 <= t < j ==> (#[trigger] terms@[t + 1]).0@ == modl(-gs[t]),
            forall|t: int| 0 <= t < j ==> (#[trigger] terms@[t + 1]).1 == commits@[t + 1].0,
        decreases g@.len() - j,
    {
        let neg = g[j].neg();
        proof {
            assert(gs[j as int] == g@[j as int]@);
        }
        terms.push((neg, commits[j + 1].0));
        j += 1;
    }
    proof {
        let m = gs.len();
        let svals = terms@.map_values(|x: (Scalar, Point)| x.0@);
        let pvals = terms@.map_values(|x: (Scalar, Point)| x.1@);
        let negs = Seq::new(m, |t: int| svals[t + 1]);
        let cv = commit_values(commits@);
        let rest = Seq::new(m, |t: int| cv[t + 1]);
        assert(svals =~= seq![sum@] + negs);
        assert(pvals =~= seq![cv[0]] + rest);
        assert forall|t: int| 0 <= t < m implies #[trigger] negs[t] == modl(-gs[t]) by {
            assert(terms@[t + 1].0@ == modl(-gs[t]));
        }
        assert(inner_product(gs, ones) == inner_product_prefix(gs, ones, k as nat));
        lemma_target_terms(gs, sum@, negs, cv[0], rest);
        assert(Seq::new(gs.len(), |t: int| cv[0] - rest[t]) =~= diffs(cv));
    }
    terms
}

/// The domain of Π.MIDEq transcripts, checked short enough for merlin.
pub fn domain() -> (r: &'static [u8])
    ensures
        r@ == "IBC/v1/MIDEq".spec_bytes(),
        r@.len() <= u32::MAX,
{
    proof {
        reveal_strlit("IBC/v1/MIDEq");
        crate::transcript::lemma_label_fits("IBC/v1/MIDEq", 12);
    }
    "IBC/v1/MIDEq".as_bytes()
}

impl MIDEqProof {
    /// The non-interactive proof that all commitments carry one identity.
    pub fn prove(pp: &PublicParams, commits: &[Commitment], openings: &[Opening], ctx: &[u8]) -> (r: MIDEqProof)
        requires
            commits@.len() == openings@.len(),
            commits@.len() >= 2,
            ctx@.len() <= u32::MAX,
        ensures
            r.0.z@.len() == 2,
            exists|alpha_val: int, alpha_ran: int|
                {
                    &&& r.0.t@ == modl(alpha_val * pp.g_val@ + alpha_ran * pp.g_ran@)
                    &&& #[trigger] mideq_responds(
                        openings@,
                        gammas_of(*pp, commits@, ctx@),
                        sigma_beta(mideq_log(*pp, commits@, ctx@), r.0.t),
                        alpha_val,
                        alpha_ran,
                        r.0.z@[0]@,
                        r.0.z@[1]@,
                    )
                },
            same_identity_commitments(*pp, commits@, openings@) ==> mideq_accepts(*pp, commits@, ctx@, r),
            commitments_to(*pp, commits@, openings@) && invertible(sigma_beta(mideq_log(*pp, commits@, ctx@), r.0.t))
                && invertible(pp.g_iden@) ==> (mideq_accepts(*pp, commits@, ctx@, r) <==> modl(
                inner_product(gammas_of(*pp, commits@, ctx@), diffs(id_values(openings@))),
            ) == 0),
    {
        let g = gammas(pp, commits, ctx);
        let ghost gs = gammas_of(*pp, commits@, ctx@);
        let ghost vd = diffs(val_values(openings@));
        let ghost rd = diffs(blinding_values(openings@));
        assert(scalar_values(g@).len() == g@.len());
        let o1 = &openings[0];
        let mut dv = Scalar::zero();
        let mut dr = Scalar::zero();
        proof {
            lemma_modl_small(0);
        }
        let mut k: usize = 0;
        while k < g.len()
            invariant
                k <= g@.len(),
                g@.len() + 1 == openings@.len(),
                gs == scalar_values(g@),
                *o1 == openings@[0],
                vd == diffs(val_values(openings@)),
                rd == diffs(blinding_values(openings@)),
                dv@ == modl(inner_product_prefix(gs, vd, k as nat)),
                dr@ == modl(inner_product_prefix(gs, rd, k as nat)),
            decreases g@.len() - k,
        {
            let oi = &openings[k + 1];
            let nv = dv.add(&g[k].mul(&o1.val.sub(&oi.val)));
            let nr = dr.add(&g[k].mul(&o1.blinding.sub(&oi.blinding)));
            proof {
                let gk = g@[k as int]@;
                assert(gs[k as int] == gk);
                assert(vd[k as int] == o1.val@ - oi.val@);
                assert(rd[k as int] == o1.blinding@ - oi.blinding@);
                crate::scalar::lemma_modl_accumulate(inner_product_prefix(gs, vd, k as nat), gk, o1.val@ - oi.val@);
                crate::scalar::lemma_modl_accumulate(inner_product_prefix(gs, rd, k as nat), gk, o1.blinding@ - oi.blinding@);
            }
            dv = nv;
            dr = nr;
            k += 1;
        }
        let bases = vec![pp.g_val, pp.g_ran];
        let witness = vec![dv, dr];
        let bind_statement = |ch: Challenge| -> (r: Challenge)
            requires
                ctx@.len() <= u32::MAX,
            ensures
                r@ == ch@ + mideq_statement(commits@, ctx@),
            { bind(ch, commits, ctx) };
        let ghost f = bind_statement;
        let sp = sigma::prove(pp, domain(), bases.as_slice(), witness.as_slice(), bind_statement);
        let r = MIDEqProof(sp);
        proof {
            let (alphas, ch_in, ch_out) = choose|alphas: Seq<int>, ch_in: Challenge, ch_out: Challenge|
                {
                    &&& alphas.len() == bases@.len()
                    &&& ch_in@ == params_log("IBC/v1/MIDEq".spec_bytes(), *pp)
                    &&& call_ensures(f, (ch_in,), ch_out)
                    &&& sp.t@ == modl(inner_product(alphas, point_values(bases@)))
                    &&& forall|i: int|
                        0 <= i < bases@.len() ==> (#[trigger] sp.z@[i])@ == modl(
                            sigma_beta(ch_out@, sp.t) * witness@[i]@ + alphas[i],
                        )
                };
            assert(ch_out@ == mideq_log(*pp, commits@, ctx@));
            let beta = sigma_beta(ch_out@, sp.t);
            reveal_with_fuel(inner_product_prefix, 3);
            assert(point_values(bases@) =~= seq![pp.g_val@, pp.g_ran@]);
            assert(sp.z@[0]@ == modl(beta * witness@[0]@ + alphas[0]));
            assert(sp.z@[1]@ == modl(beta * witness@[1]@ + alphas[1]));
            assert(inner_product(gs, vd) == inner_product_prefix(gs, vd, k as nat));
            assert(inner_product(gs, rd) == inner_product_prefix(gs, rd, k as nat));
            lemma_modl_affine_inner(beta, inner_product(gs, vd), alphas[0]);
            lemma_modl_affine_inner(beta, inner_product(gs, rd), alphas[1]);
            assert(r.0.t@ == modl(alphas[0] * pp.g_val@ + alphas[1] * pp.g_ran@));
            assert(mideq_responds(openings@, gs, beta, alphas[0], alphas[1], r.0.z@[0]@, r.0.z@[1]@));
            if same_identity_commitments(*pp, commits@, openings@) {
                lemma_mideq_complete(*pp, commits@, openings@, gs, r, beta, alphas[0], alphas[1]);
            }
            if commitments_to(*pp, commits@, openings@) && invertible(beta) && invertible(pp.g_iden@) {
                lemma_mideq_accepts_honest(*pp, commits@, openings@, ctx@, r, alphas[0], alphas[1]);
            }
        }
        r
    }

    /// Rebuilds D from the commitments and checks the Σ proof against it.
    pub fn verify(&self, pp: &PublicParams, commits: &[Commitment], ctx: &[u8]) -> (r: bool)
        requires
            ctx@.len() <= u32::MAX,
        ensures
            r == mideq_accepts(*pp, commits@, ctx@, *self),
    {
        if commits.len() < 2 {
            return false;
        }
        let d = target_d(pp, commits, ctx);
        let bases = vec![pp.g_val, pp.g_ran];
        let bind_statement = |ch: Challenge| -> (r: Challenge)
            requires
                ctx@.len() <= u32::MAX,
            ensures
                r@ == ch@ + mideq_statement(commits@, ctx@),
            { bind(ch, commits, ctx) };
        let ghost f = bind_statement;
        let r = sigma::verify_terms(pp, domain(), bases.as_slice(), d.as_slice(), &self.0, bind_statement);
        proof {
            assert(point_values(bases@) =~= seq![pp.g_val@, pp.g_ran@]);
            if self.0.z@.len() == 2 {
                let (ch_in, ch_out) = choose|ch_in: Challenge, ch_out: Challenge|
                    {
                        &&& ch_in@ == params_log("IBC/v1/MIDEq".spec_bytes(), *pp)
                        &&& call_ensures(f, (ch_in,), ch_out)
                        &&& r == sigma_holds(
                            point_values(bases@),
                            terms_value(d@),
                            self.0.t@,
                            scalar_values(self.0.z@),
                            sigma_beta(ch_out@, self.0.t),
                        )
                    };
                assert(ch_out@ == mideq_log(*pp, commits@, ctx@));
            }
        }
        r
    }
}

} // verus!
