//! Π.IDEq: two commitments carry the same identity. The prover shows it knows
//! (Δval, Δblinding) with c0 − c1 = Δval·g_val + Δblinding·g_ran, which leaves
//! no room for an identity term.
use crate::algebra::{inner_product, inner_product_prefix};
use crate::commitment::{committed, lemma_commitment_difference, Commitment, Opening};
use crate::params::PublicParams;
use crate::point::Point;
use crate::scalar::{
    invertible, lemma_modl_add, lemma_modl_affine, lemma_modl_bound, lemma_modl_cancel,
    lemma_modl_eq_diff, lemma_modl_small, modl, Scalar,
};
use crate::sigma::{lemma_sigma_complete, lemma_sigma_honest_sound, sigma_beta, sigma_holds};
use crate::transcript::{append_op, params_log, point_op, Challenge, TranscriptOp};
use vstd::prelude::*;
use vstd::string::StringSliceAdditionalSpecFns;

verus! {

broadcast use crate::scalar::lemma_scalar_view_bound, crate::point::lemma_point_view_bound;

/// A Π.IDEq proof: the first message and the two responses.
pub struct IdEqProof {
    pub t: Point,
    pub z_val: Scalar,
    pub z_ran: Scalar,
}

/// The transcript of Π.IDEq before t: domain, parameters, c0, c1, ctx.
pub open spec fn ideq_log(pp: PublicParams, c0: Commitment, c1: Commitment, ctx: Seq<u8>) -> Seq<TranscriptOp> {
    params_log("IBC/v1/IDEq".spec_bytes(), pp) + seq![
        point_op("c0".spec_bytes(), c0.0),
        point_op("c1".spec_bytes(), c1.0),
        append_op("ctx".spec_bytes(), ctx),
    ]
}

/// The Fiat–Shamir challenge β = H(ds, pp, c0, c1, ctx, t).
pub open spec fn ideq_beta(pp: PublicParams, c0: Commitment, c1: Commitment, ctx: Seq<u8>, t: Point) -> int {
    sigma_beta(ideq_log(pp, c0, c1, ctx), t)
}

/// The check z_val·g_val + z_ran·g_ran = t + β·(c0 − c1).
pub open spec fn ideq_check(pp: PublicParams, c0: Commitment, c1: Commitment, proof: IdEqProof, beta: int) -> bool {
    sigma_holds(
        seq![pp.g_val@, pp.g_ran@],
        modl(c0.0@ - c1.0@),
        proof.t@,
        seq![proof.z_val@, proof.z_ran@],
        beta,
    )
}

/// What the non-interactive verifier accepts.
pub open spec fn ideq_accepts(pp: PublicParams, c0: Commitment, c1: Commitment, ctx: Seq<u8>, proof: IdEqProof) -> bool {
    ideq_check(pp, c0, c1, proof, ideq_beta(pp, c0, c1, ctx, proof.t))
}

/// Honest responses for masks (αv, αr) and challenge β on openings o0, o1.
pub open spec fn ideq_responds(o0: Opening, o1: Opening, beta: int, alpha_val: int, alpha_ran: int, z_val: int, z_ran: int) -> bool {
    &&& z_val == modl(beta * (o0.val@ - o1.val@) + alpha_val)
    &&& z_ran == modl(beta * (o0.blinding@ - o1.blinding@) + alpha_ran)
}

/// Completeness of Π.IDEq: honest responses for two commitments with the
/// same identity pass the check, whatever the masks and the challenge.
pub proof fn lemma_ideq_complete(
    pp: PublicParams,
    c0: Commitment,
    c1: Commitment,
    o0: Opening,
    o1: Opening,
    proof: IdEqProof,
    beta: int,
    alpha_val: int,
    alpha_ran: int,
)
    requires
        c0.0@ == committed(pp, o0),
        c1.0@ == committed(pp, o1),
        o0.id@ == o1.id@,
        proof.t@ == modl(alpha_val * pp.g_val@ + alpha_ran * pp.g_ran@),
        ideq_responds(o0, o1, beta, alpha_val, alpha_ran, proof.z_val@, proof.z_ran@),
    ensures
        ideq_check(pp, c0, c1, proof, beta),
{
    let bases = seq![pp.g_val@, pp.g_ran@];
    let w = seq![o0.val@ - o1.val@, o0.blinding@ - o1.blinding@];
    let al = seq![alpha_val, alpha_ran];
    let z = seq![proof.z_val@, proof.z_ran@];
    reveal_with_fuel(inner_product_prefix, 3);
    lemma_commitment_difference(pp, o0.id@, o0.val@, o0.blinding@, o1.id@, o1.val@, o1.blinding@);
    assert((o0.id@ - o1.id@) * pp.g_iden@ == 0);
    lemma_sigma_complete(bases, w, al, z, modl(c0.0@ - c1.0@), proof.t@, beta);
}

/// An honest Π.IDEq prover convinces exactly when the statement is true: for
/// an invertible challenge and a g_iden of invertible log, honest responses
/// pass the check iff the two commitments carry the same identity.
pub proof fn lemma_ideq_honest_sound(
    pp: PublicParams,
    c0: Commitment,
    c1: Commitment,
    o0: Opening,
    o1: Opening,
    proof: IdEqProof,
    beta: int,
    alpha_val: int,
    alpha_ran: int,
)
    requires
        c0.0@ == committed(pp, o0),
        c1.0@ == committed(pp, o1),
        proof.t@ == modl(alpha_val * pp.g_val@ + alpha_ran * pp.g_ran@),
        ideq_responds(o0, o1, beta, alpha_val, alpha_ran, proof.z_val@, proof.z_ran@),
        invertible(beta),
        invertible(pp.g_iden@),
    ensures
        ideq_check(pp, c0, c1, proof, beta) <==> o0.id@ == o1.id@,
{
    reveal_with_fuel(inner_product_prefix, 3);
    let (gi, gv, gr) = (pp.g_iden@, pp.g_val@, pp.g_ran@);
    let w = seq![o0.val@ - o1.val@, o0.blinding@ - o1.blinding@];
    let rest = (o0.val@ - o1.val@) * gv + (o0.blinding@ - o1.blinding@) * gr;
    let u = modl(c0.0@ - c1.0@);
    lemma_sigma_honest_sound(
        seq![gv, gr],
        w,
        seq![alpha_val, alpha_ran],
        seq![proof.z_val@, proof.z_ran@],
        u,
        proof.t@,
        beta,
    );
    assert(inner_product(w, seq![gv, gr]) == 0 + (o0.val@ - o1.val@) * gv + (o0.blinding@ - o1.blinding@) * gr);
    lemma_commitment_difference(pp, o0.id@, o0.val@, o0.blinding@, o1.id@, o1.val@, o1.blinding@);
    lemma_modl_bound(c0.0@ - c1.0@);
    lemma_modl_small(u);
    // modl(Δid·g_iden + rest) = modl(rest) exactly when Δid·g_iden ≡ 0
    lemma_modl_eq_diff((o0.id@ - o1.id@) * gi + rest, rest);
    assert((o0.id@ - o1.id@) * gi == gi * (o0.id@ - o1.id@)) by (nonlinear_arith);
    lemma_modl_cancel(gi, o0.id@ - o1.id@);
    lemma_modl_eq_diff(o0.id@, o1.id@);
    lemma_modl_small(o0.id@);
    lemma_modl_small(o1.id@);
}

/// The Π.IDEq check at β holds exactly when the residual
/// z_val·g_val + z_ran·g_ran − t − β·(c0 − c1) vanishes modulo ℓ.
pub proof fn lemma_ideq_check_residual(pp: PublicParams, c0: Commitment, c1: Commitment, proof: IdEqProof, beta: int)
    ensures
        ideq_check(pp, c0, c1, proof, beta) <==> modl(
            proof.z_val@ * pp.g_val@ + proof.z_ran@ * pp.g_ran@ - proof.t@ - beta * (c0.0@ - c1.0@),
        ) == 0,
{
    reveal_with_fuel(inner_product_prefix, 3);
    let d = c0.0@ - c1.0@;
    let lhs = proof.z_val@ * pp.g_val@ + proof.z_ran@ * pp.g_ran@;
    let rhs = proof.t@ + beta * d;
    assert(inner_product(seq![proof.z_val@, proof.z_ran@], seq![pp.g_val@, pp.g_ran@]) == lhs);
    crate::scalar::lemma_modl_mul(beta, d);
    lemma_modl_add(proof.t@, beta * modl(d));
    lemma_modl_add(proof.t@, beta * d);
    assert(modl(proof.t@ + beta * modl(d)) == modl(rhs));
    lemma_modl_eq_diff(lhs, rhs);
    assert(lhs - rhs == lhs - proof.t@ - beta * d);
}

/// Fiat–Shamir is the interactive protocol at the recomputed challenge: the
/// non-interactive verifier accepts exactly what `check` accepts at the β that
/// `challenge` computes.
pub proof fn lemma_ideq_fiat_shamir(
    pp: PublicParams,
    c0: Commitment,
    c1: Commitment,
    ctx: Seq<u8>,
    proof: IdEqProof,
    beta: int,
)
    requires
        beta == ideq_beta(pp, c0, c1, ctx, proof.t),
    ensures
        ideq_accepts(pp, c0, c1, ctx, proof) == ideq_check(pp, c0, c1, proof, beta),
{
}

/// Round 1: fresh masks (αv, αr) and t = αv·g_val + αr·g_ran.
pub fn commit(pp: &PublicParams) -> (r: ((Scalar, Scalar), Point))
    ensures
        r.1@ == modl(r.0.0@ * pp.g_val@ + r.0.1@ * pp.g_ran@),
{
    let alpha_val = Scalar::random();
    let alpha_ran = Scalar::random();
    let a = pp.g_val.mul(&alpha_val);
    let b = pp.g_ran.mul(&alpha_ran);
    let t = a.add(&b);
    proof {
        let (x, y) = (alpha_val@ * pp.g_val@, alpha_ran@ * pp.g_ran@);
        lemma_modl_add(x, y);
    }
    ((alpha_val, alpha_ran), t)
}

/// Round 3: z_val = β·(v0 − v1) + αv, z_ran = β·(r0 − r1) + αr.
pub fn respond(masks: (Scalar, Scalar), beta: Scalar, o0: &Opening, o1: &Opening) -> (r: (Scalar, Scalar))
    ensures
        ideq_responds(*o0, *o1, beta@, masks.0@, masks.1@, r.0@, r.1@),
{
    let (alpha_val, alpha_ran) = masks;
    let dv = o0.val.sub(&o1.val);
    let dr = o0.blinding.sub(&o1.blinding);
    let z_val = beta.mul(&dv).add(&alpha_val);
    let z_ran = beta.mul(&dr).add(&alpha_ran);
    proof {
        lemma_modl_affine(beta@, o0.val@ - o1.val@, alpha_val@);
        lemma_modl_affine(beta@, o0.blinding@ - o1.blinding@, alpha_ran@);
    }
    (z_val, z_ran)
}

/// The interactive check at challenge β.
pub fn check(pp: &PublicParams, c0: &Commitment, c1: &Commitment, proof: &IdEqProof, beta: Scalar) -> (r: bool)
    ensures
        r == ideq_check(*pp, *c0, *c1, *proof, beta@),
{
    let lhs = pp.g_val.mul(&proof.z_val).add(&pp.g_ran.mul(&proof.z_ran));
    let d = c0.0.sub(&c1.0);
    let rhs = proof.t.add(&d.mul(&beta));
    proof {
        reveal_with_fuel(inner_product_prefix, 3);
        lemma_modl_add(proof.z_val@ * pp.g_val@, proof.z_ran@ * pp.g_ran@);
        assert(inner_product(seq![proof.z_val@, proof.z_ran@], seq![pp.g_val@, pp.g_ran@]) == 0 + proof.z_val@ * pp.g_val@ + proof.z_ran@ * pp.g_ran@);
        let e = c0.0@ - c1.0@;
        lemma_modl_add(proof.t@, beta@ * modl(e));
        assert(beta@ * modl(e) == modl(e) * beta@) by (nonlinear_arith);
    }
    lhs.equals(&rhs)
}

/// The Fiat–Shamir challenge for Π.IDEq: β = H(ds, pp, c0, c1, ctx, t).
pub fn challenge(pp: &PublicParams, c0: &Commitment, c1: &Commitment, ctx: &[u8], t: &Point) -> (r: Scalar)
    requires
        ctx@.len() <= u32::MAX,
    ensures
        r@ == ideq_beta(*pp, *c0, *c1, ctx@, *t),
{
    proof {
        reveal_strlit("IBC/v1/IDEq");
        crate::transcript::lemma_label_fits("IBC/v1/IDEq", 11);
    }
    let ch = Challenge::new("IBC/v1/IDEq".as_bytes(), pp)
        .point("c0".as_bytes(), &c0.0)
        .point("c1".as_bytes(), &c1.0)
        .bytes("ctx".as_bytes(), ctx);
    assert(ch@ =~= ideq_log(*pp, *c0, *c1, ctx@));
    ch.point("t".as_bytes(), t).finish()
}

impl IdEqProof {
    /// The non-interactive proof that c0 and c1 carry the same identity.
    pub fn prove(
        pp: &PublicParams,
        c0: &Commitment,
        c1: &Commitment,
        o0: &Opening,
        o1: &Opening,
        ctx: &[u8],
    ) -> (r: IdEqProof)
        requires
            ctx@.len() <= u32::MAX,
        ensures
            exists|alpha_val: int, alpha_ran: int|
                {
                    &&& r.t@ == modl(alpha_val * pp.g_val@ + alpha_ran * pp.g_ran@)
                    &&& ideq_responds(
                        *o0,
                        *o1,
                        ideq_beta(*pp, *c0, *c1, ctx@, r.t),
                        alpha_val,
                        alpha_ran,
                        r.z_val@,
                        r.z_ran@,
                    )
                },
            c0.0@ == committed(*pp, *o0) && c1.0@ == committed(*pp, *o1) && o0.id@ == o1.id@
                ==> ideq_accepts(*pp, *c0, *c1, ctx@, r),
            c0.0@ == committed(*pp, *o0) && c1.0@ == committed(*pp, *o1) && invertible(
                ideq_beta(*pp, *c0, *c1, ctx@, r.t),
            ) && invertible(pp.g_iden@) ==> (ideq_accepts(*pp, *c0, *c1, ctx@, r) <==> o0.id@ == o1.id@),
    {
        let (masks, t) = commit(pp);
        let beta = challenge(pp, c0, c1, ctx, &t);
        let (z_val, z_ran) = respond(masks, beta, o0, o1);
        let r = IdEqProof { t, z_val, z_ran };
        proof {
            if c0.0@ == committed(*pp, *o0) && c1.0@ == committed(*pp, *o1) && o0.id@ == o1.id@ {
                lemma_ideq_complete(*pp, *c0, *c1, *o0, *o1, r, beta@, masks.0@, masks.1@);
            }
            if c0.0@ == committed(*pp, *o0) && c1.0@ == committed(*pp, *o1) && invertible(beta@) && invertible(
                pp.g_iden@,
            ) {
                lemma_ideq_honest_sound(*pp, *c0, *c1, *o0, *o1, r, beta@, masks.0@, masks.1@);
            }
        }
        r
    }

    /// Recomputes β and runs the check.
    pub fn verify(&self, pp: &PublicParams, c0: &Commitment, c1: &Commitment, ctx: &[u8]) -> (r: bool)
        requires
            ctx@.len() <= u32::MAX,
        ensures
            r == ideq_accepts(*pp, *c0, *c1, ctx@, *self),
    {
        let beta = challenge(pp, c0, c1, ctx, &self.t);
        check(pp, c0, c1, self, beta)
    }
}

} // verus!
