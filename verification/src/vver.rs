//! Π.VVer: a commitment holds a public value v'. The prover shows it knows
//! (id, blinding) with c − v'·g_val = id·g_iden + blinding·g_ran.
use crate::algebra::{inner_product, inner_product_prefix};
use crate::commitment::{committed, Commitment, Opening};
use crate::params::PublicParams;
use crate::point::{point_values, scalar_values, Point};
use crate::scalar::{
    group_order, invertible, lemma_modl_add, lemma_modl_bound, lemma_modl_cancel,
    lemma_modl_eq_diff, lemma_modl_small, lemma_modl_sub, modl, Scalar,
};
use crate::sigma::{
    lemma_sigma_complete, lemma_sigma_honest_sound, self, sigma_beta, sigma_holds, SigmaProof,
};
use crate::transcript::{append_op, params_log, point_op, scalar_op, Challenge, TranscriptOp};
use vstd::prelude::*;
use vstd::string::StringSliceAdditionalSpecFns;

verus! {

broadcast use crate::scalar::lemma_scalar_view_bound, crate::point::lemma_point_view_bound;

/// A Π.VVer proof: the first message and the two responses.
pub struct VVerProof {
    pub t: Point,
    pub z_iden: Scalar,
    pub z_ran: Scalar,
}

/// The statement appended to the transcript: c, v', ctx.
pub open spec fn vver_statement(c: Commitment, v_pub: Scalar, ctx: Seq<u8>) -> Seq<TranscriptOp> {
    seq![
        point_op("c".spec_bytes(), c.0),
        scalar_op("v".spec_bytes(), v_pub),
        append_op("ctx".spec_bytes(), ctx),
    ]
}

/// The transcript of Π.VVer before t.
pub open spec fn vver_log(pp: PublicParams, c: Commitment, v_pub: Scalar, ctx: Seq<u8>) -> Seq<TranscriptOp> {
    params_log("IBC/v1/VVer".spec_bytes(), pp) + vver_statement(c, v_pub, ctx)
}

/// The Fiat–Shamir challenge β = H(ds, pp, c, v', ctx, t).
pub open spec fn vver_beta(pp: PublicParams, c: Commitment, v_pub: Scalar, ctx: Seq<u8>, t: Point) -> int {
    sigma_beta(vver_log(pp, c, v_pub, ctx), t)
}

/// The target U = c − v'·g_val.
pub open spec fn vver_target(pp: PublicParams, c: Commitment, v_pub: int) -> int {
    modl(c.0@ - v_pub * pp.g_val@)
}

/// The check z_iden·g_iden + z_ran·g_ran = t + β·(c − v'·g_val).
pub open spec fn vver_check(pp: PublicParams, c: Commitment, v_pub: int, proof: VVerProof, beta: int) -> bool {
    sigma_holds(
        seq![pp.g_iden@, pp.g_ran@],
        vver_target(pp, c, v_pub),
        proof.t@,
        seq![proof.z_iden@, proof.z_ran@],
        beta,
    )
}

/// What the non-interactive verifier accepts.
pub open spec fn vver_accepts(pp: PublicParams, c: Commitment, v_pub: Scalar, ctx: Seq<u8>, proof: VVerProof) -> bool {
    vver_check(pp, c, v_pub@, proof, vver_beta(pp, c, v_pub, ctx, proof.t))
}

/// Honest responses for masks (αi, αr) and challenge β on opening o.
pub open spec fn vver_responds(o: Opening, beta: int, alpha_iden: int, alpha_ran: int, z_iden: int, z_ran: int) -> bool {
    &&& z_iden == modl(beta * o.id@ + alpha_iden)
    &&& z_ran == modl(beta * o.blinding@ + alpha_ran)
}

/// For a commitment to o, c − o.val·g_val = o.id·g_iden + o.blinding·g_ran.
pub proof fn lemma_vver_target(pp: PublicParams, c: Commitment, o: Opening)
    requires
        c.0@ == committed(pp, o),
    ensures
        vver_target(pp, c, o.val@) == modl(inner_product(seq![o.id@, o.blinding@], seq![pp.g_iden@, pp.g_ran@])),
{
    reveal_with_fuel(inner_product_prefix, 3);
    let (gi, gv, gr) = (pp.g_iden@, pp.g_val@, pp.g_ran@);
    let full = o.id@ * gi + o.val@ * gv + o.blinding@ * gr;
    lemma_modl_sub(full, o.val@ * gv);
}

/// Completeness of Π.VVer: honest responses for a commitment to the claimed
/// value pass the check, whatever the masks and the challenge.
pub proof fn lemma_vver_complete(
    pp: PublicParams,
    c: Commitment,
    o: Opening,
    proof: VVerProof,
    beta: int,
    alpha_iden: int,
    alpha_ran: int,
)
    requires
        c.0@ == committed(pp, o),
        proof.t@ == modl(alpha_iden * pp.g_iden@ + alpha_ran * pp.g_ran@),
        vver_responds(o, beta, alpha_iden, alpha_ran, proof.z_iden@, proof.z_ran@),
    ensures
        vver_check(pp, c, o.val@, proof, beta),
{
    reveal_with_fuel(inner_product_prefix, 3);
    lemma_vver_target(pp, c, o);
    lemma_sigma_complete(
        seq![pp.g_iden@, pp.g_ran@],
        seq![o.id@, o.blinding@],
        seq![alpha_iden, alpha_ran],
        seq![proof.z_iden@, proof.z_ran@],
        vver_target(pp, c, o.val@),
        proof.t@,
        beta,
    );
}

/// An honest Π.VVer prover convinces exactly when the statement is true: for
/// an invertible challenge and a g_val of invertible log, honest responses
/// pass the check iff the commitment holds the claimed value.
pub proof fn lemma_vver_honest_sound(
    pp: PublicParams,
    c: Commitment,
    o: Opening,
    v_pub: int,
    proof: VVerProof,
    beta: int,
    alpha_iden: int,
    alpha_ran: int,
)
    requires
        c.0@ == committed(pp, o),
        0 <= v_pub < group_order(),
        proof.t@ == modl(alpha_iden * pp.g_iden@ + alpha_ran * pp.g_ran@),
        vver_responds(o, beta, alpha_iden, alpha_ran, proof.z_iden@, proof.z_ran@),
        invertible(beta),
        invertible(pp.g_val@),
    ensures
        vver_check(pp, c, v_pub, proof, beta) <==> o.val@ == v_pub,
{
    reveal_with_fuel(inner_product_prefix, 3);
    let (gi, gv, gr) = (pp.g_iden@, pp.g_val@, pp.g_ran@);
    let w = seq![o.id@, o.blinding@];
    let rest = o.id@ * gi + o.blinding@ * gr;
    let full = o.id@ * gi + o.val@ * gv + o.blinding@ * gr;
    lemma_sigma_honest_sound(
        seq![gi, gr],
        w,
        seq![alpha_iden, alpha_ran],
        seq![proof.z_iden@, proof.z_ran@],
        vver_target(pp, c, v_pub),
        proof.t@,
        beta,
    );
    assert(inner_product(w, seq![gi, gr]) == 0 + o.id@ * gi + o.blinding@ * gr);
    // the target is (val − v')·g_val + id·g_iden + blinding·g_ran
    lemma_modl_sub(full, v_pub * gv);
    lemma_modl_bound(c.0@ - v_pub * gv);
    lemma_modl_small(vver_target(pp, c, v_pub));
    assert(full - v_pub * gv == (o.val@ - v_pub) * gv + rest) by (nonlinear_arith)
        requires
            full == o.id@ * gi + o.val@ * gv + o.blinding@ * gr,
            rest == o.id@ * gi + o.blinding@ * gr,
    ;
    lemma_modl_eq_diff((o.val@ - v_pub) * gv + rest, rest);
    assert((o.val@ - v_pub) * gv == gv * (o.val@ - v_pub)) by (nonlinear_arith);
    lemma_modl_cancel(gv, o.val@ - v_pub);
    lemma_modl_eq_diff(o.val@, v_pub);
    lemma_modl_small(o.val@);
    lemma_modl_small(v_pub);
}

/// The Π.VVer check at β holds exactly when the residual
/// z_iden·g_iden + z_ran·g_ran − t − β·(c − v'·g_val) vanishes modulo ℓ.
pub proof fn lemma_vver_check_residual(pp: PublicParams, c: Commitment, v_pub: int, proof: VVerProof, beta: int)
    ensures
        vver_check(pp, c, v_pub, proof, beta) <==> modl(
            proof.z_iden@ * pp.g_iden@ + proof.z_ran@ * pp.g_ran@ - proof.t@ - beta * (c.0@ - v_pub * pp.g_val@),
        ) == 0,
{
    reveal_with_fuel(inner_product_prefix, 3);
    let d = c.0@ - v_pub * pp.g_val@;
    let lhs = proof.z_iden@ * pp.g_iden@ + proof.z_ran@ * pp.g_ran@;
    let rhs = proof.t@ + beta * d;
    assert(inner_product(seq![proof.z_iden@, proof.z_ran@], seq![pp.g_iden@, pp.g_ran@]) == lhs);
    crate::scalar::lemma_modl_mul(beta, d);
    lemma_modl_add(proof.t@, beta * modl(d));
    lemma_modl_add(proof.t@, beta * d);
    assert(modl(proof.t@ + beta * modl(d)) == modl(rhs));
    lemma_modl_eq_diff(lhs, rhs);
    assert(lhs - rhs == lhs - proof.t@ - beta * d);
}

/// Fiat–Shamir is the interactive protocol at the recomputed challenge: the
/// non-interactive verifier accepts exactly what `check` accepts at the β that
/// `challenge` computes.
pub proof fn lemma_vver_fiat_shamir(
    pp: PublicParams,
    c: Commitment,
    v_pub: Scalar,
    ctx: Seq<u8>,
    proof: VVerProof,
    beta: int,
)
    requires
        beta == vver_beta(pp, c, v_pub, ctx, proof.t),
    ensures
        vver_accepts(pp, c, v_pub, ctx, proof) == vver_check(pp, c, v_pub@, proof, beta),
{
}

/// Round 1: fresh masks (αi, αr) and t = αi·g_iden + αr·g_ran.
pub fn commit(pp: &PublicParams) -> (r: ((Scalar, Scalar), Point))
    ensures
        r.1@ == modl(r.0.0@ * pp.g_iden@ + r.0.1@ * pp.g_ran@),
{
    let alpha_iden = Scalar::random();
    let alpha_ran = Scalar::random();
    let t = pp.g_iden.mul(&alpha_iden).add(&pp.g_ran.mul(&alpha_ran));
    proof {
        lemma_modl_add(alpha_iden@ * pp.g_iden@, alpha_ran@ * pp.g_ran@);
    }
    ((alpha_iden, alpha_ran), t)
}

/// Round 3: (β·id + αi, β·blinding + αr).
pub fn respond(masks: (Scalar, Scalar), beta: Scalar, o: &Opening) -> (r: (Scalar, Scalar))
    ensures
        vver_responds(*o, beta@, masks.0@, masks.1@, r.0@, r.1@),
{
    let (alpha_iden, alpha_ran) = masks;
    let z_iden = beta.mul(&o.id).add(&alpha_iden);
    let z_ran = beta.mul(&o.blinding).add(&alpha_ran);
    proof {
        lemma_modl_add(beta@ * o.id@, alpha_iden@);
        lemma_modl_add(beta@ * o.blinding@, alpha_ran@);
    }
    (z_iden, z_ran)
}

/// The target U = c − v'·g_val, computed.
fn target(pp: &PublicParams, c: &Commitment, v_pub: &Scalar) -> (r: Point)
    ensures
        r@ == vver_target(*pp, *c, v_pub@),
{
    let r = c.0.sub(&pp.g_val.mul(v_pub));
    proof {
        lemma_modl_sub(c.0@, v_pub@ * pp.g_val@);
    }
    r
}

/// The interactive check at challenge β.
pub fn check(pp: &PublicParams, c: &Commitment, v_pub: Scalar, proof: &VVerProof, beta: Scalar) -> (r: bool)
    ensures
        r == vver_check(*pp, *c, v_pub@, *proof, beta@),
{
    let u = target(pp, c, &v_pub);
    let lhs = pp.g_iden.mul(&proof.z_iden).add(&pp.g_ran.mul(&proof.z_ran));
    let rhs = proof.t.add(&u.mul(&beta));
    proof {
        reveal_with_fuel(inner_product_prefix, 3);
        lemma_modl_add(proof.z_iden@ * pp.g_iden@, proof.z_ran@ * pp.g_ran@);
        assert(inner_product(seq![proof.z_iden@, proof.z_ran@], seq![pp.g_iden@, pp.g_ran@]) == 0 + proof.z_iden@ * pp.g_iden@ + proof.z_ran@ * pp.g_ran@);
        lemma_modl_add(proof.t@, beta@ * u@);
        assert(beta@ * u@ == u@ * beta@) by (nonlinear_arith);
    }
    lhs.equals(&rhs)
}

/// Appends the statement (c, v', ctx) to a transcript.
fn bind(ch: Challenge, c: &Commitment, v_pub: Scalar, ctx: &[u8]) -> (r: Challenge)
    requires
        ctx@.len() <= u32::MAX,
    ensures
        r@ == ch@ + vver_statement(*c, v_pub, ctx@),
{
    let r = ch.point("c".as_bytes(), &c.0).scalar("v".as_bytes(), &v_pub).bytes("ctx".as_bytes(), ctx);
    assert(r@ =~= ch@ + vver_statement(*c, v_pub, ctx@));
    r
}

/// The domain of Π.VVer transcripts, checked short enough for merlin.
fn domain() -> (r: &'static [u8])
    ensures
        r@ == "IBC/v1/VVer".spec_bytes(),
        r@.len() <= u32::MAX,
{
    proof {
        reveal_strlit("IBC/v1/VVer");
        crate::transcript::lemma_label_fits("IBC/v1/VVer", 11);
    }
    "IBC/v1/VVer".as_bytes()
}

/// The Fiat–Shamir challenge for Π.VVer: β = H(ds, pp, c, v', ctx, t).
pub fn challenge(pp: &PublicParams, c: &Commitment, v_pub: &Scalar, ctx: &[u8], t: &Point) -> (r: Scalar)
    requires
        ctx@.len() <= u32::MAX,
    ensures
        r@ == vver_beta(*pp, *c, *v_pub, ctx@, *t),
{
    bind(Challenge::new(domain(), pp), c, *v_pub, ctx).point("t".as_bytes(), t).finish()
}

impl VVerProof {
    /// The non-interactive proof that c holds the value v', through the Σ engine.
    pub fn prove(pp: &PublicParams, c: &Commitment, v_pub: Scalar, o: &Opening, ctx: &[u8]) -> (r: VVerProof)
        requires
            ctx@.len() <= u32::MAX,
        ensures
            exists|alpha_iden: int, alpha_ran: int|
                {
                    &&& r.t@ == modl(alpha_iden * pp.g_iden@ + alpha_ran * pp.g_ran@)
                    &&& vver_responds(
                        *o,
                        vver_beta(*pp, *c, v_pub, ctx@, r.t),
                        alpha_iden,
                        alpha_ran,
                        r.z_iden@,
                        r.z_ran@,
                    )
                },
            c.0@ == committed(*pp, *o) && o.val@ == v_pub@ ==> vver_accepts(*pp, *c, v_pub, ctx@, r),
            c.0@ == committed(*pp, *o) && invertible(vver_beta(*pp, *c, v_pub, ctx@, r.t)) && invertible(
                pp.g_val@,
            ) ==> (vver_accepts(*pp, *c, v_pub, ctx@, r) <==> o.val@ == v_pub@),
    {
        let bases = vec![pp.g_iden, pp.g_ran];
        let witness = vec![o.id, o.blinding];
        let bind_statement = |ch: Challenge| -> (r: Challenge)
            requires
                ctx@.len() <= u32::MAX,
            ensures
                r@ == ch@ + vver_statement(*c, v_pub, ctx@),
            { bind(ch, c, v_pub, ctx) };
        let ghost f = bind_statement;
        let sp = sigma::prove(pp, domain(), bases.as_slice(), witness.as_slice(), bind_statement);
        let r = VVerProof { t: sp.t, z_iden: sp.z[0], z_ran: sp.z[1] };
        proof {
            let (alphas, ch_in, ch_out) = choose|alphas: Seq<int>, ch_in: Challenge, ch_out: Challenge|
                {
                    &&& alphas.len() == bases@.len()
                    &&& ch_in@ == params_log("IBC/v1/VVer".spec_bytes(), *pp)
                    &&& call_ensures(f, (ch_in,), ch_out)
                    &&& sp.t@ == modl(inner_product(alphas, point_values(bases@)))
                    &&& forall|i: int|
                        0 <= i < bases@.len() ==> (#[trigger] sp.z@[i])@ == modl(
                            sigma_beta(ch_out@, sp.t) * witness@[i]@ + alphas[i],
                        )
                };
            assert(ch_out@ == vver_log(*pp, *c, v_pub, ctx@));
            reveal_with_fuel(inner_product_prefix, 3);
            assert(point_values(bases@) =~= seq![pp.g_iden@, pp.g_ran@]);
            assert(sp.z@[0]@ == modl(sigma_beta(ch_out@, sp.t) * o.id@ + alphas[0]));
            assert(sp.z@[1]@ == modl(sigma_beta(ch_out@, sp.t) * o.blinding@ + alphas[1]));
            assert(r.t@ == modl(alphas[0] * pp.g_iden@ + alphas[1] * pp.g_ran@));
            if c.0@ == committed(*pp, *o) && o.val@ == v_pub@ {
                lemma_vver_complete(*pp, *c, *o, r, vver_beta(*pp, *c, v_pub, ctx@, r.t), alphas[0], alphas[1]);
            }
            let beta = vver_beta(*pp, *c, v_pub, ctx@, r.t);
            if c.0@ == committed(*pp, *o) && invertible(beta) && invertible(pp.g_val@) {
                lemma_vver_honest_sound(*pp, *c, *o, v_pub@, r, beta, alphas[0], alphas[1]);
            }
        }
        r
    }

    /// Recomputes β and checks the proof, through the Σ engine.
    pub fn verify(&self, pp: &PublicParams, c: &Commitment, v_pub: Scalar, ctx: &[u8]) -> (r: bool)
        requires
            ctx@.len() <= u32::MAX,
        ensures
            r == vver_accepts(*pp, *c, v_pub, ctx@, *self),
    {
        let sp = SigmaProof { t: self.t, z: vec![self.z_iden, self.z_ran] };
        let u = target(pp, c, &v_pub);
        let bases = vec![pp.g_iden, pp.g_ran];
        let bind_statement = |ch: Challenge| -> (r: Challenge)
            requires
                ctx@.len() <= u32::MAX,
            ensures
                r@ == ch@ + vver_statement(*c, v_pub, ctx@),
            { bind(ch, c, v_pub, ctx) };
        let ghost f = bind_statement;
        let r = sigma::verify(pp, domain(), bases.as_slice(), &u, &sp, bind_statement);
        proof {
            let (ch_in, ch_out) = choose|ch_in: Challenge, ch_out: Challenge|
                {
                    &&& ch_in@ == params_log("IBC/v1/VVer".spec_bytes(), *pp)
                    &&& call_ensures(f, (ch_in,), ch_out)
                    &&& r == sigma_holds(
                        point_values(bases@),
                        u@,
                        sp.t@,
                        scalar_values(sp.z@),
                        sigma_beta(ch_out@, sp.t),
                    )
                };
            assert(ch_out@ == vver_log(*pp, *c, v_pub, ctx@));
            assert(point_values(bases@) =~= seq![pp.g_iden@, pp.g_ran@]);
            assert(scalar_values(sp.z@) =~= seq![self.z_iden@, self.z_ran@]);
        }
        r
    }
}

} // verus!