//! Π.VEq: two commitments hold the same (hidden) value. The prover shows it
//! knows (Δid, Δblinding) with c0 − c1 = Δid·g_iden + Δblinding·g_ran.
use crate::algebra::{inner_product, inner_product_prefix};
use crate::commitment::{committed, lemma_commitment_difference, Commitment, Opening};
use crate::params::PublicParams;
use crate::point::{point_values, scalar_values};
use crate::scalar::{
    invertible, lemma_modl_affine_inner, lemma_modl_bound, lemma_modl_cancel, lemma_modl_eq_diff,
    lemma_modl_small, modl,
};
use crate::sigma::{
    lemma_sigma_complete, lemma_sigma_honest_sound, self, sigma_beta, sigma_holds, SigmaProof,
};
use crate::transcript::{append_op, params_log, point_op, Challenge, TranscriptOp};
use vstd::prelude::*;
use vstd::string::StringSliceAdditionalSpecFns;

verus! {

broadcast use crate::scalar::lemma_scalar_view_bound, crate::point::lemma_point_view_bound;

/// A Π.VEq proof: a Σ proof over the bases (g_iden, g_ran).
pub struct VEqProof(pub SigmaProof);

/// The statement appended to the transcript: c0, c1, ctx.
pub open spec fn pair_statement(c0: Commitment, c1: Commitment, ctx: Seq<u8>) -> Seq<TranscriptOp> {
    seq![
        point_op("c0".spec_bytes(), c0.0),
        point_op("c1".spec_bytes(), c1.0),
        append_op("ctx".spec_bytes(), ctx),
    ]
}

/// The transcript of Π.VEq before t.
pub open spec fn veq_log(pp: PublicParams, c0: Commitment, c1: Commitment, ctx: Seq<u8>) -> Seq<TranscriptOp> {
    params_log("IBC/v1/VEq".spec_bytes(), pp) + pair_statement(c0, c1, ctx)
}

/// What the verifier accepts: two responses that satisfy
/// z0·g_iden + z1·g_ran = t + β·(c0 − c1), β = H(ds, pp, c0, c1, ctx, t).
pub open spec fn veq_accepts(pp: PublicParams, c0: Commitment, c1: Commitment, ctx: Seq<u8>, proof: VEqProof) -> bool {
    &&& proof.0.z@.len() == 2
    &&& sigma_holds(
        seq![pp.g_iden@, pp.g_ran@],
        modl(c0.0@ - c1.0@),
        proof.0.t@,
        scalar_values(proof.0.z@),
        sigma_beta(veq_log(pp, c0, c1, ctx), proof.0.t),
    )
}

/// Honest responses for masks (αi, αr) and challenge β on openings o0, o1.
pub open spec fn veq_responds(o0: Opening, o1: Opening, beta: int, alpha_iden: int, alpha_ran: int, z0: int, z1: int) -> bool {
    &&& z0 == modl(beta * (o0.id@ - o1.id@) + alpha_iden)
    &&& z1 == modl(beta * (o0.blinding@ - o1.blinding@) + alpha_ran)
}

/// Completeness of Π.VEq: honest responses for two commitments to the same
/// value pass the verification equation, whatever the masks and the challenge.
pub proof fn lemma_veq_complete(
    pp: PublicParams,
    c0: Commitment,
    c1: Commitment,
    o0: Opening,
    o1: Opening,
    proof: VEqProof,
    beta: int,
    alpha_iden: int,
    alpha_ran: int,
)
    requires
        c0.0@ == committed(pp, o0),
        c1.0@ == committed(pp, o1),
        o0.val@ == o1.val@,
        proof.0.z@.len() == 2,
        proof.0.t@ == modl(alpha_iden * pp.g_iden@ + alpha_ran * pp.g_ran@),
        veq_responds(o0, o1, beta, alpha_iden, alpha_ran, proof.0.z@[0]@, proof.0.z@[1]@),
    ensures
        sigma_holds(
            seq![pp.g_iden@, pp.g_ran@],
            modl(c0.0@ - c1.0@),
            proof.0.t@,
            scalar_values(proof.0.z@),
            beta,
        ),
{
    reveal_with_fuel(inner_product_prefix, 3);
    let g = seq![pp.g_iden@, pp.g_ran@];
    let w = seq![o0.id@ - o1.id@, o0.blinding@ - o1.blinding@];
    lemma_commitment_difference(pp, o0.id@, o0.val@, o0.blinding@, o1.id@, o1.val@, o1.blinding@);
    assert((o0.val@ - o1.val@) * pp.g_val@ == 0);
    let z = scalar_values(proof.0.z@);
    assert(z[0] == proof.0.z@[0]@);
    assert(z[1] == proof.0.z@[1]@);
    lemma_sigma_complete(g, w, seq![alpha_iden, alpha_ran], z, modl(c0.0@ - c1.0@), proof.0.t@, beta);
}

/// An honest Π.VEq prover convinces exactly when the statement is true: for
/// an invertible challenge and a g_val of invertible log, honest responses
/// pass the verification equation iff the two commitments hold the same value,
/// whatever their identities.
pub proof fn lemma_veq_honest_sound(
    pp: PublicParams,
    c0: Commitment,
    c1: Commitment,
    o0: Opening,
    o1: Opening,
    proof: VEqProof,
    beta: int,
    alpha_iden: int,
    alpha_ran: int,
)
    requires
        c0.0@ == committed(pp, o0),
        c1.0@ == committed(pp, o1),
        proof.0.z@.len() == 2,
        proof.0.t@ == modl(alpha_iden * pp.g_iden@ + alpha_ran * pp.g_ran@),
        veq_responds(o0, o1, beta, alpha_iden, alpha_ran, proof.0.z@[0]@, proof.0.z@[1]@),
        invertible(beta),
        invertible(pp.g_val@),
    ensures
        sigma_holds(
            seq![pp.g_iden@, pp.g_ran@],
            modl(c0.0@ - c1.0@),
            proof.0.t@,
            scalar_values(proof.0.z@),
            beta,
        ) <==> o0.val@ == o1.val@,
{
    reveal_with_fuel(inner_product_prefix, 3);
    let (gi, gv, gr) = (pp.g_iden@, pp.g_val@, pp.g_ran@);
    let w = seq![o0.id@ - o1.id@, o0.blinding@ - o1.blinding@];
    let rest = (o0.id@ - o1.id@) * gi + (o0.blinding@ - o1.blinding@) * gr;
    let dv = (o0.val@ - o1.val@) * gv;
    let z = scalar_values(proof.0.z@);
    assert(z =~= seq![proof.0.z@[0]@, proof.0.z@[1]@]);
    lemma_sigma_honest_sound(seq![gi, gr], w, seq![alpha_iden, alpha_ran], z, modl(c0.0@ - c1.0@), proof.0.t@, beta);
    assert(inner_product(w, seq![gi, gr]) == 0 + (o0.id@ - o1.id@) * gi + (o0.blinding@ - o1.blinding@) * gr);
    lemma_commitment_difference(pp, o0.id@, o0.val@, o0.blinding@, o1.id@, o1.val@, o1.blinding@);
    lemma_modl_bound(c0.0@ - c1.0@);
    lemma_modl_small(modl(c0.0@ - c1.0@));
    assert((o0.id@ - o1.id@) * gi + dv + (o0.blinding@ - o1.blinding@) * gr == dv + rest);
    lemma_modl_eq_diff(dv + rest, rest);
    assert(dv == gv * (o0.val@ - o1.val@)) by (nonlinear_arith)
        requires
            dv == (o0.val@ - o1.val@) * gv,
    ;
    lemma_modl_cancel(gv, o0.val@ - o1.val@);
    lemma_modl_eq_diff(o0.val@, o1.val@);
    lemma_modl_small(o0.val@);
    lemma_modl_small(o1.val@);
}

/// Appends the statement (c0, c1, ctx) to a transcript.
fn bind(ch: Challenge, c0: &Commitment, c1: &Commitment, ctx: &[u8]) -> (r: Challenge)
    requires
        ctx@.len() <= u32::MAX,
    ensures
        r@ == ch@ + pair_statement(*c0, *c1, ctx@),
{
    let r = ch.point("c0".as_bytes(), &c0.0).point("c1".as_bytes(), &c1.0).bytes("ctx".as_bytes(), ctx);
    assert(r@ =~= ch@ + pair_statement(*c0, *c1, ctx@));
    r
}

/// The domain of Π.VEq transcripts, checked short enough for merlin.
fn domain() -> (r: &'static [u8])
    ensures
        r@ == "IBC/v1/VEq".spec_bytes(),
        r@.len() <= u32::MAX,
{
    proof {
        reveal_strlit("IBC/v1/VEq");
        crate::transcript::lemma_label_fits("IBC/v1/VEq", 10);
    }
    "IBC/v1/VEq".as_bytes()
}

impl VEqProof {
    /// The non-interactive proof that c0 and c1 hold the same value.
    pub fn prove(
        pp: &PublicParams,
        c0: &Commitment,
        c1: &Commitment,
        o0: &Opening,
        o1: &Opening,
        ctx: &[u8],
    ) -> (r: VEqProof)
        requires
            ctx@.len() <= u32::MAX,
        ensures
            r.0.z@.len() == 2,
            exists|alpha_iden: int, alpha_ran: int|
                {
                    &&& r.0.t@ == modl(alpha_iden * pp.g_iden@ + alpha_ran * pp.g_ran@)
                    &&& veq_responds(
                        *o0,
                        *o1,
                        sigma_beta(veq_log(*pp, *c0, *c1, ctx@), r.0.t),
                        alpha_iden,
                        alpha_ran,
                        r.0.z@[0]@,
                        r.0.z@[1]@,
                    )
                },
            c0.0@ == committed(*pp, *o0) && c1.0@ == committed(*pp, *o1) && o0.val@ == o1.val@
                ==> veq_accepts(*pp, *c0, *c1, ctx@, r),
            c0.0@ == committed(*pp, *o0) && c1.0@ == committed(*pp, *o1) && invertible(
                sigma_beta(veq_log(*pp, *c0, *c1, ctx@), r.0.t),
            ) && invertible(pp.g_val@) ==> (veq_accepts(*pp, *c0, *c1, ctx@, r) <==> o0.val@ == o1.val@),
    {
        let bases = vec![pp.g_iden, pp.g_ran];
        let witness = vec![o0.id.sub(&o1.id), o0.blinding.sub(&o1.blinding)];
        let bind_statement = |ch: Challenge| -> (r: Challenge)
            requires
                ctx@.len() <= u32::MAX,
            ensures
                r@ == ch@ + pair_statement(*c0, *c1, ctx@),
            { bind(ch, c0, c1, ctx) };
        let ghost f = bind_statement;
        let sp = sigma::prove(pp, domain(), bases.as_slice(), witness.as_slice(), bind_statement);
        let r = VEqProof(sp);
        proof {
            let (alphas, ch_in, ch_out) = choose|alphas: Seq<int>, ch_in: Challenge, ch_out: Challenge|
                {
                    &&& alphas.len() == bases@.len()
                    &&& ch_in@ == params_log("IBC/v1/VEq".spec_bytes(), *pp)
                    &&& call_ensures(f, (ch_in,), ch_out)
                    &&& sp.t@ == modl(inner_product(alphas, point_values(bases@)))
                    &&& forall|i: int|
                        0 <= i < bases@.len() ==> (#[trigger] sp.z@[i])@ == modl(
                            sigma_beta(ch_out@, sp.t) * witness@[i]@ + alphas[i],
                        )
                };
            assert(ch_out@ == veq_log(*pp, *c0, *c1, ctx@));
            let beta = sigma_beta(ch_out@, sp.t);
            reveal_with_fuel(inner_product_prefix, 3);
            let g = seq![pp.g_iden@, pp.g_ran@];
            assert(point_values(bases@) =~= g);
            assert(sp.z@[0]@ == modl(beta * witness@[0]@ + alphas[0]));
            assert(sp.z@[1]@ == modl(beta * witness@[1]@ + alphas[1]));
            lemma_modl_affine_inner(beta, o0.id@ - o1.id@, alphas[0]);
            lemma_modl_affine_inner(beta, o0.blinding@ - o1.blinding@, alphas[1]);
            assert(r.0.t@ == modl(alphas[0] * pp.g_iden@ + alphas[1] * pp.g_ran@));
            assert(veq_responds(*o0, *o1, beta, alphas[0], alphas[1], r.0.z@[0]@, r.0.z@[1]@));
            if c0.0@ == committed(*pp, *o0) && c1.0@ == committed(*pp, *o1) && o0.val@ == o1.val@ {
                lemma_veq_complete(*pp, *c0, *c1, *o0, *o1, r, beta, alphas[0], alphas[1]);
            }
            if c0.0@ == committed(*pp, *o0) && c1.0@ == committed(*pp, *o1) && invertible(beta) && invertible(
                pp.g_val@,
            ) {
                lemma_veq_honest_sound(*pp, *c0, *c1, *o0, *o1, r, beta, alphas[0], alphas[1]);
            }
        }
        r
    }

    /// Recomputes β and checks the proof, through the Σ engine.
    pub fn verify(&self, pp: &PublicParams, c0: &Commitment, c1: &Commitment, ctx: &[u8]) -> (r: bool)
        requires
            ctx@.len() <= u32::MAX,
        ensures
            r == veq_accepts(*pp, *c0, *c1, ctx@, *self),
    {
        let bases = vec![pp.g_iden, pp.g_ran];
        let u = c0.0.sub(&c1.0);
        let bind_statement = |ch: Challenge| -> (r: Challenge)
            requires
                ctx@.len() <= u32::MAX,
            ensures
                r@ == ch@ + pair_statement(*c0, *c1, ctx@),
            { bind(ch, c0, c1, ctx) };
        let ghost f = bind_statement;
        let r = sigma::verify(pp, domain(), bases.as_slice(), &u, &self.0, bind_statement);
        proof {
            assert(point_values(bases@) =~= seq![pp.g_iden@, pp.g_ran@]);
            if self.0.z@.len() == 2 {
                let (ch_in, ch_out) = choose|ch_in: Challenge, ch_out: Challenge|
                    {
                        &&& ch_in@ == params_log("IBC/v1/VEq".spec_bytes(), *pp)
                        &&& call_ensures(f, (ch_in,), ch_out)
                        &&& r == sigma_holds(
                            point_values(bases@),
                            u@,
                            self.0.t@,
                            scalar_values(self.0.z@),
                            sigma_beta(ch_out@, self.0.t),
                        )
                    };
                assert(ch_out@ == veq_log(*pp, *c0, *c1, ctx@));
            }
        }
        r
    }
}

} // verus!
