//! Π.FullEq: c1 is a re-randomisation of c0 (same identity and value). The
//! prover shows it knows Δblinding with c0 − c1 = Δblinding·g_ran.
use crate::algebra::{inner_product, inner_product_prefix};
use crate::commitment::{committed, lemma_commitment_difference, Commitment, Opening};
use crate::encoding::{chunk, decodable, decoding_of, encoding_of};
use crate::params::PublicParams;
use crate::point::{point_log, point_values, scalar_values};
use crate::scalar::{le_nat, lemma_modl_affine_inner, modl};
use crate::sigma::{lemma_sigma_complete, self, sigma_beta, sigma_holds, SigmaProof};
use crate::transcript::{params_log, Challenge, TranscriptOp};
use crate::veq::pair_statement;
use vstd::prelude::*;
use vstd::string::StringSliceAdditionalSpecFns;

verus! {

broadcast use crate::scalar::lemma_scalar_view_bound, crate::point::lemma_point_view_bound;

/// A Π.FullEq proof: a Σ proof over the single base g_ran.
pub struct FullEqProof(pub SigmaProof);

/// The transcript of Π.FullEq before t.
pub open spec fn fulleq_log(pp: PublicParams, c0: Commitment, c1: Commitment, ctx: Seq<u8>) -> Seq<TranscriptOp> {
    params_log("IBC/v1/FullEq".spec_bytes(), pp) + pair_statement(c0, c1, ctx)
}

/// What the verifier accepts: one response with z·g_ran = t + β·(c0 − c1),
/// β = H(ds, pp, c0, c1, ctx, t).
pub open spec fn fulleq_accepts(pp: PublicParams, c0: Commitment, c1: Commitment, ctx: Seq<u8>, proof: FullEqProof) -> bool {
    &&& proof.0.z@.len() == 1
    &&& sigma_holds(
        seq![pp.g_ran@],
        modl(c0.0@ - c1.0@),
        proof.0.t@,
        scalar_values(proof.0.z@),
        sigma_beta(fulleq_log(pp, c0, c1, ctx), proof.0.t),
    )
}

/// Honest response for mask α and challenge β on openings o0, o1.
pub open spec fn fulleq_responds(o0: Opening, o1: Opening, beta: int, alpha: int, z: int) -> bool {
    z == modl(beta * (o0.blinding@ - o1.blinding@) + alpha)
}

/// Completeness of Π.FullEq: an honest response for a re-randomised pair
/// passes the verification equation, whatever the mask and the challenge.
pub proof fn lemma_fulleq_complete(
    pp: PublicParams,
    c0: Commitment,
    c1: Commitment,
    o0: Opening,
    o1: Opening,
    proof: FullEqProof,
    beta: int,
    alpha: int,
)
    requires
        c0.0@ == committed(pp, o0),
        c1.0@ == committed(pp, o1),
        o0.id@ == o1.id@,
        o0.val@ == o1.val@,
        proof.0.z@.len() == 1,
        proof.0.t@ == modl(alpha * pp.g_ran@),
        fulleq_responds(o0, o1, beta, alpha, proof.0.z@[0]@),
    ensures
        sigma_holds(seq![pp.g_ran@], modl(c0.0@ - c1.0@), proof.0.t@, scalar_values(proof.0.z@), beta),
{
    reveal_with_fuel(inner_product_prefix, 2);
    let w = seq![o0.blinding@ - o1.blinding@];
    lemma_commitment_difference(pp, o0.id@, o0.val@, o0.blinding@, o1.id@, o1.val@, o1.blinding@);
    assert((o0.id@ - o1.id@) * pp.g_iden@ == 0);
    assert((o0.val@ - o1.val@) * pp.g_val@ == 0);
    let z = scalar_values(proof.0.z@);
    assert(z[0] == proof.0.z@[0]@);
    lemma_sigma_complete(seq![pp.g_ran@], w, seq![alpha], z, modl(c0.0@ - c1.0@), proof.0.t@, beta);
}

/// Appends the statement (c0, c1, ctx) to a transcript.
fn bind(ch: Challenge, c0: &Commitment, c1: &Commitment, ctx: &[u8]) -> (r: Challenge)
    requires
        ctx@.len() <= u32::MAX,
    ensures
        r@ == ch@ + pair_statement(*c0, *c1, ctx@),
{
    let r = ch.point("c0".as_bytes(), &c0.0).point("c1".as_bytes(), &c1.0).bytes("ctx".as_bytes(), ctx);
    assert(r@ =~= ch@ + pair_statement(*c0, *c1, ctx@));
    r
}

/// The domain of Π.FullEq transcripts, checked short enough for merlin.
fn domain() -> (r: &'static [u8])
    ensures
        r@ == "IBC/v1/FullEq".spec_bytes(),
        r@.len() <= u32::MAX,
{
    proof {
        reveal_strlit("IBC/v1/FullEq");
        crate::transcript::lemma_label_fits("IBC/v1/FullEq", 13);
    }
    "IBC/v1/FullEq".as_bytes()
}

impl FullEqProof {
    /// The non-interactive proof that c1 re-randomises c0.
    pub fn prove(
        pp: &PublicParams,
        c0: &Commitment,
        c1: &Commitment,
        o0: &Opening,
        o1: &Opening,
        ctx: &[u8],
    ) -> (r: FullEqProof)
        requires
            ctx@.len() <= u32::MAX,
        ensures
            r.0.z@.len() == 1,
            exists|alpha: int|
                {
                    &&& r.0.t@ == modl(alpha * pp.g_ran@)
                    &&& #[trigger] fulleq_responds(
                        *o0,
                        *o1,
                        sigma_beta(fulleq_log(*pp, *c0, *c1, ctx@), r.0.t),
                        alpha,
                        r.0.z@[0]@,
                    )
                },
            c0.0@ == committed(*pp, *o0) && c1.0@ == committed(*pp, *o1) && o0.id@ == o1.id@
                && o0.val@ == o1.val@ ==> fulleq_accepts(*pp, *c0, *c1, ctx@, r),
    {
        let bases = vec![pp.g_ran];
        let witness = vec![o0.blinding.sub(&o1.blinding)];
        let bind_statement = |ch: Challenge| -> (r: Challenge)
            requires
                ctx@.len() <= u32::MAX,
            ensures
                r@ == ch@ + pair_statement(*c0, *c1, ctx@),
            { bind(ch, c0, c1, ctx) };
        let ghost f = bind_statement;
        let sp = sigma::prove(pp, domain(), bases.as_slice(), witness.as_slice(), bind_statement);
        let r = FullEqProof(sp);
        proof {
            let (alphas, ch_in, ch_out) = choose|alphas: Seq<int>, ch_in: Challenge, ch_out: Challenge|
                {
                    &&& alphas.len() == bases@.len()
                    &&& ch_in@ == params_log("IBC/v1/FullEq".spec_bytes(), *pp)
                    &&& call_ensures(f, (ch_in,), ch_out)
                    &&& sp.t@ == modl(inner_product(alphas, point_values(bases@)))
                    &&& forall|i: int|
                        0 <= i < bases@.len() ==> (#[trigger] sp.z@[i])@ == modl(
                            sigma_beta(ch_out@, sp.t) * witness@[i]@ + alphas[i],
                        )
                };
            assert(ch_out@ == fulleq_log(*pp, *c0, *c1, ctx@));
            let beta = sigma_beta(ch_out@, sp.t);
            reveal_with_fuel(inner_product_prefix, 2);
            assert(point_values(bases@) =~= seq![pp.g_ran@]);
            assert(sp.z@[0]@ == modl(beta * witness@[0]@ + alphas[0]));
            lemma_modl_affine_inner(beta, o0.blinding@ - o1.blinding@, alphas[0]);
            assert(r.0.t@ == modl(alphas[0] * pp.g_ran@));
            assert(fulleq_responds(*o0, *o1, beta, alphas[0], r.0.z@[0]@));
            if c0.0@ == committed(*pp, *o0) && c1.0@ == committed(*pp, *o1) && o0.id@ == o1.id@
                && o0.val@ == o1.val@ {
                lemma_fulleq_complete(*pp, *c0, *c1, *o0, *o1, r, beta, alphas[0]);
            }
        }
        r
    }

    /// Recomputes β and checks the proof, through the Σ engine.
    pub fn verify(&self, pp: &PublicParams, c0: &Commitment, c1: &Commitment, ctx: &[u8]) -> (r: bool)
        requires
            ctx@.len() <= u32::MAX,
        ensures
            r == fulleq_accepts(*pp, *c0, *c1, ctx@, *self),
    {
        let bases = vec![pp.g_ran];
        let u = c0.0.sub(&c1.0);
        let bind_statement = |ch: Challenge| -> (r: Challenge)
            requires
                ctx@.len() <= u32::MAX,
            ensures
                r@ == ch@ + pair_statement(*c0, *c1, ctx@),
            { bind(ch, c0, c1, ctx) };
        let ghost f = bind_statement;
        let r = sigma::verify(pp, domain(), bases.as_slice(), &u, &self.0, bind_statement);
        proof {
            assert(point_values(bases@) =~= seq![pp.g_ran@]);
            if self.0.z@.len() == 1 {
                let (ch_in, ch_out) = choose|ch_in: Challenge, ch_out: Challenge|
                    {
                        &&& ch_in@ == params_log("IBC/v1/FullEq".spec_bytes(), *pp)
                        &&& call_ensures(f, (ch_in,), ch_out)
                        &&& r == sigma_holds(
                            point_values(bases@),
                            u@,
                            self.0.t@,
                            scalar_values(self.0.z@),
                            sigma_beta(ch_out@, self.0.t),
                        )
                    };
                assert(ch_out@ == fulleq_log(*pp, *c0, *c1, ctx@));
            }
        }
        r
    }

    /// The encoding of the proof: t, then the response (64 bytes).
    pub fn to_bytes(&self) -> (r: Vec<u8>)
        ensures
            r@ == encoding_of(seq![self.0.t], self.0.z@),
            decoding_of(r@, 1, self.0.z@.len()) == Some((seq![self.0.t@], scalar_values(self.0.z@))),
    {
        self.0.to_bytes()
    }

    /// Reads a proof with one response; `None` where the bytes do not decode.
    pub fn from_bytes(bytes: &[u8]) -> (r: Option<FullEqProof>)
        ensures
            r is Some <==> decodable(bytes@, 1, 1),
            r matches Some(p) ==> p.0.t@ == point_log(chunk(bytes@, 0)) && p.0.z@.len() == 1
                && p.0.z@[0]@ == le_nat(chunk(bytes@, 1)),
    {
        match SigmaProof::from_bytes(bytes, 1) {
            Some(sp) => {
                assert(sp.z@[0]@ == le_nat(chunk(bytes@, 1 + 0int)));
                Some(FullEqProof(sp))
            },
            None => None,
        }
    }
}

} // verus!
