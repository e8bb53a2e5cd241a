//! The generic Σ-protocol engine: a proof of knowledge of w with
//! U = Σ w[i]·bases[i], made non-interactive by Fiat–Shamir.
use crate::algebra::{
    inner_product, inner_product_prefix, lemma_inner_product_affine, lemma_inner_product_modl,
    lemma_inner_product_scale, lemma_inner_product_sub,
};
use crate::encoding::{chunk, decodable, decode, decoding_of, encode, encoding_of};
use crate::params::PublicParams;
use crate::point::{point_log, point_values, scalar_values, Point};
use crate::scalar::{
    group_order, invertible, le_nat, lemma_modl_add, lemma_modl_bound, lemma_modl_cancel,
    lemma_modl_eq_diff, lemma_modl_mul, lemma_modl_shift, lemma_modl_small, lemma_modl_sub,
    lemma_modl_term, modl, Scalar,
};
use crate::transcript::{beta_of, params_log, point_op, Challenge, TranscriptOp};
use vstd::prelude::*;
use vstd::string::StringSliceAdditionalSpecFns;

verus! {

broadcast use crate::scalar::lemma_scalar_view_bound, crate::point::lemma_point_view_bound;

/// A Σ-protocol proof: the first message t and one response per base.
#[derive(Clone, Debug)]
pub struct SigmaProof {
    pub t: Point,
    pub z: Vec<Scalar>,
}

/// The challenge bound to a statement history `log` and a first message `t`.
pub open spec fn sigma_beta(log: Seq<TranscriptOp>, t: Point) -> int {
    beta_of(log.push(point_op("t".spec_bytes(), t)))
}

/// The verification equation Σ z[i]·bases[i] = t + β·U, on discrete logs.
pub open spec fn sigma_holds(bases: Seq<int>, u: int, t: int, z: Seq<int>, beta: int) -> bool {
    modl(inner_product(z, bases)) == modl(t + beta * u)
}

/// The value of Σ s·P over a list of (scalar, point) terms.
pub open spec fn terms_value(terms: Seq<(Scalar, Point)>) -> int {
    modl(
        inner_product(
            terms.map_values(|x: (Scalar, Point)| x.0@),
            terms.map_values(|x: (Scalar, Point)| x.1@),
        ),
    )
}

/// Completeness: responses z[i] = β·w[i] + α[i] to t = Σ α·bases satisfy the
/// verification equation for U = Σ w·bases.
pub proof fn lemma_sigma_complete(
    bases: Seq<int>,
    witness: Seq<int>,
    alphas: Seq<int>,
    z: Seq<int>,
    u: int,
    t: int,
    beta: int,
)
    requires
        witness.len() == bases.len(),
        alphas.len() == bases.len(),
        z.len() == bases.len(),
        u == modl(inner_product(witness, bases)),
        t == modl(inner_product(alphas, bases)),
        forall|i: int| 0 <= i < z.len() ==> #[trigger] z[i] == modl(beta * witness[i] + alphas[i]),
    ensures
        sigma_holds(bases, u, t, z, beta),
{
    let n = bases.len();
    let raw = Seq::new(n, |i: int| beta * witness[i] + alphas[i]);
    assert forall|i: int| 0 <= i < n implies modl(#[trigger] z[i]) == modl(raw[i]) by {
        lemma_modl_bound(raw[i]);
        crate::scalar::lemma_modl_small(modl(raw[i]));
    }
    lemma_inner_product_modl(z, raw, bases, n);
    lemma_inner_product_affine(raw, witness, alphas, bases, beta, n);
    let pw = inner_product(witness, bases);
    let pa = inner_product(alphas, bases);
    // modl(t + β·u) = modl(Σα·g + β·Σw·g)
    lemma_modl_add(pa, beta * u);
    lemma_modl_mul(pw, beta);
    assert(beta * u == u * beta) by (nonlinear_arith);
    assert(beta * pw == pw * beta) by (nonlinear_arith);
    lemma_modl_add(pa, beta * pw);
    let k = lemma_modl_term(pw, beta);
    lemma_modl_shift(pa + modl(pw) * beta, pa + pw * beta, k);
}

/// An honest prover convinces only of true statements: with responses
/// z[i] = β·w[i] + α[i] to t = Σ α·bases and an invertible challenge β, the
/// check passes exactly when U = Σ w·bases.
pub proof fn lemma_sigma_honest_sound(
    bases: Seq<int>,
    witness: Seq<int>,
    alphas: Seq<int>,
    z: Seq<int>,
    u: int,
    t: int,
    beta: int,
)
    requires
        witness.len() == bases.len(),
        alphas.len() == bases.len(),
        z.len() == bases.len(),
        t == modl(inner_product(alphas, bases)),
        forall|i: int| 0 <= i < z.len() ==> #[trigger] z[i] == modl(beta * witness[i] + alphas[i]),
        invertible(beta),
    ensures
        sigma_holds(bases, u, t, z, beta) <==> modl(u) == modl(inner_product(witness, bases)),
{
    let pw = inner_product(witness, bases);
    lemma_sigma_complete(bases, witness, alphas, z, modl(pw), t, beta);
    // the check at U is the check at Σ w·bases exactly when β·(U − Σ w·bases) ≡ 0
    lemma_modl_mul(beta, pw);
    lemma_modl_add(t, beta * modl(pw));
    lemma_modl_add(t, modl(beta * modl(pw)));
    lemma_modl_add(t, beta * pw);
    lemma_modl_add(t, modl(beta * pw));
    assert(modl(t + beta * modl(pw)) == modl(t + beta * pw));
    lemma_modl_eq_diff(t + beta * u, t + beta * pw);
    assert((t + beta * u) - (t + beta * pw) == beta * (u - pw)) by (nonlinear_arith);
    lemma_modl_cancel(beta, u - pw);
    lemma_modl_eq_diff(u, pw);
}

/// Honest-verifier zero knowledge: for any responses z and challenge β, the
/// first message t = Σ z·bases − β·U makes (t, β, z) pass, with no witness.
pub proof fn lemma_sigma_simulate(bases: Seq<int>, u: int, z: Seq<int>, beta: int)
    ensures
        sigma_holds(bases, u, modl(inner_product(z, bases) - beta * u), z, beta),
{
    let s = inner_product(z, bases);
    lemma_modl_add(s - beta * u, beta * u);
}

/// Special soundness: two accepting transcripts with the same t and different
/// challenges yield a witness, w[i] = (z1[i] − z2[i])/(β1 − β2), of U.
pub proof fn lemma_sigma_extract(
    bases: Seq<int>,
    u: int,
    t: int,
    z1: Seq<int>,
    z2: Seq<int>,
    beta1: int,
    beta2: int,
    inv: int,
    w: Seq<int>,
)
    requires
        z1.len() == bases.len(),
        z2.len() == bases.len(),
        w.len() == bases.len(),
        0 <= u < group_order(),
        sigma_holds(bases, u, t, z1, beta1),
        sigma_holds(bases, u, t, z2, beta2),
        modl((beta1 - beta2) * inv) == 1,
        forall|i: int| 0 <= i < w.len() ==> #[trigger] w[i] == modl((z1[i] - z2[i]) * inv),
    ensures
        u == modl(inner_product(w, bases)),
{
    let n = bases.len();
    let d = Seq::new(n, |i: int| z1[i] - z2[i]);
    lemma_inner_product_sub(d, z1, z2, bases, n);
    let raw = Seq::new(n, |i: int| inv * d[i]);
    assert forall|i: int| 0 <= i < n implies modl(#[trigger] w[i]) == modl(raw[i]) by {
        assert((z1[i] - z2[i]) * inv == inv * d[i]) by (nonlinear_arith)
            requires
                d[i] == z1[i] - z2[i],
        ;
        lemma_modl_bound(raw[i]);
        lemma_modl_small(modl(raw[i]));
    }
    lemma_inner_product_modl(w, raw, bases, n);
    lemma_inner_product_scale(raw, d, bases, inv, n);
    let p1 = inner_product(z1, bases);
    let p2 = inner_product(z2, bases);
    // p1 − p2 ≡ (t + β1·u) − (t + β2·u) = (β1 − β2)·u
    lemma_modl_sub(p1, p2);
    lemma_modl_sub(t + beta1 * u, t + beta2 * u);
    assert((t + beta1 * u) - (t + beta2 * u) == (beta1 - beta2) * u) by (nonlinear_arith);
    assert(modl(p1 - p2) == modl((beta1 - beta2) * u));
    // inv·(p1 − p2) ≡ inv·(β1 − β2)·u ≡ u
    lemma_modl_mul(inv, p1 - p2);
    lemma_modl_mul(inv, (beta1 - beta2) * u);
    assert(inv * ((beta1 - beta2) * u) == ((beta1 - beta2) * inv) * u) by (nonlinear_arith);
    lemma_modl_mul((beta1 - beta2) * inv, u);
    lemma_modl_small(u);
}

/// The extractor on responses: from z_k = β_k·w + α for two challenges
/// β1 ≠ β2 sharing the mask α, (z1 − z2)/(β1 − β2) recovers w.
pub proof fn lemma_response_extract(w: int, alpha: int, beta1: int, beta2: int, inv: int, z1: int, z2: int)
    requires
        z1 == modl(beta1 * w + alpha),
        z2 == modl(beta2 * w + alpha),
        modl((beta1 - beta2) * inv) == 1,
    ensures
        modl((z1 - z2) * inv) == modl(w),
{
    // z1 − z2 ≡ (β1 − β2)·w
    lemma_modl_sub(beta1 * w + alpha, beta2 * w + alpha);
    assert((beta1 * w + alpha) - (beta2 * w + alpha) == (beta1 - beta2) * w) by (nonlinear_arith);
    lemma_modl_mul(z1 - z2, inv);
    lemma_modl_mul((beta1 - beta2) * w, inv);
    assert(modl((z1 - z2) * inv) == modl((beta1 - beta2) * w * inv)) by {
        lemma_modl_mul(inv, z1 - z2);
        lemma_modl_mul(inv, (beta1 - beta2) * w);
        assert((z1 - z2) * inv == inv * (z1 - z2)) by (nonlinear_arith);
        assert((beta1 - beta2) * w * inv == inv * ((beta1 - beta2) * w)) by (nonlinear_arith);
    }
    assert((beta1 - beta2) * w * inv == ((beta1 - beta2) * inv) * w) by (nonlinear_arith);
    lemma_modl_mul((beta1 - beta2) * inv, w);
    lemma_modl_mul(1, w);
}

/// Σ scalars[i]·points[i] over the positions both slices have.
pub fn linear_combination(scalars: &[Scalar], points: &[Point]) -> (r: Point)
    ensures
        r@ == modl(inner_product(scalar_values(scalars@), point_values(points@))),
{
    let n = if scalars.len() <= points.len() {
        scalars.len()
    } else {
        points.len()
    };
    let ghost sv = scalar_values(scalars@);
    let ghost pv = point_values(points@);
    let mut acc = Point::identity();
    proof {
        lemma_modl_small(0);
    }
    let mut i: usize = 0;
    while i < n
        invariant
            n <= scalars@.len(),
            n <= points@.len(),
            i <= n,
            sv == scalar_values(scalars@),
            pv == point_values(points@),
            acc@ == modl(inner_product_prefix(sv, pv, i as nat)),
        decreases n - i,
    {
        let term = points[i].mul(&scalars[i]);
        let next = acc.add(&term);
        proof {
            let prev = inner_product_prefix(sv, pv, i as nat);
            let x = scalars@[i as int]@ * points@[i as int]@;
            lemma_modl_add(prev, x);
            assert(sv[i as int] == scalars@[i as int]@);
            assert(pv[i as int] == points@[i as int]@);
            assert(inner_product_prefix(sv, pv, (i + 1) as nat) == prev + sv[i as int] * pv[i as int]);
        }
        acc = next;
        i += 1;
    }
    acc
}

/// Proves knowledge of `witness` with U = Σ witness[i]·bases[i]. `bind`
/// appends the statement to the transcript before t.
pub fn prove(
    pp: &PublicParams,
    domain: &'static [u8],
    bases: &[Point],
    witness: &[Scalar],
    bind: impl FnOnce(Challenge) -> Challenge,
) -> (r: SigmaProof)
    requires
        bases@.len() == witness@.len(),
        domain@.len() <= u32::MAX,
        forall|ch: Challenge| ch@ == params_log(domain@, *pp) ==> call_requires(bind, (ch,)),
    ensures
        r.z@.len() == bases@.len(),
        exists|alphas: Seq<int>, ch_in: Challenge, ch_out: Challenge|
            {
                &&& alphas.len() == bases@.len()
                &&& ch_in@ == params_log(domain@, *pp)
                &&& call_ensures(bind, (ch_in,), ch_out)
                &&& r.t@ == modl(inner_product(alphas, point_values(bases@)))
                &&& forall|i: int|
                    0 <= i < bases@.len() ==> (#[trigger] r.z@[i])@ == modl(
                        sigma_beta(ch_out@, r.t) * witness@[i]@ + alphas[i],
                    )
            },
{
    let n = bases.len();
    // Round 1: one fresh mask per base, then t.
    let mut alphas: Vec<Scalar> = Vec::new();
    let mut i: usize = 0;
    while i < n
        invariant
            i <= n,
            alphas@.len() == i,
        decreases n - i,
    {
        alphas.push(Scalar::random());
        i += 1;
    }
    let t = linear_combination(alphas.as_slice(), bases);
    // Challenge: statement first (via bind), then t.
    let ch_in = Challenge::new(domain, pp);
    let ghost g_in = ch_in;
    let ch_out = bind(ch_in);
    let ghost g_out = ch_out;
    let beta = ch_out.point("t".as_bytes(), &t).finish();
    // Round 3: mask each witness coordinate with the challenge.
    let mut z: Vec<Scalar> = Vec::new();
    let mut j: usize = 0;
    while j < n
        invariant
            n == bases@.len(),
            n == witness@.len(),
            n == alphas@.len(),
            j <= n,
            z@.len() == j,
            forall|k: int|
                0 <= k < j ==> (#[trigger] z@[k])@ == modl(beta@ * witness@[k]@ + alphas@[k]@),
        decreases n - j,
    {
        let bw = beta.mul(&witness[j]);
        let zj = bw.add(&alphas[j]);
        proof {
            lemma_modl_add(beta@ * witness@[j as int]@, alphas@[j as int]@);
        }
        z.push(zj);
        j += 1;
    }
    let r = SigmaProof { t, z };
    proof {
        let av = scalar_values(alphas@);
        assert(r.t@ == modl(inner_product(av, point_values(bases@))));
        assert(beta@ == sigma_beta(g_out@, t));
        assert forall|k: int| 0 <= k < bases@.len() implies (#[trigger] r.z@[k])@ == modl(
            sigma_beta(g_out@, r.t) * witness@[k]@ + av[k],
        ) by {
            assert(r.z@[k]@ == modl(beta@ * witness@[k]@ + alphas@[k]@));
        }
    }
    r
}

/// Checks Σ z[i]·bases[i] = t + β·U, with β recomputed from the transcript.
pub fn verify(
    pp: &PublicParams,
    domain: &'static [u8],
    bases: &[Point],
    u: &Point,
    proof: &SigmaProof,
    bind: impl FnOnce(Challenge) -> Challenge,
) -> (r: bool)
    requires
        domain@.len() <= u32::MAX,
        forall|ch: Challenge| ch@ == params_log(domain@, *pp) ==> call_requires(bind, (ch,)),
    ensures
        proof.z@.len() != bases@.len() ==> !r,
        proof.z@.len() == bases@.len() ==> exists|ch_in: Challenge, ch_out: Challenge|
            {
                &&& ch_in@ == params_log(domain@, *pp)
                &&& call_ensures(bind, (ch_in,), ch_out)
                &&& r == sigma_holds(
                    point_values(bases@),
                    u@,
                    proof.t@,
                    scalar_values(proof.z@),
                    sigma_beta(ch_out@, proof.t),
                )
            },
{
    if proof.z.len() != bases.len() {
        return false;
    }
    let ch_in = Challenge::new(domain, pp);
    let ghost g_in = ch_in;
    let ch_out = bind(ch_in);
    let ghost g_out = ch_out;
    let beta = ch_out.point("t".as_bytes(), &proof.t).finish();
    let lhs = linear_combination(proof.z.as_slice(), bases);
    let bu = u.mul(&beta);
    let rhs = proof.t.add(&bu);
    proof {
        lemma_modl_add(proof.t@, beta@ * u@);
        assert(beta@ * u@ == u@ * beta@) by (nonlinear_arith);
    }
    lhs.equals(&rhs)
}

/// `verify` for a target U given as a list of (scalar, point) terms,
/// U = Σ terms[j].0·terms[j].1.
pub fn verify_terms(
    pp: &PublicParams,
    domain: &'static [u8],
    bases: &[Point],
    terms: &[(Scalar, Point)],
    proof: &SigmaProof,
    bind: impl FnOnce(Challenge) -> Challenge,
) -> (r: bool)
    requires
        domain@.len() <= u32::MAX,
        forall|ch: Challenge| ch@ == params_log(domain@, *pp) ==> call_requires(bind, (ch,)),
    ensures
        proof.z@.len() != bases@.len() ==> !r,
        proof.z@.len() == bases@.len() ==> exists|ch_in: Challenge, ch_out: Challenge|
            {
                &&& ch_in@ == params_log(domain@, *pp)
                &&& call_ensures(bind, (ch_in,), ch_out)
                &&& r == sigma_holds(
                    point_values(bases@),
                    terms_value(terms@),
                    proof.t@,
                    scalar_values(proof.z@),
                    sigma_beta(ch_out@, proof.t),
                )
            },
{
    let mut scalars: Vec<Scalar> = Vec::new();
    let mut points: Vec<Point> = Vec::new();
    let mut i: usize = 0;
    while i < terms.len()
        invariant
            i <= terms@.len(),
            scalars@.len() == i,
            points@.len() == i,
            forall|k: int| 0 <= k < i ==> #[trigger] scalars@[k] == terms@[k].0,
            forall|k: int| 0 <= k < i ==> #[trigger] points@[k] == terms@[k].1,
        decreases terms@.len() - i,
    {
        scalars.push(terms[i].0);
        points.push(terms[i].1);
        i += 1;
    }
    let u = linear_combination(scalars.as_slice(), points.as_slice());
    proof {
        assert(scalar_values(scalars@) =~= terms@.map_values(|x: (Scalar, Point)| x.0@));
        assert(point_values(points@) =~= terms@.map_values(|x: (Scalar, Point)| x.1@));
    }
    verify(pp, domain, bases, &u, proof, bind)
}

impl SigmaProof {
    /// The encoding of t, then of each response.
    pub fn to_bytes(&self) -> (r: Vec<u8>)
        ensures
            r@ == encoding_of(seq![self.t], self.z@),
            decoding_of(r@, 1, self.z@.len()) == Some((seq![self.t@], scalar_values(self.z@))),
    {
        let ts = [self.t];
        let r = encode(ts.as_slice(), self.z.as_slice());
        assert(ts@ =~= seq![self.t]);
        assert(point_values(ts@) =~= seq![self.t@]);
        r
    }

    /// Reads a proof with `n` responses; `None` where `decode` fails.
    pub fn from_bytes(bytes: &[u8], n: usize) -> (r: Option<SigmaProof>)
        requires
            32 * (1 + n) <= usize::MAX,
        ensures
            r is Some <==> decodable(bytes@, 1, n as nat),
            r matches Some(p) ==> p.t@ == point_log(chunk(bytes@, 0)) && p.z@.len() == n
                && forall|j: int| 0 <= j < n ==> (#[trigger] p.z@[j])@ == le_nat(chunk(bytes@, 1 + j)),
    {
        match decode(bytes, 1, n) {
            Some((ps, ss)) => {
                proof {
                    let d = crate::encoding::decoding_of(bytes@, 1, n as nat).unwrap();
                    assert(d.0.len() == 1);
                    assert(d.1.len() == n);
                    assert(point_values(ps@).len() == ps@.len());
                    assert(scalar_values(ss@).len() == ss@.len());
                }
                let t = ps[0];
                proof {
                    assert(point_values(ps@)[0] == ps@[0]@);
                    assert forall|j: int| 0 <= j < n implies (#[trigger] ss@[j])@ == le_nat(chunk(bytes@, 1 + j)) by {
                        assert(scalar_values(ss@)[j] == ss@[j]@);
                    }
                }
                Some(SigmaProof { t, z: ss })
            },
            None => None,
        }
    }
}

} // verus!
