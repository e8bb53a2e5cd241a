//! The interactive Schnorr protocol for knowledge of x with P = x·G.
use crate::point::Point;
use crate::scalar::{
    group_order, invertible, lemma_modl_add, lemma_modl_bound, lemma_modl_cancel,
    lemma_modl_eq_diff, lemma_modl_mul, lemma_modl_small, lemma_modl_sub, modl, Scalar,
};
use crate::sigma::{lemma_sigma_extract, lemma_sigma_honest_sound};
use crate::algebra::{inner_product, inner_product_prefix};
use vstd::prelude::*;

verus! {

broadcast use crate::scalar::lemma_scalar_view_bound, crate::point::lemma_point_view_bound;

/// The check z·G = t + β·P.
pub open spec fn schnorr_holds(g: int, p: int, t: int, beta: int, z: int) -> bool {
    modl(z * g) == modl(t + beta * p)
}

/// Completeness: for P = x·G and t = α·G, the response z = β·x + α passes.
pub proof fn lemma_schnorr_complete(g: int, x: int, alpha: int, beta: int, p: int, t: int, z: int)
    requires
        p == modl(x * g),
        t == modl(alpha * g),
        z == modl(beta * x + alpha),
    ensures
        schnorr_holds(g, p, t, beta, z),
{
    lemma_modl_mul(beta * x + alpha, g);
    lemma_modl_add(alpha * g, beta * p);
    lemma_modl_mul(beta, x * g);
    lemma_modl_add(alpha * g, beta * (x * g));
    assert((beta * x + alpha) * g == alpha * g + beta * (x * g)) by (nonlinear_arith);
    lemma_modl_add(alpha * g, beta * modl(x * g));
    lemma_modl_add(alpha * g, modl(beta * modl(x * g)));
}

/// An honest response at an invertible challenge passes exactly when the
/// secret it answers for is the one behind P, for a base G of invertible log:
/// with P = x·G, t = α·G and z = β·w + α, the check holds iff w = x.
pub proof fn lemma_schnorr_honest_sound(g: int, x: int, w: int, alpha: int, beta: int, p: int, t: int, z: int)
    requires
        p == modl(x * g),
        t == modl(alpha * g),
        z == modl(beta * w + alpha),
        invertible(beta),
        invertible(g),
    ensures
        schnorr_holds(g, p, t, beta, z) <==> modl(w) == modl(x),
{
    reveal_with_fuel(inner_product_prefix, 2);
    let bases = seq![g];
    assert(inner_product(seq![alpha], bases) == alpha * g);
    assert(inner_product(seq![w], bases) == w * g);
    assert(inner_product(seq![z], bases) == z * g);
    lemma_sigma_honest_sound(bases, seq![w], seq![alpha], seq![z], p, t, beta);
    lemma_modl_bound(x * g);
    lemma_modl_small(p);
    lemma_modl_eq_diff(x * g, w * g);
    assert(x * g - w * g == g * (x - w)) by (nonlinear_arith);
    lemma_modl_cancel(g, x - w);
    lemma_modl_eq_diff(x, w);
}

/// Zero knowledge, made concrete: for any z and β, the first message
/// t = z·G − β·P makes (t, β, z) pass, with no witness at all.
pub proof fn lemma_schnorr_simulate(g: int, p: int, beta: int, z: int, t: int)
    requires
        t == modl(modl(z * g) - modl(beta * p)),
    ensures
        schnorr_holds(g, p, t, beta, z),
{
    lemma_modl_sub(z * g, beta * p);
    lemma_modl_add(z * g - beta * p, beta * p);
    lemma_modl_add(t, beta * p);
}

/// Special soundness: two passing transcripts with the same t and different
/// challenges give x* = (z1 − z2)/(β1 − β2) with x*·G = P.
pub proof fn lemma_schnorr_extract(g: int, p: int, t: int, beta1: int, beta2: int, z1: int, z2: int, inv: int)
    requires
        0 <= p < group_order(),
        schnorr_holds(g, p, t, beta1, z1),
        schnorr_holds(g, p, t, beta2, z2),
        modl((beta1 - beta2) * inv) == 1,
    ensures
        modl(modl((z1 - z2) * inv) * g) == p,
{
    reveal_with_fuel(inner_product_prefix, 2);
    let w = seq![modl((z1 - z2) * inv)];
    lemma_sigma_extract(seq![g], p, t, seq![z1], seq![z2], beta1, beta2, inv, w);
}

/// Round 1: a fresh mask α and t = α·G.
pub fn commit(g: &Point) -> (r: (Scalar, Point))
    ensures
        r.1@ == modl(r.0@ * g@),
{
    let alpha = Scalar::random();
    let t = g.mul(&alpha);
    (alpha, t)
}

/// A fresh random challenge.
pub fn random_challenge() -> (r: Scalar) {
    Scalar::random()
}

/// Round 3: z = β·x + α.
pub fn respond(alpha: Scalar, beta: Scalar, x: Scalar) -> (r: Scalar)
    ensures
        r@ == modl(beta@ * x@ + alpha@),
{
    let r = beta.mul(&x).add(&alpha);
    proof {
        lemma_modl_add(beta@ * x@, alpha@);
    }
    r
}

/// The verifier's check z·G = t + β·P.
pub fn check(g: &Point, p: &Point, t: &Point, beta: Scalar, z: Scalar) -> (r: bool)
    ensures
        r == schnorr_holds(g@, p@, t@, beta@, z@),
{
    let lhs = g.mul(&z);
    let rhs = t.add(&p.mul(&beta));
    proof {
        lemma_modl_add(t@, beta@ * p@);
    }
    lhs.equals(&rhs)
}

} // verus!
