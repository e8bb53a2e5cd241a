//! Linear combinations Σ a[i]·b[i] of integers, and their behaviour modulo ℓ.
use crate::scalar::{group_order, lemma_modl_quotient, lemma_modl_shift, modl};
use vstd::prelude::*;

verus! {

/// Σ a[i]·b[i] over the first `n` positions.
pub open spec fn inner_product_prefix(a: Seq<int>, b: Seq<int>, n: nat) -> int
    decreases n,
{
    if n == 0 {
        0
    } else {
        inner_product_prefix(a, b, (n - 1) as nat) + a[n - 1] * b[n - 1]
    }
}

/// Σ a[i]·b[i] over the positions that both sequences have.
pub open spec fn inner_product(a: Seq<int>, b: Seq<int>) -> int {
    inner_product_prefix(a, b, if a.len() <= b.len() { a.len() } else { b.len() })
}

/// If c[i] = β·w[i] + α[i] at every position, then Σ c·g = β·Σ w·g + Σ α·g.
pub proof fn lemma_inner_product_affine(c: Seq<int>, w: Seq<int>, al: Seq<int>, g: Seq<int>, beta: int, n: nat)
    requires
        forall|i: int| 0 <= i < n ==> #[trigger] c[i] == beta * w[i] + al[i],
    ensures
        inner_product_prefix(c, g, n) == beta * inner_product_prefix(w, g, n) + inner_product_prefix(al, g, n),
    decreases n,
{
    if n > 0 {
        let m = (n - 1) as nat;
        lemma_inner_product_affine(c, w, al, g, beta, m);
        let (ci, wi, ai, gi) = (c[n - 1], w[n - 1], al[n - 1], g[n - 1]);
        assert(ci * gi == beta * (wi * gi) + ai * gi) by (nonlinear_arith)
            requires
                ci == beta * wi + ai,
        ;
        let (pc, pw, pa) = (inner_product_prefix(c, g, m), inner_product_prefix(w, g, m), inner_product_prefix(al, g, m));
        assert(beta * (pw + wi * gi) == beta * pw + beta * (wi * gi)) by (nonlinear_arith);
    }
}

/// If c[i] = a[i] - b[i] at every position, then Σ c·g = Σ a·g − Σ b·g.
pub proof fn lemma_inner_product_sub(c: Seq<int>, a: Seq<int>, b: Seq<int>, g: Seq<int>, n: nat)
    requires
        forall|i: int| 0 <= i < n ==> #[trigger] c[i] == a[i] - b[i],
    ensures
        inner_product_prefix(c, g, n) == inner_product_prefix(a, g, n) - inner_product_prefix(b, g, n),
    decreases n,
{
    if n > 0 {
        lemma_inner_product_sub(c, a, b, g, (n - 1) as nat);
        let (ci, ai, bi, gi) = (c[n - 1], a[n - 1], b[n - 1], g[n - 1]);
        assert(ci * gi == ai * gi - bi * gi) by (nonlinear_arith)
            requires
                ci == ai - bi,
        ;
    }
}

/// Σ (x·a[i])·g[i] = x·Σ a·g.
pub proof fn lemma_inner_product_scale(c: Seq<int>, a: Seq<int>, g: Seq<int>, x: int, n: nat)
    requires
        forall|i: int| 0 <= i < n ==> #[trigger] c[i] == x * a[i],
    ensures
        inner_product_prefix(c, g, n) == x * inner_product_prefix(a, g, n),
    decreases n,
{
    if n > 0 {
        let m = (n - 1) as nat;
        lemma_inner_product_scale(c, a, g, x, m);
        let (ci, ai, gi) = (c[n - 1], a[n - 1], g[n - 1]);
        let pa = inner_product_prefix(a, g, m);
        assert(ci * gi == x * (ai * gi)) by (nonlinear_arith)
            requires
                ci == x * ai,
        ;
        assert(x * (pa + ai * gi) == x * pa + x * (ai * gi)) by (nonlinear_arith);
    }
}

/// Coefficients that agree modulo ℓ give combinations that agree modulo ℓ.
pub proof fn lemma_inner_product_congruent(a: Seq<int>, a2: Seq<int>, g: Seq<int>, n: nat) -> (k: int)
    requires
        forall|i: int| 0 <= i < n ==> modl(#[trigger] a[i]) == modl(a2[i]),
    ensures
        inner_product_prefix(a, g, n) == inner_product_prefix(a2, g, n) + group_order() * k,
    decreases n,
{
    if n == 0 {
        0
    } else {
        let m = (n - 1) as nat;
        let k0 = lemma_inner_product_congruent(a, a2, g, m);
        let (ai, bi, gi) = (a[n - 1], a2[n - 1], g[n - 1]);
        assert(modl(a[n - 1]) == modl(a2[n - 1]));
        let qa = lemma_modl_quotient(ai);
        let qb = lemma_modl_quotient(bi);
        let l = group_order() as int;
        assert(ai * gi == bi * gi + l * ((qa - qb) * gi)) by (nonlinear_arith)
            requires
                ai - l * qa == bi - l * qb,
        ;
        k0 + (qa - qb) * gi
    }
}

/// Coefficients that agree modulo ℓ give combinations that agree modulo ℓ.
pub proof fn lemma_inner_product_modl(a: Seq<int>, a2: Seq<int>, g: Seq<int>, n: nat)
    requires
        forall|i: int| 0 <= i < n ==> modl(#[trigger] a[i]) == modl(a2[i]),
    ensures
        modl(inner_product_prefix(a, g, n)) == modl(inner_product_prefix(a2, g, n)),
{
    let k = lemma_inner_product_congruent(a, a2, g, n);
    lemma_modl_shift(inner_product_prefix(a, g, n), inner_product_prefix(a2, g, n), k);
}

/// Points that agree modulo ℓ give combinations that agree modulo ℓ.
pub proof fn lemma_inner_product_modl_right(a: Seq<int>, g: Seq<int>, g2: Seq<int>, n: nat)
    requires
        forall|i: int| 0 <= i < n ==> modl(#[trigger] g[i]) == modl(g2[i]),
    ensures
        modl(inner_product_prefix(a, g, n)) == modl(inner_product_prefix(a, g2, n)),
{
    lemma_inner_product_commute(a, g, n);
    lemma_inner_product_commute(a, g2, n);
    lemma_inner_product_modl(g, g2, a, n);
}

/// Σ a·g = Σ g·a.
pub proof fn lemma_inner_product_commute(a: Seq<int>, g: Seq<int>, n: nat)
    ensures
        inner_product_prefix(a, g, n) == inner_product_prefix(g, a, n),
    decreases n,
{
    if n > 0 {
        lemma_inner_product_commute(a, g, (n - 1) as nat);
        assert(a[n - 1] * g[n - 1] == g[n - 1] * a[n - 1]) by (nonlinear_arith);
    }
}

/// Only the first `n` positions of either sequence matter.
pub proof fn lemma_inner_product_prefix_ext(a: Seq<int>, b: Seq<int>, a2: Seq<int>, b2: Seq<int>, n: nat)
    requires
        forall|i: int| 0 <= i < n ==> #[trigger] a[i] == a2[i] && b[i] == b2[i],
    ensures
        inner_product_prefix(a, b, n) == inner_product_prefix(a2, b2, n),
    decreases n,
{
    if n > 0 {
        lemma_inner_product_prefix_ext(a, b, a2, b2, (n - 1) as nat);
        assert(a[n - 1] == a2[n - 1] && b[n - 1] == b2[n - 1]);
    }
}

/// If e[k] = a[k]·x + b[k]·y at every position, then Σ g·e = (Σ g·a)·x + (Σ g·b)·y.
pub proof fn lemma_inner_product_combine(g: Seq<int>, e: Seq<int>, a: Seq<int>, b: Seq<int>, x: int, y: int, n: nat)
    requires
        forall|k: int| 0 <= k < n ==> #[trigger] e[k] == a[k] * x + b[k] * y,
    ensures
        inner_product_prefix(g, e, n) == inner_product_prefix(g, a, n) * x + inner_product_prefix(g, b, n) * y,
    decreases n,
{
    if n > 0 {
        let m = (n - 1) as nat;
        lemma_inner_product_combine(g, e, a, b, x, y, m);
        let (gk, ek, ak, bk) = (g[n - 1], e[n - 1], a[n - 1], b[n - 1]);
        let (pa, pb) = (inner_product_prefix(g, a, m), inner_product_prefix(g, b, m));
        assert(gk * ek == (gk * ak) * x + (gk * bk) * y) by (nonlinear_arith)
            requires
                ek == ak * x + bk * y,
        ;
        assert((pa + gk * ak) * x + (pb + gk * bk) * y == pa * x + pb * y + (gk * ak) * x + (gk * bk) * y) by (nonlinear_arith);
    }
}

/// Σ over [h] + a and [x] + b is h·x plus Σ over a and b.
pub proof fn lemma_inner_product_cons(h: int, a: Seq<int>, x: int, b: Seq<int>, n: nat)
    requires
        n <= a.len(),
        n <= b.len(),
    ensures
        inner_product_prefix(seq![h] + a, seq![x] + b, n + 1) == h * x + inner_product_prefix(a, b, n),
    decreases n,
{
    let (a2, b2) = (seq![h] + a, seq![x] + b);
    if n == 0 {
        assert(inner_product_prefix(a2, b2, 0) == 0);
        assert(a2[0] == h && b2[0] == x);
    } else {
        lemma_inner_product_cons(h, a, x, b, (n - 1) as nat);
        assert(a2[n as int] == a[n - 1] && b2[n as int] == b[n - 1]);
    }
}

} // verus!
