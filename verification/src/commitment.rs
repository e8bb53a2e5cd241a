//! Pedersen-style commitments to an (identity, value, blinding) triple:
//! c = id·g_iden + val·g_val + blinding·g_ran.
use crate::params::PublicParams;
use crate::point::{encodes, is_point_encoding, ristretto_encoding, Point};
use crate::scalar::{
    invertible, lemma_modl_add, lemma_modl_cancel, lemma_modl_eq_diff, lemma_modl_shift,
    lemma_modl_small, lemma_modl_term, modl, Scalar,
};
use vstd::prelude::*;

verus! {

broadcast use crate::scalar::lemma_scalar_view_bound, crate::point::lemma_point_view_bound;

/// The opening of a commitment: everything the prover keeps secret.
#[derive(Clone, Copy, Debug)]
pub struct Opening {
    pub id: Scalar,
    pub val: Scalar,
    pub blinding: Scalar,
}

/// A commitment, a point of the group.
#[derive(Clone, Copy, Debug)]
pub struct Commitment(pub Point);

/// The discrete logarithm of id·g_iden + val·g_val + blinding·g_ran.
pub open spec fn commitment_value(pp: PublicParams, id: int, val: int, blinding: int) -> int {
    modl(id * pp.g_iden@ + val * pp.g_val@ + blinding * pp.g_ran@)
}

/// The commitment that an opening determines.
pub open spec fn committed(pp: PublicParams, o: Opening) -> int {
    commitment_value(pp, o.id@, o.val@, o.blinding@)
}

/// Commitments add componentwise: the commitment to the sum of two openings
/// is the sum of their commitments.
pub proof fn lemma_commitment_homomorphic(
    pp: PublicParams,
    id1: int,
    val1: int,
    r1: int,
    id2: int,
    val2: int,
    r2: int,
)
    ensures
        modl(commitment_value(pp, id1, val1, r1) + commitment_value(pp, id2, val2, r2))
            == commitment_value(pp, modl(id1 + id2), modl(val1 + val2), modl(r1 + r2)),
{
    let (gi, gv, gr) = (pp.g_iden@, pp.g_val@, pp.g_ran@);
    let a = id1 * gi + val1 * gv + r1 * gr;
    let b = id2 * gi + val2 * gv + r2 * gr;
    lemma_modl_add(a, b);
    let k1 = lemma_modl_term(id1 + id2, gi);
    let k2 = lemma_modl_term(val1 + val2, gv);
    let k3 = lemma_modl_term(r1 + r2, gr);
    assert((id1 + id2) * gi == id1 * gi + id2 * gi) by (nonlinear_arith);
    assert((val1 + val2) * gv == val1 * gv + val2 * gv) by (nonlinear_arith);
    assert((r1 + r2) * gr == r1 * gr + r2 * gr) by (nonlinear_arith);
    lemma_modl_shift(
        modl(id1 + id2) * gi + modl(val1 + val2) * gv + modl(r1 + r2) * gr,
        a + b,
        k1 + k2 + k3,
    );
}

/// The difference of two commitments commits to the differences of the openings.
pub proof fn lemma_commitment_difference(
    pp: PublicParams,
    id0: int,
    val0: int,
    r0: int,
    id1: int,
    val1: int,
    r1: int,
)
    ensures
        modl(commitment_value(pp, id0, val0, r0) - commitment_value(pp, id1, val1, r1)) == modl(
            (id0 - id1) * pp.g_iden@ + (val0 - val1) * pp.g_val@ + (r0 - r1) * pp.g_ran@,
        ),
{
    let (gi, gv, gr) = (pp.g_iden@, pp.g_val@, pp.g_ran@);
    let a = id0 * gi + val0 * gv + r0 * gr;
    let b = id1 * gi + val1 * gv + r1 * gr;
    crate::scalar::lemma_modl_sub(a, b);
    assert(a - b == (id0 - id1) * gi + (val0 - val1) * gv + (r0 - r1) * gr) by (nonlinear_arith)
        requires
            a == id0 * gi + val0 * gv + r0 * gr,
            b == id1 * gi + val1 * gv + r1 * gr,
    ;
}

/// Openings that differ in exactly one field differ by that field's
/// difference times its generator.
pub open spec fn differ_in_one_field(pp: PublicParams, o1: Opening, o2: Opening) -> bool {
    ||| o1.id@ != o2.id@ && o1.val@ == o2.val@ && o1.blinding@ == o2.blinding@ && invertible(pp.g_iden@)
    ||| o1.id@ == o2.id@ && o1.val@ != o2.val@ && o1.blinding@ == o2.blinding@ && invertible(pp.g_val@)
    ||| o1.id@ == o2.id@ && o1.val@ == o2.val@ && o1.blinding@ != o2.blinding@ && invertible(pp.g_ran@)
}

/// A commitment binds each field: changing exactly one field of the opening,
/// whose generator has an invertible log, changes the commitment.
pub proof fn lemma_commitment_binds_each_field(pp: PublicParams, o1: Opening, o2: Opening)
    requires
        differ_in_one_field(pp, o1, o2),
    ensures
        committed(pp, o1) != committed(pp, o2),
{
    let (gi, gv, gr) = (pp.g_iden@, pp.g_val@, pp.g_ran@);
    let (di, dv, dr) = (o1.id@ - o2.id@, o1.val@ - o2.val@, o1.blinding@ - o2.blinding@);
    lemma_commitment_difference(pp, o1.id@, o1.val@, o1.blinding@, o2.id@, o2.val@, o2.blinding@);
    lemma_modl_eq_diff(committed(pp, o1), committed(pp, o2));
    assert(di * gi == gi * di && dv * gv == gv * dv && dr * gr == gr * dr) by (nonlinear_arith);
    if o1.id@ != o2.id@ {
        assert(dv * gv == 0 && dr * gr == 0) by (nonlinear_arith)
            requires
                dv == 0,
                dr == 0,
        ;
        lemma_modl_cancel(gi, di);
        lemma_modl_eq_diff(o1.id@, o2.id@);
        lemma_modl_small(o1.id@);
        lemma_modl_small(o2.id@);
    } else if o1.val@ != o2.val@ {
        assert(di * gi == 0 && dr * gr == 0) by (nonlinear_arith)
            requires
                di == 0,
                dr == 0,
        ;
        lemma_modl_cancel(gv, dv);
        lemma_modl_eq_diff(o1.val@, o2.val@);
        lemma_modl_small(o1.val@);
        lemma_modl_small(o2.val@);
    } else {
        assert(di * gi == 0 && dv * gv == 0) by (nonlinear_arith)
            requires
                di == 0,
                dv == 0,
        ;
        lemma_modl_cancel(gr, dr);
        lemma_modl_eq_diff(o1.blinding@, o2.blinding@);
        lemma_modl_small(o1.blinding@);
        lemma_modl_small(o2.blinding@);
    }
}

/// A fresh blinding factor, drawn by the operating system's random number generator.
pub fn random_blinding() -> (r: Scalar) {
    Scalar::random()
}

/// Commits to an opening.
pub fn commit(pp: &PublicParams, o: &Opening) -> (r: Commitment)
    ensures
        r.0@ == committed(*pp, *o),
{
    let a = pp.g_iden.mul(&o.id);
    let b = pp.g_val.mul(&o.val);
    let c = pp.g_ran.mul(&o.blinding);
    let ab = a.add(&b);
    let abc = ab.add(&c);
    proof {
        let (x, y, z) = (o.id@ * pp.g_iden@, o.val@ * pp.g_val@, o.blinding@ * pp.g_ran@);
        lemma_modl_add(x, y);
        lemma_modl_add(x + y, z);
    }
    Commitment(abc)
}

/// Recomputes the commitment of the opening and compares.
pub fn verify(pp: &PublicParams, c: &Commitment, o: &Opening) -> (r: bool)
    ensures
        r == (c.0@ == committed(*pp, *o)),
{
    commit(pp, o).0.equals(&c.0)
}

impl Commitment {
    /// The canonical encoding of the commitment.
    pub fn to_bytes(&self) -> (r: [u8; 32])
        ensures
            r == ristretto_encoding(self.0@),
            encodes(r@, self.0@),
    {
        self.0.to_bytes()
    }

    /// The commitment that `bytes` encode, if they encode a point.
    pub fn from_bytes(bytes: &[u8; 32]) -> (r: Option<Commitment>)
        ensures
            r is Some <==> is_point_encoding(bytes@),
            r matches Some(c) ==> encodes(bytes@, c.0@),
    {
        match Point::from_bytes(bytes) {
            Some(p) => Some(Commitment(p)),
            None => None,
        }
    }

    /// The sum of two commitments.
    pub fn add(self, rhs: Commitment) -> (r: Commitment)
        ensures
            r.0@ == modl(self.0@ + rhs.0@),
    {
        Commitment(self.0.add(&rhs.0))
    }

    /// The difference of two commitments.
    pub fn sub(self, rhs: Commitment) -> (r: Commitment)
        ensures
            r.0@ == modl(self.0@ - rhs.0@),
    {
        Commitment(self.0.sub(&rhs.0))
    }
}

impl PartialEq for Commitment {
    fn eq(&self, other: &Commitment) -> (r: bool) {
        self.0.equals(&other.0)
    }
}

impl vstd::std_specs::cmp::PartialEqSpecImpl for Commitment {
    open spec fn obeys_eq_spec() -> bool {
        true
    }

    open spec fn eq_spec(&self, other: &Commitment) -> bool {
        self.0@ == other.0@
    }
}

impl Eq for Commitment {
}

} // verus!
