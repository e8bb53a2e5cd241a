//! Elements of the Ristretto group.
//!
//! The Ristretto group is cyclic of prime order ℓ and generated by its basepoint
//! B, so every element is k·B for exactly one k in [0, ℓ). A `Point` holds the
//! canonical 32-byte encoding of its element; its view is that k. Group
//! operations are done by curve25519-dalek behind trusted wrappers whose
//! contracts state what they do to these k.
use crate::algebra::inner_product;
use crate::scalar::{
    bytes_equal, group_order, le_nat, lemma_modl_bound, lemma_modl_small, modl, Scalar,
};
use curve25519_dalek::ristretto::{CompressedRistretto, RistrettoPoint};
use curve25519_dalek::traits::{Identity, VartimeMultiscalarMul};
use sha2::Sha512;
use vstd::prelude::*;

verus! {

/// The canonical encoding of k·B, where B is the Ristretto basepoint (the
/// bytes that curve25519-dalek's `(k·B).compress().to_bytes()` returns).
pub uninterp spec fn ristretto_encoding(k: int) -> [u8; 32];

/// The canonical encoding of the point that curve25519-dalek's
/// `RistrettoPoint::hash_from_bytes::<Sha512>` maps `input` to.
pub uninterp spec fn ristretto_hash(input: Seq<u8>) -> [u8; 32];

/// No multiple of B below ℓ but k·B has the encoding `enc`.
pub open spec fn only_preimage(enc: Seq<u8>, k: int) -> bool {
    forall|j: int| 0 <= j < group_order() && #[trigger] ristretto_encoding(j)@ == enc ==> j == k
}

/// `enc` is the encoding of k·B, and of no other multiple of B below ℓ.
pub open spec fn encodes(enc: Seq<u8>, k: int) -> bool {
    &&& 0 <= k < group_order()
    &&& ristretto_encoding(k)@ == enc
    &&& only_preimage(enc, k)
}

/// An encoding names one point, so the point that `from_bytes` reads back from
/// the bytes that `to_bytes` wrote is the point that wrote them.
pub proof fn lemma_encoding_names_one_point(enc: Seq<u8>, k1: int, k2: int)
    requires
        encodes(enc, k1),
        encodes(enc, k2),
    ensures
        k1 == k2,
{
    assert(ristretto_encoding(k2)@ == enc);
}

/// The discrete logarithm of the point that `Point::hash_from_bytes(input)` returns.
pub open spec fn hashed_point_log(input: Seq<u8>) -> int {
    point_log(ristretto_hash(input)@)
}

/// `enc` is the canonical encoding of some element of the group.
pub open spec fn is_point_encoding(enc: Seq<u8>) -> bool {
    exists|k: int| encodes(enc, k)
}

/// The discrete logarithm, with respect to B, of the element that `enc` encodes.
pub open spec fn point_log(enc: Seq<u8>) -> int {
    choose|k: int| encodes(enc, k)
}

/// The values of a sequence of scalars.
pub open spec fn scalar_values(s: Seq<Scalar>) -> Seq<int> {
    s.map_values(|x: Scalar| x@)
}

/// The discrete logarithms of a sequence of points.
pub open spec fn point_values(p: Seq<Point>) -> Seq<int> {
    p.map_values(|x: Point| x@)
}

/// The little-endian values of a sequence of 32-byte strings.
pub open spec fn le_values(s: Seq<[u8; 32]>) -> Seq<int> {
    s.map_values(|x: [u8; 32]| le_nat(x@) as int)
}

/// The discrete logarithms of a sequence of encodings.
pub open spec fn log_values(s: Seq<[u8; 32]>) -> Seq<int> {
    s.map_values(|x: [u8; 32]| point_log(x@))
}

pub open spec fn all_point_encodings(s: Seq<[u8; 32]>) -> bool {
    forall|i: int| 0 <= i < s.len() ==> is_point_encoding(#[trigger] s[i]@)
}

/// Calls dalek's `CompressedRistretto::decompress`; claims it succeeds exactly on
/// the canonical encodings of group elements.
#[verifier::external_body]
fn dalek_decompresses(b: [u8; 32]) -> (r: bool)
    ensures
        r == is_point_encoding(b@),
{
    CompressedRistretto(b).decompress().is_some()
}

/// Calls dalek's `RistrettoPoint::identity` and compresses it; claims the result
/// encodes 0·B and no other multiple of B below ℓ, and is 32 zero bytes (dalek's
/// `CompressedRistretto::identity`).
#[verifier::external_body]
fn dalek_identity() -> (r: [u8; 32])
    ensures
        r == ristretto_encoding(0),
        only_preimage(r@, 0),
        r@ == Seq::new(32, |_i: int| 0u8),
{
    RistrettoPoint::identity().compress().to_bytes()
}

/// Calls dalek's `RistrettoPoint + RistrettoPoint` on two decompressed
/// encodings; claims the result encodes the sum of their logarithms modulo ℓ.
#[verifier::external_body]
fn dalek_add(a: [u8; 32], b: [u8; 32]) -> (r: [u8; 32])
    requires
        is_point_encoding(a@),
        is_point_encoding(b@),
    ensures
        r == ristretto_encoding(modl(point_log(a@) + point_log(b@))),
        only_preimage(r@, modl(point_log(a@) + point_log(b@))),
{
    let p = CompressedRistretto(a).decompress().unwrap();
    let q = CompressedRistretto(b).decompress().unwrap();
    (p + q).compress().to_bytes()
}

/// Calls dalek's `RistrettoPoint - RistrettoPoint`; claims the result encodes the
/// difference of the logarithms modulo ℓ.
#[verifier::external_body]
fn dalek_sub(a: [u8; 32], b: [u8; 32]) -> (r: [u8; 32])
    requires
        is_point_encoding(a@),
        is_point_encoding(b@),
    ensures
        r == ristretto_encoding(modl(point_log(a@) - point_log(b@))),
        only_preimage(r@, modl(point_log(a@) - point_log(b@))),
{
    let p = CompressedRistretto(a).decompress().unwrap();
    let q = CompressedRistretto(b).decompress().unwrap();
    (p - q).compress().to_bytes()
}

/// Calls dalek's `Scalar * RistrettoPoint`, the scalar read with
/// `from_bytes_mod_order`; claims the result encodes the product of the scalar's
/// value and the point's logarithm modulo ℓ.
#[verifier::external_body]
fn dalek_mul(s: [u8; 32], a: [u8; 32]) -> (r: [u8; 32])
    requires
        is_point_encoding(a@),
    ensures
        r == ristretto_encoding(modl(le_nat(s@) * point_log(a@))),
        only_preimage(r@, modl(le_nat(s@) * point_log(a@))),
{
    let p = CompressedRistretto(a).decompress().unwrap();
    (curve25519_dalek::scalar::Scalar::from_bytes_mod_order(s) * p).compress().to_bytes()
}

/// Calls dalek's `RistrettoPoint::vartime_multiscalar_mul`, which panics on
/// iterators of different lengths; claims the result encodes Σ s_i·log(P_i) modulo ℓ.
#[verifier::external_body]
fn dalek_multiscalar_mul(scalars: &[[u8; 32]], points: &[[u8; 32]]) -> (r: [u8; 32])
    requires
        scalars@.len() == points@.len(),
        all_point_encodings(points@),
    ensures
        r == ristretto_encoding(modl(inner_product(le_values(scalars@), log_values(points@)))),
        only_preimage(r@, modl(inner_product(le_values(scalars@), log_values(points@)))),
{
    let s = scalars.iter().map(|b| curve25519_dalek::scalar::Scalar::from_bytes_mod_order(*b));
    let p = points.iter().map(|b| CompressedRistretto(*b).decompress().unwrap());
    RistrettoPoint::vartime_multiscalar_mul(s, p).compress().to_bytes()
}

/// Calls dalek's `RistrettoPoint::hash_from_bytes::<Sha512>` and compresses the
/// result; claims only that the result is the named encoding for this input and
/// is the encoding of a group element.
#[verifier::external_body]
fn dalek_hash_from_bytes(input: &[u8]) -> (r: [u8; 32])
    ensures
        r == ristretto_hash(input@),
        is_point_encoding(r@),
{
    RistrettoPoint::hash_from_bytes::<Sha512>(input).compress().to_bytes()
}

/// An element of the Ristretto group, held as its canonical encoding.
#[derive(Clone, Copy, Debug)]
pub struct Point {
    enc: [u8; 32],
}

impl View for Point {
    type V = int;

    closed spec fn view(&self) -> int {
        modl(point_log(self.enc@))
    }
}

pub broadcast proof fn lemma_point_view_bound(p: Point)
    ensures
        0 <= #[trigger] p@ < group_order(),
{
    lemma_modl_bound(point_log(p.enc@));
}

impl Point {
    #[verifier::type_invariant]
    closed spec fn valid(self) -> bool {
        is_point_encoding(self.enc@)
    }

    proof fn lemma_encoding(self)
        requires
            self.valid(),
        ensures
            encodes(self.enc@, self@),
            self@ == point_log(self.enc@),
    {
        let k = point_log(self.enc@);
        lemma_modl_small(k);
    }

    fn from_encoding(enc: [u8; 32], Ghost(k): Ghost<int>) -> (r: Point)
        requires
            encodes(enc@, k),
        ensures
            r@ == k,
            r.enc == enc,
    {
        let r = Point { enc };
        proof {
            assert(is_point_encoding(enc@));
            let j = point_log(enc@);
            assert(encodes(enc@, j));
            lemma_modl_small(j);
        }
        r
    }

    /// The identity element 0·B, whose encoding is 32 zero bytes.
    pub fn identity() -> (r: Point)
        ensures
            r@ == 0,
            encodes(Seq::new(32, |_i: int| 0u8), r@),
    {
        let e = dalek_identity();
        Point::from_encoding(e, Ghost(0))
    }

    pub fn add(&self, other: &Point) -> (r: Point)
        ensures
            r@ == modl(self@ + other@),
    {
        proof {
            use_type_invariant(self);
            use_type_invariant(other);
            self.lemma_encoding();
            other.lemma_encoding();
        }
        let e = dalek_add(self.enc, other.enc);
        Point::from_encoding(e, Ghost(modl(self@ + other@)))
    }

    pub fn sub(&self, other: &Point) -> (r: Point)
        ensures
            r@ == modl(self@ - other@),
    {
        proof {
            use_type_invariant(self);
            use_type_invariant(other);
            self.lemma_encoding();
            other.lemma_encoding();
        }
        let e = dalek_sub(self.enc, other.enc);
        Point::from_encoding(e, Ghost(modl(self@ - other@)))
    }

    /// Scalar multiplication s·P.
    pub fn mul(&self, s: &Scalar) -> (r: Point)
        ensures
            r@ == modl(s@ * self@),
    {
        proof {
            use_type_invariant(self);
            self.lemma_encoding();
        }
        let b = s.to_bytes();
        let e = dalek_mul(b, self.enc);
        Point::from_encoding(e, Ghost(modl(s@ * self@)))
    }

    /// The canonical encoding of the point.
    pub fn to_bytes(&self) -> (r: [u8; 32])
        ensures
            r == ristretto_encoding(self@),
            encodes(r@, self@),
    {
        proof {
            use_type_invariant(self);
            self.lemma_encoding();
        }
        self.enc
    }

    /// The point that `bytes` encodes, if they are the canonical encoding of a point.
    pub fn from_bytes(bytes: &[u8; 32]) -> (r: Option<Point>)
        ensures
            r is Some <==> is_point_encoding(bytes@),
            r matches Some(p) ==> encodes(bytes@, p@),
    {
        if dalek_decompresses(*bytes) {
            let ghost k = point_log(bytes@);
            Some(Point::from_encoding(*bytes, Ghost(k)))
        } else {
            None
        }
    }

    /// The point that `input` hashes to: its SHA-512 digest, mapped into the group.
    pub fn hash_from_bytes(input: &[u8]) -> (r: Point)
        ensures
            encodes(ristretto_hash(input@)@, r@),
            r@ == hashed_point_log(input@),
    {
        let e = dalek_hash_from_bytes(input);
        let ghost k = point_log(e@);
        assert(encodes(e@, k));
        Point::from_encoding(e, Ghost(k))
    }

    /// Equality of group elements, decided on the canonical encodings.
    pub fn equals(&self, other: &Point) -> (r: bool)
        ensures
            r == (self@ == other@),
    {
        proof {
            use_type_invariant(self);
            use_type_invariant(other);
            self.lemma_encoding();
            other.lemma_encoding();
        }
        bytes_equal(&self.enc, &other.enc)
    }

    /// Σ scalars[i]·points[i], computed by one multiscalar multiplication.
    pub fn vartime_multiscalar_mul(scalars: &[Scalar], points: &[Point]) -> (r: Point)
        requires
            scalars@.len() == points@.len(),
        ensures
            r@ == modl(inner_product(scalar_values(scalars@), point_values(points@))),
    {
        let mut sb: Vec<[u8; 32]> = Vec::new();
        let mut pb: Vec<[u8; 32]> = Vec::new();
        let mut i: usize = 0;
        while i < scalars.len()
            invariant
                scalars@.len() == points@.len(),
                i <= scalars@.len(),
                sb@.len() == i,
                pb@.len() == i,
                forall|j: int| 0 <= j < i ==> le_nat(#[trigger] sb@[j]@) == scalars@[j]@,
                forall|j: int| 0 <= j < i ==> encodes(#[trigger] pb@[j]@, points@[j]@),
            decreases scalars@.len() - i,
        {
            sb.push(scalars[i].to_bytes());
            pb.push(points[i].to_bytes());
            i += 1;
        }
        proof {
            assert forall|j: int| 0 <= j < pb@.len() implies is_point_encoding(#[trigger] pb@[j]@) by {
                assert(encodes(pb@[j]@, points@[j]@));
            }
            assert(le_values(sb@) =~= scalar_values(scalars@));
            assert forall|j: int| 0 <= j < pb@.len() implies point_log(#[trigger] pb@[j]@) == points@[j]@ by {
                let k = point_log(pb@[j]@);
                assert(encodes(pb@[j]@, points@[j]@));
                assert(encodes(pb@[j]@, k));
            }
            assert(log_values(pb@) =~= point_values(points@));
        }
        let e = dalek_multiscalar_mul(sb.as_slice(), pb.as_slice());
        let ghost v = modl(inner_product(scalar_values(scalars@), point_values(points@)));
        Point::from_encoding(e, Ghost(v))
    }
}

impl PartialEq for Point {
    fn eq(&self, other: &Point) -> (r: bool) {
        self.equals(other)
    }
}

impl vstd::std_specs::cmp::PartialEqSpecImpl for Point {
    open spec fn obeys_eq_spec() -> bool {
        true
    }

    open spec fn eq_spec(&self, other: &Point) -> bool {
        self@ == other@
    }
}

impl Eq for Point {
}

} // verus!
