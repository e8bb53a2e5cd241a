//! Public parameters: three generators with no known discrete-log relation,
//! and the maps from identities and amounts into scalars.
use crate::bytes::extend_from;
use crate::hashing::{sha512, sha512_digest};
use crate::point::{hashed_point_log, ristretto_encoding, Point};
use crate::scalar::{le_nat, modl, Scalar};
use vstd::prelude::*;
use vstd::string::StringSliceAdditionalSpecFns;

verus! {

pub const LABEL_G_IDEN: &'static str = "IBC/v1/gen/iden";

pub const LABEL_G_VAL: &'static str = "IBC/v1/gen/val";

pub const LABEL_G_RAN: &'static str = "IBC/v1/gen/ran";

pub const LABEL_ID_HASH: &'static str = "IBC/v1/id-to-scalar";

/// The three generators: `g_iden` carries the identity, `g_val` the value,
/// `g_ran` the blinding.
#[derive(Clone, Copy, Debug)]
pub struct PublicParams {
    pub g_iden: Point,
    pub g_val: Point,
    pub g_ran: Point,
}

/// The discrete logarithms of the three hashed generators.
pub open spec fn setup_logs() -> (int, int, int) {
    (
        hashed_point_log(LABEL_G_IDEN.spec_bytes()),
        hashed_point_log(LABEL_G_VAL.spec_bytes()),
        hashed_point_log(LABEL_G_RAN.spec_bytes()),
    )
}

/// The hashed generators are all different from the identity and from each other.
pub open spec fn generators_distinct() -> bool {
    let (a, b, c) = setup_logs();
    &&& a != 0
    &&& b != 0
    &&& c != 0
    &&& a != b
    &&& b != c
    &&& a != c
}

/// The scalar that `hash_identity` maps an identity to.
pub open spec fn identity_scalar(identity: Seq<u8>) -> int {
    modl(le_nat(sha512(LABEL_ID_HASH.spec_bytes() + identity)) as int)
}

/// The identity scalar reads the whole identity: it is the SHA-512 digest of
/// the label followed by every byte of the identity, reduced modulo ℓ, and two
/// different identities give two different digest inputs.
pub proof fn lemma_identity_scalar_reads_whole_identity(a: Seq<u8>, b: Seq<u8>)
    ensures
        identity_scalar(a) == modl(le_nat(sha512(LABEL_ID_HASH.spec_bytes() + a)) as int),
        a != b ==> LABEL_ID_HASH.spec_bytes() + a != LABEL_ID_HASH.spec_bytes() + b,
{
    let l = LABEL_ID_HASH.spec_bytes();
    if a != b && l + a == l + b {
        assert((l + a).subrange(l.len() as int, (l + a).len() as int) =~= a);
        assert((l + b).subrange(l.len() as int, (l + b).len() as int) =~= b);
    }
}

impl PublicParams {
    /// Hashes the three labels to generators. The generators must be distinct
    /// and none the identity; `try_setup` checks this.
    pub fn setup() -> (r: PublicParams)
        requires
            generators_distinct(),
        ensures
            (r.g_iden@, r.g_val@, r.g_ran@) == setup_logs(),
            r.g_iden@ == hashed_point_log(LABEL_G_IDEN.spec_bytes()),
            r.g_val@ == hashed_point_log(LABEL_G_VAL.spec_bytes()),
            r.g_ran@ == hashed_point_log(LABEL_G_RAN.spec_bytes()),
    {
        let g_iden = Point::hash_from_bytes(LABEL_G_IDEN.as_bytes());
        let g_val = Point::hash_from_bytes(LABEL_G_VAL.as_bytes());
        let g_ran = Point::hash_from_bytes(LABEL_G_RAN.as_bytes());
        PublicParams { g_iden, g_val, g_ran }
    }

    /// The parameters of `setup`, or `None` where two generators coincide or
    /// one is the identity.
    pub fn try_setup() -> (r: Option<PublicParams>)
        ensures
            r is Some <==> generators_distinct(),
            r matches Some(pp) ==> (pp.g_iden@, pp.g_val@, pp.g_ran@) == setup_logs(),
            r matches Some(pp) ==> pp.g_iden@ == hashed_point_log(LABEL_G_IDEN.spec_bytes())
                && pp.g_val@ == hashed_point_log(LABEL_G_VAL.spec_bytes())
                && pp.g_ran@ == hashed_point_log(LABEL_G_RAN.spec_bytes()),
    {
        let g_iden = Point::hash_from_bytes(LABEL_G_IDEN.as_bytes());
        let g_val = Point::hash_from_bytes(LABEL_G_VAL.as_bytes());
        let g_ran = Point::hash_from_bytes(LABEL_G_RAN.as_bytes());
        let id_elem = Point::identity();
        if g_iden.equals(&id_elem) || g_val.equals(&id_elem) || g_ran.equals(&id_elem)
            || g_iden.equals(&g_val) || g_val.equals(&g_ran) || g_iden.equals(&g_ran) {
            None
        } else {
            Some(PublicParams::setup())
        }
    }

    /// The canonical encodings of the three generators.
    pub fn to_bytes(&self) -> (r: [[u8; 32]; 3])
        ensures
            r[0] == ristretto_encoding(self.g_iden@),
            r[1] == ristretto_encoding(self.g_val@),
            r[2] == ristretto_encoding(self.g_ran@),
    {
        [self.g_iden.to_bytes(), self.g_val.to_bytes(), self.g_ran.to_bytes()]
    }
}

impl PartialEq for PublicParams {
    fn eq(&self, other: &PublicParams) -> (r: bool) {
        self.g_iden.equals(&other.g_iden) && self.g_val.equals(&other.g_val) && self.g_ran.equals(
            &other.g_ran,
        )
    }
}

impl vstd::std_specs::cmp::PartialEqSpecImpl for PublicParams {
    open spec fn obeys_eq_spec() -> bool {
        true
    }

    open spec fn eq_spec(&self, other: &PublicParams) -> bool {
        &&& self.g_iden@ == other.g_iden@
        &&& self.g_val@ == other.g_val@
        &&& self.g_ran@ == other.g_ran@
    }
}

impl Eq for PublicParams {
}

/// Maps a raw identity to a scalar: SHA-512 of the label and the identity,
/// reduced modulo ℓ.
pub fn hash_identity(identity: &[u8]) -> (r: Scalar)
    ensures
        r@ == identity_scalar(identity@),
        r@ == modl(le_nat(sha512(LABEL_ID_HASH.spec_bytes() + identity@)) as int),
{
    let mut data: Vec<u8> = Vec::new();
    extend_from(&mut data, LABEL_ID_HASH.as_bytes());
    extend_from(&mut data, identity);
    assert(data@ == LABEL_ID_HASH.spec_bytes() + identity@);
    let h = sha512_digest(data.as_slice());
    Scalar::from_bytes_mod_order_wide(&h)
}

/// Maps a transaction amount to the scalar of the same value.
pub fn value_to_scalar(value: u64) -> (r: Scalar)
    ensures
        r@ == value,
{
    Scalar::from_u64(value)
}

} // verus!
