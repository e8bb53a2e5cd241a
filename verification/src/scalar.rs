//! Scalars of the Ristretto group: integers modulo the prime group order ℓ.
//!
//! A `Scalar` holds the canonical 32-byte little-endian encoding of its value.
//! Its view is that value, a natural number below ℓ. The arithmetic itself is
//! done by curve25519-dalek; each call sits behind a small trusted wrapper
//! whose contract states the modular arithmetic that dalek documents.
use curve25519_dalek::scalar::Scalar as DalekScalar;
use rand_core::OsRng;
use vstd::prelude::*;

verus! {

/// The order ℓ = 2^252 + 27742317777372353535851937790883648493 of the Ristretto group.
pub open spec fn group_order() -> nat {
    7237005577332262213973186563042994240857116359379907606001950938285454250989nat
}

/// Reduction of an integer into `[0, ℓ)`.
pub open spec fn modl(x: int) -> int {
    x % (group_order() as int)
}

/// y is a multiplicative inverse of x modulo ℓ.
pub open spec fn is_inverse(x: int, y: int) -> bool {
    modl(x * y) == 1
}

/// The integer that a little-endian byte string denotes.
pub open spec fn le_nat(s: Seq<u8>) -> nat
    decreases s.len(),
{
    if s.len() == 0 {
        0
    } else {
        s[0] as nat + 256 * le_nat(s.drop_first())
    }
}

/// 256 to the power `n`.
pub open spec fn pow256(n: nat) -> nat
    decreases n,
{
    if n == 0 {
        1
    } else {
        256 * pow256((n - 1) as nat)
    }
}

/// The `n` least significant bytes of `v`, little-endian.
pub open spec fn le_bytes(v: nat, n: nat) -> Seq<u8>
    decreases n,
{
    if n == 0 {
        seq![]
    } else {
        seq![(v % 256) as u8] + le_bytes(v / 256, (n - 1) as nat)
    }
}

/// The canonical 32-byte little-endian encoding of a value below ℓ.
pub open spec fn scalar_encoding(v: int) -> Seq<u8> {
    le_bytes(v as nat, 32)
}

/// A reduced value lies in [0, ℓ).
pub proof fn lemma_modl_bound(x: int)
    ensures
        0 <= modl(x) < group_order(),
{
    vstd::arithmetic::div_mod::lemma_mod_bound(x, group_order() as int);
}

/// A value already in [0, ℓ) is its own reduction.
pub proof fn lemma_modl_small(x: int)
    requires
        0 <= x < group_order(),
    ensures
        modl(x) == x,
{
    vstd::arithmetic::div_mod::lemma_small_mod(x as nat, group_order());
}

/// Two integers that differ by a multiple of ℓ reduce to the same value.
pub proof fn lemma_modl_shift(x: int, y: int, k: int)
    requires
        x == y + group_order() * k,
    ensures
        modl(x) == modl(y),
{
    vstd::arithmetic::div_mod::lemma_mod_multiples_vanish(k, y, group_order() as int);
}

/// `modl(x)` is `x` minus a multiple of ℓ.
pub proof fn lemma_modl_quotient(x: int) -> (q: int)
    ensures
        modl(x) == x - group_order() * q,
{
    let m = group_order() as int;
    vstd::arithmetic::div_mod::lemma_fundamental_div_mod(x, m);
    lemma_modl_bound(x);
    x / m
}

/// A reduced factor changes a product by a multiple of ℓ.
pub proof fn lemma_modl_term(x: int, g: int) -> (k: int)
    ensures
        modl(x) * g == x * g + group_order() * k,
{
    let q = lemma_modl_quotient(x);
    let l = group_order() as int;
    let m = modl(x);
    assert(m * g == x * g + l * (-(q * g))) by (nonlinear_arith)
        requires
            m == x - l * q,
    ;
    -(q * g)
}

/// Reduction commutes with addition.
pub proof fn lemma_modl_add(a: int, b: int)
    ensures
        modl(modl(a) + b) == modl(a + b),
        modl(a + modl(b)) == modl(a + b),
        modl(modl(a) + modl(b)) == modl(a + b),
{
    let m = group_order() as int;
    vstd::arithmetic::div_mod::lemma_add_mod_noop(a, b, m);
    vstd::arithmetic::div_mod::lemma_add_mod_noop_right(a, b, m);
    vstd::arithmetic::div_mod::lemma_add_mod_noop_right(b, a, m);
}

/// Reduction commutes with subtraction.
pub proof fn lemma_modl_sub(a: int, b: int)
    ensures
        modl(modl(a) - b) == modl(a - b),
        modl(a - modl(b)) == modl(a - b),
        modl(modl(a) - modl(b)) == modl(a - b),
{
    let m = group_order() as int;
    vstd::arithmetic::div_mod::lemma_sub_mod_noop(a, b, m);
    vstd::arithmetic::div_mod::lemma_sub_mod_noop_right(a, b, m);
    let qa = lemma_modl_quotient(a);
    lemma_modl_shift(a - b, modl(a) - b, qa);
}

/// Reduction commutes with multiplication.
pub proof fn lemma_modl_mul(a: int, b: int)
    ensures
        modl(modl(a) * b) == modl(a * b),
        modl(a * modl(b)) == modl(a * b),
        modl(modl(a) * modl(b)) == modl(a * b),
{
    vstd::arithmetic::div_mod::lemma_mul_mod_noop_general(a, b, group_order() as int);
}

/// modl(modl(β·modl(x)) + a) == modl(β·x + a): a masked response computed
/// with reduced intermediates.
pub proof fn lemma_modl_affine(beta: int, x: int, a: int)
    ensures
        modl(modl(beta * modl(x)) + a) == modl(beta * x + a),
{
    lemma_modl_mul(beta, x);
    lemma_modl_add(beta * modl(x), a);
    lemma_modl_add(beta * x, a);
}

/// modl(β·modl(x) + a) == modl(β·x + a).
pub proof fn lemma_modl_affine_inner(beta: int, x: int, a: int)
    ensures
        modl(beta * modl(x) + a) == modl(beta * x + a),
{
    lemma_modl_mul(beta, x);
    lemma_modl_add(beta * modl(x), a);
    lemma_modl_add(beta * x, a);
}

/// Adding a reduced product to a reduced partial sum: modl(modl(p) + modl(g·modl(d))) == modl(p + g·d).
pub proof fn lemma_modl_accumulate(p: int, g: int, d: int)
    ensures
        modl(modl(p) + modl(g * modl(d))) == modl(p + g * d),
{
    lemma_modl_add(p, g * modl(d));
    lemma_modl_mul(g, d);
    lemma_modl_add(p, g * d);
}

/// x has a multiplicative inverse modulo ℓ (for prime ℓ: x is not a multiple of ℓ).
pub open spec fn invertible(x: int) -> bool {
    exists|y: int| #[trigger] is_inverse(x, y)
}

/// A value strictly between −ℓ and ℓ that reduces to 0 is 0.
pub proof fn lemma_modl_zero_window(x: int)
    requires
        -(group_order() as int) < x < group_order(),
        modl(x) == 0,
    ensures
        x == 0,
{
    if x < 0 {
        lemma_modl_shift(x, x + group_order(), -1);
        lemma_modl_small(x + group_order());
    } else {
        lemma_modl_small(x);
    }
}

/// Two integers agree modulo ℓ exactly when their difference reduces to 0.
pub proof fn lemma_modl_eq_diff(a: int, b: int)
    ensures
        modl(a) == modl(b) <==> modl(a - b) == 0,
{
    lemma_modl_sub(a, b);
    lemma_modl_bound(a);
    lemma_modl_bound(b);
    lemma_modl_small(0);
    if modl(a - b) == 0 {
        lemma_modl_zero_window(modl(a) - modl(b));
    }
}

/// Multiplying by an invertible factor keeps a value off 0 modulo ℓ:
/// g·x ≡ 0 exactly when x ≡ 0.
pub proof fn lemma_modl_cancel(g: int, x: int)
    requires
        invertible(g),
    ensures
        modl(g * x) == 0 <==> modl(x) == 0,
{
    let y = choose|y: int| #[trigger] is_inverse(g, y);
    lemma_modl_small(0);
    lemma_modl_mul(g, x);
    lemma_modl_mul(y, g * x);
    lemma_modl_mul(g * y, x);
    assert(y * (g * x) == (g * y) * x) by (nonlinear_arith);
    if modl(x) == 0 {
        assert(g * modl(x) == 0);
    }
    if modl(g * x) == 0 {
        let m = modl(g * x);
        assert(y * m == 0) by (nonlinear_arith)
            requires
                m == 0,
        ;
        assert(is_inverse(g, y));
        assert(modl(g * y) == 1);
        assert(1 * x == x);
    }
}

/// A little-endian byte string is determined by its length and its value.
pub proof fn lemma_le_nat_injective(a: Seq<u8>, b: Seq<u8>)
    requires
        a.len() == b.len(),
        le_nat(a) == le_nat(b),
    ensures
        a == b,
    decreases a.len(),
{
    if a.len() > 0 {
        lemma_le_nat_injective(a.drop_first(), b.drop_first());
        assert(a =~= seq![a[0]] + a.drop_first());
        assert(b =~= seq![b[0]] + b.drop_first());
    } else {
        assert(a =~= b);
    }
}

/// A byte string of length n denotes a value below 256^n.
pub proof fn lemma_le_nat_bound(s: Seq<u8>)
    ensures
        le_nat(s) < pow256(s.len()),
    decreases s.len(),
{
    if s.len() > 0 {
        lemma_le_nat_bound(s.drop_first());
    }
}

/// `le_bytes(v, n)` has n bytes.
pub proof fn lemma_le_bytes_len(v: nat, n: nat)
    ensures
        le_bytes(v, n).len() == n,
    decreases n,
{
    if n > 0 {
        lemma_le_bytes_len(v / 256, (n - 1) as nat);
    }
}

/// ℓ < 2^256, so every value below ℓ has a 32-byte encoding.
pub proof fn lemma_pow256_32()
    ensures
        group_order() < pow256(32),
{
    reveal_with_fuel(pow256, 33);
    assert(pow256(32) == 115792089237316195423570985008687907853269984665640564039457584007913129639936nat);
}

/// For v below 256^n, `le_bytes(v, n)` has n bytes and denotes v.
pub proof fn lemma_le_bytes(v: nat, n: nat)
    requires
        v < pow256(n),
    ensures
        le_bytes(v, n).len() == n,
        le_nat(le_bytes(v, n)) == v,
    decreases n,
{
    if n > 0 {
        lemma_le_bytes(v / 256, (n - 1) as nat);
        let b = le_bytes(v, n);
        assert(b.drop_first() =~= le_bytes(v / 256, (n - 1) as nat));
    }
}

/// The canonical encoding of a value is the unique 32-byte string denoting it.
pub proof fn lemma_scalar_encoding(b: Seq<u8>)
    requires
        b.len() == 32,
    ensures
        scalar_encoding(le_nat(b) as int) == b,
{
    let v = le_nat(b);
    lemma_le_nat_bound(b);
    lemma_le_bytes(v, 32);
    lemma_le_nat_injective(le_bytes(v, 32), b);
}

/// Calls dalek's `Scalar::from(u64)`; claims the encoding returned denotes `v` itself.
#[verifier::external_body]
fn dalek_from_u64(v: u64) -> (r: [u8; 32])
    ensures
        le_nat(r@) == v,
{
    DalekScalar::from(v).to_bytes()
}

/// Calls dalek's `Scalar + Scalar` on the two encodings read with
/// `from_bytes_mod_order`; claims the result encodes the sum modulo ℓ.
#[verifier::external_body]
fn dalek_add(a: [u8; 32], b: [u8; 32]) -> (r: [u8; 32])
    ensures
        le_nat(r@) == modl(le_nat(a@) + le_nat(b@) as int),
{
    (DalekScalar::from_bytes_mod_order(a) + DalekScalar::from_bytes_mod_order(b)).to_bytes()
}

/// Calls dalek's `Scalar - Scalar`; claims the result encodes the difference modulo ℓ.
#[verifier::external_body]
fn dalek_sub(a: [u8; 32], b: [u8; 32]) -> (r: [u8; 32])
    ensures
        le_nat(r@) == modl(le_nat(a@) - le_nat(b@)),
{
    (DalekScalar::from_bytes_mod_order(a) - DalekScalar::from_bytes_mod_order(b)).to_bytes()
}

/// Calls dalek's `Scalar * Scalar`; claims the result encodes the product modulo ℓ.
#[verifier::external_body]
fn dalek_mul(a: [u8; 32], b: [u8; 32]) -> (r: [u8; 32])
    ensures
        le_nat(r@) == modl(le_nat(a@) as int * le_nat(b@)),
{
    (DalekScalar::from_bytes_mod_order(a) * DalekScalar::from_bytes_mod_order(b)).to_bytes()
}

/// Calls dalek's `-Scalar`; claims the result encodes the additive inverse modulo ℓ.
#[verifier::external_body]
fn dalek_neg(a: [u8; 32]) -> (r: [u8; 32])
    ensures
        le_nat(r@) == modl(-(le_nat(a@) as int)),
{
    (-DalekScalar::from_bytes_mod_order(a)).to_bytes()
}

/// Calls dalek's `Scalar::invert`; claims the result is reduced and, for a
/// nonzero input, is its multiplicative inverse modulo ℓ. dalek documents no
/// result for zero, and nothing is claimed of it.
#[verifier::external_body]
fn dalek_invert(a: [u8; 32]) -> (r: [u8; 32])
    ensures
        le_nat(r@) < group_order(),
        modl(le_nat(a@) as int) != 0 ==> modl(le_nat(a@) as int * le_nat(r@)) == 1,
{
    DalekScalar::from_bytes_mod_order(a).invert().to_bytes()
}

/// Calls dalek's `Scalar::from_canonical_bytes`; claims it accepts exactly the
/// 32-byte strings whose little-endian value is below ℓ.
#[verifier::external_body]
fn dalek_is_canonical(a: [u8; 32]) -> (r: bool)
    ensures
        r == (le_nat(a@) < group_order()),
{
    bool::from(DalekScalar::from_canonical_bytes(a).is_some())
}

/// Calls dalek's `Scalar::from_bytes_mod_order_wide`; claims the result encodes
/// the 512-bit little-endian value of the input reduced modulo ℓ.
#[verifier::external_body]
fn dalek_reduce_wide(a: &[u8; 64]) -> (r: [u8; 32])
    ensures
        le_nat(r@) == modl(le_nat(a@) as int),
{
    DalekScalar::from_bytes_mod_order_wide(a).to_bytes()
}

/// Calls dalek's `Scalar::random` with the operating system's generator; claims
/// only that the result is a canonical encoding.
#[verifier::external_body]
fn dalek_random() -> (r: [u8; 32])
    ensures
        le_nat(r@) < group_order(),
{
    DalekScalar::random(&mut OsRng).to_bytes()
}

/// An element of ℤ/ℓℤ, held as its canonical little-endian encoding.
#[derive(Clone, Copy, Debug)]
pub struct Scalar {
    bytes: [u8; 32],
}

impl View for Scalar {
    type V = int;

    closed spec fn view(&self) -> int {
        (le_nat(self.bytes@) % group_order()) as int
    }
}

impl Scalar {
    #[verifier::type_invariant]
    closed spec fn canonical(self) -> bool {
        le_nat(self.bytes@) < group_order()
    }

    /// The bytes of a scalar, as an exec value sees them, are the canonical encoding of its value.
    proof fn lemma_bytes(self)
        requires
            self.canonical(),
        ensures
            self@ == le_nat(self.bytes@),
            self.bytes@ == scalar_encoding(self@),
    {
        vstd::arithmetic::div_mod::lemma_small_mod(le_nat(self.bytes@), group_order());
        lemma_scalar_encoding(self.bytes@);
    }

    fn from_bytes_unchecked(bytes: [u8; 32]) -> (r: Scalar)
        requires
            le_nat(bytes@) < group_order(),
        ensures
            r@ == le_nat(bytes@),
    {
        let r = Scalar { bytes };
        proof {
            r.lemma_bytes();
        }
        r
    }

    pub fn zero() -> (r: Scalar)
        ensures
            r@ == 0,
    {
        Scalar::from_u64(0)
    }

    pub fn one() -> (r: Scalar)
        ensures
            r@ == 1,
    {
        Scalar::from_u64(1)
    }

    /// The scalar whose value is `v`.
    pub fn from_u64(v: u64) -> (r: Scalar)
        ensures
            r@ == v,
    {
        let b = dalek_from_u64(v);
        assert(v < group_order());
        Scalar::from_bytes_unchecked(b)
    }

    pub fn add(&self, other: &Scalar) -> (r: Scalar)
        ensures
            r@ == modl(self@ + other@),
    {
        proof {
            use_type_invariant(self);
            use_type_invariant(other);
            self.lemma_bytes();
            other.lemma_bytes();
        }
        let b = dalek_add(self.bytes, other.bytes);
        proof {
            lemma_modl_bound(self@ + other@);
        }
        Scalar::from_bytes_unchecked(b)
    }

    pub fn sub(&self, other: &Scalar) -> (r: Scalar)
        ensures
            r@ == modl(self@ - other@),
    {
        proof {
            use_type_invariant(self);
            use_type_invariant(other);
            self.lemma_bytes();
            other.lemma_bytes();
        }
        let b = dalek_sub(self.bytes, other.bytes);
        proof {
            lemma_modl_bound(self@ - other@);
        }
        Scalar::from_bytes_unchecked(b)
    }

    pub fn mul(&self, other: &Scalar) -> (r: Scalar)
        ensures
            r@ == modl(self@ * other@),
    {
        proof {
            use_type_invariant(self);
            use_type_invariant(other);
            self.lemma_bytes();
            other.lemma_bytes();
        }
        let b = dalek_mul(self.bytes, other.bytes);
        proof {
            lemma_modl_bound(self@ * other@);
        }
        Scalar::from_bytes_unchecked(b)
    }

    pub fn neg(&self) -> (r: Scalar)
        ensures
            r@ == modl(-self@),
    {
        proof {
            use_type_invariant(self);
            self.lemma_bytes();
        }
        let b = dalek_neg(self.bytes);
        proof {
            lemma_modl_bound(-self@);
        }
        Scalar::from_bytes_unchecked(b)
    }

    /// The multiplicative inverse of a nonzero scalar.
    pub fn invert(&self) -> (r: Scalar)
        ensures
            self@ != 0 ==> modl(self@ * r@) == 1,
    {
        proof {
            use_type_invariant(self);
            self.lemma_bytes();
            lemma_modl_small(self@ as int);
        }
        let b = dalek_invert(self.bytes);
        Scalar::from_bytes_unchecked(b)
    }

    /// The canonical little-endian encoding of the scalar.
    pub fn to_bytes(&self) -> (r: [u8; 32])
        ensures
            r@ == scalar_encoding(self@),
            le_nat(r@) == self@,
    {
        proof {
            use_type_invariant(self);
            self.lemma_bytes();
        }
        self.bytes
    }

    /// The canonical little-endian encoding of the scalar, borrowed.
    pub fn as_bytes(&self) -> (r: &[u8; 32])
        ensures
            r@ == scalar_encoding(self@),
            le_nat(r@) == self@,
    {
        proof {
            use_type_invariant(self);
            self.lemma_bytes();
        }
        &self.bytes
    }

    /// The scalar that `bytes` encodes, if they are the canonical encoding of a value below ℓ.
    pub fn from_canonical_bytes(bytes: [u8; 32]) -> (r: Option<Scalar>)
        ensures
            r is Some <==> le_nat(bytes@) < group_order(),
            r matches Some(s) ==> s@ == le_nat(bytes@),
    {
        if dalek_is_canonical(bytes) {
            Some(Scalar::from_bytes_unchecked(bytes))
        } else {
            None
        }
    }

    /// The scalar whose value is the 512-bit little-endian integer `bytes`, reduced modulo ℓ.
    pub fn from_bytes_mod_order_wide(bytes: &[u8; 64]) -> (r: Scalar)
        ensures
            r@ == modl(le_nat(bytes@) as int),
    {
        let b = dalek_reduce_wide(bytes);
        proof {
            lemma_modl_bound(le_nat(bytes@) as int);
        }
        Scalar::from_bytes_unchecked(b)
    }

    /// A scalar drawn by the operating system's random number generator.
    pub(crate) fn random() -> (r: Scalar) {
        let b = dalek_random();
        Scalar::from_bytes_unchecked(b)
    }

    /// Equality of values, decided on the canonical encodings.
    pub fn equals(&self, other: &Scalar) -> (r: bool)
        ensures
            r == (self@ == other@),
    {
        proof {
            use_type_invariant(self);
            use_type_invariant(other);
            self.lemma_bytes();
            other.lemma_bytes();
        }
        bytes_equal(&self.bytes, &other.bytes)
    }
}

pub broadcast proof fn lemma_scalar_view_bound(s: Scalar)
    ensures
        0 <= #[trigger] s@ < group_order(),
{
    lemma_modl_bound(le_nat(s.bytes@) as int);
}

/// Byte-by-byte comparison of two 32-byte arrays.
pub fn bytes_equal(a: &[u8; 32], b: &[u8; 32]) -> (r: bool)
    ensures
        r == (a@ == b@),
{
    let mut i: usize = 0;
    while i < 32
        invariant
            i <= 32,
            a@.len() == 32,
            b@.len() == 32,
            forall|j: int| 0 <= j < i ==> a@[j] == b@[j],
        decreases 32 - i,
    {
        if a[i] != b[i] {
            return false;
        }
        i += 1;
    }
    assert(a@ =~= b@);
    true
}

impl PartialEq for Scalar {
    fn eq(&self, other: &Scalar) -> (r: bool) {
        self.equals(other)
    }
}

impl vstd::std_specs::cmp::PartialEqSpecImpl for Scalar {
    open spec fn obeys_eq_spec() -> bool {
        true
    }

    open spec fn eq_spec(&self, other: &Scalar) -> bool {
        self@ == other@
    }
}

impl Eq for Scalar {
}

} // verus!
