//! The wire format of proofs: the encodings of the points, then those of the
//! scalars, 32 bytes each.
use crate::bytes::extend_from;
use crate::point::{
    encodes, is_point_encoding, point_log, point_values, ristretto_encoding, scalar_values, Point,
};
use crate::scalar::{group_order, le_nat, scalar_encoding, Scalar};
use vstd::prelude::*;

verus! {

broadcast use crate::scalar::lemma_scalar_view_bound;

/// The concatenated encodings of a sequence of points.
pub open spec fn points_encoding(ps: Seq<Point>) -> Seq<u8>
    decreases ps.len(),
{
    if ps.len() == 0 {
        seq![]
    } else {
        points_encoding(ps.drop_last()) + ristretto_encoding(ps.last()@)@
    }
}

/// The concatenated encodings of a sequence of scalars.
pub open spec fn scalars_encoding(ss: Seq<Scalar>) -> Seq<u8>
    decreases ss.len(),
{
    if ss.len() == 0 {
        seq![]
    } else {
        scalars_encoding(ss.drop_last()) + scalar_encoding(ss.last()@)
    }
}

/// What `encode` writes.
pub open spec fn encoding_of(ps: Seq<Point>, ss: Seq<Scalar>) -> Seq<u8> {
    points_encoding(ps) + scalars_encoding(ss)
}

/// The `i`-th 32-byte chunk.
pub open spec fn chunk(bytes: Seq<u8>, i: int) -> Seq<u8> {
    bytes.subrange(32 * i, 32 * i + 32)
}

/// `bytes` are `n` point encodings followed by `m` canonical scalar encodings.
pub open spec fn decodable(bytes: Seq<u8>, n: nat, m: nat) -> bool {
    &&& bytes.len() == 32 * (n + m)
    &&& forall|i: int| 0 <= i < n ==> is_point_encoding(#[trigger] chunk(bytes, i))
    &&& forall|j: int| n <= j < n + m ==> le_nat(#[trigger] chunk(bytes, j)) < group_order()
}

/// What `decode` reads: the discrete logs of the points and the values of the scalars.
pub open spec fn decoding_of(bytes: Seq<u8>, n: nat, m: nat) -> Option<(Seq<int>, Seq<int>)> {
    if decodable(bytes, n, m) {
        Some(
            (
                Seq::new(n, |i: int| point_log(chunk(bytes, i))),
                Seq::new(m, |j: int| le_nat(chunk(bytes, n + j)) as int),
            ),
        )
    } else {
        None
    }
}

/// The encoding of k·B names k alone.
pub open spec fn self_encoding(k: int) -> bool {
    encodes(ristretto_encoding(k)@, k)
}

proof fn lemma_points_encoding(ps: Seq<Point>)
    ensures
        points_encoding(ps).len() == 32 * ps.len(),
        forall|i: int| 0 <= i < ps.len() ==> #[trigger] chunk(points_encoding(ps), i) == ristretto_encoding(ps[i]@)@,
    decreases ps.len(),
{
    if ps.len() > 0 {
        let init = ps.drop_last();
        lemma_points_encoding(init);
        let e = points_encoding(ps);
        assert forall|i: int| 0 <= i < ps.len() implies #[trigger] chunk(e, i) == ristretto_encoding(ps[i]@)@ by {
            if i < init.len() {
                assert(chunk(e, i) =~= chunk(points_encoding(init), i));
            } else {
                assert(chunk(e, i) =~= ristretto_encoding(ps.last()@)@);
            }
        }
    }
}

proof fn lemma_scalars_encoding(ss: Seq<Scalar>)
    ensures
        scalars_encoding(ss).len() == 32 * ss.len(),
        forall|i: int| 0 <= i < ss.len() ==> #[trigger] chunk(scalars_encoding(ss), i) == scalar_encoding(ss[i]@),
    decreases ss.len(),
{
    if ss.len() > 0 {
        let init = ss.drop_last();
        lemma_scalars_encoding(init);
        let e = scalars_encoding(ss);
        crate::scalar::lemma_le_bytes_len((ss.last()@) as nat, 32);
        assert forall|i: int| 0 <= i < ss.len() implies #[trigger] chunk(e, i) == scalar_encoding(ss[i]@) by {
            if i < init.len() {
                assert(chunk(e, i) =~= chunk(scalars_encoding(init), i));
            } else {
                assert(chunk(e, i) =~= scalar_encoding(ss.last()@));
            }
        }
    }
}

/// Decoding an encoding gives back the points and scalars that were encoded.
pub proof fn lemma_encoding_roundtrip(ps: Seq<Point>, ss: Seq<Scalar>)
    requires
        forall|i: int| 0 <= i < ps.len() ==> self_encoding(#[trigger] ps[i]@),
        forall|j: int| 0 <= j < ss.len() ==> 0 <= #[trigger] ss[j]@ < group_order(),
    ensures
        encoding_of(ps, ss).len() == 32 * (ps.len() + ss.len()),
        decoding_of(encoding_of(ps, ss), ps.len(), ss.len()) == Some((point_values(ps), scalar_values(ss))),
{
    let n = ps.len();
    let m = ss.len();
    let pe = points_encoding(ps);
    let se = scalars_encoding(ss);
    let e = encoding_of(ps, ss);
    lemma_points_encoding(ps);
    lemma_scalars_encoding(ss);
    assert forall|i: int| 0 <= i < n implies #[trigger] chunk(e, i) == ristretto_encoding(ps[i]@)@ by {
        assert(chunk(e, i) =~= chunk(pe, i));
    }
    assert forall|j: int| 0 <= j < m implies #[trigger] chunk(e, n + j) == scalar_encoding(ss[j]@) by {
        assert(chunk(e, n + j) =~= chunk(se, j));
    }
    assert forall|i: int| 0 <= i < n implies is_point_encoding(#[trigger] chunk(e, i)) && point_log(chunk(e, i)) == ps[i]@ by {
        assert(self_encoding(ps[i]@));
        assert(encodes(chunk(e, i), ps[i]@));
        let k = point_log(chunk(e, i));
        assert(encodes(chunk(e, i), k));
    }
    assert forall|j: int| n <= j < n + m implies le_nat(#[trigger] chunk(e, j)) < group_order() && le_nat(chunk(e, j)) == ss[j - n]@ by {
        assert(chunk(e, n + (j - n)) == scalar_encoding(ss[j - n]@));
        let v = ss[j - n]@;
        crate::scalar::lemma_pow256_32();
        crate::scalar::lemma_le_bytes(v as nat, 32);
    }
    assert(decodable(e, n, m));
    let d = decoding_of(e, n, m).unwrap();
    assert(d.0 =~= point_values(ps));
    assert forall|j: int| 0 <= j < m implies #[trigger] d.1[j] == scalar_values(ss)[j] by {
        assert(le_nat(chunk(e, n + j)) == ss[(n + j) - n]@);
    }
    assert(d.1 =~= scalar_values(ss));
}

/// Concatenates the encodings of `points`, then those of `scalars`.
pub fn encode(points: &[Point], scalars: &[Scalar]) -> (r: Vec<u8>)
    ensures
        r@ == encoding_of(points@, scalars@),
        decoding_of(r@, points@.len(), scalars@.len()) == Some((point_values(points@), scalar_values(scalars@))),
{
    let mut out: Vec<u8> = Vec::new();
    let mut i: usize = 0;
    while i < points.len()
        invariant
            i <= points@.len(),
            out@ == points_encoding(points@.subrange(0, i as int)),
            forall|t: int| 0 <= t < i ==> self_encoding(#[trigger] points@[t]@),
        decreases points@.len() - i,
    {
        let b = points[i].to_bytes();
        assert(self_encoding(points@[i as int]@));
        extend_from(&mut out, b.as_slice());
        proof {
            let s = points@.subrange(0, i + 1);
            assert(s.drop_last() =~= points@.subrange(0, i as int));
        }
        i += 1;
    }
    assert(points@.subrange(0, points@.len() as int) =~= points@);
    let ghost pe = out@;
    let mut j: usize = 0;
    while j < scalars.len()
        invariant
            j <= scalars@.len(),
            pe == points_encoding(points@),
            out@ == pe + scalars_encoding(scalars@.subrange(0, j as int)),
            forall|t: int| 0 <= t < points@.len() ==> self_encoding(#[trigger] points@[t]@),
        decreases scalars@.len() - j,
    {
        let b = scalars[j].to_bytes();
        extend_from(&mut out, b.as_slice());
        proof {
            let s = scalars@.subrange(0, j + 1);
            assert(s.drop_last() =~= scalars@.subrange(0, j as int));
            assert(out@ =~= pe + scalars_encoding(s));
        }
        j += 1;
    }
    assert(scalars@.subrange(0, scalars@.len() as int) =~= scalars@);
    proof {
        lemma_encoding_roundtrip(points@, scalars@);
    }
    out
}

/// The 32 bytes of `bytes` from `start` on, as an array.
fn read_chunk(bytes: &[u8], start: usize) -> (r: [u8; 32])
    requires
        start + 32 <= bytes@.len(),
    ensures
        r@ == bytes@.subrange(start as int, start + 32),
{
    let mut a: [u8; 32] = [0u8; 32];
    let mut k: usize = 0;
    let len = bytes.len();
    while k < 32
        invariant
            k <= 32,
            start + 32 <= bytes@.len(),
            bytes@.len() == len,
            forall|t: int| 0 <= t < k ==> a@[t] == bytes@[start + t],
        decreases 32 - k,
    {
        a[k] = bytes[start + k];
        k += 1;
    }
    assert(a@ =~= bytes@.subrange(start as int, start + 32));
    a
}

/// Reads `n_points` points then `n_scalars` scalars; `None` if the length is
/// wrong, a point chunk encodes no point, or a scalar chunk is not canonical.
pub fn decode(bytes: &[u8], n_points: usize, n_scalars: usize) -> (r: Option<(Vec<Point>, Vec<Scalar>)>)
    requires
        32 * (n_points + n_scalars) <= usize::MAX,
    ensures
        r is Some <==> decodable(bytes@, n_points as nat, n_scalars as nat),
        r matches Some((ps, ss)) ==> decoding_of(bytes@, n_points as nat, n_scalars as nat) == Some(
            (point_values(ps@), scalar_values(ss@)),
        ),
{
    if bytes.len() != 32 * (n_points + n_scalars) {
        return None;
    }
    let ghost n = n_points as nat;
    let ghost m = n_scalars as nat;
    let mut points: Vec<Point> = Vec::new();
    let mut i: usize = 0;
    while i < n_points
        invariant
            bytes@.len() == 32 * (n + m),
            32 * (n + m) <= usize::MAX,
            n == n_points,
            m == n_scalars,
            i <= n_points,
            points@.len() == i,
            forall|t: int| 0 <= t < i ==> is_point_encoding(#[trigger] chunk(bytes@, t)),
            forall|t: int| 0 <= t < i ==> #[trigger] points@[t]@ == point_log(chunk(bytes@, t)),
        decreases n_points - i,
    {
        let c = read_chunk(bytes, 32 * i);
        assert(c@ == chunk(bytes@, i as int));
        match Point::from_bytes(&c) {
            Some(p) => {
                proof {
                    let k = point_log(c@);
                    assert(encodes(c@, k));
                }
                points.push(p);
            },
            None => {
                assert(!decodable(bytes@, n, m));
                return None;
            },
        }
        i += 1;
    }
    let mut scalars: Vec<Scalar> = Vec::new();
    let mut j: usize = 0;
    while j < n_scalars
        invariant
            bytes@.len() == 32 * (n + m),
            32 * (n + m) <= usize::MAX,
            n == n_points,
            m == n_scalars,
            j <= n_scalars,
            scalars@.len() == j,
            forall|t: int| 0 <= t < n ==> is_point_encoding(#[trigger] chunk(bytes@, t)),
            forall|t: int| n <= t < n + j ==> le_nat(#[trigger] chunk(bytes@, t)) < group_order(),
            forall|t: int| 0 <= t < j ==> #[trigger] scalars@[t]@ == le_nat(chunk(bytes@, n + t)),
        decreases n_scalars - j,
    {
        let c = read_chunk(bytes, 32 * (n_points + j));
        assert(c@ == chunk(bytes@, n + j));
        match Scalar::from_canonical_bytes(c) {
            Some(s) => {
                scalars.push(s);
            },
            None => {
                assert(!decodable(bytes@, n, m));
                return None;
            },
        }
        j += 1;
    }
    proof {
        assert(decodable(bytes@, n, m));
        let d = decoding_of(bytes@, n, m).unwrap();
        assert(d.0 =~= point_values(points@));
        assert(d.1 =~= scalar_values(scalars@));
    }
    Some((points, scalars))
}

} // verus!
