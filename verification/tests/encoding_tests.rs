use curve25519_dalek::ristretto::RistrettoPoint;
use ibc::encoding::{decode, encode};
use ibc::point::Point;
use ibc::scalar::Scalar;
use ibc::commitment::random_blinding;
use rand_core::OsRng;

fn random_point() -> Point {
    Point::from_bytes(&RistrettoPoint::random(&mut OsRng).compress().to_bytes()).unwrap()
}

#[test]
fn roundtrip() {
    let points = vec![random_point(), random_point()];
    let scalars: Vec<Scalar> = (0..3).map(|_| random_blinding()).collect();
    let bytes = encode(&points, &scalars);
    assert_eq!(bytes.len(), 32 * 5);
    assert_eq!(decode(&bytes, 2, 3), Some((points, scalars)));
}

#[test]
fn wrong_length_is_rejected() {
    let bytes = encode(&[random_point()], &[Scalar::one()]);
    assert!(decode(&bytes, 1, 2).is_none());
    assert!(decode(&bytes[..63], 1, 1).is_none());
    assert!(decode(&[bytes.as_slice(), &[0]].concat(), 1, 1).is_none());
}

#[test]
fn invalid_point_is_rejected() {
    let mut one = [0u8; 32];
    one[0] = 1;
    for bad in [[0xffu8; 32], one] {
        let bytes = [bad.as_slice(), Scalar::one().as_bytes().as_slice()].concat();
        assert!(decode(&bytes, 1, 1).is_none());
    }
}

#[test]
fn non_canonical_scalar_is_rejected() {
    const P: [u8; 32] = [
        0xed, 0xd3, 0xf5, 0x5c, 0x1a, 0x63, 0x12, 0x58, 0xd6, 0x9c, 0xf7, 0xa2, 0xde, 0xf9, 0xde, 0x14, 0, 0, 0, 0, 0,
        0, 0, 0, 0, 0, 0, 0, 0, 0, 0, 0x10,
    ];
    assert_eq!(curve25519_dalek::Scalar::from_bytes_mod_order(P), curve25519_dalek::Scalar::ZERO);

    let t = random_point().to_bytes();
    assert!(decode(&[t.as_slice(), P.as_slice()].concat(), 1, 1).is_none());
    assert!(decode(&[t.as_slice(), Scalar::zero().as_bytes().as_slice()].concat(), 1, 1).is_some());
}

#[test]
fn encoding_is_points_then_scalars() {
    let p = random_point();
    let s = Scalar::from_u64(7);
    let bytes = encode(&[p], &[s]);
    assert_eq!(&bytes[..32], p.to_bytes().as_slice());
    let mut seven = [0u8; 32];
    seven[0] = 7;
    assert_eq!(&bytes[32..], seven.as_slice());
}

#[test]
fn empty_encoding_decodes_to_nothing() {
    let bytes = encode(&[], &[]);
    assert!(bytes.is_empty());
    assert_eq!(decode(&bytes, 0, 0), Some((vec![], vec![])));
}

#[test]
fn zero_bytes_decode_to_identity_and_zero() {
    assert_eq!(decode(&[0u8; 64], 1, 1), Some((vec![Point::identity()], vec![Scalar::zero()])));
}
