use ibc::params::{hash_identity, value_to_scalar, PublicParams, LABEL_G_IDEN};
use ibc::point::Point;
use ibc::scalar::Scalar;
use sha2::{Digest, Sha512};

#[test]
fn setup_is_deterministic() {
    assert_eq!(PublicParams::setup(), PublicParams::setup());
}

#[test]
fn generators_are_distinct_and_non_identity() {
    let pp = PublicParams::setup();
    let id_elem = Point::identity();
    assert_ne!(pp.g_iden, id_elem);
    assert_ne!(pp.g_val, id_elem);
    assert_ne!(pp.g_ran, id_elem);
    assert_ne!(pp.g_iden, pp.g_val);
    assert_ne!(pp.g_val, pp.g_ran);
    assert_ne!(pp.g_iden, pp.g_ran);
}

#[test]
fn print_generator_test_vectors() {
    let pp = PublicParams::setup();
    for (name, bytes) in [("g_iden", pp.to_bytes()[0]), ("g_val", pp.to_bytes()[1]), ("g_ran", pp.to_bytes()[2])] {
        let hex: String = bytes.iter().map(|b| format!("{b:02x}")).collect();
        println!("{name} = {hex}");
    }
}

#[test]
fn identity_hash_separates_inputs() {
    assert_eq!(hash_identity(b"user_42"), hash_identity(b"user_42"));
    assert_ne!(hash_identity(b"user_42"), hash_identity(b"user_43"));
}

#[test]
fn try_setup_gives_the_setup_parameters() {
    assert_eq!(PublicParams::try_setup(), Some(PublicParams::setup()));
}

#[test]
fn generators_are_the_hashes_of_their_labels() {
    let pp = PublicParams::setup();
    assert_eq!(pp.g_iden, Point::hash_from_bytes(LABEL_G_IDEN.as_bytes()));
    assert_eq!(pp.to_bytes()[0], pp.g_iden.to_bytes());
}

#[test]
fn value_to_scalar_is_the_value() {
    assert_eq!(value_to_scalar(1_500), Scalar::from_u64(1_500));
    let mut expected = [0u8; 32];
    expected[0] = 0xdc;
    expected[1] = 0x05;
    assert_eq!(value_to_scalar(1_500).to_bytes(), expected);
}

#[test]
fn identity_hash_is_the_reduced_labelled_digest() {
    let digest: [u8; 64] = Sha512::digest([ibc::params::LABEL_ID_HASH.as_bytes(), b"user_42"].concat()).into();
    let expected = curve25519_dalek::Scalar::from_bytes_mod_order_wide(&digest);
    assert_eq!(hash_identity(b"user_42").to_bytes(), expected.to_bytes());
}
