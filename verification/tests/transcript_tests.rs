use ibc::params::PublicParams;
use ibc::scalar::Scalar;
use ibc::transcript::Challenge;

#[test]
fn same_history_gives_the_same_challenge() {
    let pp = PublicParams::setup();
    let a = Challenge::new(b"test/dom", &pp).point(b"p", &pp.g_val).scalar(b"s", &Scalar::one()).bytes(b"b", b"x").finish();
    let b = Challenge::new(b"test/dom", &pp).point(b"p", &pp.g_val).scalar(b"s", &Scalar::one()).bytes(b"b", b"x").finish();
    assert_eq!(a, b);
}

#[test]
fn every_append_changes_the_challenge() {
    let pp = PublicParams::setup();
    let base = Challenge::new(b"test/dom", &pp).finish();
    assert_ne!(base, Challenge::new(b"test/dom2", &pp).finish());
    assert_ne!(base, Challenge::new(b"test/dom", &pp).point(b"p", &pp.g_val).finish());
    assert_ne!(base, Challenge::new(b"test/dom", &pp).scalar(b"s", &Scalar::one()).finish());
    assert_ne!(base, Challenge::new(b"test/dom", &pp).bytes(b"b", b"").finish());
}

#[test]
fn successive_challenge_scalars_differ_and_advance_the_transcript() {
    let pp = PublicParams::setup();
    let mut ch = Challenge::new(b"test/dom", &pp);
    let copy = ch.clone();
    let d0 = ch.challenge_scalar(b"delta");
    let d1 = ch.challenge_scalar(b"delta");
    assert_ne!(d0, d1);
    let mut again = copy.clone();
    assert_eq!(again.challenge_scalar(b"delta"), d0);
    assert_ne!(copy.finish(), ch.finish());
}

#[test]
fn label_is_bound_into_the_challenge() {
    let pp = PublicParams::setup();
    let a = Challenge::new(b"test/dom", &pp).bytes(b"x", b"1").finish();
    let b = Challenge::new(b"test/dom", &pp).bytes(b"y", b"1").finish();
    assert_ne!(a, b);
}
