//! Fiat–Shamir challenges drawn from a merlin transcript.
//!
//! A transcript is viewed as the sequence of operations applied to it since it
//! was created; a challenge is a function of that sequence. So two transcripts
//! fed the same public data yield the same challenge, which is what lets a
//! verifier recompute the prover's challenge.
use crate::params::PublicParams;
use crate::point::{ristretto_encoding, Point};
use crate::scalar::{le_nat, modl, scalar_encoding, Scalar};
use merlin::Transcript;
use vstd::prelude::*;
use vstd::string::StringSliceAdditionalSpecFns;

verus! {

/// One operation applied to a transcript.
pub enum TranscriptOp {
    /// `append_message(label, message)`.
    Append { label: Seq<u8>, message: Seq<u8> },
    /// `challenge_bytes(label, dest)` with a destination of `length` bytes.
    Challenge { label: Seq<u8>, length: nat },
}

/// merlin's `Transcript`, declared so that a `Challenge` can hold one; Verus
/// sees nothing inside it, and `transcript_log` stands for its state.
#[verifier::external_type_specification]
#[verifier::external_body]
pub struct ExTranscript(Transcript);

/// The operations applied to a merlin transcript since `Transcript::new`.
pub uninterp spec fn transcript_log(t: Transcript) -> Seq<TranscriptOp>;

/// The 64 bytes that merlin's `challenge_bytes(label, ..)` writes, on a
/// transcript to which the operations `log` were applied.
pub uninterp spec fn transcript_challenge_bytes(log: Seq<TranscriptOp>, label: Seq<u8>) -> Seq<u8>;

pub open spec fn append_op(label: Seq<u8>, message: Seq<u8>) -> TranscriptOp {
    TranscriptOp::Append { label, message }
}

pub open spec fn challenge_op(label: Seq<u8>) -> TranscriptOp {
    TranscriptOp::Challenge { label, length: 64 }
}

/// Appending a point appends its canonical encoding.
pub open spec fn point_op(label: Seq<u8>, p: Point) -> TranscriptOp {
    append_op(label, ristretto_encoding(p@)@)
}

/// Appending a scalar appends its canonical encoding.
pub open spec fn scalar_op(label: Seq<u8>, s: Scalar) -> TranscriptOp {
    append_op(label, scalar_encoding(s@))
}

/// The scalar drawn under `label` from a transcript with history `log`.
pub open spec fn challenge_value(log: Seq<TranscriptOp>, label: Seq<u8>) -> int {
    modl(le_nat(transcript_challenge_bytes(log, label)) as int)
}

/// The scalar that `finish` draws from a transcript with history `log`.
pub open spec fn beta_of(log: Seq<TranscriptOp>) -> int {
    challenge_value(log, "beta".spec_bytes())
}

/// The history of a fresh challenge transcript: the domain, then the three generators.
pub open spec fn params_log(domain: Seq<u8>, pp: PublicParams) -> Seq<TranscriptOp> {
    seq![
        append_op("dom-sep".spec_bytes(), domain),
        point_op("g_iden".spec_bytes(), pp.g_iden),
        point_op("g_val".spec_bytes(), pp.g_val),
        point_op("g_ran".spec_bytes(), pp.g_ran),
    ]
}

/// A UTF-8 encoding takes at most four bytes per character.
pub proof fn lemma_utf8_len(chars: Seq<char>)
    ensures
        vstd::utf8::encode_utf8(chars).len() <= 4 * chars.len(),
    decreases chars.len(),
{
    if chars.len() > 0 {
        lemma_utf8_len(chars.drop_first());
    }
}

/// The bytes of a string literal of `n` characters are few enough for a transcript.
pub proof fn lemma_label_fits(s: &str, n: nat)
    requires
        s@.len() == n,
        n <= 1000,
    ensures
        s.spec_bytes().len() <= u32::MAX,
{
    lemma_utf8_len(s@);
}

/// Calls `Transcript::new`, which appends the domain label under "dom-sep".
#[verifier::external_body]
fn merlin_new(label: &'static [u8]) -> (r: Transcript)
    requires
        label@.len() <= u32::MAX,
    ensures
        transcript_log(r) == seq![append_op("dom-sep".spec_bytes(), label@)],
{
    Transcript::new(label)
}

/// Calls `Transcript::append_message`, which panics on messages longer than `u32::MAX`.
#[verifier::external_body]
fn merlin_append(t: &mut Transcript, label: &'static [u8], message: &[u8])
    requires
        message@.len() <= u32::MAX,
    ensures
        transcript_log(*final(t)) == transcript_log(*old(t)).push(append_op(label@, message@)),
{
    t.append_message(label, message)
}

/// Calls `Transcript::challenge_bytes` with a 64-byte destination.
#[verifier::external_body]
fn merlin_challenge(t: &mut Transcript, label: &'static [u8]) -> (r: [u8; 64])
    ensures
        r@ == transcript_challenge_bytes(transcript_log(*old(t)), label@),
        transcript_log(*final(t)) == transcript_log(*old(t)).push(challenge_op(label@)),
{
    let mut buf = [0u8; 64];
    t.challenge_bytes(label, &mut buf);
    buf
}

/// Calls `Transcript::clone`, which copies the transcript's state.
#[verifier::external_body]
fn merlin_clone(t: &Transcript) -> (r: Transcript)
    ensures
        transcript_log(r) == transcript_log(*t),
{
    t.clone()
}

/// A transcript from which Fiat–Shamir challenges are drawn.
pub struct Challenge {
    tr: Transcript,
}

impl View for Challenge {
    type V = Seq<TranscriptOp>;

    closed spec fn view(&self) -> Seq<TranscriptOp> {
        transcript_log(self.tr)
    }
}

impl Challenge {
    /// Starts a transcript for `domain` and binds the public parameters into it.
    pub fn new(domain: &'static [u8], pp: &PublicParams) -> (r: Challenge)
        requires
            domain@.len() <= u32::MAX,
        ensures
            r@ == params_log(domain@, *pp),
    {
        let tr = merlin_new(domain);
        let ch = Challenge { tr };
        let ch = ch.point("g_iden".as_bytes(), &pp.g_iden);
        let ch = ch.point("g_val".as_bytes(), &pp.g_val);
        let ch = ch.point("g_ran".as_bytes(), &pp.g_ran);
        assert(ch@ =~= params_log(domain@, *pp));
        ch
    }

    /// Appends the encoding of a point under `label`.
    pub fn point(self, label: &'static [u8], p: &Point) -> (r: Challenge)
        ensures
            r@ == self@.push(point_op(label@, *p)),
    {
        let mut s = self;
        let enc = p.to_bytes();
        merlin_append(&mut s.tr, label, &enc);
        s
    }

    /// Appends the encoding of a scalar under `label`.
    pub fn scalar(self, label: &'static [u8], x: &Scalar) -> (r: Challenge)
        ensures
            r@ == self@.push(scalar_op(label@, *x)),
    {
        let mut s = self;
        let enc = x.to_bytes();
        merlin_append(&mut s.tr, label, &enc);
        s
    }

    /// Appends raw bytes under `label`.
    pub fn bytes(self, label: &'static [u8], b: &[u8]) -> (r: Challenge)
        requires
            b@.len() <= u32::MAX,
        ensures
            r@ == self@.push(append_op(label@, b@)),
    {
        let mut s = self;
        merlin_append(&mut s.tr, label, b);
        s
    }

    /// Draws the challenge scalar β: 64 bytes under "beta", reduced modulo ℓ.
    pub fn finish(self) -> (r: Scalar)
        ensures
            r@ == beta_of(self@),
    {
        let mut s = self;
        let buf = merlin_challenge(&mut s.tr, "beta".as_bytes());
        Scalar::from_bytes_mod_order_wide(&buf)
    }

    /// Draws a challenge scalar under `label` and keeps the transcript going.
    pub fn challenge_scalar(&mut self, label: &'static [u8]) -> (r: Scalar)
        ensures
            r@ == challenge_value(old(self)@, label@),
            final(self)@ == old(self)@.push(challenge_op(label@)),
    {
        let buf = merlin_challenge(&mut self.tr, label);
        Scalar::from_bytes_mod_order_wide(&buf)
    }
}

impl Clone for Challenge {
    fn clone(&self) -> (r: Challenge)
        ensures
            r@ == self@,
    {
        Challenge { tr: merlin_clone(&self.tr) }
    }
}

} // verus!
