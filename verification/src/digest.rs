//! Digests of sample bytes (SHA-256, SHA-1, MD5) and their lower-case
//! hexadecimal rendering.
use sha1::Digest as Sha1Digest;
use sha2::Digest;
use vstd::prelude::*;

use crate::core_model::{BinaryFormat, SampleSummary};
use crate::triage::{sanitize_name, sanitized_name};

verus! {

/// The SHA-256 digest of a byte sequence.
pub uninterp spec fn sha256_of(bytes: Seq<u8>) -> Seq<u8>;

/// The SHA-1 digest of a byte sequence.
pub uninterp spec fn sha1_of(bytes: Seq<u8>) -> Seq<u8>;

/// The MD5 digest of a byte sequence.
pub uninterp spec fn md5_of(bytes: Seq<u8>) -> Seq<u8>;

/// The lower-case hexadecimal digit of `v` (below 16).
pub open spec fn hex_digit(v: nat) -> char {
    if v < 10 {
        (48 + v) as char
    } else {
        (87 + v) as char
    }
}

/// Two lower-case hexadecimal digits per byte, in order.
pub open spec fn hex_text(b: Seq<u8>) -> Seq<char>
    decreases b.len(),
{
    if b.len() == 0 {
        Seq::empty()
    } else {
        hex_text(b.drop_last()) + seq![hex_digit(b.last() as nat / 16), hex_digit(b.last() as nat % 16)]
    }
}

/// `sha2::Sha256::digest`. Stated: the result is the named SHA-256 digest
/// of the bytes and is 32 bytes long.
#[verifier::external_body]
fn sha256_digest(bytes: &[u8]) -> (d: Vec<u8>)
    ensures
        d@ == sha256_of(bytes@),
        d@.len() == 32,
{
    sha2::Sha256::digest(bytes).to_vec()
}

/// `sha1::Sha1::digest`. Stated: the result is the named SHA-1 digest of
/// the bytes and is 20 bytes long.
#[verifier::external_body]
fn sha1_digest(bytes: &[u8]) -> (d: Vec<u8>)
    ensures
        d@ == sha1_of(bytes@),
        d@.len() == 20,
{
    <sha1::Sha1 as Sha1Digest>::digest(bytes).to_vec()
}

/// `md5::Md5::digest`. Stated: the result is the named MD5 digest of the
/// bytes and is 16 bytes long.
#[verifier::external_body]
fn md5_digest(bytes: &[u8]) -> (d: Vec<u8>)
    ensures
        d@ == md5_of(bytes@),
        d@.len() == 16,
{
    <md5::Md5 as Sha1Digest>::digest(bytes).to_vec()
}

/// `hex::encode`. Stated, as its documentation gives it: two lower-case
/// hexadecimal digits per byte, in order.
#[verifier::external_body]
pub(crate) fn hex_encode(bytes: &[u8]) -> (s: String)
    ensures
        s@ == hex_text(bytes@),
{
    hex::encode(bytes)
}

/// The SHA-256 digest of `bytes` in lower-case hexadecimal.
pub fn sha256_hex(bytes: &[u8]) -> (s: String)
    ensures
        s@ == hex_text(sha256_of(bytes@)),
{
    let d = sha256_digest(bytes);
    hex_encode(d.as_slice())
}

/// The SHA-1 digest of `bytes` in lower-case hexadecimal.
pub fn sha1_hex(bytes: &[u8]) -> (s: String)
    ensures
        s@ == hex_text(sha1_of(bytes@)),
{
    let d = sha1_digest(bytes);
    hex_encode(d.as_slice())
}

/// The MD5 digest of `bytes` in lower-case hexadecimal.
pub fn md5_hex(bytes: &[u8]) -> (s: String)
    ensures
        s@ == hex_text(md5_of(bytes@)),
{
    let d = md5_digest(bytes);
    hex_encode(d.as_slice())
}

/// Hexadecimal text is twice as long as its bytes.
pub proof fn lemma_hex_len(b: Seq<u8>)
    ensures
        hex_text(b).len() == 2 * b.len(),
    decreases b.len(),
{
    if b.len() > 0 {
        lemma_hex_len(b.drop_last());
    }
}

/// The identity of a sample in a static report: its shown name, size,
/// detected format and architecture, and its SHA-256, SHA-1 and MD5
/// digests in hexadecimal.
pub fn summarize_sample(name: &str, bytes: &[u8], detected_format: BinaryFormat, architecture: Option<String>) -> (s: SampleSummary)
    ensures
        s.name@ == sanitized_name(name@),
        s.size == bytes@.len(),
        s.detected_format == detected_format,
        s.architecture == architecture,
        s.sha256@ == hex_text(sha256_of(bytes@)),
        s.sha1@ == hex_text(sha1_of(bytes@)),
        s.md5@ == hex_text(md5_of(bytes@)),
{
    SampleSummary {
        name: sanitize_name(name),
        size: bytes.len() as u64,
        detected_format,
        architecture,
        sha256: sha256_hex(bytes),
        sha1: sha1_hex(bytes),
        md5: md5_hex(bytes),
    }
}

} // verus!
