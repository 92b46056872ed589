//! Content addressing: a stable fingerprint for a byte blob, and the sharded
//! storage path derived from it.

use vstd::prelude::*;
use vstd::string::{StrSliceExecFns, StringExecFns};
use sha2::Digest;

verus! {

/// The 32-byte SHA-256 digest of a byte sequence, named but not written out:
/// the implementation is trusted to the sha2 crate.
pub uninterp spec fn sha256_of(bytes: Seq<u8>) -> Seq<u8>;

/// Relies on sha2's `Sha256` (through the `Digest` trait): the digest is
/// 32 bytes and a function of the input bytes alone.
#[verifier::external_body]
fn sha256_digest(bytes: &Vec<u8>) -> (r: Vec<u8>)
    ensures
        r@ == sha256_of(bytes@),
        r@.len() == 32,
{
    sha2::Sha256::digest(bytes.as_slice()).to_vec()
}

/// The lowercase hex digit of a nibble.
pub open spec fn hex_digit(n: u8) -> char
    recommends
        n < 16,
{
    if n == 0 {
        '0'
    } else if n == 1 {
        '1'
    } else if n == 2 {
        '2'
    } else if n == 3 {
        '3'
    } else if n == 4 {
        '4'
    } else if n == 5 {
        '5'
    } else if n == 6 {
        '6'
    } else if n == 7 {
        '7'
    } else if n == 8 {
        '8'
    } else if n == 9 {
        '9'
    } else if n == 10 {
        'a'
    } else if n == 11 {
        'b'
    } else if n == 12 {
        'c'
    } else if n == 13 {
        'd'
    } else if n == 14 {
        'e'
    } else {
        'f'
    }
}

/// Lowercase hex encoding, two digits per byte, high nibble first.
pub open spec fn hex_of(bytes: Seq<u8>) -> Seq<char>
    decreases bytes.len(),
{
    if bytes.len() == 0 {
        Seq::empty()
    } else {
        seq![
            hex_digit((bytes.first() / 16) as u8),
            hex_digit((bytes.first() % 16) as u8),
        ] + hex_of(bytes.drop_first())
    }
}

pub proof fn lemma_hex_of_len(bytes: Seq<u8>)
    ensures
        hex_of(bytes).len() == 2 * bytes.len(),
    decreases bytes.len(),
{
    if bytes.len() > 0 {
        lemma_hex_of_len(bytes.drop_first());
    }
}

/// Relies on hex::encode: lowercase hex, two digits per byte, high nibble
/// first.
#[verifier::external_body]
fn hex_encode(bytes: &Vec<u8>) -> (r: String)
    ensures
        r@ == hex_of(bytes@),
{
    hex::encode(bytes.as_slice())
}

/// The content fingerprint of a byte blob: the lowercase hex form of its
/// SHA-256 digest.
pub open spec fn spec_content_hash(bytes: Seq<u8>) -> Seq<char> {
    hex_of(sha256_of(bytes))
}

/// Computes the content fingerprint of `bytes`: 64 lowercase hex characters.
/// Any byte sequence is accepted, the empty one included.
pub fn content_hash(bytes: &Vec<u8>) -> (r: String)
    ensures
        r@ == spec_content_hash(bytes@),
        r@.len() == 64,
{
    let digest = sha256_digest(bytes);
    let r = hex_encode(&digest);
    proof {
        lemma_hex_of_len(digest@);
    }
    r
}

/// Law: the content fingerprint is a pure function of the bytes — equal
/// buffers always hash to the same string, in this call and in any later one.
pub proof fn lemma_hash_deterministic(b1: Seq<u8>, b2: Seq<u8>)
    requires
        b1 == b2,
    ensures
        spec_content_hash(b1) == spec_content_hash(b2),
{
}

/// The sharded storage path of a fingerprint: first two characters, next
/// two characters, then the whole fingerprint, separated by `/`.
pub open spec fn spec_storage_path(hash: Seq<char>) -> Seq<char>
    recommends
        hash.len() >= 4,
{
    hash.subrange(0, 2) + "/"@ + hash.subrange(2, 4) + "/"@ + hash
}

/// Derives the sharded storage path of a fingerprint.
pub fn storage_path_of(hash: &str) -> (r: String)
    requires
        hash@.len() >= 4,
    ensures
        r@ == spec_storage_path(hash@),
{
    let p1 = hash.substring_char(0, 2);
    let p2 = hash.substring_char(2, 4);
    let mut r = String::from_str(p1);
    r.append("/");
    r.append(p2);
    r.append("/");
    r.append(hash);
    r
}

} // verus!
