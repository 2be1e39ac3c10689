//! Content addressing: SHA-1 digests written as forty lowercase hex characters.

use vstd::prelude::*;

verus! {

/// The SHA-1 digest of a byte string, as the `sha1` crate computes it.
pub uninterp spec fn sha1_bytes(data: Seq<u8>) -> Seq<u8>;

/// The lowercase hexadecimal digit that stands for `n`, for `0 <= n < 16`.
pub open spec fn hex_digit(n: int) -> char {
    if n == 0 {
        '0'
    } else if n == 1 {
        '1'
    } else if n == 2 {
        '2'
    } else if n == 3 {
        '3'
    } else if n == 4 {
        '4'
    } else if n == 5 {
        '5'
    } else if n == 6 {
        '6'
    } else if n == 7 {
        '7'
    } else if n == 8 {
        '8'
    } else if n == 9 {
        '9'
    } else if n == 10 {
        'a'
    } else if n == 11 {
        'b'
    } else if n == 12 {
        'c'
    } else if n == 13 {
        'd'
    } else if n == 14 {
        'e'
    } else {
        'f'
    }
}

/// Two hex digits per byte, the high half first.
pub open spec fn hex_of(data: Seq<u8>) -> Seq<char> {
    Seq::new(
        2 * data.len(),
        |i: int|
            if i % 2 == 0 {
                hex_digit(data[i / 2] as int / 16)
            } else {
                hex_digit(data[i / 2] as int % 16)
            },
    )
}

/// The digest of a text: SHA-1 over its UTF-8 bytes, in hex.
pub open spec fn digest_of(text: Seq<char>) -> Seq<char> {
    hex_of(sha1_bytes(vstd::utf8::encode_utf8(text)))
}

/// Calls `sha1::Sha1::digest`. The contract names the twenty bytes that it
/// returns; nothing is proved of how they are computed.
#[verifier::external_body]
fn sha1_of(data: &[u8]) -> (out: Vec<u8>)
    ensures
        out@ == sha1_bytes(data@),
        out@.len() == 20,
{
    let d = <sha1::Sha1 as sha1::Digest>::digest(data);
    d.to_vec()
}

/// Calls `hex::encode`: every byte becomes two lowercase hex digits, the high
/// half first.
#[verifier::external_body]
fn hex_string(data: &Vec<u8>) -> (out: String)
    ensures
        out@ == hex_of(data@),
{
    hex::encode(data)
}

/// The forty-character digest of `text`.
pub fn hash_text(text: &str) -> (out: String)
    ensures
        out@ == digest_of(text@),
        out@.len() == 40,
{
    let raw = sha1_of(text.as_bytes());
    hex_string(&raw)
}

} // verus!
