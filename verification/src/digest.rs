//! Fingerprints of texts.

use vstd::prelude::*;
use vstd::utf8::*;

verus! {

/// The SHA-256 digest of some bytes.
pub uninterp spec fn sha256_digest(data: Seq<u8>) -> Seq<u8>;

/// Calls `sha2::Sha256::digest`: the 32 bytes of the SHA-256 digest, which depend on the data
/// alone. How they come about is left to the name.
#[verifier::external_body]
fn sha256(data: &[u8]) -> (r: Vec<u8>)
    ensures
        r@ == sha256_digest(data@),
        r@.len() == 32,
{
    <sha2::Sha256 as sha2::Digest>::digest(data).to_vec()
}

/// The lowercase hexadecimal digit of a number below 16.
pub open spec fn hex_digit(n: int) -> char {
    if n < 10 {
        ('0' as u32 + n) as char
    } else {
        ('a' as u32 + (n - 10)) as char
    }
}

/// The bytes in lowercase hexadecimal, two digits each.
pub open spec fn hex_text(bytes: Seq<u8>) -> Seq<char>
    decreases bytes.len(),
{
    if bytes.len() == 0 {
        seq![]
    } else {
        hex_text(bytes.drop_last()).push(hex_digit(bytes.last() as int / 16)).push(
            hex_digit(bytes.last() as int % 16),
        )
    }
}

/// The fingerprint of a text: the digest of its encoding, in hexadecimal.
pub open spec fn fingerprint(content: Seq<char>) -> Seq<char> {
    hex_text(sha256_digest(encode_utf8(content)))
}

/// Writes a digit.
fn hex_digit_of(n: u8) -> (r: char)
    requires
        n < 16,
    ensures
        r == hex_digit(n as int),
{
    if n < 10 {
        ('0' as u8 + n) as char
    } else {
        ('a' as u8 + (n - 10)) as char
    }
}

/// Writes bytes in lowercase hexadecimal, two digits each.
pub fn hex_of(bytes: &[u8]) -> (r: String)
    ensures
        r@ == hex_text(bytes@),
{
    let n: usize = bytes.len();
    let mut out = String::new();
    for i in 0..n
        invariant
            n == bytes@.len(),
            out@ == hex_text(bytes@.take(i as int)),
    {
        proof {
            assert(bytes@.take(i + 1).drop_last() == bytes@.take(i as int));
        }
        out.push(hex_digit_of(bytes[i] / 16));
        out.push(hex_digit_of(bytes[i] % 16));
    }
    proof {
        assert(bytes@.take(n as int) == bytes@);
    }
    out
}

/// The fingerprint of a text.
pub fn sha256_hex(content: &str) -> (r: String)
    ensures
        r@ == fingerprint(content@),
{
    let digest = sha256(content.as_bytes());
    hex_of(digest.as_slice())
}

} // verus!
