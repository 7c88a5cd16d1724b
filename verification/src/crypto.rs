//! Digests, encodings, random secrets and the handling of secret text, each
//! made by its outside crate and stated here.
use vstd::prelude::*;
use crate::ids::hex_char;
use base64::Engine;
use rand::RngCore;
use sha2::Digest;
use subtle::ConstantTimeEq;
use zeroize::Zeroize;

verus! {

/// The SHA-256 digest of some bytes.
pub uninterp spec fn sha256_digest(bytes: Seq<u8>) -> Seq<u8>;

/// `sha2::Sha256::digest`. Claimed: the result is `sha256_digest` of the
/// input, 32 bytes long.
#[verifier::external_body]
pub fn sha256(bytes: &[u8]) -> (r: Vec<u8>)
    ensures
        r@ == sha256_digest(bytes@),
        r@.len() == 32,
{
    sha2::Sha256::digest(bytes).to_vec()
}

/// A digit of the base64 alphabet; the URL-safe one writes `-` and `_` for
/// the last two.
pub open spec fn b64_digit(v: int, url: bool) -> char {
    if v < 26 {
        (v + 65) as char
    } else if v < 52 {
        (v + 71) as char
    } else if v < 62 {
        (v - 4) as char
    } else if v == 62 {
        if url { '-' } else { '+' }
    } else {
        if url { '_' } else { '/' }
    }
}

/// Base64 (RFC 4648) of some bytes, in the standard or URL-safe alphabet,
/// with or without `=` padding.
pub open spec fn base64(b: Seq<u8>, url: bool, pad: bool) -> Seq<char>
    decreases b.len(),
{
    if b.len() == 0 {
        Seq::empty()
    } else if b.len() == 1 {
        let x = b[0] as int;
        seq![b64_digit(x / 4, url), b64_digit((x % 4) * 16, url)] + if pad {
            seq!['=', '=']
        } else {
            Seq::empty()
        }
    } else if b.len() == 2 {
        let x = b[0] as int;
        let y = b[1] as int;
        seq![
            b64_digit(x / 4, url),
            b64_digit((x % 4) * 16 + y / 16, url),
            b64_digit((y % 16) * 4, url),
        ] + if pad {
            seq!['=']
        } else {
            Seq::empty()
        }
    } else {
        let x = b[0] as int;
        let y = b[1] as int;
        let z = b[2] as int;
        seq![
            b64_digit(x / 4, url),
            b64_digit((x % 4) * 16 + y / 16, url),
            b64_digit((y % 16) * 4 + z / 64, url),
            b64_digit(z % 64, url),
        ] + base64(b.subrange(3, b.len() as int), url, pad)
    }
}

/// The length of unpadded base64: four digits for every three bytes, and two
/// or three for a last group of one or two.
pub proof fn lemma_base64_unpadded_len(b: Seq<u8>, url: bool)
    ensures
        base64(b, url, false).len() == (4 * b.len() + 2) / 3,
    decreases b.len(),
{
    if b.len() >= 3 {
        lemma_base64_unpadded_len(b.subrange(3, b.len() as int), url);
    }
}

/// `base64::engine::general_purpose::URL_SAFE_NO_PAD.encode`. Claimed: the
/// URL-safe alphabet without padding, as RFC 4648 section 5 defines it.
#[verifier::external_body]
pub fn base64_url(bytes: &[u8]) -> (r: String)
    ensures
        r@ == base64(bytes@, true, false),
{
    base64::engine::general_purpose::URL_SAFE_NO_PAD.encode(bytes)
}

/// `base64::engine::general_purpose::STANDARD.encode`. Claimed: the standard
/// alphabet with `=` padding, as RFC 4648 section 4 defines it.
#[verifier::external_body]
pub fn base64_standard(bytes: &[u8]) -> (r: String)
    ensures
        r@ == base64(bytes@, false, true),
{
    base64::engine::general_purpose::STANDARD.encode(bytes)
}

/// Lower-case hexadecimal, two digits for each byte.
pub open spec fn hex(bytes: Seq<u8>) -> Seq<char>
    decreases bytes.len(),
{
    if bytes.len() == 0 {
        Seq::empty()
    } else {
        seq![hex_char(bytes[0] as int / 16), hex_char(bytes[0] as int % 16)] + hex(
            bytes.subrange(1, bytes.len() as int),
        )
    }
}

/// `hex::encode`. Claimed: two lower-case hexadecimal digits per byte, high
/// digit first.
#[verifier::external_body]
pub fn hex_encode(bytes: &[u8]) -> (r: String)
    ensures
        r@ == hex(bytes@),
{
    hex::encode(bytes)
}

/// 32 bytes from the operating system's random source, through
/// `rand::rngs::OsRng::fill_bytes`. Nothing is claimed of their values.
#[verifier::external_body]
pub(crate) fn random_bytes() -> (r: Vec<u8>)
    ensures
        r@.len() == 32,
{
    let mut bytes = vec![0u8; 32];
    rand::rngs::OsRng.fill_bytes(&mut bytes);
    bytes
}

/// `subtle::ConstantTimeEq::ct_eq` on two byte slices, read as a `bool`.
/// Claimed: true exactly when the slices have the same length and bytes.
#[verifier::external_body]
pub fn constant_time_eq(a: &[u8], b: &[u8]) -> (r: bool)
    ensures
        r == (a@ == b@),
{
    bool::from(a.ct_eq(b))
}

/// `zeroize::Zeroize::zeroize` on a string. Claimed: the string is empty
/// afterwards (its bytes are overwritten with zeros, then it is cleared).
#[verifier::external_body]
pub fn wipe(s: &mut String)
    ensures
        final(s)@ == Seq::<char>::empty(),
{
    s.zeroize();
}

/// A fresh secret: 32 random bytes in URL-safe base64 without padding, so
/// 43 characters.
pub fn random_secret() -> (r: String)
    ensures
        exists|b: Seq<u8>| b.len() == 32 && r@ == base64(b, true, false),
        r@.len() == 43,
{
    let mut bytes = random_bytes();
    let ghost drawn = bytes@;
    let r = base64_url(bytes.as_slice());
    proof {
        lemma_base64_unpadded_len(drawn, true);
    }
    let mut i: usize = 0;
    while i < bytes.len()
        invariant
            0 <= i <= bytes@.len(),
            bytes@.len() == 32,
        decreases bytes@.len() - i,
    {
        bytes.set(i, 0);
        i = i + 1;
    }
    assert(drawn.len() == 32 && r@ == base64(drawn, true, false));
    r
}

/// A fresh secret: 32 random bytes in standard base64 with padding.
pub fn random_standard_secret() -> (r: String)
    ensures
        exists|b: Seq<u8>| b.len() == 32 && r@ == base64(b, false, true),
{
    let bytes = random_bytes();
    base64_standard(bytes.as_slice())
}

} // verus!
