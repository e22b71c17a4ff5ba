//! HTTP Basic credentials.
use vstd::prelude::*;

use base64::Engine;

verus! {

/// The standard alphabet: `A-Z`, `a-z`, `0-9`, `+`, `/`.
pub open spec fn b64_char(n: int) -> char {
    if n < 26 {
        (n + 65) as char
    } else if n < 52 {
        (n + 71) as char
    } else if n < 62 {
        (n - 4) as char
    } else if n == 62 {
        '+'
    } else {
        '/'
    }
}

/// The four characters of the 24-bit group `n`.
pub open spec fn b64_group(n: int) -> Seq<char> {
    seq![b64_char(n / 262144), b64_char((n / 4096) % 64), b64_char((n / 64) % 64), b64_char(n % 64)]
}

/// What `base64`'s standard engine encodes `b` to: each three bytes as four
/// characters of the standard alphabet, a final one or two bytes padded
/// with `=`.
pub open spec fn base64_text(b: Seq<u8>) -> Seq<char>
    decreases b.len(),
{
    if b.len() == 0 {
        Seq::empty()
    } else if b.len() == 1 {
        b64_group(b[0] * 65536).subrange(0, 2) + seq!['=', '=']
    } else if b.len() == 2 {
        b64_group(b[0] * 65536 + b[1] * 256).subrange(0, 3) + seq!['=']
    } else {
        b64_group(b[0] * 65536 + b[1] * 256 + b[2]) + base64_text(b.subrange(3, b.len() as int))
    }
}

/// `base64::engine::general_purpose::STANDARD.encode` (padded standard
/// alphabet, as its source shows), stated by `base64_text`.
#[verifier::external_body]
fn base64_standard(b: &[u8]) -> (r: String)
    ensures
        r@ == base64_text(b@),
{
    base64::engine::general_purpose::STANDARD.encode(b)
}

/// `Basic` and the base64 of `user:secret` (as UTF-8).
pub open spec fn basic_auth_text(user: Seq<char>, secret: Seq<char>) -> Seq<char> {
    "Basic "@ + base64_text(vstd::utf8::encode_utf8(user + ":"@ + secret))
}

pub fn basic_auth(user: &str, secret: &str) -> (r: String)
    ensures
        r@ == basic_auth_text(user@, secret@),
{
    let mut pair = user.to_owned();
    pair.append(":");
    pair.append(secret);
    let enc = base64_standard(pair.as_str().as_bytes());
    let mut r = String::from_str("Basic ");
    r.append(enc.as_str());
    r
}

} // verus!
