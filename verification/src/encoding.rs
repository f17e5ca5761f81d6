//! Base64.
use vstd::prelude::*;

verus! {

/// The character of the URL-safe base64 alphabet for a value below 64.
pub open spec fn url_safe_char(v: int) -> char {
    if v < 26 {
        ('A' as int + v) as char
    } else if v < 52 {
        ('a' as int + v - 26) as char
    } else if v < 62 {
        ('0' as int + v - 52) as char
    } else if v == 62 {
        '-'
    } else {
        '_'
    }
}

/// The character of the standard base64 alphabet for a value below 64.
pub open spec fn standard_char(v: int) -> char {
    if v == 62 {
        '+'
    } else if v == 63 {
        '/'
    } else {
        url_safe_char(v)
    }
}

/// The six bits from bit `6 * i` on, zeros standing behind the last byte.
pub open spec fn sextet(bytes: Seq<u8>, i: int) -> int {
    let at = 6 * i / 8;
    let first = bytes[at] as int;
    let second = if at + 1 < bytes.len() {
        bytes[at + 1] as int
    } else {
        0
    };
    let pair = 256 * first + second;
    let shift = 6 * i % 8;
    (if shift == 0 {
        pair / 1024
    } else if shift == 2 {
        pair / 256
    } else if shift == 4 {
        pair / 64
    } else {
        pair / 16
    }) % 64
}

/// How many characters stand for `n` bytes.
pub open spec fn sextets(n: nat) -> nat {
    (8 * n + 5) / 6
}

/// Bytes in URL-safe base64 without padding.
pub open spec fn base64_url(bytes: Seq<u8>) -> Seq<char> {
    Seq::new(sextets(bytes.len()), |i: int| url_safe_char(sextet(bytes, i)))
}

/// Bytes in standard base64, padded to groups of four.
pub open spec fn base64_standard(bytes: Seq<u8>) -> Seq<char> {
    Seq::new(
        (4 * ((bytes.len() + 2) / 3)) as nat,
        |i: int|
            if i < sextets(bytes.len()) {
                standard_char(sextet(bytes, i))
            } else {
                '='
            },
    )
}

/// `encode` of base64's `URL_SAFE_NO_PAD`: six bits to a character, no padding.
#[verifier::external_body]
pub(crate) fn encode_url_safe(bytes: &[u8; 32]) -> (text: String)
    ensures
        text@ == base64_url(bytes@),
{
    base64::Engine::encode(&base64::engine::general_purpose::URL_SAFE_NO_PAD, bytes)
}

/// `encode` of base64's `STANDARD`: six bits to a character, padded with `=`.
#[verifier::external_body]
pub(crate) fn encode_standard(bytes: &Vec<u8>) -> (text: String)
    ensures
        text@ == base64_standard(bytes@),
{
    base64::Engine::encode(&base64::engine::general_purpose::STANDARD, bytes)
}

}
