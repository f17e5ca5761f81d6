//! Digests and their text.
use vstd::prelude::*;
use vstd::utf8::encode_utf8;

verus! {

/// The SHA-256 digest of some bytes.
pub uninterp spec fn sha256_of(data: Seq<u8>) -> Seq<u8>;

/// `sha2::Sha256::digest`: 32 bytes that depend on nothing but the data.
#[verifier::external_body]
pub(crate) fn sha256(data: &Vec<u8>) -> (digest: [u8; 32])
    ensures
        digest@ == sha256_of(data@),
{
    <sha2::Sha256 as sha2::Digest>::digest(data.as_slice()).into()
}

/// The hexadecimal digit of value `d`.
pub open spec fn hex_char(d: int) -> char {
    if d < 10 {
        ('0' as int + d) as char
    } else {
        ('a' as int + d - 10) as char
    }
}

/// Bytes as pairs of hexadecimal digits in small letters.
pub open spec fn hex(bytes: Seq<u8>) -> Seq<char>
    decreases bytes.len(),
{
    if bytes.len() == 0 {
        Seq::empty()
    } else {
        let b = bytes.last() as int;
        hex(bytes.drop_last()).push(hex_char(b / 16)).push(hex_char(b % 16))
    }
}

fn hex_digit(d: u8) -> (c: char)
    requires
        d < 16,
    ensures
        c == hex_char(d as int),
{
    if d < 10 {
        (48u8 + d) as char
    } else {
        (87u8 + d) as char
    }
}

/// The hexadecimal text of a digest.
pub(crate) fn hex_text(bytes: &[u8; 32]) -> (text: String)
    ensures
        text@ == hex(bytes@),
{
    let mut text = String::new();
    let mut i: usize = 0;
    while i < 32
        invariant
            i <= 32,
            text@ == hex(bytes@.take(i as int)),
        decreases 32 - i,
    {
        text.push(hex_digit(bytes[i] / 16));
        text.push(hex_digit(bytes[i] % 16));
        i += 1;
        proof {
            assert(bytes@.take(i as int).drop_last() =~= bytes@.take(i - 1));
            assert(bytes@.take(i as int).last() == bytes@[i - 1]);
        }
    }
    proof {
        assert(bytes@.take(32) =~= bytes@);
    }
    text
}

/// Eight bytes of a number, the most significant first.
pub open spec fn be64(n: nat) -> Seq<u8> {
    seq![
        (n / 0x100_0000_0000_0000 % 256) as u8,
        (n / 0x1_0000_0000_0000 % 256) as u8,
        (n / 0x100_0000_0000 % 256) as u8,
        (n / 0x1_0000_0000 % 256) as u8,
        (n / 0x100_0000 % 256) as u8,
        (n / 0x1_0000 % 256) as u8,
        (n / 0x100 % 256) as u8,
        (n % 256) as u8,
    ]
}

pub(crate) fn push_be64(data: &mut Vec<u8>, n: u64)
    ensures
        final(data)@ == old(data)@ + be64(n as nat),
{
    let ghost before = data@;
    data.push((n / 0x100_0000_0000_0000 % 256) as u8);
    data.push((n / 0x1_0000_0000_0000 % 256) as u8);
    data.push((n / 0x100_0000_0000 % 256) as u8);
    data.push((n / 0x1_0000_0000 % 256) as u8);
    data.push((n / 0x100_0000 % 256) as u8);
    data.push((n / 0x1_0000 % 256) as u8);
    data.push((n / 0x100 % 256) as u8);
    data.push((n % 256) as u8);
    proof {
        assert(data@ =~= before + be64(n as nat));
    }
}

pub(crate) fn push_bytes(data: &mut Vec<u8>, bytes: &[u8])
    ensures
        final(data)@ == old(data)@ + bytes@,
{
    let ghost before = data@;
    let mut i: usize = 0;
    proof {
        assert(before + bytes@.take(0) =~= before);
    }
    while i < bytes.len()
        invariant
            i <= bytes@.len(),
            data@ == before + bytes@.take(i as int),
        decreases bytes.len() - i,
    {
        data.push(bytes[i]);
        i += 1;
        proof {
            assert(before + bytes@.take(i as int) =~= (before + bytes@.take(i - 1)).push(
                bytes@[i - 1],
            ));
        }
    }
    proof {
        assert(bytes@.take(i as int) =~= bytes@);
    }
}

pub(crate) fn push_text(data: &mut Vec<u8>, text: &str)
    ensures
        final(data)@ == old(data)@ + encode_utf8(text@),
{
    push_bytes(data, text.as_bytes());
}

}
