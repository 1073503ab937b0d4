//! SHA-1 fingerprints in lower-case hexadecimal.

use vstd::prelude::*;
use vstd::utf8::encode_utf8;

verus! {

/// The SHA-1 digest of a message.
pub uninterp spec fn sha1_of(message: Seq<u8>) -> Seq<u8>;

/// `sha1::Sha1::digest`. Claimed: the digest depends on the message alone and is 20 bytes long.
#[verifier::external_body]
fn sha1_digest(message: &[u8]) -> (digest: Vec<u8>)
    ensures
        digest@ == sha1_of(message@),
        digest@.len() == 20,
{
    <sha1::Sha1 as sha1::Digest>::digest(message).to_vec()
}

/// The hexadecimal digit of a number below sixteen.
pub open spec fn hex_digit(n: int) -> char {
    if n < 10 {
        (48 + n) as char
    } else {
        (87 + n) as char
    }
}

/// Bytes in lower-case hexadecimal, two digits each.
pub open spec fn lower_hex(bytes: Seq<u8>) -> Seq<char> {
    Seq::new(
        2 * bytes.len(),
        |i: int|
            if i % 2 == 0 {
                hex_digit(bytes[i / 2] as int / 16)
            } else {
                hex_digit(bytes[i / 2] as int % 16)
            },
    )
}

/// The fingerprint of a text: the digest of its UTF-8 encoding, in hexadecimal.
pub open spec fn fingerprint(text: Seq<char>) -> Seq<char> {
    lower_hex(sha1_of(encode_utf8(text)))
}

fn to_hex_digit(n: u8) -> (ch: char)
    requires
        n < 16,
    ensures
        ch == hex_digit(n as int),
{
    if n < 10 {
        (48 + n) as char
    } else {
        (87 + n) as char
    }
}

/// Bytes in lower-case hexadecimal.
pub fn to_lower_hex(bytes: &Vec<u8>) -> (text: String)
    ensures
        text@ == lower_hex(bytes@),
{
    let mut text = String::new();
    let mut i: usize = 0;
    while i < bytes.len()
        invariant
            i <= bytes@.len(),
            text@ == lower_hex(bytes@.take(i as int)),
        decreases bytes@.len() - i,
    {
        text.push(to_hex_digit(bytes[i] / 16));
        text.push(to_hex_digit(bytes[i] % 16));
        i = i + 1;
        assert(text@ =~= lower_hex(bytes@.take(i as int)));
    }
    assert(bytes@.take(i as int) =~= bytes@);
    text
}

/// The SHA-1 fingerprint of a text.
pub fn sha1_hex(s: &str) -> (text: String)
    ensures
        text@ == fingerprint(s@),
        text@.len() == 40,
{
    to_lower_hex(&sha1_digest(s.as_bytes()))
}

/// Hexadecimal text can be read back: it holds two digits for each byte, from zero to nine or from a to
/// f, and the first one counts sixteen times.
pub proof fn hex_reads_back(bytes: Seq<u8>, i: int)
    requires
        0 <= i < bytes.len(),
    ensures
        lower_hex(bytes).len() == 2 * bytes.len(),
        ({
            let high = lower_hex(bytes)[2 * i];
            let low = lower_hex(bytes)[2 * i + 1];
            let value = |ch: char|
                if ch <= '9' {
                    ch as u32 - '0' as u32
                } else {
                    10 + (ch as u32 - 'a' as u32)
                };
            &&& '0' <= high <= '9' || 'a' <= high <= 'f'
            &&& '0' <= low <= '9' || 'a' <= low <= 'f'
            &&& 16 * value(high) + value(low) == bytes[i]
        }),
{
    assert((2 * i) / 2 == i && (2 * i) % 2 == 0);
    assert((2 * i + 1) / 2 == i && (2 * i + 1) % 2 == 1);
}

/// The fingerprint of a text spells the digest of its UTF-8 encoding, byte for byte.
pub proof fn fingerprint_spells_the_digest(text: Seq<char>, i: int)
    requires
        0 <= i < sha1_of(encode_utf8(text)).len(),
    ensures
        fingerprint(text).len() == 2 * sha1_of(encode_utf8(text)).len(),
        ({
            let value = |ch: char|
                if ch <= '9' {
                    ch as u32 - '0' as u32
                } else {
                    10 + (ch as u32 - 'a' as u32)
                };
            16 * value(fingerprint(text)[2 * i]) + value(fingerprint(text)[2 * i + 1]) == sha1_of(
                encode_utf8(text),
            )[i]
        }),
{
    hex_reads_back(sha1_of(encode_utf8(text)), i);
}

}
