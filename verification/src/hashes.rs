//! Digests and encodings of bytes, with the `sha1`, `sha2` and `base64` crates.

use vstd::prelude::*;

verus! {

/// The SHA-256 digest of `bytes`.
pub uninterp spec fn sha256_of(bytes: Seq<u8>) -> Seq<u8>;

/// The SHA-1 digest of `bytes`.
pub uninterp spec fn sha1_of(bytes: Seq<u8>) -> Seq<u8>;

/// The character for a number below 64 in the standard alphabet of base 64.
pub open spec fn base64_digit(n: int) -> char {
    if n < 26 {
        ('A' as int + n) as char
    } else if n < 52 {
        ('a' as int + (n - 26)) as char
    } else if n < 62 {
        ('0' as int + (n - 52)) as char
    } else if n == 62 {
        '+'
    } else {
        '/'
    }
}

/// `bytes` in base 64 with the standard alphabet and padding: four characters for
/// every three bytes, from the first six bits to the last.
pub open spec fn base64_of(bytes: Seq<u8>) -> Seq<char>
    decreases bytes.len(),
{
    let a = bytes[0] as int;
    let b = bytes[1] as int;
    let c = bytes[2] as int;
    if bytes.len() == 0 {
        seq![]
    } else if bytes.len() == 1 {
        seq![base64_digit(a / 4), base64_digit(a % 4 * 16), '=', '=']
    } else if bytes.len() == 2 {
        seq![
            base64_digit(a / 4),
            base64_digit(a % 4 * 16 + b / 16),
            base64_digit(b % 16 * 4),
            '=',
        ]
    } else {
        seq![
            base64_digit(a / 4),
            base64_digit(a % 4 * 16 + b / 16),
            base64_digit(b % 16 * 4 + c / 64),
            base64_digit(c % 64),
        ] + base64_of(bytes.skip(3))
    }
}

/// `sha2::Sha256::digest`: the digest is 32 bytes long.
#[verifier::external_body]
pub(crate) fn sha256(bytes: &[u8]) -> (out: Vec<u8>)
    ensures
        out@ == sha256_of(bytes@),
        out@.len() == 32,
{
    <sha2::Sha256 as sha2::Digest>::digest(bytes).to_vec()
}

/// `sha1::Sha1::digest`: the digest is 20 bytes long.
#[verifier::external_body]
pub(crate) fn sha1(bytes: &[u8]) -> (out: Vec<u8>)
    ensures
        out@ == sha1_of(bytes@),
        out@.len() == 20,
{
    <sha1::Sha1 as sha1::Digest>::digest(bytes).to_vec()
}

/// `base64::engine::general_purpose::STANDARD` with `Engine::encode`: the standard
/// alphabet, with padding.
#[verifier::external_body]
pub(crate) fn base64(bytes: &[u8]) -> (out: String)
    ensures
        out@ == base64_of(bytes@),
{
    base64::Engine::encode(&base64::engine::general_purpose::STANDARD, bytes)
}

/// The hexadecimal digit of `n`.
pub open spec fn hex_digit(n: int) -> char {
    if n < 10 {
        ('0' as int + n) as char
    } else {
        ('a' as int + (n - 10)) as char
    }
}

/// Two hexadecimal digits for each byte.
pub open spec fn hex_of(bytes: Seq<u8>) -> Seq<char>
    decreases bytes.len(),
{
    if bytes.len() == 0 {
        seq![]
    } else {
        let b = bytes.last() as int;
        hex_of(bytes.drop_last()).push(hex_digit(b / 16)).push(hex_digit(b % 16))
    }
}

fn digit(n: u8) -> (out: char)
    requires
        n < 16,
    ensures
        out == hex_digit(n as int),
{
    if n < 10 {
        (48 + n) as char
    } else {
        (87 + n) as char
    }
}

/// Two hexadecimal digits for each byte.
pub fn hex(bytes: &[u8]) -> (out: Vec<char>)
    ensures
        out@ == hex_of(bytes@),
        out@.len() == 2 * bytes@.len(),
{
    let mut out: Vec<char> = Vec::new();
    let mut i: usize = 0;
    while i < bytes.len()
        invariant
            i <= bytes.len(),
            out@ == hex_of(bytes@.take(i as int)),
            out@.len() == 2 * i,
        decreases bytes.len() - i,
    {
        proof {
            assert(bytes@.take(i + 1).drop_last() =~= bytes@.take(i as int));
            assert(bytes@.take(i + 1).last() == bytes@[i as int]);
        }
        out.push(digit(bytes[i] / 16));
        out.push(digit(bytes[i] % 16));
        i += 1;
    }
    proof {
        assert(bytes@.take(bytes@.len() as int) =~= bytes@);
    }
    out
}

/// Each byte is two hexadecimal digits, the higher one first, and bytes are written in
/// their order.
pub proof fn bytes_are_two_digits(bytes: Seq<u8>, byte: u8)
    ensures
        hex_of(bytes.push(byte)) == hex_of(bytes) + seq![
            hex_digit(byte as int / 16),
            hex_digit(byte as int % 16),
        ],
        hex_of(bytes).len() == 2 * bytes.len(),
    decreases bytes.len(),
{
    assert(bytes.push(byte).drop_last() =~= bytes);
    assert(hex_of(bytes.push(byte)) =~= hex_of(bytes) + seq![
        hex_digit(byte as int / 16),
        hex_digit(byte as int % 16),
    ]);
    if bytes.len() > 0 {
        bytes_are_two_digits(bytes.drop_last(), byte);
    }
}

/// Digits of different numbers differ.
pub proof fn digits_differ(a: int, b: int)
    ensures
        0 <= a < b < 16 ==> hex_digit(a) != hex_digit(b),
        0 <= a < b < 64 ==> base64_digit(a) != base64_digit(b),
        0 <= a < 16 ==> crate::resume::is_hex(hex_digit(a)),
{
}

/// Three bytes are four digits, and what is left over is filled up.
pub proof fn three_bytes_are_four_digits(bytes: Seq<u8>)
    ensures
        base64_of(bytes).len() == 4 * ((bytes.len() + 2) / 3),
        bytes.len() % 3 == 1 ==> base64_of(bytes).last() == '=' && base64_of(bytes)[base64_of(
            bytes,
        ).len() - 2] == '=',
        bytes.len() % 3 == 2 ==> base64_of(bytes).last() == '=',
    decreases bytes.len(),
{
    if bytes.len() > 2 {
        three_bytes_are_four_digits(bytes.skip(3));
        assert((bytes.len() + 2) / 3 == (bytes.len() - 3 + 2) / 3 + 1);
    }
}

} // verus!
