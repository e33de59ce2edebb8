//! SHA-256 and HMAC-SHA256, done by the `sha2` and `hmac` crates and
//! reached through the trusted items below, and lower-case hex.
use vstd::prelude::*;

use hmac::Mac;
use sha2::Digest;

use crate::text::utf8;

verus! {

/// The SHA-256 digest of the bytes.
pub uninterp spec fn sha256_digest(data: Seq<u8>) -> Seq<u8>;

/// The HMAC-SHA256 of `data` under `key`.
pub uninterp spec fn hmac_sha256_digest(key: Seq<u8>, data: Seq<u8>) -> Seq<u8>;

/// Calls `Sha256::new`, `update` with the bytes and `finalize`; the digest
/// is named `sha256_digest`.
#[verifier::external_body]
pub(crate) fn sha256(data: &[u8]) -> (r: Vec<u8>)
    ensures
        r@ == sha256_digest(data@),
{
    let mut hasher = sha2::Sha256::new();
    hasher.update(data);
    hasher.finalize().to_vec()
}

/// Calls `Sha256::new`, `update` with the text's UTF-8 bytes and
/// `finalize`; the digest is named `sha256_digest` of those bytes.
#[verifier::external_body]
pub(crate) fn sha256_text(text: &str) -> (r: Vec<u8>)
    ensures
        r@ == sha256_digest(utf8(text@)),
{
    let mut hasher = sha2::Sha256::new();
    hasher.update(text.as_bytes());
    hasher.finalize().to_vec()
}

/// Calls `Hmac::<Sha256>::new_from_slice`, `update` with the text's UTF-8
/// bytes and `finalize`; the code is named `hmac_sha256_digest`.
/// `new_from_slice` accepts keys of any length (its source returns `Ok`
/// unconditionally), so the error arm is not reached.
#[verifier::external_body]
pub(crate) fn hmac_sha256_text(key: &[u8], text: &str) -> (r: Vec<u8>)
    ensures
        r@ == hmac_sha256_digest(key@, utf8(text@)),
{
    match hmac::Hmac::<sha2::Sha256>::new_from_slice(key) {
        Ok(mut mac) => {
            mac.update(text.as_bytes());
            mac.finalize().into_bytes().to_vec()
        },
        Err(_) => Vec::new(),
    }
}

/// The lower-case hexadecimal digit of a value below 16.
pub open spec fn hex_digit(v: nat) -> char {
    if v < 10 {
        (('0' as nat) + v) as char
    } else {
        (('a' as nat) + (v - 10)) as char
    }
}

/// `hex::encode`: two lower-case hex digits per byte.
pub open spec fn hex_lower(b: Seq<u8>) -> Seq<char>
    decreases b.len(),
{
    if b.len() == 0 {
        Seq::empty()
    } else {
        hex_lower(b.drop_last()) + seq![
            hex_digit((b.last() / 16) as nat),
            hex_digit((b.last() % 16) as nat),
        ]
    }
}

fn hex_digit_exec(v: u8) -> (c: char)
    requires
        v < 16,
    ensures
        c == hex_digit(v as nat),
{
    let table: [char; 16] = [
        '0',
        '1',
        '2',
        '3',
        '4',
        '5',
        '6',
        '7',
        '8',
        '9',
        'a',
        'b',
        'c',
        'd',
        'e',
        'f',
    ];
    let c = table[v as usize];
    proof {
        assert(table@ =~= seq![
            hex_digit(0),
            hex_digit(1),
            hex_digit(2),
            hex_digit(3),
            hex_digit(4),
            hex_digit(5),
            hex_digit(6),
            hex_digit(7),
            hex_digit(8),
            hex_digit(9),
            hex_digit(10),
            hex_digit(11),
            hex_digit(12),
            hex_digit(13),
            hex_digit(14),
            hex_digit(15),
        ]);
    }
    c
}

/// Lower-case hex of the bytes, as `hex::encode` writes it.
pub fn hex_encode(b: &[u8]) -> (r: String)
    ensures
        r@ == hex_lower(b@),
{
    let mut out: Vec<char> = Vec::new();
    let mut i: usize = 0;
    while i < b.len()
        invariant
            0 <= i <= b.len(),
            out@ == hex_lower(b@.subrange(0, i as int)),
        decreases b.len() - i,
    {
        let v = b[i];
        proof {
            assert(b@.subrange(0, i + 1).drop_last() =~= b@.subrange(0, i as int));
        }
        out.push(hex_digit_exec(v / 16));
        out.push(hex_digit_exec(v % 16));
        i += 1;
    }
    assert(b@.subrange(0, b.len() as int) =~= b@);
    crate::text::string_of(&out)
}

/// The hex of the SHA-256 digest.
pub fn sha256_hex(data: &[u8]) -> (r: String)
    ensures
        r@ == hex_lower(sha256_digest(data@)),
{
    let d = sha256(data);
    hex_encode(&d)
}

/// The hex of the SHA-256 digest of a text's UTF-8 bytes.
pub fn sha256_hex_text(text: &str) -> (r: String)
    ensures
        r@ == hex_lower(sha256_digest(utf8(text@))),
{
    let d = sha256_text(text);
    hex_encode(&d)
}

/// HMAC-SHA256 of a text under a key; it never fails.
pub fn hmac_sha256(key: &[u8], data: &str) -> (r: Result<Vec<u8>, String>)
    ensures
        match r {
            Ok(m) => m@ == hmac_sha256_digest(key@, utf8(data@)),
            Err(_) => false,
        },
{
    Ok(hmac_sha256_text(key, data))
}

} // verus!
