//! Content hashes: SHA-256 digests and their lower-case hex notation.
use vstd::prelude::*;
use sha2::Digest;
use crate::text::{eq_ignore_ascii_case, push_char, str_eq_ignore_ascii_case, trim, trimmed};

verus! {

/// The SHA-256 digest of `data`.
pub uninterp spec fn sha256_spec(data: Seq<u8>) -> Seq<u8>;

/// `sha2::Sha256::digest`: the SHA-256 digest of the bytes, 32 bytes long.
/// What the digest is beyond its length is known only as `sha256_spec`.
#[verifier::external_body]
pub(crate) fn sha256(data: &[u8]) -> (r: Vec<u8>)
    ensures
        r@ == sha256_spec(data@),
        r@.len() == 32,
{
    sha2::Sha256::digest(data).to_vec()
}

/// The lower-case hex digit for `d < 16`.
pub open spec fn hex_digit(d: u8) -> char {
    if d < 10 {
        (48 + d) as char
    } else {
        (87 + d) as char
    }
}

/// A lower-case hex digit: `0`-`9` or `a`-`f`.
pub open spec fn is_lower_hex(c: char) -> bool {
    ('0' <= c && c <= '9') || ('a' <= c && c <= 'f')
}

/// Lower-case hex notation of bytes, two digits per byte (`{:x}` of a
/// digest).
pub open spec fn hex_lower(bytes: Seq<u8>) -> Seq<char>
    decreases bytes.len(),
{
    if bytes.len() == 0 {
        seq![]
    } else {
        hex_lower(bytes.drop_last()) + seq![
            hex_digit(bytes.last() / 16),
            hex_digit(bytes.last() % 16),
        ]
    }
}

fn hex_char(d: u8) -> (c: char)
    requires
        d < 16,
    ensures
        c == hex_digit(d),
{
    if d < 10 {
        (48u8 + d) as char
    } else {
        (87u8 + d) as char
    }
}

/// Hex notation has two digits per byte, each a lower-case hex digit.
pub proof fn lemma_hex_lower_digits(bytes: Seq<u8>)
    ensures
        hex_lower(bytes).len() == 2 * bytes.len(),
        forall|i: int| 0 <= i < hex_lower(bytes).len() ==> is_lower_hex(#[trigger] hex_lower(bytes)[i]),
    decreases bytes.len(),
{
    if bytes.len() > 0 {
        let b = bytes.last();
        lemma_hex_lower_digits(bytes.drop_last());
        assert forall|d: u8| d < 16 implies is_lower_hex(#[trigger] hex_digit(d)) by {
            if d < 10 {
                assert(((48 + d) as char) as u32 == 48 + d);
            } else {
                assert(((87 + d) as char) as u32 == 87 + d);
            }
        }
        assert(is_lower_hex(hex_digit(b / 16)));
        assert(is_lower_hex(hex_digit(b % 16)));
    }
}

/// Lower-case hex notation of `bytes`.
pub fn to_hex(bytes: &[u8]) -> (r: String)
    ensures
        r@ == hex_lower(bytes@),
{
    let mut s = String::new();
    let mut i: usize = 0;
    while i < bytes.len()
        invariant
            0 <= i <= bytes@.len(),
            s@ == hex_lower(bytes@.take(i as int)),
        decreases bytes@.len() - i,
    {
        let b = bytes[i];
        push_char(&mut s, hex_char(b / 16));
        push_char(&mut s, hex_char(b % 16));
        assert(bytes@.take(i + 1).drop_last() =~= bytes@.take(i as int));
        assert(bytes@.take(i + 1).last() == b);
        i = i + 1;
    }
    assert(bytes@.take(bytes@.len() as int) =~= bytes@);
    s
}

/// The SHA-256 digest of `data` in lower-case hex.
pub open spec fn sha256_hex_spec(data: Seq<u8>) -> Seq<char> {
    hex_lower(sha256_spec(data))
}

/// The SHA-256 digest of `data` in lower-case hex, as objects and seals
/// name file contents.
pub fn sha256_hex(data: &[u8]) -> (r: String)
    ensures
        r@ == sha256_hex_spec(data@),
{
    let d = sha256(data);
    to_hex(d.as_slice())
}

/// A downloaded payload matches the published checksum: the hex digest and
/// the checksum agree, trimmed and ignoring ASCII case.
pub open spec fn checksum_matches_spec(data: Seq<u8>, expected: Seq<char>) -> bool {
    eq_ignore_ascii_case(trim(sha256_hex_spec(data)), trim(expected))
}

/// Whether `data` matches the published checksum `expected`.
pub fn checksum_matches(data: &[u8], expected: &str) -> (r: bool)
    ensures
        r == checksum_matches_spec(data@, expected@),
{
    let calculated = sha256_hex(data);
    let c = trimmed(calculated.as_str());
    let e = trimmed(expected);
    str_eq_ignore_ascii_case(c.as_str(), e.as_str())
}

} // verus!
