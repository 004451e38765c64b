//! The content digest that identifies an entry, rendered as lowercase hex.

use vstd::prelude::*;
use vstd::string::*;
use crate::text::string_of_chars;

verus! {

/// The 16-byte MD5 digest of `data`, as the `md5` crate computes it.
pub uninterp spec fn md5_digest(data: Seq<u8>) -> Seq<u8>;

/// Calls `md5::compute` and hands out the sixteen bytes of its `Digest`.
/// Trusted: the bytes are the MD5 digest of `data`, a function of `data` alone.
#[verifier::external_body]
fn md5_bytes(data: &[u8]) -> (r: [u8; 16])
    ensures
        r@ == md5_digest(data@),
{
    md5::compute(data).0
}

/// The lowercase hexadecimal digit of a value below sixteen.
pub open spec fn hex_digit(n: int) -> char {
    if n == 0 { '0' } else if n == 1 { '1' } else if n == 2 { '2' } else if n == 3 { '3' }
    else if n == 4 { '4' } else if n == 5 { '5' } else if n == 6 { '6' } else if n == 7 { '7' }
    else if n == 8 { '8' } else if n == 9 { '9' } else if n == 10 { 'a' } else if n == 11 { 'b' }
    else if n == 12 { 'c' } else if n == 13 { 'd' } else if n == 14 { 'e' } else { 'f' }
}

/// Two lowercase hex digits per byte, high nibble first.
pub open spec fn hex_of(bytes: Seq<u8>) -> Seq<char> {
    Seq::new(
        2 * bytes.len(),
        |i: int| if i % 2 == 0 { hex_digit(bytes[i / 2] as int / 16) } else { hex_digit(bytes[i / 2] as int % 16) },
    )
}

/// The digest text of a byte string: the hex rendering of its MD5 digest.
pub open spec fn digest_text(data: Seq<u8>) -> Seq<char> {
    hex_of(md5_digest(data))
}

/// The key under which a text is filed: the digest text of its UTF-8 bytes.
pub open spec fn text_key(text: Seq<char>) -> Seq<char> {
    digest_text(vstd::utf8::encode_utf8(text))
}

fn hex_char(n: u8) -> (c: char)
    requires
        n < 16,
    ensures
        c == hex_digit(n as int),
{
    if n == 0 { '0' } else if n == 1 { '1' } else if n == 2 { '2' } else if n == 3 { '3' }
    else if n == 4 { '4' } else if n == 5 { '5' } else if n == 6 { '6' } else if n == 7 { '7' }
    else if n == 8 { '8' } else if n == 9 { '9' } else if n == 10 { 'a' } else if n == 11 { 'b' }
    else if n == 12 { 'c' } else if n == 13 { 'd' } else if n == 14 { 'e' } else { 'f' }
}

/// Renders bytes as lowercase hexadecimal text.
pub fn to_hex(bytes: &[u8]) -> (r: String)
    ensures
        r@ == hex_of(bytes@),
{
    let mut out: Vec<char> = Vec::new();
    let mut i: usize = 0;
    while i < bytes.len()
        invariant
            i <= bytes.len(),
            out@.len() == 2 * i,
            forall|k: int| 0 <= k < out@.len() ==> out@[k] == hex_of(bytes@)[k],
        decreases bytes.len() - i,
    {
        let b: u8 = bytes[i];
        out.push(hex_char(b / 16));
        out.push(hex_char(b % 16));
        i += 1;
    }
    assert(out@ =~= hex_of(bytes@));
    string_of_chars(&out)
}

/// Whether a character is a lowercase hexadecimal digit.
pub open spec fn is_hex_char(c: char) -> bool {
    ('0' <= c && c <= '9') || ('a' <= c && c <= 'f')
}

/// The hex rendering holds two characters for each byte, and only lowercase
/// hexadecimal digits.
pub proof fn lemma_hex_shape(bytes: Seq<u8>)
    ensures
        hex_of(bytes).len() == 2 * bytes.len(),
        forall|i: int| 0 <= i < hex_of(bytes).len() ==> is_hex_char(#[trigger] hex_of(bytes)[i]),
{
    assert forall|i: int| 0 <= i < hex_of(bytes).len() implies is_hex_char(#[trigger] hex_of(bytes)[i]) by {
        let b = bytes[i / 2] as int;
        assert(0 <= b / 16 < 16);
        assert(0 <= b % 16 < 16);
    }
}

/// The digest text of `data`: thirty-two lowercase hexadecimal digits, two
/// for each of the sixteen bytes of the digest, in their order. No
/// normalisation happens here: callers fold case before hashing where the
/// scheme asks for it.
pub fn content_hash(data: &[u8]) -> (r: String)
    ensures
        r@ == digest_text(data@),
        r@.len() == 32,
        forall|i: int| 0 <= i < 32 ==> is_hex_char(#[trigger] r@[i]),
{
    let digest: [u8; 16] = md5_bytes(data);
    proof {
        lemma_hex_shape(digest@);
    }
    to_hex(digest.as_slice())
}

/// The digest text of a piece of text, taken over its UTF-8 bytes.
pub fn hash_text(text: &str) -> (r: String)
    ensures
        r@ == text_key(text@),
        r@.len() == 32,
        forall|i: int| 0 <= i < 32 ==> is_hex_char(#[trigger] r@[i]),
{
    content_hash(text.as_bytes())
}

} // verus!
