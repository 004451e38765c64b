//! Classifying a payload by its leading bytes, for entries without a name.

use vstd::prelude::*;
use vstd::utf8::{decode_utf8, encode_utf8, valid_utf8};
use crate::text::utf8_text;

verus! {

/// The kinds of payload that are known by their first bytes.
#[derive(Clone, Copy, Debug, PartialEq, Eq, Structural)]
pub enum Signature {
    Midi,
    Gzip,
    Gpu,
    Palette,
    Model,
    Layer,
    Wave,
    Ogg,
    Database,
    Animation,
    Sprite,
    Effect,
    Ivf,
    Compound,
}

/// Whether `p` starts with the three bytes given.
pub open spec fn starts3(p: Seq<u8>, a: u8, b: u8, c: u8) -> bool {
    p.len() >= 4 && p[0] == a && p[1] == b && p[2] == c
}

/// Whether `p` starts with the four bytes given.
pub open spec fn starts4(p: Seq<u8>, a: u8, b: u8, c: u8, d: u8) -> bool {
    starts3(p, a, b, c) && p[3] == d
}

/// The signature that the first four bytes of a payload carry, if any.
/// A gzip stream is known by its first two bytes; a payload of fewer than
/// four bytes carries none.
pub open spec fn signature_of(p: Seq<u8>) -> Option<Signature> {
    if p.len() < 4 {
        None
    } else if starts4(p, 0x4D, 0x54, 0x68, 0x64) {
        Some(Signature::Midi)
    } else if p[0] == 0x1F && p[1] == 0x8B {
        Some(Signature::Gzip)
    } else if starts4(p, 0x47, 0x50, 0x55, 0) {
        Some(Signature::Gpu)
    } else if starts4(p, 0x50, 0x41, 0x4C, 0) {
        Some(Signature::Palette)
    } else if starts3(p, 0x4D, 0x44, 0x4C) && p[3] <= 2 {
        Some(Signature::Model)
    } else if starts3(p, 0x4C, 0x59, 0x52) && p[3] <= 2 {
        Some(Signature::Layer)
    } else if starts4(p, 0x52, 0x49, 0x46, 0x46) {
        Some(Signature::Wave)
    } else if starts4(p, 0x4F, 0x67, 0x67, 0x53) {
        Some(Signature::Ogg)
    } else if starts4(p, 0x53, 0x51, 0x4C, 0x69) {
        Some(Signature::Database)
    } else if starts4(p, 0x41, 0x4E, 0x49, 0) {
        Some(Signature::Animation)
    } else if starts4(p, 0x53, 0x50, 0x52, 1) {
        Some(Signature::Sprite)
    } else if starts4(p, 0x56, 0x46, 0x58, 0) {
        Some(Signature::Effect)
    } else if starts4(p, 0x44, 0x4B, 0x49, 0x46) {
        Some(Signature::Ivf)
    } else if starts4(p, 0x43, 0x4F, 0x4D, 0) {
        Some(Signature::Compound)
    } else {
        None
    }
}

impl Signature {
    /// The file-name suffix of each kind.
    pub open spec fn suffix(self) -> Seq<char> {
        match self {
            Signature::Midi => ".mid"@,
            Signature::Gzip => ".pvr.gz"@,
            Signature::Gpu => ".bin.gpu"@,
            Signature::Palette => ".bin.pal"@,
            Signature::Model => ".bin.mdl"@,
            Signature::Layer => ".bin.lyr"@,
            Signature::Wave => ".wav"@,
            Signature::Ogg => ".ogg"@,
            Signature::Database => ".db"@,
            Signature::Animation => ".bin.ani"@,
            Signature::Sprite => ".bin.spr"@,
            Signature::Effect => ".bin.vfx"@,
            Signature::Ivf => ".ivf"@,
            Signature::Compound => ".bin.com"@,
        }
    }

    /// The file-name suffix of this kind.
    pub fn extension(self) -> (r: &'static str)
        ensures
            r@ == self.suffix(),
    {
        match self {
            Signature::Midi => ".mid",
            Signature::Gzip => ".pvr.gz",
            Signature::Gpu => ".bin.gpu",
            Signature::Palette => ".bin.pal",
            Signature::Model => ".bin.mdl",
            Signature::Layer => ".bin.lyr",
            Signature::Wave => ".wav",
            Signature::Ogg => ".ogg",
            Signature::Database => ".db",
            Signature::Animation => ".bin.ani",
            Signature::Sprite => ".bin.spr",
            Signature::Effect => ".bin.vfx",
            Signature::Ivf => ".ivf",
            Signature::Compound => ".bin.com",
        }
    }
}

fn has3(p: &[u8], a: u8, b: u8, c: u8) -> (r: bool)
    ensures
        r == starts3(p@, a, b, c),
{
    p.len() >= 4 && p[0] == a && p[1] == b && p[2] == c
}

fn has4(p: &[u8], a: u8, b: u8, c: u8, d: u8) -> (r: bool)
    ensures
        r == starts4(p@, a, b, c, d),
{
    has3(p, a, b, c) && p[3] == d
}

/// Looks the first four bytes of a payload up in the table of signatures.
pub fn classify(payload: &[u8]) -> (r: Option<Signature>)
    ensures
        r == signature_of(payload@),
{
    if payload.len() < 4 {
        None
    } else if has4(payload, 0x4D, 0x54, 0x68, 0x64) {
        Some(Signature::Midi)
    } else if payload[0] == 0x1F && payload[1] == 0x8B {
        Some(Signature::Gzip)
    } else if has4(payload, 0x47, 0x50, 0x55, 0) {
        Some(Signature::Gpu)
    } else if has4(payload, 0x50, 0x41, 0x4C, 0) {
        Some(Signature::Palette)
    } else if has3(payload, 0x4D, 0x44, 0x4C) && payload[3] <= 2 {
        Some(Signature::Model)
    } else if has3(payload, 0x4C, 0x59, 0x52) && payload[3] <= 2 {
        Some(Signature::Layer)
    } else if has4(payload, 0x52, 0x49, 0x46, 0x46) {
        Some(Signature::Wave)
    } else if has4(payload, 0x4F, 0x67, 0x67, 0x53) {
        Some(Signature::Ogg)
    } else if has4(payload, 0x53, 0x51, 0x4C, 0x69) {
        Some(Signature::Database)
    } else if has4(payload, 0x41, 0x4E, 0x49, 0) {
        Some(Signature::Animation)
    } else if has4(payload, 0x53, 0x50, 0x52, 1) {
        Some(Signature::Sprite)
    } else if has4(payload, 0x56, 0x46, 0x58, 0) {
        Some(Signature::Effect)
    } else if has4(payload, 0x44, 0x4B, 0x49, 0x46) {
        Some(Signature::Ivf)
    } else if has4(payload, 0x43, 0x4F, 0x4D, 0) {
        Some(Signature::Compound)
    } else {
        None
    }
}

/// The signature of a payload depends on its first four bytes alone: two
/// payloads that agree there are classified alike, whatever follows and
/// whenever they are looked at. Where those bytes are a signature, the
/// suffix is the same too, whatever a parse of either payload says.
pub proof fn lemma_signature_by_prefix(a: Seq<u8>, b: Seq<u8>)
    requires
        a.len() >= 4,
        b.len() >= 4,
        a.subrange(0, 4) == b.subrange(0, 4),
    ensures
        signature_of(a) == signature_of(b),
        signature_of(a).is_some() ==> forall|s: bool, t: bool|
            inferred_suffix(signature_of(a), s) == inferred_suffix(signature_of(b), t),
        forall|s: bool| inferred_suffix(signature_of(a), s) == inferred_suffix(signature_of(b), s),
{
    assert forall|i: int| 0 <= i < 4 implies a[i] == b[i] by {
        assert(a.subrange(0, 4)[i] == a[i]);
        assert(b.subrange(0, 4)[i] == b[i]);
    }
}

/// Whether a payload is a gzip stream whose flag byte says that a file name
/// follows the header.
pub open spec fn carries_name(p: Seq<u8>) -> bool {
    p.len() >= 4 && p[0] == 0x1F && p[1] == 0x8B && p[3] == 0x08
}

/// One past the last byte that is searched for the end of an embedded name.
pub open spec fn window_end(p: Seq<u8>) -> int {
    if p.len() < 64 {
        p.len() as int
    } else {
        64
    }
}

/// Whether the first zero byte of the window stands at `k`.
pub open spec fn is_name_end(p: Seq<u8>, k: int) -> bool {
    &&& 10 <= k < window_end(p)
    &&& p[k] == 0
    &&& forall|j: int| 10 <= j < k ==> p[j] != 0
}

/// The bytes of the file name that a gzip header embeds: those from offset 10
/// up to the first zero byte before offset 64. Without the flag, or without a
/// zero byte in that window, there is none.
pub open spec fn embedded_name(p: Seq<u8>) -> Option<Seq<u8>> {
    if carries_name(p) && exists|k: int| is_name_end(p, k) {
        Some(p.subrange(10, choose|k: int| is_name_end(p, k)))
    } else {
        None
    }
}

/// The embedded file name as text, where its bytes are valid UTF-8.
pub open spec fn guessed_text(p: Seq<u8>) -> Option<Seq<char>> {
    match embedded_name(p) {
        Some(bytes) => if valid_utf8(bytes) {
            Some(decode_utf8(bytes))
        } else {
            None
        },
        None => None,
    }
}

proof fn lemma_name_end_unique(p: Seq<u8>, k: int)
    requires
        is_name_end(p, k),
    ensures
        (choose|j: int| is_name_end(p, j)) == k,
{
    let c = choose|j: int| is_name_end(p, j);
    assert(is_name_end(p, c));
    if c < k {
        assert(p[c] != 0);
    } else if k < c {
        assert(p[k] != 0);
    }
}

/// Cuts the embedded file name out of a gzip header.
pub fn embedded_name_bytes(payload: &[u8]) -> (r: Option<Vec<u8>>)
    ensures
        r.is_some() == embedded_name(payload@).is_some(),
        r.is_some() ==> r.unwrap()@ == embedded_name(payload@).unwrap(),
{
    if !(payload.len() >= 4 && payload[0] == 0x1F && payload[1] == 0x8B && payload[3] == 0x08) {
        return None;
    }
    let end: usize = if payload.len() < 64 { payload.len() } else { 64 };
    let mut out: Vec<u8> = Vec::new();
    let mut k: usize = 10;
    while k < end
        invariant
            10 <= k,
            carries_name(payload@),
            end as int == window_end(payload@),
            end <= payload.len(),
            k <= end ==> out@ == payload@.subrange(10, k as int),
            forall|j: int| 10 <= j < k && j < end ==> payload@[j] != 0,
        decreases end - k,
    {
        if payload[k] == 0 {
            proof {
                lemma_name_end_unique(payload@, k as int);
            }
            return Some(out);
        }
        out.push(payload[k]);
        assert(out@ =~= payload@.subrange(10, k + 1));
        k += 1;
    }
    assert(forall|j: int| !is_name_end(payload@, j));
    None
}

/// The file name that a gzip payload carries in its header, if it has one
/// that reads as text.
pub fn guessed_name(payload: &[u8]) -> (r: Option<String>)
    ensures
        r.is_some() == guessed_text(payload@).is_some(),
        r.is_some() ==> r.unwrap()@ == guessed_text(payload@).unwrap(),
{
    match embedded_name_bytes(payload) {
        Some(bytes) => match utf8_text(bytes.as_slice()) {
            Some(text) => Some(text.to_owned()),
            None => None,
        },
        None => None,
    }
}

/// Whether the `json` crate's parser accepts a text as one JSON value.
pub uninterp spec fn json_accepts(text: Seq<char>) -> bool;

/// The longest run of decimal digits that a text handed to the parser may
/// hold.
pub const DIGIT_RUN_LIMIT: usize = 32767;

/// Whether a byte is an ASCII decimal digit.
pub open spec fn is_digit_byte(b: u8) -> bool {
    0x30 <= b && b <= 0x39
}

/// Whether every byte from `from` up to `to` is a decimal digit.
pub open spec fn all_digits(bytes: Seq<u8>, from: int, to: int) -> bool {
    forall|k: int| from <= k < to ==> is_digit_byte(#[trigger] bytes[k])
}

/// Whether no run of consecutive decimal digits in `bytes` is longer than
/// the limit. In UTF-8 a digit is one byte and no other character has a byte
/// in that range, so these are the runs of digits of the text.
pub open spec fn digit_runs_bounded(bytes: Seq<u8>) -> bool {
    forall|i: int|
        0 <= i && i + 32768 <= bytes.len() ==> !#[trigger] all_digits(bytes, i, i + 32768)
}

/// Tests whether no run of decimal digits is longer than the limit.
pub fn digit_runs_within_limit(bytes: &[u8]) -> (r: bool)
    ensures
        r == digit_runs_bounded(bytes@),
{
    let mut i: usize = 0;
    let mut run: usize = 0;
    while i < bytes.len()
        invariant
            i <= bytes.len(),
            run <= DIGIT_RUN_LIMIT,
            run <= i,
            all_digits(bytes@, i - run, i as int),
            run < i ==> !is_digit_byte(bytes@[i - run - 1]),
            forall|s: int| 0 <= s && s + 32768 <= i ==> !#[trigger] all_digits(bytes@, s, s + 32768),
        decreases bytes.len() - i,
    {
        let b: u8 = bytes[i];
        let ghost before = run;
        if 0x30 <= b && b <= 0x39 {
            if run == DIGIT_RUN_LIMIT {
                proof {
                    let s = i - 32767;
                    assert(all_digits(bytes@, s, s + 32768));
                }
                return false;
            }
            run += 1;
        } else {
            run = 0;
        }
        proof {
            assert forall|s: int| 0 <= s && s + 32768 <= i + 1 implies !#[trigger] all_digits(
                bytes@,
                s,
                s + 32768,
            ) by {
                if s + 32768 == i + 1 {
                    if is_digit_byte(b) {
                        assert(!is_digit_byte(bytes@[i - before - 1]));
                    } else {
                        assert(!is_digit_byte(bytes@[i as int]));
                    }
                }
            }
        }
        i += 1;
    }
    true
}

/// Calls `json::parse` and keeps only whether it succeeded.
/// Trusted: the outcome depends on the text alone. The parser counts the
/// digits of a number in sixteen bits, so a text with a longer run of
/// digits is kept from it.
#[verifier::external_body]
fn json_parses(text: &str) -> (r: bool)
    requires
        digit_runs_bounded(encode_utf8(text@)),
    ensures
        r == json_accepts(text@),
{
    json::parse(text).is_ok()
}

/// Whether a payload reads as structured text: its bytes, taken as UTF-8,
/// parse as JSON. A text with a run of digits beyond the limit is not
/// parsed, and is no structured text. Bytes that are no valid UTF-8 stand
/// for the empty text.
pub open spec fn structured_text(p: Seq<u8>) -> bool {
    if valid_utf8(p) {
        digit_runs_bounded(p) && json_accepts(decode_utf8(p))
    } else {
        json_accepts(Seq::<char>::empty())
    }
}

/// Tests whether a payload reads as structured text.
pub fn is_structured_text(payload: &[u8]) -> (r: bool)
    ensures
        r == structured_text(payload@),
{
    match utf8_text(payload) {
        Some(text) => {
            if digit_runs_within_limit(payload) {
                proof {
                    vstd::utf8::decode_utf8_encode_utf8(payload@);
                }
                json_parses(text)
            } else {
                false
            }
        },
        None => {
            let blank: String = String::new();
            assert(encode_utf8(blank@).len() == 0);
            json_parses(blank.as_str())
        },
    }
}

/// The suffix for a payload without a name: that of its signature; without
/// one, `.cfg` for structured text, and nothing otherwise.
pub open spec fn inferred_suffix(sig: Option<Signature>, structured: bool) -> Seq<char> {
    match sig {
        Some(s) => s.suffix(),
        None => if structured { ".cfg"@ } else { ""@ },
    }
}

/// Picks the suffix from a signature and the outcome of the text parse.
pub fn suffix_for(sig: Option<Signature>, structured: bool) -> (r: &'static str)
    ensures
        r@ == inferred_suffix(sig, structured),
{
    match sig {
        Some(s) => s.extension(),
        None => if structured { ".cfg" } else { "" },
    }
}

/// Infers the suffix of a payload: by signature first, by parsing it as
/// structured text only when no signature matches.
pub fn infer_extension(payload: &[u8]) -> (r: &'static str)
    ensures
        r@ == inferred_suffix(signature_of(payload@), structured_text(payload@)),
{
    match classify(payload) {
        Some(s) => s.extension(),
        None => suffix_for(None, is_structured_text(payload)),
    }
}

} // verus!
