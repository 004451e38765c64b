//! Text handling for dictionary lines: characters, comments and trimming.

use vstd::prelude::*;
use vstd::string::*;

verus! {

/// Appends one character with `String::push`.
/// Trusted: the string is afterwards what it was, with `c` at its end.
#[verifier::external_body]
fn push_char(s: &mut String, c: char)
    ensures
        final(s)@ == old(s)@.push(c),
{
    s.push(c)
}

/// The characters of a string slice, in order.
pub fn chars_of(s: &str) -> (r: Vec<char>)
    ensures
        r@ == s@,
{
    let n: usize = s.unicode_len();
    let mut out: Vec<char> = Vec::new();
    let mut i: usize = 0;
    while i < n
        invariant
            i <= n,
            n == s@.len(),
            out@ == s@.subrange(0, i as int),
        decreases n - i,
    {
        out.push(s.get_char(i));
        assert(out@ =~= s@.subrange(0, i + 1));
        i += 1;
    }
    assert(s@.subrange(0, n as int) =~= s@);
    out
}

/// The string that holds the characters of `v`, in order.
pub fn string_of_chars(v: &Vec<char>) -> (r: String)
    ensures
        r@ == v@,
{
    let mut out: String = String::new();
    let mut i: usize = 0;
    while i < v.len()
        invariant
            i <= v.len(),
            out@ == v@.subrange(0, i as int),
        decreases v.len() - i,
    {
        push_char(&mut out, v[i]);
        assert(out@ =~= v@.subrange(0, i + 1));
        i += 1;
    }
    assert(v@.subrange(0, v.len() as int) =~= v@);
    out
}

/// The lowercase form of a text, as `str::to_lowercase` gives it.
pub uninterp spec fn lowercase_of(text: Seq<char>) -> Seq<char>;

/// Calls `str::to_lowercase`.
/// Trusted: the result is the Unicode lowercase form of `s`, which depends on
/// the characters of `s` alone.
#[verifier::external_body]
pub(crate) fn lowercase(s: &str) -> (r: String)
    ensures
        r@ == lowercase_of(s@),
{
    s.to_lowercase()
}

/// Decodes bytes with `std::str::from_utf8`.
/// Trusted: the result is `Some` exactly when the bytes are valid UTF-8, and
/// then holds the characters that they encode.
#[verifier::external_body]
pub(crate) fn utf8_text(bytes: &[u8]) -> (r: Option<&str>)
    ensures
        r.is_some() == vstd::utf8::valid_utf8(bytes@),
        r.is_some() ==> r.unwrap()@ == vstd::utf8::decode_utf8(bytes@),
{
    std::str::from_utf8(bytes).ok()
}

/// Whether Unicode counts a character as white space.
pub open spec fn is_space(c: char) -> bool {
    let n = c as u32;
    (0x09 <= n <= 0x0D) || n == 0x20 || n == 0x85 || n == 0xA0 || n == 0x1680 || (0x2000 <= n
        <= 0x200A) || n == 0x2028 || n == 0x2029 || n == 0x202F || n == 0x205F || n == 0x3000
}

/// Whether the two characters that open a comment stand at `i`.
pub open spec fn marker_at(s: Seq<char>, i: int) -> bool {
    0 <= i && i + 1 < s.len() && s[i] == '-' && s[i + 1] == '-'
}

/// Whether `k` is where the first comment marker of `s` starts, or the
/// length of `s` where it has none.
pub open spec fn is_comment_start(s: Seq<char>, k: int) -> bool {
    &&& 0 <= k <= s.len()
    &&& forall|i: int| 0 <= i < k ==> !marker_at(s, i)
    &&& (k == s.len() || marker_at(s, k))
}

/// Where the first comment marker of `s` starts; the length of `s` without one.
pub open spec fn comment_start(s: Seq<char>) -> int {
    choose|k: int| is_comment_start(s, k)
}

/// `s` without its leading white space.
pub open spec fn skip_leading(s: Seq<char>) -> Seq<char>
    decreases s.len(),
{
    if s.len() > 0 && is_space(s[0]) {
        skip_leading(s.drop_first())
    } else {
        s
    }
}

/// `s` without its trailing white space.
pub open spec fn skip_trailing(s: Seq<char>) -> Seq<char>
    decreases s.len(),
{
    if s.len() > 0 && is_space(s.last()) {
        skip_trailing(s.drop_last())
    } else {
        s
    }
}

/// `s` without the white space at either end.
pub open spec fn trimmed(s: Seq<char>) -> Seq<char> {
    skip_trailing(skip_leading(s))
}

/// The candidate name on a dictionary line: what stands before the first
/// comment marker, without the white space around it.
pub open spec fn candidate_of(line: Seq<char>) -> Seq<char> {
    trimmed(line.subrange(0, comment_start(line)))
}

/// A start of the first comment is unique.
pub proof fn lemma_comment_start_unique(s: Seq<char>, k: int)
    requires
        is_comment_start(s, k),
    ensures
        comment_start(s) == k,
{
    let c = comment_start(s);
    assert(is_comment_start(s, c));
    if c < k {
        assert(!marker_at(s, c));
    } else if k < c {
        assert(!marker_at(s, k));
    }
}

/// Whether a character is white space.
pub fn char_is_space(c: char) -> (r: bool)
    ensures
        r == is_space(c),
{
    let n: u32 = c as u32;
    (0x09 <= n && n <= 0x0D) || n == 0x20 || n == 0x85 || n == 0xA0 || n == 0x1680 || (0x2000 <= n
        && n <= 0x200A) || n == 0x2028 || n == 0x2029 || n == 0x202F || n == 0x205F || n == 0x3000
}

/// Finds where the first comment marker starts.
pub fn find_comment(chars: &Vec<char>) -> (k: usize)
    ensures
        k as int == comment_start(chars@),
        k <= chars.len(),
{
    let n: usize = chars.len();
    let mut i: usize = 0;
    while i < n
        invariant
            i <= n,
            n == chars.len(),
            forall|j: int| 0 <= j < i ==> !marker_at(chars@, j),
        decreases n - i,
    {
        if chars[i] == '-' && i + 1 < n && chars[i + 1] == '-' {
            proof {
                lemma_comment_start_unique(chars@, i as int);
            }
            return i;
        }
        i += 1;
    }
    proof {
        lemma_comment_start_unique(chars@, n as int);
    }
    n
}

/// Trims the white space at both ends of `chars[..end]`.
pub fn trim_prefix(chars: &Vec<char>, end: usize) -> (r: Vec<char>)
    requires
        end <= chars.len(),
    ensures
        r@ == trimmed(chars@.subrange(0, end as int)),
{
    let ghost whole = chars@.subrange(0, end as int);
    let mut a: usize = 0;
    while a < end && char_is_space(chars[a])
        invariant
            a <= end <= chars.len(),
            whole == chars@.subrange(0, end as int),
            skip_leading(whole) == skip_leading(chars@.subrange(a as int, end as int)),
        decreases end - a,
    {
        proof {
            let cur = chars@.subrange(a as int, end as int);
            assert(cur[0] == chars@[a as int]);
            assert(cur.drop_first() =~= chars@.subrange(a + 1, end as int));
        }
        a += 1;
    }
    let ghost front = chars@.subrange(a as int, end as int);
    assert(skip_leading(front) == front) by {
        if a < end {
            assert(front[0] == chars@[a as int]);
        }
    }
    let mut b: usize = end;
    while b > a && char_is_space(chars[b - 1])
        invariant
            a <= b <= end <= chars.len(),
            skip_trailing(front) == skip_trailing(chars@.subrange(a as int, b as int)),
        decreases b - a,
    {
        proof {
            let cur = chars@.subrange(a as int, b as int);
            assert(cur.last() == chars@[b - 1]);
            assert(cur.drop_last() =~= chars@.subrange(a as int, b - 1));
        }
        b -= 1;
    }
    let ghost kept = chars@.subrange(a as int, b as int);
    assert(skip_trailing(kept) == kept) by {
        if a < b {
            assert(kept.last() == chars@[b - 1]);
        }
    }
    let mut out: Vec<char> = Vec::new();
    let mut i: usize = a;
    while i < b
        invariant
            a <= i <= b <= chars.len(),
            out@ == chars@.subrange(a as int, i as int),
        decreases b - i,
    {
        out.push(chars[i]);
        assert(out@ =~= chars@.subrange(a as int, i + 1));
        i += 1;
    }
    out
}

/// Reads one dictionary line: the text before the first `--`, trimmed.
/// A line that leaves nothing (blank, or a comment only) gives `None`.
pub fn clean_line(line: &str) -> (r: Option<String>)
    ensures
        r.is_none() <==> candidate_of(line@).len() == 0,
        r.is_some() ==> r.unwrap()@ == candidate_of(line@),
        marker_at(line@, 0) ==> r.is_none(),
{
    let chars: Vec<char> = chars_of(line);
    let k: usize = find_comment(&chars);
    let name: Vec<char> = trim_prefix(&chars, k);
    proof {
        if marker_at(line@, 0) {
            lemma_comment_start_unique(line@, 0);
            assert(line@.subrange(0, 0).len() == 0);
        }
    }
    if name.len() == 0 {
        None
    } else {
        Some(string_of_chars(&name))
    }
}

/// The decimal digits of a natural number, without leading zeros.
pub open spec fn decimal_of(n: nat) -> Seq<char>
    decreases n,
{
    if n < 10 {
        seq![digit_char(n as int)]
    } else {
        decimal_of(n / 10).push(digit_char((n % 10) as int))
    }
}

/// The character of a decimal digit.
pub open spec fn digit_char(d: int) -> char {
    if d == 0 { '0' } else if d == 1 { '1' } else if d == 2 { '2' } else if d == 3 { '3' }
    else if d == 4 { '4' } else if d == 5 { '5' } else if d == 6 { '6' } else if d == 7 { '7' }
    else if d == 8 { '8' } else { '9' }
}

/// A signed integer in decimal, with `-` in front of a negative one.
pub open spec fn signed_decimal(n: int) -> Seq<char> {
    if n < 0 {
        seq!['-'] + decimal_of((-n) as nat)
    } else {
        decimal_of(n as nat)
    }
}

/// `s` with `0` put in front of it until it has at least `width` characters.
pub open spec fn zero_padded(s: Seq<char>, width: nat) -> Seq<char> {
    if s.len() >= width {
        s
    } else {
        Seq::new((width - s.len()) as nat, |i: int| '0') + s
    }
}

fn digit_of(d: u64) -> (c: char)
    requires
        d < 10,
    ensures
        c == digit_char(d as int),
{
    if d == 0 { '0' } else if d == 1 { '1' } else if d == 2 { '2' } else if d == 3 { '3' }
    else if d == 4 { '4' } else if d == 5 { '5' } else if d == 6 { '6' } else if d == 7 { '7' }
    else if d == 8 { '8' } else { '9' }
}

fn push_decimal(out: &mut Vec<char>, n: u64)
    ensures
        final(out)@ == old(out)@ + decimal_of(n as nat),
    decreases n,
{
    if n < 10 {
        out.push(digit_of(n));
        assert(final(out)@ =~= old(out)@ + decimal_of(n as nat));
    } else {
        push_decimal(out, n / 10);
        out.push(digit_of(n % 10));
        assert(final(out)@ =~= old(out)@ + decimal_of(n as nat));
    }
}

/// Writes a signed integer in decimal.
pub fn decimal_chars(n: i64) -> (r: Vec<char>)
    ensures
        r@ == signed_decimal(n as int),
{
    let mut out: Vec<char> = Vec::new();
    if n < 0 {
        out.push('-');
        let magnitude: u64 = if n == i64::MIN { 9223372036854775808u64 } else { (-n) as u64 };
        push_decimal(&mut out, magnitude);
    } else {
        push_decimal(&mut out, n as u64);
    }
    assert(out@ =~= signed_decimal(n as int));
    out
}

/// Writes a signed integer in decimal, filled with `0` on the left to `width`.
pub fn padded_decimal(n: i64, width: usize) -> (r: Vec<char>)
    ensures
        r@ == zero_padded(signed_decimal(n as int), width as nat),
{
    let digits: Vec<char> = decimal_chars(n);
    let mut out: Vec<char> = Vec::new();
    let mut i: usize = digits.len();
    while i < width
        invariant
            i >= digits.len(),
            i <= width || i == digits.len(),
            out@.len() == i - digits.len(),
            forall|k: int| 0 <= k < out@.len() ==> out@[k] == '0',
        decreases width - i,
    {
        out.push('0');
        i += 1;
    }
    let mut j: usize = 0;
    let ghost fill = out@;
    while j < digits.len()
        invariant
            j <= digits.len(),
            out@ == fill + digits@.subrange(0, j as int),
        decreases digits.len() - j,
    {
        out.push(digits[j]);
        assert(out@ =~= fill + digits@.subrange(0, j + 1));
        j += 1;
    }
    assert(digits@.subrange(0, digits.len() as int) =~= digits@);
    assert(out@ =~= zero_padded(digits@, width as nat));
    out
}

} // verus!
