//! Characters and character sequences: classes, UTF-8 widths, line counts,
//! conversions between `str`, `String` and `Vec<char>`, trimming.

use vstd::prelude::*;
use vstd::string::*;
use vstd::utf8::{encode_utf8, encode_scalar, char_is_scalar};

verus! {

/// What `char::is_alphanumeric` answers for `c`.
pub uninterp spec fn char_is_alphanumeric(c: char) -> bool;

/// What `char::is_whitespace` answers for `c`.
pub uninterp spec fn char_is_whitespace(c: char) -> bool;

/// What `char::is_lowercase` answers for `c`.
pub uninterp spec fn char_is_lowercase(c: char) -> bool;

/// The characters that `char::to_uppercase` yields for `c`.
pub uninterp spec fn char_uppercase(c: char) -> Seq<char>;

/// The characters that `char::to_lowercase` yields for `c`.
pub uninterp spec fn char_lowercase(c: char) -> Seq<char>;

/// What `str::to_lowercase` returns for the text `s`.
pub uninterp spec fn text_lowercase(s: Seq<char>) -> Seq<char>;

/// What `str::to_uppercase` returns for the text `s`.
pub uninterp spec fn text_uppercase(s: Seq<char>) -> Seq<char>;

/// Calls `char::is_alphanumeric`; the answer is the Unicode property
/// Alphabetic-or-Numeric, which is only named here.
#[verifier::external_body]
pub(crate) fn alphanumeric(c: char) -> (res: bool)
    ensures
        res == char_is_alphanumeric(c),
{
    c.is_alphanumeric()
}

/// Calls `char::is_whitespace`; the answer is the Unicode property
/// White_Space, which is only named here.
#[verifier::external_body]
pub(crate) fn whitespace(c: char) -> (res: bool)
    ensures
        res == char_is_whitespace(c),
{
    c.is_whitespace()
}

/// Calls `char::is_lowercase`; the answer is the Unicode property Lowercase,
/// which is only named here.
#[verifier::external_body]
pub(crate) fn lowercase_letter(c: char) -> (res: bool)
    ensures
        res == char_is_lowercase(c),
{
    c.is_lowercase()
}

/// Calls `char::to_uppercase` and collects the characters it yields.
#[verifier::external_body]
pub(crate) fn uppercase_of(c: char) -> (res: Vec<char>)
    ensures
        res@ == char_uppercase(c),
{
    c.to_uppercase().collect()
}

/// Calls `char::to_lowercase` and collects the characters it yields.
#[verifier::external_body]
pub(crate) fn lowercase_of(c: char) -> (res: Vec<char>)
    ensures
        res@ == char_lowercase(c),
{
    c.to_lowercase().collect()
}

/// Calls `str::to_lowercase`, the full Unicode lowercase mapping of a text.
#[verifier::external_body]
pub(crate) fn lowercase_text(s: &str) -> (res: String)
    ensures
        res@ == text_lowercase(s@),
{
    s.to_lowercase()
}

/// Calls `str::to_uppercase`, the full Unicode uppercase mapping of a text.
#[verifier::external_body]
pub(crate) fn uppercase_text(s: &str) -> (res: String)
    ensures
        res@ == text_uppercase(s@),
{
    s.to_uppercase()
}

/// Calls `String::push`, which appends one character to the end.
#[verifier::external_body]
pub(crate) fn push_char(s: &mut String, c: char)
    ensures
        final(s)@ == old(s)@.push(c),
{
    s.push(c)
}

/// True exactly for the ASCII letters `a`–`z` and `A`–`Z`.
pub open spec fn spec_is_alphabetic(c: char) -> bool {
    ('a' <= c && c <= 'z') || ('A' <= c && c <= 'Z')
}

/// True exactly for the ASCII digits.
pub open spec fn spec_is_digit(c: char) -> bool {
    '0' <= c && c <= '9'
}

/// Characters allowed in a filter's name: alphanumerics and the underscore.
pub open spec fn spec_is_filter_name(c: char) -> bool {
    char_is_alphanumeric(c) || c == '_'
}

/// Characters allowed in a filter argument's name.
pub open spec fn spec_is_filter_arg(c: char) -> bool {
    char_is_alphanumeric(c) || c == '_'
}

/// Characters allowed in a filter argument's value: anything alphanumeric,
/// and anything else but a space, `|`, `,`, `{` and `}`.
pub open spec fn spec_is_filter_value(c: char) -> bool {
    char_is_alphanumeric(c) || !(c == ' ' || c == '|' || c == ',' || c == '{' || c == '}')
}

/// The separators between words in the text-case filters.
pub open spec fn spec_is_separator(c: char) -> bool {
    c == ' ' || c == ',' || c == '!' || c == '-' || c == '_'
}

/// Whether `input` is an ASCII letter.
pub fn is_alphabetic(input: char) -> (res: bool)
    ensures
        res == spec_is_alphabetic(input),
{
    (input >= 'a' && input <= 'z') || (input >= 'A' && input <= 'Z')
}

/// Whether `input` may stand in a filter's name.
pub fn is_filter_name(input: char) -> (res: bool)
    ensures
        res == spec_is_filter_name(input),
{
    alphanumeric(input) || input == '_'
}

/// Whether `input` may stand in the name of a filter's argument.
pub fn is_filter_arg(input: char) -> (res: bool)
    ensures
        res == spec_is_filter_arg(input),
{
    alphanumeric(input) || input == '_'
}

/// Whether `input` may stand in the value of a filter's argument.
pub fn is_filter_value(input: char) -> (res: bool)
    ensures
        res == spec_is_filter_value(input),
{
    alphanumeric(input) || !(input == ' ' || input == '|' || input == ',' || input == '{' || input
        == '}')
}

/// Whether `c` separates words in the text-case filters.
pub fn is_separator(c: char) -> (res: bool)
    ensures
        res == spec_is_separator(c),
{
    c == ' ' || c == ',' || c == '!' || c == '-' || c == '_'
}

/// The number of bytes that `c` takes in UTF-8.
pub open spec fn utf8_width(c: char) -> nat {
    if (c as u32) < 0x80 {
        1
    } else if (c as u32) < 0x800 {
        2
    } else if (c as u32) < 0x10000 {
        3
    } else {
        4
    }
}

/// The number of bytes that the first `n` characters of `s` take in UTF-8.
pub open spec fn byte_len(s: Seq<char>, n: int) -> nat
    decreases n,
{
    if n <= 0 || n > s.len() {
        0
    } else {
        byte_len(s, n - 1) + utf8_width(s[n - 1])
    }
}

/// The number of line feeds among the first `n` characters of `s`.
pub open spec fn newlines(s: Seq<char>, n: int) -> nat
    decreases n,
{
    if n <= 0 || n > s.len() {
        0
    } else {
        newlines(s, n - 1) + if s[n - 1] == '\n' { 1nat } else { 0nat }
    }
}

/// Byte lengths and line counts grow with the prefix, and a prefix of `n`
/// characters takes between `n` and `4 * n` bytes and holds at most `n` lines.
pub proof fn lemma_prefix_measures(s: Seq<char>, a: int, b: int)
    requires
        0 <= a <= b <= s.len(),
    ensures
        byte_len(s, a) <= byte_len(s, b),
        newlines(s, a) <= newlines(s, b),
        byte_len(s, b) - byte_len(s, a) >= b - a,
        byte_len(s, b) - byte_len(s, a) <= 4 * (b - a),
        newlines(s, b) - newlines(s, a) <= b - a,
    decreases b - a,
{
    if a < b {
        lemma_prefix_measures(s, a, b - 1);
    }
}

/// The measures of a slice are differences of the measures of the whole.
pub proof fn lemma_slice_measures(s: Seq<char>, a: int, b: int, n: int)
    requires
        0 <= a <= b <= s.len(),
        0 <= n <= b - a,
    ensures
        byte_len(s.subrange(a, b), n) == byte_len(s, a + n) - byte_len(s, a),
        newlines(s.subrange(a, b), n) == newlines(s, a + n) - newlines(s, a),
    decreases n,
{
    if n > 0 {
        lemma_slice_measures(s, a, b, n - 1);
    }
}

/// The number of bytes that `c` takes in UTF-8.
pub fn char_width(c: char) -> (res: usize)
    ensures
        res == utf8_width(c),
{
    let code: u32 = c as u32;
    if code < 0x80 {
        1
    } else if code < 0x800 {
        2
    } else if code < 0x10000 {
        3
    } else {
        4
    }
}

/// The characters of `s`, in order.
pub fn to_chars(s: &str) -> (res: Vec<char>)
    ensures
        res@ == s@,
{
    let mut res: Vec<char> = Vec::new();
    for c in it: s.chars()
        invariant
            res@ == it.seq().take(it.index()),
            it.seq() == s@,
    {
        res.push(c);
    }
    res
}

/// The text made of the characters `v[from..to]`.
pub fn to_text(v: &Vec<char>, from: usize, to: usize) -> (res: String)
    requires
        from <= to <= v.len(),
    ensures
        res@ == v@.subrange(from as int, to as int),
{
    let mut res = String::new();
    let mut i: usize = from;
    while i < to
        invariant
            from <= i <= to <= v.len(),
            res@ == v@.subrange(from as int, i as int),
        decreases to - i,
    {
        push_char(&mut res, v[i]);
        i += 1;
    }
    res
}

/// Whether `t` stands in `s` at index `i`.
pub open spec fn has_at(s: Seq<char>, i: int, t: Seq<char>) -> bool {
    0 <= i && i + t.len() <= s.len() && s.subrange(i, i + t.len()) == t
}

/// Appends `src[from..to]` to `out`.
pub fn append(out: &mut Vec<char>, src: &Vec<char>, from: usize, to: usize)
    requires
        from <= to <= src.len(),
    ensures
        final(out)@ == old(out)@ + src@.subrange(from as int, to as int),
{
    let mut k: usize = from;
    assert(out@ =~= old(out)@ + src@.subrange(from as int, k as int));
    while k < to
        invariant
            from <= k <= to <= src.len(),
            out@ == old(out)@ + src@.subrange(from as int, k as int),
        decreases to - k,
    {
        out.push(src[k]);
        assert(out@ =~= old(out)@ + src@.subrange(from as int, k + 1));
        k += 1;
    }
}

/// Whether `t` stands in `v` at index `i`.
pub fn stands_at(v: &Vec<char>, i: usize, t: &Vec<char>) -> (res: bool)
    ensures
        res == has_at(v@, i as int, t@),
{
    if i > v.len() || t.len() > v.len() - i {
        return false;
    }
    let mut k: usize = 0;
    while k < t.len()
        invariant
            k <= t.len(),
            i + t.len() <= v.len(),
            forall|j: int| 0 <= j < k ==> v@[i + j] == t@[j],
        decreases t.len() - k,
    {
        if v[i + k] != t[k] {
            assert(v@.subrange(i as int, i + t.len())[k as int] != t@[k as int]);
            return false;
        }
        k += 1;
    }
    assert(v@.subrange(i as int, i + t.len()) =~= t@);
    true
}


/// The characters `v[from..to]` as a vector of their own.
pub fn slice(v: &Vec<char>, from: usize, to: usize) -> (res: Vec<char>)
    requires
        from <= to <= v.len(),
    ensures
        res@ == v@.subrange(from as int, to as int),
{
    let mut res: Vec<char> = Vec::new();
    append(&mut res, v, from, to);
    assert(res@ =~= v@.subrange(from as int, to as int));
    res
}

/// The text that `v` holds.
pub fn text_of(v: &Vec<char>) -> (res: String)
    ensures
        res@ == v@,
{
    let res = to_text(v, 0, v.len());
    assert(v@.subrange(0, v.len() as int) =~= v@);
    res
}


/// Whether `a` and `b` hold the same characters.
pub fn same_chars(a: &Vec<char>, b: &Vec<char>) -> (res: bool)
    ensures
        res == (a@ == b@),
{
    if a.len() != b.len() {
        return false;
    }
    let found = stands_at(a, 0, b);
    proof {
        assert(a@.subrange(0, b@.len() as int) =~= a@);
    }
    found
}


/// The UTF-8 form of a text has as many bytes as the widths of its
/// characters add up to.
pub proof fn lemma_encoded_len(s: Seq<char>)
    ensures
        encode_utf8(s).len() == byte_len(s, s.len() as int),
    decreases s.len(),
{
    if s.len() > 0 {
        let rest = s.drop_first();
        lemma_encoded_len(rest);
        lemma_slice_measures(s, 1, s.len() as int, s.len() - 1);
        assert(rest =~= s.subrange(1, s.len() as int));
        char_is_scalar(s[0]);
        assert(encode_scalar(s[0] as u32).len() == utf8_width(s[0]));
        assert(byte_len(s, 1) == byte_len(s, 0) + utf8_width(s[0]));
    }
}

/// The number of bytes of `s`, which a `usize` always holds.
pub fn text_bytes(s: &str) -> (res: usize)
    ensures
        res == byte_len(s@, s@.len() as int),
{
    proof {
        lemma_encoded_len(s@);
    }
    s.as_bytes().len()
}

} // verus!
