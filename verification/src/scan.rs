//! Scanning primitives over a sequence of characters: runs of a character
//! class, separators, and the end of a line.

use vstd::prelude::*;
use crate::text::{spec_is_alphabetic, spec_is_digit, spec_is_filter_arg, spec_is_filter_name,
    spec_is_filter_value, is_alphabetic, is_filter_arg, is_filter_name, is_filter_value, has_at,
    stands_at, to_chars, char_is_whitespace, whitespace};

verus! {

/// The classes of characters that the grammars take runs of.
#[derive(Clone, Copy, Debug, PartialEq, Eq, Structural)]
pub enum CharClass {
    /// A space or a tab.
    Space,
    /// A space, a tab, a carriage return or a line feed.
    Blank,
    /// Anything but a line feed.
    NotNewline,
    /// Anything but a line feed or a carriage return.
    TitleText,
    /// A character of a filter's name.
    FilterName,
    /// A character of the name of a filter's argument.
    FilterArg,
    /// A character of the value of a filter's argument.
    FilterValue,
    /// An ASCII letter or digit, a hyphen or an underscore.
    NameRest,
    /// Unicode white space.
    Whitespace,
}

/// Whether `c` belongs to `class`.
pub open spec fn in_class(c: char, class: CharClass) -> bool {
    match class {
        CharClass::Space => c == ' ' || c == '\t',
        CharClass::Blank => c == ' ' || c == '\t' || c == '\r' || c == '\n',
        CharClass::NotNewline => c != '\n',
        CharClass::TitleText => c != '\n' && c != '\r',
        CharClass::FilterName => spec_is_filter_name(c),
        CharClass::FilterArg => spec_is_filter_arg(c),
        CharClass::FilterValue => spec_is_filter_value(c),
        CharClass::NameRest => spec_is_alphabetic(c) || spec_is_digit(c) || c == '-' || c == '_',
        CharClass::Whitespace => char_is_whitespace(c),
    }
}

/// Whether `c` belongs to `class`.
pub fn class_has(c: char, class: CharClass) -> (res: bool)
    ensures
        res == in_class(c, class),
{
    match class {
        CharClass::Space => c == ' ' || c == '\t',
        CharClass::Blank => c == ' ' || c == '\t' || c == '\r' || c == '\n',
        CharClass::NotNewline => c != '\n',
        CharClass::TitleText => c != '\n' && c != '\r',
        CharClass::FilterName => is_filter_name(c),
        CharClass::FilterArg => is_filter_arg(c),
        CharClass::FilterValue => is_filter_value(c),
        CharClass::NameRest => is_alphabetic(c) || (c >= '0' && c <= '9') || c == '-' || c == '_',
        CharClass::Whitespace => whitespace(c),
    }
}

/// The first index from `i` on at which `s` ends or holds a character
/// outside `class`.
pub open spec fn run_end(s: Seq<char>, i: int, class: CharClass) -> int
    decreases s.len() - i,
{
    if 0 <= i < s.len() && in_class(s[i], class) {
        run_end(s, i + 1, class)
    } else {
        i
    }
}

/// A run ends between where it starts and the end of the text.
pub proof fn lemma_run_end(s: Seq<char>, i: int, class: CharClass)
    requires
        0 <= i <= s.len(),
    ensures
        i <= run_end(s, i, class) <= s.len(),
    decreases s.len() - i,
{
    if i < s.len() && in_class(s[i], class) {
        lemma_run_end(s, i + 1, class);
    }
}

/// The index after the run of `class` that starts at `i`.
pub fn skip_run(v: &Vec<char>, i: usize, class: CharClass) -> (res: usize)
    requires
        i <= v.len(),
    ensures
        res == run_end(v@, i as int, class),
        i <= res <= v.len(),
{
    let mut j: usize = i;
    while j < v.len() && class_has(v[j], class)
        invariant
            i <= j <= v.len(),
            run_end(v@, j as int, class) == run_end(v@, i as int, class),
        decreases v.len() - j,
    {
        j += 1;
    }
    j
}

/// Where a separator ends that starts at `i`: spaces and tabs, the
/// character `c`, spaces and tabs; `None` where `c` is not there.
pub open spec fn separator_end(s: Seq<char>, i: int, c: char) -> Option<int> {
    let a = run_end(s, i, CharClass::Space);
    if 0 <= a < s.len() && s[a] == c {
        Some(run_end(s, a + 1, CharClass::Space))
    } else {
        None
    }
}

/// A separator is not empty and ends inside the text.
pub proof fn lemma_separator_end(s: Seq<char>, i: int, c: char)
    requires
        0 <= i <= s.len(),
    ensures
        separator_end(s, i, c) is Some ==> i < separator_end(s, i, c)->0 <= s.len(),
{
    lemma_run_end(s, i, CharClass::Space);
    let a = run_end(s, i, CharClass::Space);
    if a < s.len() {
        lemma_run_end(s, a + 1, CharClass::Space);
    }
}

/// The index after the separator that starts at `i`, if one does.
pub fn skip_separator(v: &Vec<char>, i: usize, c: char) -> (res: Option<usize>)
    requires
        i <= v.len(),
    ensures
        res is Some == separator_end(v@, i as int, c) is Some,
        res is Some ==> res->0 == separator_end(v@, i as int, c)->0 && i < res->0 <= v.len(),
{
    let a = skip_run(v, i, CharClass::Space);
    if a < v.len() && v[a] == c {
        Some(skip_run(v, a + 1, CharClass::Space))
    } else {
        None
    }
}

/// Whether the text `tag` stands in `v` at index `i`.
pub fn tag_at(v: &Vec<char>, i: usize, tag: &str) -> (res: bool)
    ensures
        res == has_at(v@, i as int, tag@),
{
    let t = to_chars(tag);
    stands_at(v, i, &t)
}

/// Whether the characters of `v` are those of `text`.
pub fn text_is(v: &Vec<char>, text: &str) -> (res: bool)
    ensures
        res == (v@ == text@),
{
    let t = to_chars(text);
    if v.len() != t.len() {
        return false;
    }
    let found = stands_at(v, 0, &t);
    proof {
        if v@ == t@ {
            assert(v@.subrange(0, t@.len() as int) =~= v@);
        }
        if found {
            assert(v@.subrange(0, t@.len() as int) =~= v@);
        }
    }
    found
}

/// The first index from `i` on at which `t` stands in `s`, if there is one.
pub open spec fn find_from(s: Seq<char>, i: int, t: Seq<char>) -> Option<int>
    decreases s.len() - i,
{
    if i < 0 || i > s.len() {
        None
    } else if has_at(s, i, t) {
        Some(i)
    } else if i < s.len() {
        find_from(s, i + 1, t)
    } else {
        None
    }
}

/// The first index from `i` on at which `tag` stands in `v`, if there is one.
pub fn find_tag(v: &Vec<char>, i: usize, tag: &str) -> (res: Option<usize>)
    requires
        i <= v.len(),
    ensures
        res is Some == find_from(v@, i as int, tag@) is Some,
        res is Some ==> res->0 == find_from(v@, i as int, tag@)->0 && i <= res->0 && res->0
            + tag@.len() <= v.len(),
{
    let t = to_chars(tag);
    let mut j: usize = i;
    loop
        invariant
            i <= j <= v.len(),
            t@ == tag@,
            find_from(v@, j as int, t@) == find_from(v@, i as int, t@),
        decreases v.len() - j,
    {
        if stands_at(v, j, &t) {
            return Some(j);
        }
        if j >= v.len() {
            return None;
        }
        j += 1;
    }
}


/// The least index from `lo` up to `n` behind which `s` holds only white
/// space up to index `n`.
pub open spec fn trim_end(s: Seq<char>, lo: int, n: int) -> int
    decreases n,
{
    if 0 <= lo < n <= s.len() && char_is_whitespace(s[n - 1]) {
        trim_end(s, lo, n - 1)
    } else {
        n
    }
}

/// Where the text of `s` without its leading white space starts.
pub open spec fn trim_start(s: Seq<char>) -> int {
    run_end(s, 0, CharClass::Whitespace)
}

/// `s` without the white space at its two ends.
pub open spec fn trimmed(s: Seq<char>) -> Seq<char> {
    s.subrange(trim_start(s), trim_end(s, trim_start(s), s.len() as int))
}

/// The bounds of `v` without the white space at its two ends.
pub fn trim_bounds(v: &Vec<char>) -> (res: (usize, usize))
    ensures
        res.0 == trim_start(v@),
        res.1 == trim_end(v@, trim_start(v@), v.len() as int),
        res.0 <= res.1 <= v.len(),
{
    let a = skip_run(v, 0, CharClass::Whitespace);
    let mut b: usize = v.len();
    while b > a && whitespace(v[b - 1])
        invariant
            a <= b <= v.len(),
            trim_end(v@, a as int, b as int) == trim_end(v@, a as int, v.len() as int),
        decreases b,
    {
        b -= 1;
    }
    (a, b)
}


/// The index after `t` where `t` stands in `s` at index `i`.
pub open spec fn tag_end(s: Seq<char>, i: int, t: Seq<char>) -> Option<int> {
    if has_at(s, i, t) {
        Some(i + t.len())
    } else {
        None
    }
}

/// The index after `tag` where it stands in `v` at index `i`.
pub fn skip_tag(v: &Vec<char>, i: usize, tag: &str) -> (res: Option<usize>)
    requires
        i <= v.len(),
    ensures
        res is Some == tag_end(v@, i as int, tag@) is Some,
        res is Some ==> res->0 == tag_end(v@, i as int, tag@)->0 && i <= res->0 <= v.len(),
{
    let t = to_chars(tag);
    if stands_at(v, i, &t) {
        Some(i + t.len())
    } else {
        None
    }
}

/// The text of `v` without the white space at its two ends.
pub fn trimmed_text(v: &Vec<char>) -> (res: String)
    ensures
        res@ == trimmed(v@),
{
    let (a, b) = trim_bounds(v);
    crate::text::to_text(v, a, b)
}

/// Where the line that holds index `i` ends, and where the next one starts.
pub open spec fn spec_until_eol(s: Seq<char>, i: int) -> (int, int) {
    let end = run_end(s, i, CharClass::NotNewline);
    if end < s.len() {
        (end, end + 1)
    } else {
        (end, end)
    }
}

/// Reads to the end of the line.
pub fn until_eol_at(v: &Vec<char>, i: usize) -> (res: (usize, usize))
    requires
        i <= v.len(),
    ensures
        res.0 == spec_until_eol(v@, i as int).0,
        res.1 == spec_until_eol(v@, i as int).1,
        i <= res.0 <= res.1 <= v.len(),
{
    let end = skip_run(v, i, CharClass::NotNewline);
    if end < v.len() {
        (end, end + 1)
    } else {
        (end, end)
    }
}

/// Where the variable name that starts at `i` ends: an ASCII letter, then
/// ASCII letters, digits, hyphens and underscores.
pub open spec fn spec_variable_name(s: Seq<char>, i: int) -> Option<int> {
    if 0 <= i < s.len() && spec_is_alphabetic(s[i]) {
        Some(run_end(s, i + 1, CharClass::NameRest))
    } else {
        None
    }
}

/// Reads a variable name.
pub fn variable_name_at(v: &Vec<char>, i: usize) -> (res: Option<usize>)
    requires
        i <= v.len(),
    ensures
        res is Some == spec_variable_name(v@, i as int) is Some,
        res is Some ==> i < res->0 <= v.len() && res->0 == spec_variable_name(v@, i as int)->0,
{
    if i < v.len() && is_alphabetic(v[i]) {
        Some(skip_run(v, i + 1, CharClass::NameRest))
    } else {
        None
    }
}

/// Where the variable that starts at `i` ends: the sigil `£` and a name.
pub open spec fn spec_variable(s: Seq<char>, i: int) -> Option<int> {
    if 0 <= i < s.len() && s[i] == '£' {
        spec_variable_name(s, i + 1)
    } else {
        None
    }
}

/// Reads a variable.
pub fn variable_at(v: &Vec<char>, i: usize) -> (res: Option<usize>)
    requires
        i <= v.len(),
    ensures
        res is Some == spec_variable(v@, i as int) is Some,
        res is Some ==> i + 1 < res->0 <= v.len() && res->0 == spec_variable(v@, i as int)->0,
{
    if i < v.len() && v[i] == '£' {
        variable_name_at(v, i + 1)
    } else {
        None
    }
}

} // verus!
