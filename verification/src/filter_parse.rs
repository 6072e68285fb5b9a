//! The grammar of a placeholder's filter chain: filter names, their
//! arguments, and the filters that they denote.

use vstd::prelude::*;
use vstd::string::*;
use crate::filter::{Filter, FilterView, TextCase, filter_views};
use crate::scan::{CharClass, run_end, lemma_run_end, skip_run, separator_end, lemma_separator_end,
    skip_separator, text_is, trimmed, trim_bounds};
use crate::span::{Span, SyntaxError};
use crate::text::{spec_is_digit, text_lowercase, lowercase_text, to_chars, to_text, slice, text_of};

verus! {

/// One argument of a filter: its name and its value. A value without a name
/// has the name `_`.
pub type ArgView = (Seq<char>, Seq<char>);

/// The contents of a list of arguments.
pub open spec fn arg_views(args: Seq<(Vec<char>, Vec<char>)>) -> Seq<ArgView> {
    Seq::new(args.len(), |i: int| (args[i].0@, args[i].1@))
}

/// The texts of a list of arguments.
pub open spec fn arg_texts(args: Seq<(String, String)>) -> Seq<ArgView> {
    Seq::new(args.len(), |i: int| (args[i].0@, args[i].1@))
}

/// The number that the first `n` characters of `s` spell in decimal.
pub open spec fn decimal(s: Seq<char>, n: int) -> nat
    decreases n,
{
    if n <= 0 {
        0
    } else {
        decimal(s, n - 1) * 10 + (s[n - 1] as nat - '0' as nat) as nat
    }
}

/// Whether the first `n` characters of `s` are ASCII digits.
pub open spec fn all_digits(s: Seq<char>, n: int) -> bool {
    forall|k: int| 0 <= k < n ==> spec_is_digit(#[trigger] s[k])
}

/// The number below 256 that `s` spells: an optional `+`, then one or more
/// ASCII digits; `None` for any other text and for a larger number.
pub open spec fn spec_parse_u8(s: Seq<char>) -> Option<u8> {
    let d = if s.len() > 0 && s[0] == '+' {
        s.skip(1)
    } else {
        s
    };
    if d.len() > 0 && all_digits(d, d.len() as int) && decimal(d, d.len() as int) <= 255 {
        Some(decimal(d, d.len() as int) as u8)
    } else {
        None
    }
}

/// A longer prefix of digits spells no smaller number.
pub proof fn lemma_decimal_grows(s: Seq<char>, a: int, b: int)
    requires
        0 <= a <= b,
    ensures
        decimal(s, a) <= decimal(s, b),
    decreases b - a,
{
    if a < b {
        lemma_decimal_grows(s, a, b - 1);
    }
}

/// Reads a number below 256.
pub fn parse_u8(v: &Vec<char>) -> (res: Option<u8>)
    ensures
        res == spec_parse_u8(v@),
{
    let start: usize = if v.len() > 0 && v[0] == '+' {
        1
    } else {
        0
    };
    let ghost d = if v@.len() > 0 && v@[0] == '+' {
        v@.skip(1)
    } else {
        v@
    };
    if v.len() == start {
        return None;
    }
    let mut value: u32 = 0;
    let mut k: usize = start;
    while k < v.len()
        invariant
            start <= k <= v.len(),
            d == (if v@.len() > 0 && v@[0] == '+' {
                v@.skip(1)
            } else {
                v@
            }),
            start == (if v@.len() > 0 && v@[0] == '+' {
                1int
            } else {
                0int
            }),
            d.len() == v.len() - start,
            all_digits(d, k - start),
            value == decimal(d, k - start),
            value <= 255,
        decreases v.len() - k,
    {
        let c = v[k];
        assert(d[k - start] == c);
        if !(c >= '0' && c <= '9') {
            assert(!spec_is_digit(d[k - start]));
            return None;
        }
        let digit: u32 = (c as u32) - ('0' as u32);
        value = value * 10 + digit;
        if value > 255 {
            proof {
                lemma_decimal_grows(d, k - start + 1, d.len() as int);
            }
            return None;
        }
        k += 1;
    }
    Some(value as u8)
}

/// The case that a name denotes.
pub open spec fn spec_text_case_name(s: Seq<char>) -> Option<TextCase> {
    if s == "lower"@ || s == "lowercase"@ {
        Some(TextCase::Lower)
    } else if s == "upper"@ || s == "uppercase"@ {
        Some(TextCase::Upper)
    } else if s == "title"@ {
        Some(TextCase::Title)
    } else if s == "kebab"@ || s == "kebab-case"@ {
        Some(TextCase::Kebab)
    } else if s == "snake"@ || s == "snake_case"@ {
        Some(TextCase::Snake)
    } else if s == "pascal"@ || s == "PascalCase"@ {
        Some(TextCase::Pascal)
    } else if s == "camel"@ || s == "camelCase"@ {
        Some(TextCase::Camel)
    } else if s == "invert"@ || s == "inverse"@ {
        Some(TextCase::Invert)
    } else {
        None
    }
}

impl TextCase {
    /// The case that `name` denotes, if it denotes one.
    pub fn from_name(name: &Vec<char>) -> (res: Option<TextCase>)
        ensures
            res == spec_text_case_name(name@),
    {
        if text_is(name, "lower") || text_is(name, "lowercase") {
            Some(TextCase::Lower)
        } else if text_is(name, "upper") || text_is(name, "uppercase") {
            Some(TextCase::Upper)
        } else if text_is(name, "title") {
            Some(TextCase::Title)
        } else if text_is(name, "kebab") || text_is(name, "kebab-case") {
            Some(TextCase::Kebab)
        } else if text_is(name, "snake") || text_is(name, "snake_case") {
            Some(TextCase::Snake)
        } else if text_is(name, "pascal") || text_is(name, "PascalCase") {
            Some(TextCase::Pascal)
        } else if text_is(name, "camel") || text_is(name, "camelCase") {
            Some(TextCase::Camel)
        } else if text_is(name, "invert") || text_is(name, "inverse") {
            Some(TextCase::Invert)
        } else {
            None
        }
    }
}

impl TextCase {
    /// The case that `name` denotes, or a message that says that it denotes
    /// none.
    pub fn parse(name: &str) -> (res: Result<TextCase, String>)
        ensures
            match spec_text_case_name(name@) {
                Some(case) => res == Ok::<TextCase, String>(case),
                None => res is Err && res->Err_0@ == "Unable to parse TextCase from '"@ + name@
                    + "'"@,
            },
    {
        match TextCase::from_name(&to_chars(name)) {
            Some(case) => Ok(case),
            None => Err(String::from_str("Unable to parse TextCase from '").concat(name).concat("'")),
        }
    }
}

impl core::str::FromStr for TextCase {
    type Err = String;

    /// The case that `s` denotes, or a message that says that it denotes
    /// none; see [`TextCase::parse`].
    fn from_str(s: &str) -> (res: Result<TextCase, String>)
        ensures
            match spec_text_case_name(s@) {
                Some(case) => res == Ok::<TextCase, String>(case),
                None => res is Err && res->Err_0@ == "Unable to parse TextCase from '"@ + s@
                    + "'"@,
            },
    {
        TextCase::parse(s)
    }
}

/// The value of the last of the first `n` arguments that is named `key`.
pub open spec fn lookup(args: Seq<ArgView>, key: Seq<char>, n: int) -> Option<Seq<char>>
    decreases n,
{
    if n <= 0 {
        None
    } else if args[n - 1].0 == key {
        Some(args[n - 1].1)
    } else {
        lookup(args, key, n - 1)
    }
}

/// The value of the argument named `key`.
pub open spec fn named(args: Seq<ArgView>, key: Seq<char>) -> Option<Seq<char>> {
    lookup(args, key, args.len() as int)
}

/// The value of the argument named `key`, or else the value without a name.
pub open spec fn named_or_bare(args: Seq<ArgView>, key: Seq<char>) -> Option<Seq<char>> {
    match named(args, key) {
        Some(v) => Some(v),
        None => named(args, "_"@),
    }
}

/// The number that the argument `key`, or the value without a name, spells;
/// `fallback` where there is neither or it spells none.
pub open spec fn number_or(args: Seq<ArgView>, key: Seq<char>, fallback: u8) -> u8 {
    match named_or_bare(args, key) {
        Some(v) => match spec_parse_u8(v) {
            Some(n) => n,
            None => fallback,
        },
        None => fallback,
    }
}

/// The value of the argument named `key`, or `fallback`.
pub open spec fn text_or(found: Option<Seq<char>>, fallback: Seq<char>) -> Seq<char> {
    match found {
        Some(v) => v,
        None => fallback,
    }
}

/// The filter that `name` denotes with the arguments `args`; `None` where
/// `name`, in lowercase and trimmed, is no filter's name.
pub open spec fn spec_build_filter(name: Seq<char>, args: Seq<ArgView>) -> Option<FilterView> {
    let key = trimmed(text_lowercase(name));
    if key == "ceil"@ {
        Some(FilterView::Ceil)
    } else if key == "floor"@ {
        Some(FilterView::Floor)
    } else if key == "round"@ {
        Some(FilterView::Round { precision: number_or(args, "precision"@, 0) })
    } else if key == "lowercase"@ {
        Some(FilterView::Text { case: TextCase::Lower })
    } else if key == "uppercase"@ {
        Some(FilterView::Text { case: TextCase::Upper })
    } else if key == "markdown"@ {
        Some(FilterView::Markdown)
    } else if key == "replace"@ {
        Some(
            FilterView::Replace {
                find: text_or(named_or_bare(args, "find"@), Seq::empty()),
                replacement: text_or(named(args, "replacement"@), Seq::empty()),
                limit: match named(args, "limit"@) {
                    Some(v) => spec_parse_u8(v),
                    None => None,
                },
            },
        )
    } else if key == "reverse"@ {
        Some(FilterView::Reverse)
    } else if key == "truncate"@ {
        Some(
            FilterView::Truncate {
                characters: number_or(args, "characters"@, 100),
                trail: text_or(named(args, "trail"@), "..."@),
            },
        )
    } else if key == "text"@ {
        Some(
            FilterView::Text {
                case: match named_or_bare(args, "case"@) {
                    Some(v) => match spec_text_case_name(v) {
                        Some(c) => c,
                        None => TextCase::Lower,
                    },
                    None => TextCase::Lower,
                },
            },
        )
    } else {
        None
    }
}

/// The index of the last argument named `key`.
fn find_arg(args: &Vec<(Vec<char>, Vec<char>)>, key: &str) -> (res: Option<usize>)
    ensures
        res is Some == named(arg_views(args@), key@) is Some,
        res is Some ==> res->0 < args.len() && args@[res->0 as int].1@ == named(
            arg_views(args@),
            key@,
        )->0,
{
    let mut n: usize = args.len();
    while n > 0
        invariant
            n <= args.len(),
            lookup(arg_views(args@), key@, n as int) == named(arg_views(args@), key@),
        decreases n,
    {
        assert(arg_views(args@)[n - 1] == (args@[n - 1].0@, args@[n - 1].1@));
        if text_is(&args[n - 1].0, key) {
            return Some(n - 1);
        }
        n -= 1;
    }
    None
}

/// The index of the last argument named `key`, or else of the last one
/// without a name.
fn find_arg_or_bare(args: &Vec<(Vec<char>, Vec<char>)>, key: &str) -> (res: Option<usize>)
    ensures
        res is Some == named_or_bare(arg_views(args@), key@) is Some,
        res is Some ==> res->0 < args.len() && args@[res->0 as int].1@ == named_or_bare(
            arg_views(args@),
            key@,
        )->0,
{
    match find_arg(args, key) {
        Some(k) => Some(k),
        None => find_arg(args, "_"),
    }
}

/// The number that an argument spells, or `fallback`.
fn number_arg(args: &Vec<(Vec<char>, Vec<char>)>, key: &str, fallback: u8) -> (res: u8)
    ensures
        res == number_or(arg_views(args@), key@, fallback),
{
    match find_arg_or_bare(args, key) {
        Some(k) => match parse_u8(&args[k].1) {
            Some(n) => n,
            None => fallback,
        },
        None => fallback,
    }
}

/// The text of an argument's value, or `fallback`.
fn text_arg(args: &Vec<(Vec<char>, Vec<char>)>, found: Option<usize>, fallback: &str) -> (res:
    String)
    requires
        found is Some ==> found->0 < args.len(),
    ensures
        res@ == (match found {
            Some(k) => args@[k as int].1@,
            None => fallback@,
        }),
{
    match found {
        Some(k) => {
            let value = &args[k].1;
            let res = to_text(value, 0, value.len());
            assert(value@.subrange(0, value.len() as int) =~= value@);
            res
        },
        None => {
            let chars = to_chars(fallback);
            let res = to_text(&chars, 0, chars.len());
            assert(chars@.subrange(0, chars.len() as int) =~= chars@);
            res
        },
    }
}

/// The filter that `name` denotes with the arguments `args`.
pub fn build_filter(name: &Vec<char>, args: &Vec<(Vec<char>, Vec<char>)>) -> (res: Option<Filter>)
    ensures
        res is Some == spec_build_filter(name@, arg_views(args@)) is Some,
        res is Some ==> res->0@ == spec_build_filter(name@, arg_views(args@))->0,
{
    let text = to_text(name, 0, name.len());
    assert(name@.subrange(0, name.len() as int) =~= name@);
    let lowered = to_chars(lowercase_text(text.as_str()).as_str());
    let (a, b) = trim_bounds(&lowered);
    let mut key: Vec<char> = Vec::new();
    crate::text::append(&mut key, &lowered, a, b);
    assert(key@ =~= trimmed(text_lowercase(name@)));
    proof {
        reveal_strlit("");
        assert(""@ =~= Seq::<char>::empty());
    }
    if text_is(&key, "ceil") {
        Some(Filter::Ceil)
    } else if text_is(&key, "floor") {
        Some(Filter::Floor)
    } else if text_is(&key, "round") {
        Some(Filter::Round { precision: number_arg(args, "precision", 0) })
    } else if text_is(&key, "lowercase") {
        Some(Filter::Text { case: TextCase::Lower })
    } else if text_is(&key, "uppercase") {
        Some(Filter::Text { case: TextCase::Upper })
    } else if text_is(&key, "markdown") {
        Some(Filter::Markdown)
    } else if text_is(&key, "replace") {
        let find = text_arg(args, find_arg_or_bare(args, "find"), "");
        let replacement = text_arg(args, find_arg(args, "replacement"), "");
        let limit = match find_arg(args, "limit") {
            Some(k) => parse_u8(&args[k].1),
            None => None,
        };
        Some(Filter::Replace { find, replacement, limit })
    } else if text_is(&key, "reverse") {
        Some(Filter::Reverse)
    } else if text_is(&key, "truncate") {
        let characters = number_arg(args, "characters", 100);
        let trail = text_arg(args, find_arg(args, "trail"), "...");
        Some(Filter::Truncate { characters, trail })
    } else if text_is(&key, "text") {
        let case = match find_arg_or_bare(args, "case") {
            Some(k) => match TextCase::from_name(&args[k].1) {
                Some(c) => c,
                None => TextCase::Lower,
            },
            None => TextCase::Lower,
        };
        Some(Filter::Text { case })
    } else {
        None
    }
}


/// One argument that starts at `i`, and where it ends: a name, a colon
/// between optional spaces, and a value; or a value alone, which gets the
/// name `_`. Either part may be empty.
pub open spec fn spec_key_value(s: Seq<char>, i: int) -> (int, ArgView) {
    let a = run_end(s, i, CharClass::FilterArg);
    match separator_end(s, a, ':') {
        Some(b) => {
            let e = run_end(s, b, CharClass::FilterValue);
            (e, (s.subrange(i, a), s.subrange(b, e)))
        },
        None => {
            let e = run_end(s, i, CharClass::FilterValue);
            (e, ("_"@, s.subrange(i, e)))
        },
    }
}

/// The arguments that follow index `j`, each behind a comma between
/// optional spaces, and where they end.
pub open spec fn spec_args_tail(s: Seq<char>, j: int) -> (int, Seq<ArgView>)
    decreases s.len() - j,
{
    match separator_end(s, j, ',') {
        Some(b) => {
            let kv = spec_key_value(s, b);
            if j < b && b <= kv.0 && kv.0 <= s.len() {
                let t = spec_args_tail(s, kv.0);
                (t.0, seq![kv.1] + t.1)
            } else {
                (j, Seq::empty())
            }
        },
        None => (j, Seq::empty()),
    }
}

/// The list of arguments that starts at `i`, and where it ends.
pub open spec fn spec_args(s: Seq<char>, i: int) -> (int, Seq<ArgView>) {
    let kv = spec_key_value(s, i);
    let t = spec_args_tail(s, kv.0);
    (t.0, seq![kv.1] + t.1)
}

/// The filter that starts at `i`, and where it ends: a name, optionally an
/// equals sign between optional spaces, and a list of arguments.
pub open spec fn spec_filter(s: Seq<char>, i: int) -> Result<(int, FilterView), SyntaxError> {
    let a = run_end(s, i, CharClass::FilterName);
    let b = match separator_end(s, a, '=') {
        Some(b) => b,
        None => a,
    };
    let args = spec_args(s, b);
    match spec_build_filter(s.subrange(i, a), args.1) {
        Some(f) => Ok((args.0, f)),
        None => Err(SyntaxError::UnknownFilter),
    }
}

/// The filters that follow index `j`, each behind a pipe between optional
/// spaces, and where they end.
pub open spec fn spec_filters_tail(s: Seq<char>, j: int) -> Result<
    (int, Seq<FilterView>),
    SyntaxError,
>
    decreases s.len() - j,
{
    match separator_end(s, j, '|') {
        Some(b) => match spec_filter(s, b) {
            Ok(r) => if j < b && b <= r.0 && r.0 <= s.len() {
                match spec_filters_tail(s, r.0) {
                    Ok(t) => Ok((t.0, seq![r.1] + t.1)),
                    Err(e) => Err(e),
                }
            } else {
                Ok((j, Seq::empty()))
            },
            Err(e) => Err(e),
        },
        None => Ok((j, Seq::empty())),
    }
}

/// The chain of one or more filters that starts at `i`, and where it ends.
pub open spec fn spec_filters(s: Seq<char>, i: int) -> Result<(int, Seq<FilterView>), SyntaxError> {
    match separator_end(s, i, '|') {
        Some(_) => spec_filters_tail(s, i),
        None => Err(SyntaxError::NoMatch),
    }
}

/// An argument ends between where it starts and the end of the text.
pub proof fn lemma_key_value_end(s: Seq<char>, i: int)
    requires
        0 <= i <= s.len(),
    ensures
        i <= spec_key_value(s, i).0 <= s.len(),
{
    lemma_run_end(s, i, CharClass::FilterArg);
    let a = run_end(s, i, CharClass::FilterArg);
    lemma_separator_end(s, a, ':');
    match separator_end(s, a, ':') {
        Some(b) => {
            lemma_run_end(s, b, CharClass::FilterValue);
        },
        None => {
            lemma_run_end(s, i, CharClass::FilterValue);
        },
    }
}

/// The arguments behind `j` end between `j` and the end of the text.
pub proof fn lemma_args_tail_end(s: Seq<char>, j: int)
    requires
        0 <= j <= s.len(),
    ensures
        j <= spec_args_tail(s, j).0 <= s.len(),
    decreases s.len() - j,
{
    lemma_separator_end(s, j, ',');
    match separator_end(s, j, ',') {
        Some(b) => {
            lemma_key_value_end(s, b);
            lemma_args_tail_end(s, spec_key_value(s, b).0);
        },
        None => {},
    }
}

/// A filter ends between where it starts and the end of the text.
pub proof fn lemma_filter_end(s: Seq<char>, i: int)
    requires
        0 <= i <= s.len(),
        spec_filter(s, i) is Ok,
    ensures
        i <= spec_filter(s, i)->Ok_0.0 <= s.len(),
{
    lemma_run_end(s, i, CharClass::FilterName);
    let a = run_end(s, i, CharClass::FilterName);
    lemma_separator_end(s, a, '=');
    let b = match separator_end(s, a, '=') {
        Some(b) => b,
        None => a,
    };
    lemma_key_value_end(s, b);
    lemma_args_tail_end(s, spec_key_value(s, b).0);
}

/// The filters behind `j` end between `j` and the end of the text.
pub proof fn lemma_filters_tail_end(s: Seq<char>, j: int)
    requires
        0 <= j <= s.len(),
        spec_filters_tail(s, j) is Ok,
    ensures
        j <= spec_filters_tail(s, j)->Ok_0.0 <= s.len(),
    decreases s.len() - j,
{
    lemma_separator_end(s, j, '|');
    match separator_end(s, j, '|') {
        Some(b) => {
            lemma_filter_end(s, b);
            lemma_filters_tail_end(s, spec_filter(s, b)->Ok_0.0);
        },
        None => {},
    }
}

/// A chain of filters ends behind where it starts, inside the text.
pub proof fn lemma_filters_end(s: Seq<char>, i: int)
    requires
        0 <= i <= s.len(),
        spec_filters(s, i) is Ok,
    ensures
        i < spec_filters(s, i)->Ok_0.0 <= s.len(),
{
    lemma_separator_end(s, i, '|');
    lemma_filters_tail_end(s, i);
    let b = separator_end(s, i, '|')->0;
    lemma_filter_end(s, b);
    lemma_filters_tail_end(s, spec_filter(s, b)->Ok_0.0);
}

/// Reads one argument at `i`.
pub fn key_value_at(v: &Vec<char>, i: usize) -> (res: (usize, (Vec<char>, Vec<char>)))
    requires
        i <= v.len(),
    ensures
        res.0 == spec_key_value(v@, i as int).0,
        (res.1.0@, res.1.1@) == spec_key_value(v@, i as int).1,
        i <= res.0 <= v.len(),
{
    let a = skip_run(v, i, CharClass::FilterArg);
    match skip_separator(v, a, ':') {
        Some(b) => {
            let e = skip_run(v, b, CharClass::FilterValue);
            (e, (slice(v, i, a), slice(v, b, e)))
        },
        None => {
            let e = skip_run(v, i, CharClass::FilterValue);
            (e, (to_chars("_"), slice(v, i, e)))
        },
    }
}

/// Reads a list of arguments at `i`.
pub fn args_at(v: &Vec<char>, i: usize) -> (res: (usize, Vec<(Vec<char>, Vec<char>)>))
    requires
        i <= v.len(),
    ensures
        res.0 == spec_args(v@, i as int).0,
        arg_views(res.1@) == spec_args(v@, i as int).1,
        i <= res.0 <= v.len(),
{
    let (first_end, first) = key_value_at(v, i);
    let mut args: Vec<(Vec<char>, Vec<char>)> = Vec::new();
    args.push(first);
    let mut j: usize = first_end;
    let ghost goal = spec_args(v@, i as int);
    assert(arg_views(args@) =~= seq![spec_key_value(v@, i as int).1]);
    loop
        invariant
            i <= j <= v.len(),
            spec_args_tail(v@, j as int).0 == goal.0,
            arg_views(args@) + spec_args_tail(v@, j as int).1 == goal.1,
        ensures
            j == goal.0,
            arg_views(args@) == goal.1,
        decreases v.len() - j,
    {
        match skip_separator(v, j, ',') {
            Some(b) => {
                let ghost before = arg_views(args@);
                let (e, kv) = key_value_at(v, b);
                args.push(kv);
                assert(arg_views(args@) =~= before + seq![spec_key_value(v@, b as int).1]);
                assert(arg_views(args@) + spec_args_tail(v@, e as int).1 =~= before
                    + spec_args_tail(v@, j as int).1);
                j = e;
            },
            None => {
                assert(arg_views(args@) + spec_args_tail(v@, j as int).1 =~= arg_views(args@));
                break ;
            },
        }
    }
    (j, args)
}

/// Reads a filter at `i`.
pub fn filter_at(v: &Vec<char>, i: usize) -> (res: Result<(usize, Filter), SyntaxError>)
    requires
        i <= v.len(),
    ensures
        match spec_filter(v@, i as int) {
            Ok(r) => res is Ok && res->Ok_0.0 == r.0 && res->Ok_0.1@ == r.1 && i <= r.0
                <= v.len(),
            Err(e) => res is Err && res->Err_0 == e,
        },
{
    let a = skip_run(v, i, CharClass::FilterName);
    let b = match skip_separator(v, a, '=') {
        Some(b) => b,
        None => a,
    };
    let (e, args) = args_at(v, b);
    let name = slice(v, i, a);
    match build_filter(&name, &args) {
        Some(f) => Ok((e, f)),
        None => Err(SyntaxError::UnknownFilter),
    }
}

/// Reads a chain of filters at `i`.
pub fn filters_at(v: &Vec<char>, i: usize) -> (res: Result<(usize, Vec<Filter>), SyntaxError>)
    requires
        i <= v.len(),
    ensures
        match spec_filters(v@, i as int) {
            Ok(r) => res is Ok && res->Ok_0.0 == r.0 && filter_views(res->Ok_0.1@) == r.1 && i
                <= r.0 <= v.len(),
            Err(e) => res is Err && res->Err_0 == e,
        },
{
    if skip_separator(v, i, '|').is_none() {
        return Err(SyntaxError::NoMatch);
    }
    let mut filters: Vec<Filter> = Vec::new();
    let mut j: usize = i;
    let ghost goal = spec_filters_tail(v@, i as int);
    assert(filter_views(filters@) =~= Seq::<FilterView>::empty());
    assert(goal is Ok ==> Seq::<FilterView>::empty() + goal->Ok_0.1 =~= goal->Ok_0.1);
    loop
        invariant
            i <= j <= v.len(),
            goal == spec_filters(v@, i as int),
            match spec_filters_tail(v@, j as int) {
                Ok(t) => goal == Ok::<(int, Seq<FilterView>), SyntaxError>(
                    (t.0, filter_views(filters@) + t.1),
                ),
                Err(e) => goal == Err::<(int, Seq<FilterView>), SyntaxError>(e),
            },
        decreases v.len() - j,
    {
        match skip_separator(v, j, '|') {
            Some(b) => {
                let ghost before = filter_views(filters@);
                match filter_at(v, b) {
                    Ok((e, f)) => {
                        filters.push(f);
                        proof {
                            let r = spec_filter(v@, b as int)->Ok_0;
                            assert(filter_views(filters@) =~= before + seq![r.1]);
                            match spec_filters_tail(v@, e as int) {
                                Ok(t) => {
                                    assert(filter_views(filters@) + t.1 =~= before + (seq![r.1]
                                        + t.1));
                                },
                                Err(_) => {},
                            }
                        }
                        j = e;
                    },
                    Err(e) => {
                        return Err(e);
                    },
                }
            },
            None => {
                assert(filter_views(filters@) + Seq::<FilterView>::empty() =~= filter_views(
                    filters@,
                ));
                return Ok((j, filters));
            },
        }
    }
}

/// Reads one argument of a filter at the start of `input`: `name: value`,
/// or a value alone, which gets the name `_`. Always succeeds; either part
/// may be empty.
pub fn parse_filter_key_value<'a>(input: Span<'a>) -> (res: Result<
    (Span<'a>, (String, String)),
    SyntaxError,
>)
    requires
        input@.wf(),
    ensures
        res is Ok,
        res->Ok_0.0@ == input@.rest(spec_key_value(input@.text, 0).0),
        (res->Ok_0.1.0@, res->Ok_0.1.1@) == spec_key_value(input@.text, 0).1,
{
    let chars = to_chars(input.fragment);
    let (e, kv) = key_value_at(&chars, 0);
    Ok((input.part(&chars, e, chars.len()), (text_of(&kv.0), text_of(&kv.1))))
}

/// Reads a comma-separated list of one or more arguments at the start of
/// `input`. Always succeeds.
pub fn parse_filter_args<'a>(input: Span<'a>) -> (res: Result<
    (Span<'a>, Vec<(String, String)>),
    SyntaxError,
>)
    requires
        input@.wf(),
    ensures
        res is Ok,
        res->Ok_0.0@ == input@.rest(spec_args(input@.text, 0).0),
        arg_texts(res->Ok_0.1@) == spec_args(input@.text, 0).1,
{
    let chars = to_chars(input.fragment);
    let (e, args) = args_at(&chars, 0);
    let mut out: Vec<(String, String)> = Vec::new();
    let mut k: usize = 0;
    while k < args.len()
        invariant
            k <= args.len(),
            out.len() == k,
            forall|j: int| 0 <= j < k ==> out@[j].0@ == args@[j].0@ && out@[j].1@ == args@[j].1@,
        decreases args.len() - k,
    {
        out.push((text_of(&args[k].0), text_of(&args[k].1)));
        k += 1;
    }
    assert(arg_texts(out@) =~= arg_views(args@));
    Ok((input.part(&chars, e, chars.len()), out))
}

/// Reads a filter at the start of `input`: its name, and after an optional
/// equals sign its arguments. A name that no filter has is an error.
pub fn parse_filter<'a>(input: Span<'a>) -> (res: Result<(Span<'a>, Filter), SyntaxError>)
    requires
        input@.wf(),
    ensures
        match spec_filter(input@.text, 0) {
            Ok(r) => res is Ok && res->Ok_0.0@ == input@.rest(r.0) && res->Ok_0.1@ == r.1,
            Err(e) => res is Err && res->Err_0 == e,
        },
{
    let chars = to_chars(input.fragment);
    match filter_at(&chars, 0) {
        Ok((e, f)) => Ok((input.part(&chars, e, chars.len()), f)),
        Err(e) => Err(e),
    }
}

/// Reads a chain of one or more filters at the start of `input`, each
/// behind a pipe. Without a pipe there is no match; a name that no filter
/// has is an error.
pub fn parse_filters<'a>(input: Span<'a>) -> (res: Result<(Span<'a>, Vec<Filter>), SyntaxError>)
    requires
        input@.wf(),
    ensures
        match spec_filters(input@.text, 0) {
            Ok(r) => res is Ok && res->Ok_0.0@ == input@.rest(r.0) && filter_views(res->Ok_0.1@)
                == r.1,
            Err(e) => res is Err && res->Err_0 == e,
        },
{
    let chars = to_chars(input.fragment);
    match filters_at(&chars, 0) {
        Ok((e, fs)) => Ok((input.part(&chars, e, chars.len()), fs)),
        Err(e) => Err(e),
    }
}

} // verus!
