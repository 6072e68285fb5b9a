//! The metadata block at the head of a Markdown document, and the
//! document's title.

use vstd::prelude::*;
use crate::scan::{CharClass, run_end, skip_run, separator_end, skip_separator, tag_end, skip_tag,
    trimmed, trimmed_text, spec_until_eol, until_eol_at, spec_variable_name, variable_name_at,
    spec_variable, variable_at, find_from, find_tag};
use crate::span::{Span, SyntaxError};
use crate::text::{to_chars, slice};

verus! {

/// One entry of a metadata block.
#[derive(Debug, PartialEq)]
pub struct Meta {
    pub key: String,
    pub value: String,
}

/// The mathematical content of a [`Meta`].
pub struct MetaView {
    pub key: Seq<char>,
    pub value: Seq<char>,
}

impl View for Meta {
    type V = MetaView;

    open spec fn view(&self) -> MetaView {
        MetaView { key: self.key@, value: self.value@ }
    }
}

/// The contents of a list of entries.
pub open spec fn meta_views(metas: Seq<Meta>) -> Seq<MetaView> {
    Seq::new(metas.len(), |i: int| metas[i]@)
}

/// The entry that a key and a value make: both without the white space at
/// their ends.
pub open spec fn spec_meta(key: Seq<char>, value: Seq<char>) -> MetaView {
    MetaView { key: trimmed(key), value: trimmed(value) }
}

impl Meta {
    /// An entry with the given key and value, both trimmed.
    pub fn new(key: &str, value: &str) -> (res: Meta)
        ensures
            res@ == spec_meta(key@, value@),
    {
        let k = to_chars(key);
        let v = to_chars(value);
        Meta { key: trimmed_text(&k), value: trimmed_text(&v) }
    }
}

/// A comment that starts at `i`: `#` or `//`, optional spaces, and the rest
/// of the line. Gives where the comment's text starts and ends, and where
/// the next line starts.
pub open spec fn spec_meta_comment(s: Seq<char>, i: int) -> Option<(int, int, int)> {
    let k = match tag_end(s, i, "#"@) {
        Some(k) => Some(k),
        None => tag_end(s, i, "//"@),
    };
    match k {
        Some(k) => {
            let a = run_end(s, k, CharClass::Space);
            Some((a, spec_until_eol(s, a).0, spec_until_eol(s, a).1))
        },
        None => None,
    }
}

/// A key that starts at `i`: an optional sigil `£` and a variable name.
/// Gives where the name starts and ends.
pub open spec fn spec_meta_key(s: Seq<char>, i: int) -> Option<(int, int)> {
    let k = if 0 <= i < s.len() && s[i] == '£' {
        i + 1
    } else {
        i
    };
    match spec_variable_name(s, k) {
        Some(e) => Some((k, e)),
        None => None,
    }
}

/// An entry that starts at `i`: a key, an equals sign between optional
/// spaces, and a value that runs to the end of the line. Gives the entry and
/// where the next line starts.
pub open spec fn spec_meta_key_value(s: Seq<char>, i: int) -> Option<(int, MetaView)> {
    match spec_meta_key(s, i) {
        Some((k, e)) => match separator_end(s, e, '=') {
            Some(b) => Some(
                (spec_until_eol(s, b).1, spec_meta(s.subrange(k, e), s.subrange(b, spec_until_eol(s, b).0))),
            ),
            None => None,
        },
        None => None,
    }
}

/// A line of a metadata block that starts at `i`: optional spaces, then a
/// comment, which gives no entry, or an entry; then any blank characters.
pub open spec fn spec_meta_line(s: Seq<char>, i: int) -> Option<(int, Option<MetaView>)> {
    let a = run_end(s, i, CharClass::Space);
    match spec_meta_comment(s, a) {
        Some((_, _, n)) => Some((run_end(s, n, CharClass::Blank), None)),
        None => match spec_meta_key_value(s, a) {
            Some((n, m)) => Some((run_end(s, n, CharClass::Blank), Some(m))),
            None => None,
        },
    }
}

/// The lines of a metadata block from `i` on, as many as there are: where
/// they end, how many there are, and the entries among them.
pub open spec fn spec_meta_lines(s: Seq<char>, i: int) -> (int, Seq<MetaView>)
    decreases s.len() - i,
{
    match spec_meta_line(s, i) {
        Some((n, m)) => if i < n <= s.len() {
            let t = spec_meta_lines(s, n);
            match m {
                Some(m) => (t.0, seq![m] + t.1),
                None => t,
            }
        } else {
            (i, Seq::empty())
        },
        None => (i, Seq::empty()),
    }
}

/// A metadata block that starts at `i` and is delimited by `open` and
/// `close`, each between blank characters; after `open` the word `meta` may
/// follow where `word` is set. At least one entry must stand in it.
pub open spec fn spec_meta_block(
    s: Seq<char>,
    i: int,
    open: Seq<char>,
    close: Seq<char>,
    word: bool,
) -> Option<(int, Seq<MetaView>)> {
    let a = run_end(s, i, CharClass::Blank);
    match tag_end(s, a, open) {
        Some(b) => {
            let b2 = if word && tag_end(s, b, "meta"@) is Some {
                tag_end(s, b, "meta"@)->0
            } else {
                b
            };
            let c = run_end(s, b2, CharClass::Blank);
            let lines = spec_meta_lines(s, c);
            let e = run_end(s, lines.0, CharClass::Blank);
            match tag_end(s, e, close) {
                Some(f) => if lines.1.len() > 0 {
                    Some((run_end(s, f, CharClass::Blank), lines.1))
                } else {
                    None
                },
                None => None,
            }
        },
        None => None,
    }
}

/// Whether a metadata block is opened at `i`, behind any blank
/// characters, in one of its three forms.
pub open spec fn opens_meta_block(s: Seq<char>, i: int) -> bool {
    let a = run_end(s, i, CharClass::Blank);
    tag_end(s, a, ":meta"@) is Some || tag_end(s, a, "<?"@) is Some || tag_end(s, a, "<meta>"@)
        is Some
}

/// The metadata block that starts at `i`, in the first of its three forms
/// that is there: `:meta` … `:meta`, `<?` or `<?meta` … `?>`, `<meta>` …
/// `</meta>`. Where no block is opened there is no match; a block that is
/// opened and is there in none of the forms is malformed.
pub open spec fn spec_meta_section(s: Seq<char>, i: int) -> Result<
    (int, Seq<MetaView>),
    SyntaxError,
> {
    match spec_meta_block(s, i, ":meta"@, ":meta"@, false) {
        Some(r) => Ok(r),
        None => match spec_meta_block(s, i, "<?"@, "?>"@, true) {
            Some(r) => Ok(r),
            None => match spec_meta_block(s, i, "<meta>"@, "</meta>"@, false) {
                Some(r) => Ok(r),
                None => if opens_meta_block(s, i) {
                    Err(SyntaxError::MalformedMeta)
                } else {
                    Err(SyntaxError::NoMatch)
                },
            },
        },
    }
}

/// The title that stands at `i` behind any blank characters: a `#`,
/// optional spaces and the rest of the line, or else the content of an
/// `<h1>` element. Gives where what follows the title starts, and where the
/// title's text starts and ends.
pub open spec fn spec_title(s: Seq<char>, i: int) -> Option<(int, int, int)> {
    let k = run_end(s, i, CharClass::Blank);
    match tag_end(s, k, "#"@) {
        Some(h) => {
            let a = run_end(s, h, CharClass::Space);
            let b = run_end(s, a, CharClass::TitleText);
            Some((b, a, b))
        },
        None => match tag_end(s, k, "<h1>"@) {
            Some(a) => match find_from(s, a, "</h1>"@) {
                Some(b) => Some((b + "</h1>"@.len(), a, b)),
                None => None,
            },
            None => None,
        },
    }
}

/// Reads a comment at `i`.
pub fn meta_comment_at(v: &Vec<char>, i: usize) -> (res: Option<(usize, usize, usize)>)
    requires
        i <= v.len(),
    ensures
        res is Some == spec_meta_comment(v@, i as int) is Some,
        res is Some ==> {
            let r = spec_meta_comment(v@, i as int)->0;
            &&& res->Some_0.0 == r.0
            &&& res->Some_0.1 == r.1
            &&& res->Some_0.2 == r.2
            &&& i < res->Some_0.0 <= res->Some_0.1 <= res->Some_0.2 <= v.len()
        },
{
    proof {
        reveal_strlit("#");
        reveal_strlit("//");
    }
    let k = match skip_tag(v, i, "#") {
        Some(k) => Some(k),
        None => skip_tag(v, i, "//"),
    };
    match k {
        Some(k) => {
            let a = skip_run(v, k, CharClass::Space);
            let (end, next) = until_eol_at(v, a);
            Some((a, end, next))
        },
        None => None,
    }
}

/// Reads a key at `i`.
pub fn meta_key_at(v: &Vec<char>, i: usize) -> (res: Option<(usize, usize)>)
    requires
        i <= v.len(),
    ensures
        res is Some == spec_meta_key(v@, i as int) is Some,
        res is Some ==> {
            let r = spec_meta_key(v@, i as int)->0;
            &&& res->Some_0.0 == r.0
            &&& res->Some_0.1 == r.1
            &&& i <= res->Some_0.0 < res->Some_0.1 <= v.len()
        },
{
    let k: usize = if i < v.len() && v[i] == '£' {
        i + 1
    } else {
        i
    };
    match variable_name_at(v, k) {
        Some(e) => Some((k, e)),
        None => None,
    }
}

/// Reads an entry at `i`.
pub fn meta_key_value_at(v: &Vec<char>, i: usize) -> (res: Option<(usize, Meta)>)
    requires
        i <= v.len(),
    ensures
        res is Some == spec_meta_key_value(v@, i as int) is Some,
        res is Some ==> {
            let r = spec_meta_key_value(v@, i as int)->0;
            &&& res->Some_0.0 == r.0
            &&& res->Some_0.1@ == r.1
            &&& i < res->Some_0.0 <= v.len()
        },
{
    match meta_key_at(v, i) {
        Some((k, e)) => match skip_separator(v, e, '=') {
            Some(b) => {
                let (end, next) = until_eol_at(v, b);
                let key = slice(v, k, e);
                let value = slice(v, b, end);
                Some((next, Meta { key: trimmed_text(&key), value: trimmed_text(&value) }))
            },
            None => None,
        },
        None => None,
    }
}

/// Reads a line of a metadata block at `i`.
pub fn meta_line_at(v: &Vec<char>, i: usize) -> (res: Option<(usize, Option<Meta>)>)
    requires
        i <= v.len(),
    ensures
        res is Some == spec_meta_line(v@, i as int) is Some,
        res is Some ==> {
            let r = spec_meta_line(v@, i as int)->0;
            &&& res->Some_0.0 == r.0
            &&& res->Some_0.1 is Some == r.1 is Some
            &&& (res->Some_0.1 is Some ==> res->Some_0.1->0@ == r.1->0)
            &&& i < res->Some_0.0 <= v.len()
        },
{
    let a = skip_run(v, i, CharClass::Space);
    match meta_comment_at(v, a) {
        Some((_, _, n)) => Some((skip_run(v, n, CharClass::Blank), None)),
        None => match meta_key_value_at(v, a) {
            Some((n, m)) => Some((skip_run(v, n, CharClass::Blank), Some(m))),
            None => None,
        },
    }
}

/// Reads the lines of a metadata block from `i` on.
pub fn meta_lines_at(v: &Vec<char>, i: usize) -> (res: (usize, Vec<Meta>))
    requires
        i <= v.len(),
    ensures
        res.0 == spec_meta_lines(v@, i as int).0,
        meta_views(res.1@) == spec_meta_lines(v@, i as int).1,
        i <= res.0 <= v.len(),
{
    let mut metas: Vec<Meta> = Vec::new();
    let mut j: usize = i;
    let ghost goal = spec_meta_lines(v@, i as int);
    assert(meta_views(metas@) + goal.1 =~= goal.1);
    loop
        invariant
            i <= j <= v.len(),
            spec_meta_lines(v@, j as int).0 == goal.0,
            meta_views(metas@) + spec_meta_lines(v@, j as int).1 == goal.1,
        ensures
            j == goal.0,
            meta_views(metas@) == goal.1,
            i <= j <= v.len(),
        decreases v.len() - j,
    {
        match meta_line_at(v, j) {
            Some((n, m)) => {
                let ghost before = meta_views(metas@);
                match m {
                    Some(m) => {
                        let ghost mv = m@;
                        metas.push(m);
                        assert(meta_views(metas@) =~= before + seq![mv]);
                        assert(meta_views(metas@) + spec_meta_lines(v@, n as int).1 =~= before + (
                        seq![mv] + spec_meta_lines(v@, n as int).1));
                    },
                    None => {},
                }
                j = n;
            },
            None => {
                assert(meta_views(metas@) + spec_meta_lines(v@, j as int).1 =~= meta_views(
                    metas@,
                ));
                break ;
            },
        }
    }
    (j, metas)
}

/// Reads a metadata block in one of its forms at `i`.
pub fn meta_block_at(v: &Vec<char>, i: usize, open: &str, close: &str, word: bool) -> (res: Option<
    (usize, Vec<Meta>),
>)
    requires
        i <= v.len(),
    ensures
        res is Some == spec_meta_block(v@, i as int, open@, close@, word) is Some,
        res is Some ==> {
            let r = spec_meta_block(v@, i as int, open@, close@, word)->0;
            &&& res->Some_0.0 == r.0
            &&& meta_views(res->Some_0.1@) == r.1
            &&& i <= res->Some_0.0 <= v.len()
        },
{
    let a = skip_run(v, i, CharClass::Blank);
    match skip_tag(v, a, open) {
        Some(b) => {
            let b2 = if word {
                match skip_tag(v, b, "meta") {
                    Some(w) => w,
                    None => b,
                }
            } else {
                b
            };
            let c = skip_run(v, b2, CharClass::Blank);
            let (d, metas) = meta_lines_at(v, c);
            let e = skip_run(v, d, CharClass::Blank);
            match skip_tag(v, e, close) {
                Some(f) => if metas.len() > 0 {
                    Some((skip_run(v, f, CharClass::Blank), metas))
                } else {
                    None
                },
                None => None,
            }
        },
        None => None,
    }
}

/// Reads a metadata block at `i`.
pub fn meta_section_at(v: &Vec<char>, i: usize) -> (res: Result<(usize, Vec<Meta>), SyntaxError>)
    requires
        i <= v.len(),
    ensures
        match spec_meta_section(v@, i as int) {
            Ok(r) => res is Ok && res->Ok_0.0 == r.0 && meta_views(res->Ok_0.1@) == r.1 && i
                <= r.0 <= v.len(),
            Err(e) => res is Err && res->Err_0 == e,
        },
{
    match meta_block_at(v, i, ":meta", ":meta", false) {
        Some(r) => {
            return Ok(r);
        },
        None => {},
    }
    match meta_block_at(v, i, "<?", "?>", true) {
        Some(r) => {
            return Ok(r);
        },
        None => {},
    }
    match meta_block_at(v, i, "<meta>", "</meta>", false) {
        Some(r) => {
            return Ok(r);
        },
        None => {},
    }
    let a = skip_run(v, i, CharClass::Blank);
    if skip_tag(v, a, ":meta").is_some() || skip_tag(v, a, "<?").is_some() || skip_tag(
        v,
        a,
        "<meta>",
    ).is_some() {
        Err(SyntaxError::MalformedMeta)
    } else {
        Err(SyntaxError::NoMatch)
    }
}

/// Reads a title at `i`.
pub fn title_at(v: &Vec<char>, i: usize) -> (res: Option<(usize, usize, usize)>)
    requires
        i <= v.len(),
    ensures
        res is Some == spec_title(v@, i as int) is Some,
        res is Some ==> {
            let r = spec_title(v@, i as int)->0;
            &&& res->Some_0.0 == r.0
            &&& res->Some_0.1 == r.1
            &&& res->Some_0.2 == r.2
            &&& i <= res->Some_0.1 <= res->Some_0.2 <= res->Some_0.0 <= v.len()
        },
{
    let k = skip_run(v, i, CharClass::Blank);
    match skip_tag(v, k, "#") {
        Some(h) => {
            let a = skip_run(v, h, CharClass::Space);
            let b = skip_run(v, a, CharClass::TitleText);
            Some((b, a, b))
        },
        None => match skip_tag(v, k, "<h1>") {
            Some(a) => match find_tag(v, a, "</h1>") {
                Some(b) => {
                    let close = to_chars("</h1>");
                    Some((b + close.len(), a, b))
                },
                None => None,
            },
            None => None,
        },
    }
}


/// Reads the rest of the line at the start of `input`. Gives what follows
/// the line feed, and the line without it. Always succeeds.
pub fn parse_until_eol<'a>(input: Span<'a>) -> (res: Result<(Span<'a>, Span<'a>), SyntaxError>)
    requires
        input@.wf(),
    ensures
        res is Ok,
        res->Ok_0.0@ == input@.rest(spec_until_eol(input@.text, 0).1),
        res->Ok_0.1@ == input@.part(0, spec_until_eol(input@.text, 0).0),
{
    let chars = to_chars(input.fragment);
    let (end, next) = until_eol_at(&chars, 0);
    Ok((input.part(&chars, next, chars.len()), input.part(&chars, 0, end)))
}

/// Reads a comment at the start of `input`: `#` or `//`, optional spaces,
/// and the rest of the line. Gives what follows the line, and the comment's
/// text.
pub fn parse_meta_comment<'a>(input: Span<'a>) -> (res: Result<(Span<'a>, Span<'a>), SyntaxError>)
    requires
        input@.wf(),
    ensures
        match spec_meta_comment(input@.text, 0) {
            Some(r) => res is Ok && res->Ok_0.0@ == input@.rest(r.2) && res->Ok_0.1@
                == input@.part(r.0, r.1),
            None => res is Err && res->Err_0 == SyntaxError::NoMatch,
        },
{
    let chars = to_chars(input.fragment);
    match meta_comment_at(&chars, 0) {
        Some((a, end, next)) => Ok(
            (input.part(&chars, next, chars.len()), input.part(&chars, a, end)),
        ),
        None => Err(SyntaxError::NoMatch),
    }
}

/// Reads a key at the start of `input`: an optional sigil `£` and a
/// variable name. Gives what follows, and the name without the sigil.
pub fn parse_meta_key<'a>(input: Span<'a>) -> (res: Result<(Span<'a>, Span<'a>), SyntaxError>)
    requires
        input@.wf(),
    ensures
        match spec_meta_key(input@.text, 0) {
            Some(r) => res is Ok && res->Ok_0.0@ == input@.rest(r.1) && res->Ok_0.1@
                == input@.part(r.0, r.1),
            None => res is Err && res->Err_0 == SyntaxError::NoMatch,
        },
{
    let chars = to_chars(input.fragment);
    match meta_key_at(&chars, 0) {
        Some((k, e)) => Ok((input.part(&chars, e, chars.len()), input.part(&chars, k, e))),
        None => Err(SyntaxError::NoMatch),
    }
}

/// Reads a value at the start of `input`: the rest of the line. Always
/// succeeds.
pub fn parse_meta_value<'a>(input: Span<'a>) -> (res: Result<(Span<'a>, Span<'a>), SyntaxError>)
    requires
        input@.wf(),
    ensures
        res is Ok,
        res->Ok_0.0@ == input@.rest(spec_until_eol(input@.text, 0).1),
        res->Ok_0.1@ == input@.part(0, spec_until_eol(input@.text, 0).0),
{
    parse_until_eol(input)
}

/// Reads an entry at the start of `input`: a key, an equals sign, and a
/// value that runs to the end of the line.
pub fn parse_meta_key_value<'a>(input: Span<'a>) -> (res: Result<(Span<'a>, Meta), SyntaxError>)
    requires
        input@.wf(),
    ensures
        match spec_meta_key_value(input@.text, 0) {
            Some(r) => res is Ok && res->Ok_0.0@ == input@.rest(r.0) && res->Ok_0.1@ == r.1,
            None => res is Err && res->Err_0 == SyntaxError::NoMatch,
        },
{
    let chars = to_chars(input.fragment);
    match meta_key_value_at(&chars, 0) {
        Some((next, meta)) => Ok((input.part(&chars, next, chars.len()), meta)),
        None => Err(SyntaxError::NoMatch),
    }
}

/// Reads a line of a metadata block at the start of `input`: a comment,
/// which gives `None`, or an entry; the blank characters behind it are
/// consumed too.
pub fn parse_meta_line<'a>(input: Span<'a>) -> (res: Result<
    (Span<'a>, Option<Meta>),
    SyntaxError,
>)
    requires
        input@.wf(),
    ensures
        match spec_meta_line(input@.text, 0) {
            Some(r) => {
                &&& res is Ok
                &&& res->Ok_0.0@ == input@.rest(r.0)
                &&& res->Ok_0.1 is Some == r.1 is Some
                &&& (r.1 is Some ==> res->Ok_0.1->Some_0@ == r.1->Some_0)
            },
            None => res is Err && res->Err_0 == SyntaxError::NoMatch,
        },
{
    let chars = to_chars(input.fragment);
    match meta_line_at(&chars, 0) {
        Some((next, meta)) => Ok((input.part(&chars, next, chars.len()), meta)),
        None => Err(SyntaxError::NoMatch),
    }
}

/// Reads the metadata block at the start of `input`. Gives what follows the
/// block, and its entries in order. Where no block is opened here, there is
/// no match. A block that is opened is malformed where its delimiters do
/// not belong to one form, where something in it is neither a comment nor
/// an entry, and where it holds no entry.
pub fn parse_meta_section<'a>(input: Span<'a>) -> (res: Result<(Span<'a>, Vec<Meta>), SyntaxError>)
    requires
        input@.wf(),
    ensures
        match spec_meta_section(input@.text, 0) {
            Ok(r) => res is Ok && res->Ok_0.0@ == input@.rest(r.0) && meta_views(res->Ok_0.1@)
                == r.1,
            Err(e) => res is Err && res->Err_0 == e,
        },
{
    let chars = to_chars(input.fragment);
    match meta_section_at(&chars, 0) {
        Ok((next, metas)) => Ok((input.part(&chars, next, chars.len()), metas)),
        Err(e) => Err(e),
    }
}

/// Reads the title at the start of `input`, behind any blank characters: a
/// Markdown heading of the first level, or else an `<h1>` element. Gives
/// what follows the title, and the title's text.
pub fn parse_title<'a>(input: Span<'a>) -> (res: Result<(Span<'a>, Span<'a>), SyntaxError>)
    requires
        input@.wf(),
    ensures
        match spec_title(input@.text, 0) {
            Some(r) => res is Ok && res->Ok_0.0@ == input@.rest(r.0) && res->Ok_0.1@
                == input@.part(r.1, r.2),
            None => res is Err && res->Err_0 == SyntaxError::NoMatch,
        },
{
    let chars = to_chars(input.fragment);
    match title_at(&chars, 0) {
        Some((next, a, b)) => Ok((input.part(&chars, next, chars.len()), input.part(&chars, a, b))),
        None => Err(SyntaxError::NoMatch),
    }
}

/// Reads a variable name at the start of `input`: an ASCII letter, then
/// ASCII letters, digits, hyphens and underscores.
pub fn parse_variable_name<'a>(input: Span<'a>) -> (res: Result<
    (Span<'a>, Span<'a>),
    SyntaxError,
>)
    requires
        input@.wf(),
    ensures
        match spec_variable_name(input@.text, 0) {
            Some(e) => res is Ok && res->Ok_0.0@ == input@.rest(e) && res->Ok_0.1@ == input@.part(
                0,
                e,
            ),
            None => res is Err && res->Err_0 == SyntaxError::NoMatch,
        },
{
    let chars = to_chars(input.fragment);
    match variable_name_at(&chars, 0) {
        Some(e) => Ok((input.part(&chars, e, chars.len()), input.part(&chars, 0, e))),
        None => Err(SyntaxError::NoMatch),
    }
}

/// Reads a variable at the start of `input`: the sigil `£` and a variable
/// name. Gives what follows, and the name without the sigil.
pub fn parse_variable<'a>(input: Span<'a>) -> (res: Result<(Span<'a>, Span<'a>), SyntaxError>)
    requires
        input@.wf(),
    ensures
        match spec_variable(input@.text, 0) {
            Some(e) => res is Ok && res->Ok_0.0@ == input@.rest(e) && res->Ok_0.1@ == input@.part(
                1,
                e,
            ),
            None => res is Err && res->Err_0 == SyntaxError::NoMatch,
        },
{
    let chars = to_chars(input.fragment);
    match variable_at(&chars, 0) {
        Some(e) => Ok((input.part(&chars, e, chars.len()), input.part(&chars, 1, e))),
        None => Err(SyntaxError::NoMatch),
    }
}

} // verus!
