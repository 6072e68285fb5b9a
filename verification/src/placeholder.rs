//! Placeholders: the `{{ £name | filters }}` tokens of a template, and the
//! scan that finds them.

use vstd::prelude::*;
use crate::filter::{Filter, FilterView, filter_views};
use crate::filter_parse::{spec_filters, filters_at};
use crate::scan::{CharClass, run_end, skip_run, tag_end, skip_tag, spec_variable, variable_at,
    lemma_run_end};
use crate::span::{Marker, Selection, Span, SpanView, SyntaxError, capped_line};
use crate::text::{byte_len, newlines, has_at, to_chars, to_text, lemma_prefix_measures};

verus! {

/// A place in a template at which a variable's value is to stand.
#[derive(Clone, Debug, Default, PartialEq)]
pub struct Placeholder {
    pub name: String,
    pub selection: Selection,
    pub filters: Vec<Filter>,
}

/// The mathematical content of a [`Placeholder`].
pub struct PlaceholderView {
    pub name: Seq<char>,
    pub selection: Selection,
    pub filters: Seq<FilterView>,
}

impl View for Placeholder {
    type V = PlaceholderView;

    open spec fn view(&self) -> PlaceholderView {
        PlaceholderView {
            name: self.name@,
            selection: self.selection,
            filters: filter_views(self.filters@),
        }
    }
}

/// The contents of a list of placeholders.
pub open spec fn placeholder_views(ps: Seq<Placeholder>) -> Seq<PlaceholderView> {
    Seq::new(ps.len(), |i: int| ps[i]@)
}

/// A placeholder as the scan finds it in a text: the indices at which it
/// starts, at which its closing braces start and behind which it ends, its
/// name and its filters.
pub struct Found {
    pub start: int,
    pub close: int,
    pub end: int,
    pub name: Seq<char>,
    pub filters: Seq<FilterView>,
}

/// `c`, in lowercase if it is an ASCII capital.
pub open spec fn ascii_lowercase(c: char) -> char {
    if 'A' <= c && c <= 'Z' {
        ((c as u8) + 32) as char
    } else {
        c
    }
}

/// Whether `name` is `content`, whatever the case of its letters.
pub open spec fn is_content(name: Seq<char>) -> bool {
    name.map_values(|c: char| ascii_lowercase(c)) == "content"@
}

/// Whether the Markdown filter is among `filters`.
pub open spec fn has_markdown(filters: Seq<FilterView>) -> bool {
    exists|k: int| 0 <= k < filters.len() && filters[k] is Markdown
}

/// The filters of a placeholder named `name` that asks for `filters`: the
/// content is always rendered as Markdown.
pub open spec fn with_markdown(name: Seq<char>, filters: Seq<FilterView>) -> Seq<FilterView> {
    if is_content(name) && !has_markdown(filters) {
        filters.push(FilterView::Markdown)
    } else {
        filters
    }
}

/// The placeholder that starts at `i`: `{{`, blank characters, a variable,
/// optionally a chain of filters, blank characters, `}}`.
pub open spec fn spec_placeholder(s: Seq<char>, i: int) -> Result<Found, SyntaxError> {
    match tag_end(s, i, "{{"@) {
        Some(a) => {
            let b = run_end(s, a, CharClass::Blank);
            match spec_variable(s, b) {
                Some(c) => match spec_filters(s, c) {
                    Err(SyntaxError::UnknownFilter) => Err(SyntaxError::UnknownFilter),
                    chain => {
                        let d = if chain is Ok {
                            chain->Ok_0.0
                        } else {
                            c
                        };
                        let filters = if chain is Ok {
                            chain->Ok_0.1
                        } else {
                            Seq::empty()
                        };
                        let e = run_end(s, d, CharClass::Blank);
                        match tag_end(s, e, "}}"@) {
                            Some(f) => Ok(
                                Found {
                                    start: i,
                                    close: e,
                                    end: f,
                                    name: s.subrange(b + 1, c),
                                    filters: with_markdown(s.subrange(b + 1, c), filters),
                                },
                            ),
                            None => Err(SyntaxError::NoMatch),
                        }
                    },
                },
                None => Err(SyntaxError::NoMatch),
            }
        },
        None => Err(SyntaxError::NoMatch),
    }
}

/// The first placeholder that starts at `i` or later.
pub open spec fn spec_next_placeholder(s: Seq<char>, i: int) -> Result<Found, SyntaxError>
    decreases s.len() - i,
{
    match spec_placeholder(s, i) {
        Ok(f) => Ok(f),
        Err(SyntaxError::UnknownFilter) => Err(SyntaxError::UnknownFilter),
        Err(_) => if 0 <= i < s.len() {
            spec_next_placeholder(s, i + 1)
        } else {
            Err(SyntaxError::NoMatch)
        },
    }
}

/// `f` before the outcome `rest` of the scan behind it.
pub open spec fn found_then(f: Found, rest: Result<Seq<Found>, SyntaxError>) -> Result<
    Seq<Found>,
    SyntaxError,
> {
    match rest {
        Ok(t) => Ok(seq![f] + t),
        Err(e) => Err(e),
    }
}

/// All placeholders from `i` on, from left to right: where one starts, it
/// is taken and the scan goes on behind it; elsewhere the scan moves on by
/// one character. A filter that does not exist ends the scan with an error.
pub open spec fn spec_scan(s: Seq<char>, i: int) -> Result<Seq<Found>, SyntaxError>
    decreases s.len() - i,
{
    if i < 0 || i > s.len() {
        Ok(Seq::empty())
    } else {
        match spec_placeholder(s, i) {
            Ok(f) => if i < f.end <= s.len() {
                found_then(f, spec_scan(s, f.end))
            } else {
                Ok(Seq::empty())
            },
            Err(SyntaxError::UnknownFilter) => Err(SyntaxError::UnknownFilter),
            Err(_) => if i < s.len() {
                spec_scan(s, i + 1)
            } else {
                Ok(Seq::empty())
            },
        }
    }
}

/// The bytes that a placeholder found in the text of `input` selects: from
/// its opening braces to behind its closing braces, each marker with the
/// line on which its braces start.
pub open spec fn selection_of(input: SpanView, f: Found) -> Selection {
    Selection {
        start: Marker {
            line: capped_line(input.line + newlines(input.text, f.start)) as u32,
            offset: (input.offset + byte_len(input.text, f.start)) as usize,
        },
        end: Marker {
            line: capped_line(input.line + newlines(input.text, f.close)) as u32,
            offset: (input.offset + byte_len(input.text, f.end)) as usize,
        },
    }
}

impl PlaceholderView {
    /// The content is rendered as Markdown, and the selection does not end
    /// before it starts.
    pub open spec fn wf(self) -> bool {
        &&& is_content(self.name) ==> has_markdown(self.filters)
        &&& self.selection.wf()
    }
}

/// The placeholder that `f` stands for in the text of `input`.
pub open spec fn located(input: SpanView, f: Found) -> PlaceholderView {
    PlaceholderView { name: f.name, selection: selection_of(input, f), filters: f.filters }
}

/// A placeholder that was found starts with `{{`, ends with `}}`, and holds
/// a variable in between.
pub proof fn lemma_placeholder_shape(s: Seq<char>, i: int)
    requires
        0 <= i <= s.len(),
        spec_placeholder(s, i) is Ok,
    ensures
        ({
            let f = spec_placeholder(s, i)->Ok_0;
            &&& f.start == i
            &&& has_at(s, f.start, "{{"@)
            &&& has_at(s, f.close, "}}"@)
            &&& f.start + 2 < f.close
            &&& f.end == f.close + 2
            &&& f.end <= s.len()
        }),
{
    reveal_strlit("{{");
    reveal_strlit("}}");
    let a = tag_end(s, i, "{{"@)->0;
    lemma_run_end(s, a, CharClass::Blank);
    let b = run_end(s, a, CharClass::Blank);
    let c = spec_variable(s, b)->0;
    lemma_run_end(s, b + 1, CharClass::NameRest);
    let chain = spec_filters(s, c);
    if chain is Ok {
        crate::filter_parse::lemma_filters_end(s, c);
    }
    let d = if chain is Ok {
        chain->Ok_0.0
    } else {
        c
    };
    lemma_run_end(s, d, CharClass::Blank);
}


/// A placeholder that was found is well-formed: if it is named `content`
/// it has the Markdown filter, and its selection does not end before it
/// starts.
pub proof fn lemma_located_wf(input: SpanView, i: int)
    requires
        input.wf(),
        0 <= i <= input.text.len(),
        spec_placeholder(input.text, i) is Ok,
    ensures
        located(input, spec_placeholder(input.text, i)->Ok_0).wf(),
{
    let s = input.text;
    let f = spec_placeholder(s, i)->Ok_0;
    lemma_placeholder_shape(s, i);
    lemma_prefix_measures(s, f.start, f.end);
    lemma_prefix_measures(s, f.end, s.len() as int);
    if is_content(f.name) {
        let b = run_end(s, tag_end(s, i, "{{"@)->0, CharClass::Blank);
        let c = spec_variable(s, b)->0;
        let chain = spec_filters(s, c);
        let asked = if chain is Ok {
            chain->Ok_0.1
        } else {
            Seq::empty()
        };
        assert(f.filters == with_markdown(f.name, asked));
        if !has_markdown(asked) {
            assert(f.filters[asked.len() as int] is Markdown);
        }
    }
}

/// What the scan found is well delimited: `{{` where it starts, `}}` where
/// it closes, a variable in between, and its end inside the text.
pub open spec fn well_delimited(s: Seq<char>, f: Found) -> bool {
    &&& 0 <= f.start
    &&& has_at(s, f.start, "{{"@)
    &&& has_at(s, f.close, "}}"@)
    &&& f.start + 2 < f.close
    &&& f.end == f.close + 2
    &&& f.end <= s.len()
    &&& spec_placeholder(s, f.start) is Ok
    &&& spec_placeholder(s, f.start)->Ok_0 == f
}

/// Whether a placeholder that starts at `j` is one of `fs` or starts inside
/// one of them.
pub open spec fn accounted(fs: Seq<Found>, j: int) -> bool {
    exists|k: int| 0 <= k < fs.len() && (#[trigger] fs[k]).start <= j < fs[k].end
}

/// The scan counts every pair of delimiters once: each placeholder that it
/// returns is delimited by its own `{{` and `}}`, no two of them overlap,
/// they come in the order of the text, and every placeholder of the text
/// from `i` on is one of them or starts inside one of them.
pub proof fn lemma_scan_counts(s: Seq<char>, i: int)
    requires
        0 <= i <= s.len(),
        spec_scan(s, i) is Ok,
    ensures
        ({
            let fs = spec_scan(s, i)->Ok_0;
            &&& forall|k: int| 0 <= k < fs.len() ==> i <= (#[trigger] fs[k]).start && well_delimited(s, fs[k])
            &&& forall|k: int| 0 <= k < fs.len() - 1 ==> (#[trigger] fs[k]).end <= fs[k + 1].start
            &&& forall|j: int| i <= j <= s.len() && spec_placeholder(s, j) is Ok ==> accounted(fs, j)
        }),
    decreases s.len() - i,
{
    let fs = spec_scan(s, i)->Ok_0;
    match spec_placeholder(s, i) {
        Ok(f) => {
            lemma_placeholder_shape(s, i);
            lemma_scan_counts(s, f.end);
            let t = spec_scan(s, f.end)->Ok_0;
            assert(fs =~= seq![f] + t);
            assert forall|k: int| 0 <= k < fs.len() implies i <= (#[trigger] fs[k]).start
                && well_delimited(s, fs[k]) by {
                if k > 0 {
                    assert(fs[k] == t[k - 1]);
                }
            }
            assert forall|k: int| 0 <= k < fs.len() - 1 implies (#[trigger] fs[k]).end <= fs[k
                + 1].start by {
                assert(fs[k + 1] == t[k]);
                if k > 0 {
                    assert(fs[k] == t[k - 1]);
                }
            }
            assert forall|j: int| i <= j <= s.len() && spec_placeholder(s, j) is Ok implies accounted(
                fs,
                j,
            ) by {
                if j < f.end {
                    assert(fs[0].start <= j < fs[0].end);
                } else {
                    assert(accounted(t, j));
                    let k = choose|k: int| 0 <= k < t.len() && (#[trigger] t[k]).start <= j < t[k].end;
                    assert(fs[k + 1] == t[k]);
                }
            }
        },
        Err(_) => {
            if i < s.len() {
                lemma_scan_counts(s, i + 1);
            }
        },
    }
}

/// `c`, in lowercase if it is an ASCII capital.
pub fn to_ascii_lower(c: char) -> (res: char)
    ensures
        res == ascii_lowercase(c),
{
    if c >= 'A' && c <= 'Z' {
        ((c as u8) + 32) as char
    } else {
        c
    }
}

/// Whether `v[a..b]` is `content`, whatever the case of its letters.
fn is_content_name(v: &Vec<char>, a: usize, b: usize) -> (res: bool)
    requires
        a <= b <= v.len(),
    ensures
        res == is_content(v@.subrange(a as int, b as int)),
{
    let t = to_chars("content");
    let ghost name = v@.subrange(a as int, b as int);
    let ghost lowered = name.map_values(|c: char| ascii_lowercase(c));
    if b - a != t.len() {
        assert(lowered.len() != t@.len());
        return false;
    }
    let mut k: usize = 0;
    while k < t.len()
        invariant
            k <= t.len(),
            a <= b <= v.len(),
            b - a == t.len(),
            t@ == "content"@,
            name == v@.subrange(a as int, b as int),
            lowered == name.map_values(|c: char| ascii_lowercase(c)),
            forall|j: int| 0 <= j < k ==> lowered[j] == t@[j],
        decreases t.len() - k,
    {
        if to_ascii_lower(v[a + k]) != t[k] {
            assert(lowered[k as int] != t@[k as int]);
            return false;
        }
        k += 1;
    }
    assert(lowered =~= t@);
    true
}

/// Whether the Markdown filter is among `filters`.
fn contains_markdown(filters: &Vec<Filter>) -> (res: bool)
    ensures
        res == has_markdown(filter_views(filters@)),
{
    let mut k: usize = 0;
    while k < filters.len()
        invariant
            k <= filters.len(),
            forall|j: int| 0 <= j < k ==> !(filter_views(filters@)[j] is Markdown),
        decreases filters.len() - k,
    {
        if filters[k].is_markdown() {
            assert(filter_views(filters@)[k as int] is Markdown);
            return true;
        }
        k += 1;
    }
    false
}

/// Reads a placeholder at index `i` of the text of `input`.
pub fn placeholder_at<'a>(input: &Span<'a>, v: &Vec<char>, i: usize) -> (res: Result<
    (usize, Placeholder),
    SyntaxError,
>)
    requires
        input@.wf(),
        v@ == input@.text,
        i <= v.len(),
    ensures
        match spec_placeholder(v@, i as int) {
            Ok(f) => res is Ok && res->Ok_0.0 == f.end && res->Ok_0.1@ == located(input@, f) && i
                < f.end <= v.len(),
            Err(e) => res is Err && res->Err_0 == e,
        },
        res is Ok ==> res->Ok_0.1@.wf(),
{
    let a = match skip_tag(v, i, "{{") {
        Some(a) => a,
        None => {
            return Err(SyntaxError::NoMatch);
        },
    };
    let b = skip_run(v, a, CharClass::Blank);
    let c = match variable_at(v, b) {
        Some(c) => c,
        None => {
            return Err(SyntaxError::NoMatch);
        },
    };
    let (d, mut filters) = match filters_at(v, c) {
        Ok(r) => r,
        Err(SyntaxError::UnknownFilter) => {
            return Err(SyntaxError::UnknownFilter);
        },
        Err(_) => {
            let none: Vec<Filter> = Vec::new();
            assert(filter_views(none@) =~= Seq::<FilterView>::empty());
            (c, none)
        },
    };
    let e = skip_run(v, d, CharClass::Blank);
    let f = match skip_tag(v, e, "}}") {
        Some(f) => f,
        None => {
            return Err(SyntaxError::NoMatch);
        },
    };
    proof {
        lemma_placeholder_shape(v@, i as int);
        lemma_located_wf(input@, i as int);
    }
    if is_content_name(v, b + 1, c) && !contains_markdown(&filters) {
        let ghost before = filter_views(filters@);
        filters.push(Filter::Markdown);
        assert(filter_views(filters@) =~= before.push(FilterView::Markdown));
    }
    let name = to_text(v, b + 1, c);
    let start = input.part(v, i, i);
    let close = input.part(v, e, e);
    let end = input.part(v, f, f);
    let selection = Selection {
        start: Marker { line: start.line, offset: start.offset },
        end: Marker { line: close.line, offset: end.offset },
    };
    Ok((f, Placeholder { name, selection, filters }))
}

/// Reads a placeholder at the start of `input`: `{{`, a variable, an
/// optional chain of filters, `}}`. A placeholder named `content` gets the
/// Markdown filter if it does not ask for it. Gives what follows the
/// placeholder, and the placeholder with the bytes of `input` that it
/// selects.
pub fn parse_placeholder<'a>(input: Span<'a>) -> (res: Result<(Span<'a>, Placeholder), SyntaxError>)
    requires
        input@.wf(),
    ensures
        match spec_placeholder(input@.text, 0) {
            Ok(f) => res is Ok && res->Ok_0.0@ == input@.rest(f.end) && res->Ok_0.1@ == located(
                input@,
                f,
            ),
            Err(e) => res is Err && res->Err_0 == e,
        },
        res is Ok ==> res->Ok_0.1@.wf(),
{
    let chars = to_chars(input.fragment);
    match placeholder_at(&input, &chars, 0) {
        Ok((end, p)) => Ok((input.part(&chars, end, chars.len()), p)),
        Err(e) => Err(e),
    }
}

/// Reads the first placeholder of `input`, wherever it starts. Gives what
/// follows the placeholder, and the placeholder with the bytes of `input`
/// that it selects.
pub fn take_till_placeholder<'a>(input: Span<'a>) -> (res: Result<
    (Span<'a>, Placeholder),
    SyntaxError,
>)
    requires
        input@.wf(),
    ensures
        match spec_next_placeholder(input@.text, 0) {
            Ok(f) => res is Ok && res->Ok_0.0@ == input@.rest(f.end) && res->Ok_0.1@ == located(
                input@,
                f,
            ),
            Err(e) => res is Err && res->Err_0 == e,
        },
        res is Ok ==> res->Ok_0.1@.wf(),
{
    let chars = to_chars(input.fragment);
    let mut i: usize = 0;
    loop
        invariant
            i <= chars.len(),
            input@.wf(),
            chars@ == input@.text,
            spec_next_placeholder(chars@, i as int) == spec_next_placeholder(chars@, 0),
        decreases chars.len() - i,
    {
        match placeholder_at(&input, &chars, i) {
            Ok((end, p)) => {
                return Ok((input.part(&chars, end, chars.len()), p));
            },
            Err(SyntaxError::UnknownFilter) => {
                return Err(SyntaxError::UnknownFilter);
            },
            Err(_) => {
                if i >= chars.len() {
                    return Err(SyntaxError::NoMatch);
                }
                i += 1;
            },
        }
    }
}

/// The placeholders that `fs` stand for in the text of `input`, the last
/// one first.
pub open spec fn located_backwards(input: SpanView, fs: Seq<Found>) -> Seq<PlaceholderView> {
    Seq::new(fs.len(), |k: int| located(input, fs[fs.len() - 1 - k]))
}

/// Whether the placeholders start at strictly descending offsets.
pub open spec fn descending(ps: Seq<PlaceholderView>) -> bool {
    forall|j: int, k: int|
        0 <= j < k < ps.len() ==> (#[trigger] ps[j]).selection.start.offset > (
        #[trigger] ps[k]).selection.start.offset
}

/// The placeholders of a scan, the last one first, start at strictly
/// descending offsets, and each selects at least the bytes of its braces.
pub proof fn lemma_scan_descending(input: SpanView, i: int)
    requires
        input.wf(),
        0 <= i <= input.text.len(),
        spec_scan(input.text, i) is Ok,
    ensures
        descending(located_backwards(input, spec_scan(input.text, i)->Ok_0)),
        forall|k: int|
            0 <= k < spec_scan(input.text, i)->Ok_0.len() ==> (#[trigger] located_backwards(
                input,
                spec_scan(input.text, i)->Ok_0,
            )[k]).selection.wf(),
{
    let s = input.text;
    let fs = spec_scan(s, i)->Ok_0;
    let ps = located_backwards(input, fs);
    lemma_scan_counts(s, i);
    assert forall|a: int, b: int| 0 <= a < b < fs.len() implies (#[trigger] fs[a]).end <= (
    #[trigger] fs[b]).start by {
        lemma_found_ordered(fs, a, b);
    }
    assert forall|j: int, k: int| 0 <= j < k < ps.len() implies (#[trigger] ps[j]).selection.start.offset
        > (#[trigger] ps[k]).selection.start.offset by {
        let hi = fs[fs.len() - 1 - j];
        let lo = fs[fs.len() - 1 - k];
        assert(lo.end <= hi.start);
        assert(well_delimited(s, lo));
        assert(well_delimited(s, hi));
        lemma_prefix_measures(s, lo.start, hi.start);
        lemma_prefix_measures(s, hi.start, s.len() as int);
    }
    assert forall|k: int| 0 <= k < fs.len() implies (#[trigger] ps[k]).selection.wf() by {
        let f = fs[fs.len() - 1 - k];
        assert(well_delimited(s, f));
        lemma_prefix_measures(s, f.start, f.end);
        lemma_prefix_measures(s, f.end, s.len() as int);
    }
}

/// Where each of `fs` ends before the next one starts, each ends before
/// every later one starts.
pub proof fn lemma_found_ordered(fs: Seq<Found>, a: int, b: int)
    requires
        0 <= a < b < fs.len(),
        forall|k: int| 0 <= k < fs.len() - 1 ==> (#[trigger] fs[k]).end <= fs[k + 1].start,
        forall|k: int| 0 <= k < fs.len() ==> (#[trigger] fs[k]).start <= fs[k].end,
    ensures
        fs[a].end <= fs[b].start,
    decreases b - a,
{
    if a + 1 < b {
        lemma_found_ordered(fs, a, b - 1);
        assert(fs[b - 1].end <= fs[b].start);
    }
}

/// Finds every placeholder of `input`, scanning from left to right, and
/// returns them from the last one to the first: in descending order of the
/// offsets at which they start, as a substitution needs them. A placeholder
/// that names a filter which does not exist is an error.
pub fn parse_placeholder_locations<'a>(input: Span<'a>) -> (res: Result<
    Vec<Placeholder>,
    SyntaxError,
>)
    requires
        input@.wf(),
    ensures
        match spec_scan(input@.text, 0) {
            Ok(fs) => {
                &&& res is Ok
                &&& res->Ok_0.len() == fs.len()
                &&& placeholder_views(res->Ok_0@) == located_backwards(input@, fs)
                &&& descending(placeholder_views(res->Ok_0@))
            },
            Err(e) => res is Err && res->Err_0 == e,
        },
        res is Ok ==> forall|k: int|
            0 <= k < res->Ok_0.len() ==> (#[trigger] placeholder_views(res->Ok_0@)[k]).wf(),
{
    let chars = to_chars(input.fragment);
    let mut forward: Vec<Placeholder> = Vec::new();
    let ghost mut found: Seq<Found> = Seq::empty();
    let ghost goal = spec_scan(chars@, 0);
    let mut i: usize = 0;
    assert(goal is Ok ==> found + goal->Ok_0 =~= goal->Ok_0);
    loop
        invariant
            i <= chars.len(),
            input@.wf(),
            chars@ == input@.text,
            goal == spec_scan(chars@, 0),
            forward.len() == found.len(),
            forall|k: int| 0 <= k < found.len() ==> (#[trigger] forward@[k])@ == located(
                input@,
                found[k],
            ),
            forall|k: int| 0 <= k < forward.len() ==> (#[trigger] forward@[k])@.wf(),
            match spec_scan(chars@, i as int) {
                Ok(t) => goal == Ok::<Seq<Found>, SyntaxError>(found + t),
                Err(e) => goal == Err::<Seq<Found>, SyntaxError>(e),
            },
        ensures
            goal == Ok::<Seq<Found>, SyntaxError>(found),
            forall|k: int| 0 <= k < forward.len() ==> (#[trigger] forward@[k])@.wf(),
            forward.len() == found.len(),
            forall|k: int| 0 <= k < found.len() ==> (#[trigger] forward@[k])@ == located(
                input@,
                found[k],
            ),
        decreases chars.len() - i,
    {
        match placeholder_at(&input, &chars, i) {
            Ok((end, p)) => {
                proof {
                    let f = spec_placeholder(chars@, i as int)->Ok_0;
                    match spec_scan(chars@, end as int) {
                        Ok(t) => {
                            assert(found.push(f) + t =~= found + (seq![f] + t));
                        },
                        Err(_) => {},
                    }
                    found = found.push(f);
                }
                forward.push(p);
                i = end;
            },
            Err(SyntaxError::UnknownFilter) => {
                return Err(SyntaxError::UnknownFilter);
            },
            Err(_) => {
                if i >= chars.len() {
                    assert(found + Seq::<Found>::empty() =~= found);
                    break ;
                }
                i += 1;
            },
        }
    }
    let mut res: Vec<Placeholder> = Vec::new();
    let ghost all = forward@;
    while forward.len() > 0
        invariant
            forward.len() <= all.len(),
            forward@ == all.take(forward.len() as int),
            forall|k: int| 0 <= k < all.len() ==> (#[trigger] all[k])@.wf(),
            res.len() == all.len() - forward.len(),
            forall|j: int| 0 <= j < res.len() ==> (#[trigger] res@[j]) == all[all.len() - 1 - j],
        decreases forward.len(),
    {
        let p = forward.pop().unwrap();
        res.push(p);
    }
    proof {
        assert(placeholder_views(res@) =~= located_backwards(input@, found));
        lemma_scan_descending(input@, 0);
    }
    Ok(res)
}

} // verus!
