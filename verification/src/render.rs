//! Rendering: what each filter makes of a value, and the replacement of a
//! byte range of a text.

use vstd::prelude::*;
use crate::filter::{Filter, FilterView, TextCase};
use crate::text::{byte_len, char_lowercase, char_uppercase, char_is_lowercase, text_lowercase,
    text_uppercase, lowercase_letter, lowercase_of, lowercase_text, uppercase_of, uppercase_text,
    to_chars, to_text, char_width, lemma_prefix_measures, has_at, stands_at, append};

verus! {

/// The HTML that `markdown::to_html_with_options` makes of `source` with the
/// two compile options set as given and every other option at its default,
/// or `None` where it reports an error.
pub uninterp spec fn markdown_html(
    source: Seq<char>,
    dangerous_html: bool,
    dangerous_protocol: bool,
) -> Option<Seq<char>>;

/// Calls `markdown::to_html_with_options` with `allow_dangerous_html` and
/// `allow_dangerous_protocol` set from the arguments and every other option
/// at its default. The outcome is only named; an error becomes `None`.
#[verifier::external_body]
pub(crate) fn markdown_to_html(source: &str, dangerous_html: bool, dangerous_protocol: bool) -> (res:
    Option<String>)
    ensures
        res is Some == markdown_html(source@, dangerous_html, dangerous_protocol) is Some,
        res is Some ==> markdown_html(source@, dangerous_html, dangerous_protocol) == Some(
            res->0@,
        ),
{
    let compile = markdown::CompileOptions {
        allow_dangerous_html: dangerous_html,
        allow_dangerous_protocol: dangerous_protocol,
        ..Default::default()
    };
    let options = markdown::Options { compile, ..Default::default() };
    markdown::to_html_with_options(source, &options).ok()
}

/// The separators between words in the text-case filters.
pub open spec fn separators() -> Seq<char> {
    seq![' ', ',', '!', '-', '_']
}

/// The first index from `i` on at which `s` ends or holds a separator.
pub open spec fn word_end(s: Seq<char>, seps: Seq<char>, i: int) -> int
    decreases s.len() - i,
{
    if 0 <= i < s.len() && !seps.contains(s[i]) {
        word_end(s, seps, i + 1)
    } else {
        i
    }
}

/// The pieces of `s` from index `i` on: each maximal run of characters that
/// are no separators is a piece, and, where `keep` is set, so is each single
/// separator.
pub open spec fn pieces_from(s: Seq<char>, seps: Seq<char>, i: int, keep: bool) -> Seq<Seq<char>>
    decreases s.len() - i,
{
    if i < 0 || i >= s.len() {
        Seq::empty()
    } else if seps.contains(s[i]) {
        if keep {
            seq![seq![s[i]]] + pieces_from(s, seps, i + 1, keep)
        } else {
            pieces_from(s, seps, i + 1, keep)
        }
    } else {
        let j = word_end(s, seps, i + 1);
        if i < j <= s.len() {
            seq![s.subrange(i, j)] + pieces_from(s, seps, j, keep)
        } else {
            Seq::empty()
        }
    }
}

/// The words and separators of `s`, in order.
pub open spec fn spec_split(s: Seq<char>, seps: Seq<char>) -> Seq<Seq<char>> {
    pieces_from(s, seps, 0, true)
}

/// The texts of a list of strings.
pub open spec fn texts(v: Seq<String>) -> Seq<Seq<char>> {
    Seq::new(v.len(), |i: int| v[i]@)
}

/// The contents of a list of character vectors.
pub open spec fn contents(v: Seq<Vec<char>>) -> Seq<Seq<char>> {
    Seq::new(v.len(), |i: int| v[i]@)
}

/// Whether `c` is one of `seps`.
pub fn contains_char(seps: &[char], c: char) -> (res: bool)
    ensures
        res == seps@.contains(c),
{
    let mut k: usize = 0;
    while k < seps.len()
        invariant
            k <= seps.len(),
            forall|j: int| 0 <= j < k ==> seps@[j] != c,
        decreases seps.len() - k,
    {
        if seps[k] == c {
            return true;
        }
        k += 1;
    }
    false
}

/// Cuts `v` into its pieces.
pub fn split_pieces(v: &Vec<char>, seps: &[char], keep: bool) -> (res: Vec<Vec<char>>)
    ensures
        contents(res@) == pieces_from(v@, seps@, 0, keep),
{
    let mut res: Vec<Vec<char>> = Vec::new();
    let mut i: usize = 0;
    assert(contents(res@) + pieces_from(v@, seps@, 0, keep) =~= pieces_from(v@, seps@, 0, keep));
    while i < v.len()
        invariant
            i <= v.len(),
            contents(res@) + pieces_from(v@, seps@, i as int, keep) == pieces_from(
                v@,
                seps@,
                0,
                keep,
            ),
        decreases v.len() - i,
    {
        let ghost before = contents(res@);
        if contains_char(seps, v[i]) {
            if keep {
                let mut piece: Vec<char> = Vec::new();
                piece.push(v[i]);
                assert(piece@ =~= seq![v@[i as int]]);
                res.push(piece);
                assert(contents(res@) =~= before + seq![seq![v@[i as int]]]);
                assert(contents(res@) + pieces_from(v@, seps@, i + 1, keep) =~= before
                    + pieces_from(v@, seps@, i as int, keep));
            }
            i += 1;
        } else {
            let mut j: usize = i + 1;
            while j < v.len() && !contains_char(seps, v[j])
                invariant
                    i < j <= v.len(),
                    word_end(v@, seps@, j as int) == word_end(v@, seps@, i + 1),
                decreases v.len() - j,
            {
                j += 1;
            }
            let mut piece: Vec<char> = Vec::new();
            let mut k: usize = i;
            while k < j
                invariant
                    i <= k <= j <= v.len(),
                    piece@ == v@.subrange(i as int, k as int),
                decreases j - k,
            {
                piece.push(v[k]);
                assert(piece@ =~= v@.subrange(i as int, k + 1));
                k += 1;
            }
            res.push(piece);
            assert(contents(res@) =~= before + seq![v@.subrange(i as int, j as int)]);
            assert(contents(res@) + pieces_from(v@, seps@, j as int, keep) =~= before
                + pieces_from(v@, seps@, i as int, keep));
            i = j;
        }
    }
    assert(contents(res@) + pieces_from(v@, seps@, i as int, keep) =~= contents(res@));
    res
}

/// Cuts `phrase` at every separator: the words between separators and the
/// separators themselves, each as a string of its own, in order. No string
/// is empty.
pub fn split_string(phrase: String, separators: &[char]) -> (res: Vec<String>)
    ensures
        texts(res@) == spec_split(phrase@, separators@),
{
    let chars = to_chars(phrase.as_str());
    let pieces = split_pieces(&chars, separators, true);
    let mut res: Vec<String> = Vec::new();
    let mut k: usize = 0;
    while k < pieces.len()
        invariant
            k <= pieces.len(),
            res.len() == k,
            forall|j: int| 0 <= j < k ==> res@[j]@ == pieces@[j]@,
        decreases pieces.len() - k,
    {
        let piece = &pieces[k];
        res.push(to_text(piece, 0, piece.len()));
        assert(res@[k as int]@ =~= pieces@[k as int]@);
        k += 1;
    }
    assert(texts(res@) =~= contents(pieces@));
    res
}


/// A piece that is a single separator.
pub open spec fn is_separator_piece(p: Seq<char>, seps: Seq<char>) -> bool {
    p.len() == 1 && seps.contains(p[0])
}

/// `w` with its first character replaced by its uppercase form, or by its
/// lowercase form where `lower` is set.
pub open spec fn cased(w: Seq<char>, lower: bool) -> Seq<char> {
    if w.len() == 0 {
        w
    } else if lower {
        char_lowercase(w[0]) + w.skip(1)
    } else {
        char_uppercase(w[0]) + w.skip(1)
    }
}

/// What piece `k` of `ps` contributes to a text in the given case.
pub open spec fn piece_out(ps: Seq<Seq<char>>, seps: Seq<char>, k: int, style: TextCase) -> Seq<
    char,
> {
    match style {
        TextCase::Title => if is_separator_piece(ps[k], seps) {
            ps[k]
        } else {
            cased(ps[k], false)
        },
        TextCase::Pascal => cased(ps[k], false),
        TextCase::Camel => cased(ps[k], k == 0),
        TextCase::Kebab => if k > 0 {
            seq!['-'] + ps[k]
        } else {
            ps[k]
        },
        TextCase::Snake => if k > 0 {
            seq!['_'] + ps[k]
        } else {
            ps[k]
        },
        _ => ps[k],
    }
}

/// The contributions of the first `n` pieces of `ps`, one after another.
pub open spec fn assemble(ps: Seq<Seq<char>>, seps: Seq<char>, n: int, style: TextCase) -> Seq<
    char,
>
    decreases n,
{
    if n <= 0 {
        Seq::empty()
    } else {
        assemble(ps, seps, n - 1, style) + piece_out(ps, seps, n - 1, style)
    }
}

/// The first `n` characters of `s`, each lowercase character replaced by its
/// uppercase form and every other character by its lowercase form.
pub open spec fn inverted(s: Seq<char>, n: int) -> Seq<char>
    decreases n,
{
    if n <= 0 {
        Seq::empty()
    } else if char_is_lowercase(s[n - 1]) {
        inverted(s, n - 1) + char_uppercase(s[n - 1])
    } else {
        inverted(s, n - 1) + char_lowercase(s[n - 1])
    }
}

/// The budget after one more replacement.
pub open spec fn spent(budget: Option<nat>) -> Option<nat> {
    match budget {
        Some(n) => Some((n - 1) as nat),
        None => None,
    }
}

/// `s` from index `i` on, with the occurrences of `find` replaced by
/// `replacement`, from the left and without overlap, as long as `budget`
/// allows; `None` is no limit. An empty `find` occurs before every character
/// and at the end.
pub open spec fn replaced_from(
    s: Seq<char>,
    find: Seq<char>,
    replacement: Seq<char>,
    i: int,
    budget: Option<nat>,
) -> Seq<char>
    decreases s.len() - i,
{
    if i < 0 || i > s.len() {
        Seq::empty()
    } else if budget == Some(0nat) {
        s.skip(i)
    } else if has_at(s, i, find) {
        if find.len() > 0 {
            replacement + replaced_from(s, find, replacement, i + find.len(), spent(budget))
        } else if i < s.len() {
            replacement + seq![s[i]] + replaced_from(s, find, replacement, i + 1, spent(budget))
        } else {
            replacement
        }
    } else if i < s.len() {
        seq![s[i]] + replaced_from(s, find, replacement, i + 1, budget)
    } else {
        Seq::empty()
    }
}

/// The budget that a filter's limit stands for.
pub open spec fn budget_of(limit: Option<u8>) -> Option<nat> {
    match limit {
        Some(n) => Some(n as nat),
        None => None,
    }
}

/// What the `text` filter makes of `v`.
pub open spec fn spec_text_case(v: Seq<char>, case: TextCase) -> Seq<char> {
    match case {
        TextCase::Lower => text_lowercase(v),
        TextCase::Upper => text_uppercase(v),
        TextCase::Title => {
            let ps = pieces_from(v, separators(), 0, true);
            assemble(ps, separators(), ps.len() as int, case)
        },
        TextCase::Kebab | TextCase::Snake => {
            let ps = pieces_from(text_lowercase(v), separators(), 0, false);
            assemble(ps, separators(), ps.len() as int, case)
        },
        TextCase::Pascal | TextCase::Camel => {
            let ps = pieces_from(v, separators(), 0, false);
            assemble(ps, separators(), ps.len() as int, case)
        },
        TextCase::Invert => inverted(v, v.len() as int),
    }
}

/// What a filter that works on text makes of `v`. The filters that read
/// their value as a number are not described: they leave `v` as it is here.
pub open spec fn spec_render_filter(v: Seq<char>, f: FilterView) -> Seq<char> {
    match f {
        FilterView::Lowercase => text_lowercase(v),
        FilterView::Uppercase => text_uppercase(v),
        FilterView::Markdown => match markdown_html(v, true, false) {
            Some(html) => html,
            None => Seq::empty(),
        },
        FilterView::Replace { find, replacement, limit } => replaced_from(
            v,
            find,
            replacement,
            0,
            budget_of(limit),
        ),
        FilterView::Reverse => v.reverse(),
        FilterView::Text { case } => spec_text_case(v, case),
        FilterView::Truncate { characters, trail } => if v.len() > characters {
            v.take(characters as int) + trail
        } else {
            v
        },
        _ => v,
    }
}

/// Joins the contributions of all pieces.
fn assemble_pieces(ps: &Vec<Vec<char>>, seps: &[char], style: TextCase) -> (res: Vec<char>)
    ensures
        res@ == assemble(contents(ps@), seps@, ps.len() as int, style),
{
    let mut res: Vec<char> = Vec::new();
    let mut k: usize = 0;
    while k < ps.len()
        invariant
            k <= ps.len(),
            res@ == assemble(contents(ps@), seps@, k as int, style),
        decreases ps.len() - k,
    {
        let piece = &ps[k];
        let ghost before = res@;
        assert(contents(ps@)[k as int] == piece@);
        let plain = match style {
            TextCase::Title => piece.len() == 0 || (piece.len() == 1 && contains_char(
                seps,
                piece[0],
            )),
            TextCase::Pascal => piece.len() == 0,
            TextCase::Camel => piece.len() == 0,
            _ => true,
        };
        if plain {
            match style {
                TextCase::Kebab => {
                    if k > 0 {
                        res.push('-');
                    }
                },
                TextCase::Snake => {
                    if k > 0 {
                        res.push('_');
                    }
                },
                _ => {},
            }
            let ghost mid = res@;
            append(&mut res, piece, 0, piece.len());
            assert(piece@.subrange(0, piece.len() as int) =~= piece@);
            assert(res@ =~= before + piece_out(contents(ps@), seps@, k as int, style));
        } else {
            let lower = match style {
                TextCase::Camel => k == 0,
                _ => false,
            };
            let first = if lower {
                lowercase_of(piece[0])
            } else {
                uppercase_of(piece[0])
            };
            append(&mut res, &first, 0, first.len());
            append(&mut res, piece, 1, piece.len());
            assert(first@.subrange(0, first.len() as int) =~= first@);
            assert(piece@.subrange(1, piece.len() as int) =~= piece@.skip(1));
            assert(res@ =~= before + piece_out(contents(ps@), seps@, k as int, style));
        }
        k += 1;
    }
    res
}

/// Recases `variable`.
fn render_text_case(variable: String, case: TextCase) -> (res: String)
    ensures
        res@ == spec_text_case(variable@, case),
{
    let mut seps: Vec<char> = Vec::new();
    seps.push(' ');
    seps.push(',');
    seps.push('!');
    seps.push('-');
    seps.push('_');
    assert(seps@ =~= separators());
    match case {
        TextCase::Lower => lowercase_text(variable.as_str()),
        TextCase::Upper => uppercase_text(variable.as_str()),
        TextCase::Title => {
            let chars = to_chars(variable.as_str());
            let ps = split_pieces(&chars, seps.as_slice(), true);
            let out = assemble_pieces(&ps, seps.as_slice(), case);
            let res = to_text(&out, 0, out.len());
            assert(out@.subrange(0, out.len() as int) =~= out@);
            res
        },
        TextCase::Kebab | TextCase::Snake => {
            let lower = lowercase_text(variable.as_str());
            let chars = to_chars(lower.as_str());
            let ps = split_pieces(&chars, seps.as_slice(), false);
            let out = assemble_pieces(&ps, seps.as_slice(), case);
            let res = to_text(&out, 0, out.len());
            assert(out@.subrange(0, out.len() as int) =~= out@);
            res
        },
        TextCase::Pascal | TextCase::Camel => {
            let chars = to_chars(variable.as_str());
            let ps = split_pieces(&chars, seps.as_slice(), false);
            let out = assemble_pieces(&ps, seps.as_slice(), case);
            let res = to_text(&out, 0, out.len());
            assert(out@.subrange(0, out.len() as int) =~= out@);
            res
        },
        TextCase::Invert => {
            let chars = to_chars(variable.as_str());
            let mut out: Vec<char> = Vec::new();
            let mut k: usize = 0;
            while k < chars.len()
                invariant
                    k <= chars.len(),
                    out@ == inverted(chars@, k as int),
                decreases chars.len() - k,
            {
                let flipped = if lowercase_letter(chars[k]) {
                    uppercase_of(chars[k])
                } else {
                    lowercase_of(chars[k])
                };
                append(&mut out, &flipped, 0, flipped.len());
                assert(flipped@.subrange(0, flipped.len() as int) =~= flipped@);
                k += 1;
            }
            let res = to_text(&out, 0, out.len());
            assert(out@.subrange(0, out.len() as int) =~= out@);
            res
        },
    }
}

/// Replaces occurrences of `find` in `chars`, at most `limit` of them if a
/// limit is given.
pub fn render_replace(chars: &Vec<char>, find: &Vec<char>, replacement: &Vec<char>, limit: Option<u8>) -> (res:
    Vec<char>)
    ensures
        res@ == replaced_from(chars@, find@, replacement@, 0, budget_of(limit)),
{
    let mut out: Vec<char> = Vec::new();
    let mut i: usize = 0;
    let mut left: Option<u8> = limit;
    let ghost goal = replaced_from(chars@, find@, replacement@, 0, budget_of(limit));
    let mut done = false;
    assert(out@ + goal =~= goal);
    while !done
        invariant
            i <= chars.len(),
            !done ==> out@ + replaced_from(chars@, find@, replacement@, i as int, budget_of(left))
                == goal,
            done ==> out@ == goal,
        decreases chars.len() - i + if done { 0int } else { 1int },
    {
        let ghost before = out@;
        let exhausted = match left {
            Some(n) => n == 0,
            None => false,
        };
        if exhausted {
            append(&mut out, chars, i, chars.len());
            assert(chars@.subrange(i as int, chars.len() as int) =~= chars@.skip(i as int));
            done = true;
        } else if stands_at(chars, i, find) {
            append(&mut out, replacement, 0, replacement.len());
            assert(replacement@.subrange(0, replacement.len() as int) =~= replacement@);
            let next: Option<u8> = match left {
                Some(n) => Some(n - 1),
                None => None,
            };
            assert(budget_of(next) == spent(budget_of(left)));
            if find.len() > 0 {
                assert(out@ + replaced_from(
                    chars@,
                    find@,
                    replacement@,
                    i + find.len(),
                    budget_of(next),
                ) =~= before + replaced_from(chars@, find@, replacement@, i as int, budget_of(left)));
                i += find.len();
            } else if i < chars.len() {
                out.push(chars[i]);
                assert(out@ + replaced_from(chars@, find@, replacement@, i + 1, budget_of(next))
                    =~= before + replaced_from(
                    chars@,
                    find@,
                    replacement@,
                    i as int,
                    budget_of(left),
                ));
                i += 1;
            } else {
                done = true;
            }
            left = next;
        } else if i < chars.len() {
            out.push(chars[i]);
            assert(out@ + replaced_from(chars@, find@, replacement@, i + 1, budget_of(left)) =~= before
                + replaced_from(chars@, find@, replacement@, i as int, budget_of(left)));
            i += 1;
        } else {
            assert(before + replaced_from(chars@, find@, replacement@, i as int, budget_of(left))
                =~= before);
            done = true;
        }
    }
    out
}

/// What `filter` makes of `variable`, for every filter that works on text.
///
/// The filters that read their value as a number stand outside this
/// function; [`try_render_filter`] tells the two kinds apart.
pub fn render_filter(variable: String, filter: &Filter) -> (res: String)
    requires
        !filter@.is_numeric(),
    ensures
        res@ == spec_render_filter(variable@, filter@),
{
    match filter {
        Filter::Lowercase => lowercase_text(variable.as_str()),
        Filter::Uppercase => uppercase_text(variable.as_str()),
        Filter::Markdown => match markdown_to_html(variable.as_str(), true, false) {
            Some(html) => html,
            None => String::new(),
        },
        Filter::Replace { find, replacement, limit } => {
            let chars = to_chars(variable.as_str());
            let find = to_chars(find.as_str());
            let replacement = to_chars(replacement.as_str());
            let out = render_replace(&chars, &find, &replacement, *limit);
            let res = to_text(&out, 0, out.len());
            assert(out@.subrange(0, out.len() as int) =~= out@);
            res
        },
        Filter::Reverse => {
            let chars = to_chars(variable.as_str());
            let mut out: Vec<char> = Vec::new();
            let mut k: usize = chars.len();
            while k > 0
                invariant
                    k <= chars.len(),
                    out.len() == chars.len() - k,
                    forall|j: int| 0 <= j < out.len() ==> out@[j] == chars@[chars.len() - 1 - j],
                decreases k,
            {
                k -= 1;
                out.push(chars[k]);
            }
            assert(out@ =~= chars@.reverse());
            let res = to_text(&out, 0, out.len());
            assert(out@.subrange(0, out.len() as int) =~= out@);
            res
        },
        Filter::Text { case } => render_text_case(variable, *case),
        Filter::Truncate { characters, trail } => {
            let chars = to_chars(variable.as_str());
            let keep: usize = *characters as usize;
            if chars.len() > keep {
                let mut out: Vec<char> = Vec::new();
                append(&mut out, &chars, 0, keep);
                let trail = to_chars(trail.as_str());
                append(&mut out, &trail, 0, trail.len());
                assert(trail@.subrange(0, trail.len() as int) =~= trail@);
                assert(out@ =~= chars@.take(keep as int) + trail@);
                let res = to_text(&out, 0, out.len());
                assert(out@.subrange(0, out.len() as int) =~= out@);
                res
            } else {
                variable
            }
        },
        _ => variable,
    }
}

/// What `filter` makes of `variable`, or `None` for a filter that reads its
/// value as a number.
pub fn try_render_filter(variable: String, filter: &Filter) -> (res: Option<String>)
    ensures
        res is None <==> filter@.is_numeric(),
        res is Some ==> res->0@ == spec_render_filter(variable@, filter@),
{
    if filter.is_numeric() {
        None
    } else {
        Some(render_filter(variable, filter))
    }
}


/// Whether byte `offset` of the UTF-8 form of `s` is where a character
/// starts, or the end.
pub open spec fn is_boundary(s: Seq<char>, offset: int) -> bool {
    exists|k: int| 0 <= k <= s.len() && byte_len(s, k) == offset
}

/// The number of characters of `s` that stand before byte `offset`.
pub open spec fn char_index(s: Seq<char>, offset: int) -> int {
    choose|k: int| 0 <= k <= s.len() && byte_len(s, k) == offset
}

/// `s` with the characters `a..b` replaced by `r`.
pub open spec fn spliced(s: Seq<char>, a: int, b: int, r: Seq<char>) -> Seq<char> {
    s.take(a) + r + s.skip(b)
}

/// No two prefixes of a text have the same byte length, and a longer prefix
/// has more bytes.
pub proof fn lemma_char_index(s: Seq<char>, k: int)
    requires
        0 <= k <= s.len(),
    ensures
        is_boundary(s, byte_len(s, k) as int),
        char_index(s, byte_len(s, k) as int) == k,
{
    let j = char_index(s, byte_len(s, k) as int);
    if j < k {
        lemma_prefix_measures(s, j, k);
    } else if k < j {
        lemma_prefix_measures(s, k, j);
    }
}

/// Byte offsets order as the character indices that they stand for.
pub proof fn lemma_char_index_order(s: Seq<char>, a: int, b: int)
    requires
        is_boundary(s, a),
        is_boundary(s, b),
        a <= b,
    ensures
        0 <= char_index(s, a) <= char_index(s, b) <= s.len(),
{
    let i = char_index(s, a);
    let j = char_index(s, b);
    if j < i {
        lemma_prefix_measures(s, j, i);
    }
}

/// The number of characters before byte `offset`, or `None` where `offset`
/// is inside a character or past the end.
pub fn locate(chars: &Vec<char>, offset: usize) -> (res: Option<usize>)
    ensures
        res is Some <==> is_boundary(chars@, offset as int),
        res is Some ==> res->0 == char_index(chars@, offset as int) && res->0 <= chars.len(),
{
    let mut k: usize = 0;
    let mut bytes: usize = 0;
    while k < chars.len() && bytes < offset
        invariant
            k <= chars.len(),
            bytes == byte_len(chars@, k as int),
            bytes <= offset,
            forall|j: int| 0 <= j < k ==> byte_len(chars@, j) < offset,
        decreases chars.len() - k,
    {
        let w = char_width(chars[k]);
        if w > offset - bytes {
            proof {
                assert forall|j: int| 0 <= j <= chars.len() implies byte_len(chars@, j)
                    != offset by {
                    if j > k {
                        lemma_prefix_measures(chars@, k + 1, j);
                    }
                }
            }
            return None;
        }
        bytes += w;
        k += 1;
    }
    if bytes == offset {
        proof {
            lemma_char_index(chars@, k as int);
        }
        Some(k)
    } else {
        proof {
            assert forall|j: int| 0 <= j <= chars.len() implies byte_len(chars@, j) != offset by {
                if j > k {
                    lemma_prefix_measures(chars@, k as int, j);
                }
            }
        }
        None
    }
}

/// `text` with the bytes `start..end` replaced by `replacement`. Both
/// offsets must be where a character of `text` starts, or its end.
pub fn replace_substring(text: &str, start: usize, end: usize, replacement: &str) -> (res:
    String)
    requires
        is_boundary(text@, start as int),
        is_boundary(text@, end as int),
        start <= end,
    ensures
        res@ == spliced(
            text@,
            char_index(text@, start as int),
            char_index(text@, end as int),
            replacement@,
        ),
{
    let chars = to_chars(text);
    let inserted = to_chars(replacement);
    proof {
        lemma_char_index_order(chars@, start as int, end as int);
    }
    let a = locate(&chars, start).unwrap();
    let b = locate(&chars, end).unwrap();
    let mut out: Vec<char> = Vec::new();
    append(&mut out, &chars, 0, a);
    append(&mut out, &inserted, 0, inserted.len());
    append(&mut out, &chars, b, chars.len());
    assert(out@ =~= spliced(chars@, a as int, b as int, inserted@)) by {
        assert(inserted@.subrange(0, inserted.len() as int) =~= inserted@);
    }
    let res = to_text(&out, 0, out.len());
    assert(out@.subrange(0, out.len() as int) =~= out@);
    res
}

} // verus!
