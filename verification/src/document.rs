//! A whole document: from a template and a Markdown source to the rendered
//! text, and what a caller may want to know or do around it.

use vstd::prelude::*;
use crate::meta::{MetaView, Meta, meta_views, spec_meta_section, meta_section_at};
use crate::placeholder::{Placeholder, PlaceholderView, placeholder_views, spec_scan,
    located_backwards, parse_placeholder_locations, lemma_scan_counts, lemma_scan_descending,
    lemma_found_ordered, well_delimited};
use crate::render::{replaced_from, render_replace, texts, is_boundary, lemma_char_index};
use crate::scan::{text_is, trimmed, trim_bounds};
use crate::span::{Span, SyntaxError, whole_text};
use crate::substitute::{spec_substitute, substitute, fits, renderable, resolve_all, start_of,
    lemma_substitute_fits};
use crate::text::{lemma_prefix_measures, text_lowercase, lowercase_text, to_chars, to_text, text_of, same_chars};
use crate::variables::{Variables, RenderError, RenderErrorView, spec_variables, create_variables};

verus! {

/// What a caller may allow without a warning.
#[derive(Clone, Copy, Debug, PartialEq, Eq, Structural)]
pub enum AllowList {
    /// Anything that is unused.
    Unused,
    /// Variables that a document defines and the template does not use.
    UnusedVariables,
}

/// The rule that `name` stands for, trimmed and whatever the case of its
/// letters.
pub open spec fn spec_allow(name: Seq<char>) -> Option<AllowList> {
    let key = text_lowercase(trimmed(name));
    if key == "unused"@ {
        Some(AllowList::Unused)
    } else if key == "unused-variables"@ || key == "unused_variables"@ {
        Some(AllowList::UnusedVariables)
    } else {
        None
    }
}

/// The rules that the first `n` of `names` stand for, in order; a name that
/// stands for none is passed over.
pub open spec fn spec_allow_list(names: Seq<Seq<char>>, n: int) -> Seq<AllowList>
    decreases n,
{
    if n <= 0 {
        Seq::empty()
    } else {
        match spec_allow(names[n - 1]) {
            Some(rule) => spec_allow_list(names, n - 1).push(rule),
            None => spec_allow_list(names, n - 1),
        }
    }
}

/// The rules that `allow_list` names, in order; names that stand for no
/// rule are passed over.
pub fn get_allow_list(allow_list: Vec<String>) -> (res: Vec<AllowList>)
    ensures
        res@ == spec_allow_list(texts(allow_list@), allow_list.len() as int),
{
    let mut res: Vec<AllowList> = Vec::new();
    let mut k: usize = 0;
    while k < allow_list.len()
        invariant
            k <= allow_list.len(),
            res@ == spec_allow_list(texts(allow_list@), k as int),
        decreases allow_list.len() - k,
    {
        let chars = to_chars(allow_list[k].as_str());
        assert(texts(allow_list@)[k as int] == chars@);
        let (a, b) = trim_bounds(&chars);
        let name = to_text(&chars, a, b);
        let key = to_chars(lowercase_text(name.as_str()).as_str());
        if text_is(&key, "unused") {
            res.push(AllowList::Unused);
        } else if text_is(&key, "unused-variables") || text_is(&key, "unused_variables") {
            res.push(AllowList::UnusedVariables);
        }
        k += 1;
    }
    res
}

/// Whether `name` is one of the first `n` of `used`.
pub open spec fn is_used(used: Seq<PlaceholderView>, name: Seq<char>, n: int) -> bool {
    exists|k: int| 0 <= k < n && (#[trigger] used[k]).name == name
}

/// Those of the first `n` of `names` that no placeholder of `used` has, in
/// order.
pub open spec fn spec_unused(names: Seq<Seq<char>>, used: Seq<PlaceholderView>, n: int) -> Seq<
    Seq<char>,
>
    decreases n,
{
    if n <= 0 {
        Seq::empty()
    } else if is_used(used, names[n - 1], used.len() as int) {
        spec_unused(names, used, n - 1)
    } else {
        spec_unused(names, used, n - 1).push(names[n - 1])
    }
}

/// The variables of `names` that no placeholder of `placeholders` asks for,
/// in order.
pub fn unused_variables(names: &Vec<String>, placeholders: &Vec<Placeholder>) -> (res: Vec<String>)
    ensures
        texts(res@) == spec_unused(
            texts(names@),
            placeholder_views(placeholders@),
            names.len() as int,
        ),
{
    let mut res: Vec<String> = Vec::new();
    let mut k: usize = 0;
    let ghost used = placeholder_views(placeholders@);
    assert(texts(res@) =~= spec_unused(texts(names@), used, 0));
    while k < names.len()
        invariant
            k <= names.len(),
            used == placeholder_views(placeholders@),
            texts(res@) == spec_unused(texts(names@), used, k as int),
        decreases names.len() - k,
    {
        let name = to_chars(names[k].as_str());
        assert(texts(names@)[k as int] == name@);
        let mut found = false;
        let mut j: usize = 0;
        while j < placeholders.len() && !found
            invariant
                j <= placeholders.len(),
                used == placeholder_views(placeholders@),
                found == is_used(used, name@, j as int),
            decreases placeholders.len() - j,
        {
            let other = to_chars(placeholders[j].name.as_str());
            assert(used[j as int].name == other@);
            if same_chars(&other, &name) {
                found = true;
            }
            j += 1;
        }
        if !found {
            let ghost before = texts(res@);
            res.push(names[k].clone());
            assert(texts(res@) =~= before.push(name@));
        } else {
            assert(is_used(used, name@, used.len() as int));
        }
        k += 1;
    }
    res
}

/// `html` with a line feed before every opening tag of a heading of the
/// second to the fifth level.
pub open spec fn spec_separate_headings(html: Seq<char>) -> Seq<char> {
    let a = replaced_from(html, "<h2>"@, "\n<h2>"@, 0, None);
    let b = replaced_from(a, "<h3>"@, "\n<h3>"@, 0, None);
    let c = replaced_from(b, "<h4>"@, "\n<h4>"@, 0, None);
    replaced_from(c, "<h5>"@, "\n<h5>"@, 0, None)
}

/// Puts a line feed before every opening tag of a heading of the second to
/// the fifth level, so that the rendered text reads well.
pub fn separate_headings(html: &str) -> (res: String)
    ensures
        res@ == spec_separate_headings(html@),
{
    let chars = to_chars(html);
    let a = render_replace(&chars, &to_chars("<h2>"), &to_chars("\n<h2>"), None);
    let b = render_replace(&a, &to_chars("<h3>"), &to_chars("\n<h3>"), None);
    let c = render_replace(&b, &to_chars("<h4>"), &to_chars("\n<h4>"), None);
    let d = render_replace(&c, &to_chars("<h5>"), &to_chars("\n<h5>"), None);
    text_of(&d)
}

/// The text of a document behind its metadata block, and the entries of
/// the block; the whole text and no entries where no block is opened.
/// `None` where a block is opened that is malformed.
pub open spec fn spec_body(markdown: Seq<char>) -> Option<(Seq<char>, Seq<MetaView>)> {
    match spec_meta_section(markdown, 0) {
        Ok(r) => Some((markdown.subrange(r.0, markdown.len() as int), r.1)),
        Err(SyntaxError::MalformedMeta) => None,
        Err(_) => Some((markdown, Seq::empty())),
    }
}

/// The template `template` rendered for the document `markdown`: the
/// placeholders of the template, replaced by the variables that the
/// document defines in its metadata block, if it has one, and by its title
/// and content.
pub open spec fn spec_document(template: Seq<char>, markdown: Seq<char>) -> Result<
    Seq<char>,
    RenderErrorView,
> {
    let whole = whole_text(template);
    match spec_scan(template, 0) {
        Err(_) => Err(RenderErrorView::UnknownFilter),
        Ok(found) => match spec_body(markdown) {
            None => Err(RenderErrorView::MalformedMetadata),
            Some(body) => match spec_variables(body.0, body.1) {
                None => Err(RenderErrorView::MissingTitle),
                Some(table) => spec_substitute(template, located_backwards(whole, found), table),
            },
        },
    }
}

/// Renders `template` for the document `markdown`. The metadata block of
/// the document is optional: a document that opens none has its whole text
/// as its body.
///
/// It is an error where the template names a filter that does not exist,
/// where the document opens a metadata block that is malformed, where it
/// has no title, and where the substitution fails.
pub fn render_document(template: &str, markdown: &str) -> (res: Result<String, RenderError>)
    ensures
        match spec_document(template@, markdown@) {
            Ok(text) => res is Ok && res->Ok_0@ == text,
            Err(e) => res is Err && res->Err_0@ == e,
        },
{
    let placeholders = match parse_placeholder_locations(Span::new(template)) {
        Ok(found) => found,
        Err(_) => {
            return Err(RenderError::UnknownFilter);
        },
    };
    let source = Span::new(markdown);
    let chars = to_chars(markdown);
    let (body, metas) = match meta_section_at(&chars, 0) {
        Ok((next, metas)) => (source.part(&chars, next, chars.len()), metas),
        Err(SyntaxError::MalformedMeta) => {
            return Err(RenderError::MalformedMetadata);
        },
        Err(_) => {
            let none: Vec<Meta> = Vec::new();
            assert(meta_views(none@) =~= Seq::<MetaView>::empty());
            (source, none)
        },
    };
    let variables = match create_variables(body, metas) {
        Ok(table) => table,
        Err(_) => {
            return Err(RenderError::MissingTitle);
        },
    };
    substitute(template, &placeholders, &variables)
}

/// The placeholders that the scan finds in a text fit that text: they
/// select parts of it that do not overlap, the later parts first.
pub proof fn lemma_scanned_fit(text: Seq<char>, vars: Map<Seq<char>, Seq<char>>)
    requires
        whole_text(text).wf(),
        spec_scan(text, 0) is Ok,
    ensures
        fits(text, resolve_all(located_backwards(whole_text(text), spec_scan(text, 0)->Ok_0), vars)),
{
    let whole = whole_text(text);
    let fs = spec_scan(text, 0)->Ok_0;
    let ps = located_backwards(whole, fs);
    let rs = resolve_all(ps, vars);
    lemma_scan_counts(text, 0);
    lemma_scan_descending(whole, 0);
    assert forall|j: int, k: int| 0 <= j < k < rs.len() implies start_of(#[trigger] rs[j])
        > start_of(#[trigger] rs[k]) by {
        assert(ps[j].selection.start.offset > ps[k].selection.start.offset);
    }
    assert forall|k: int| 0 <= k < rs.len() implies {
        &&& is_boundary(text, (#[trigger] rs[k]).selection.start.offset as int)
        &&& is_boundary(text, rs[k].selection.end.offset as int)
        &&& rs[k].selection.start.offset <= rs[k].selection.end.offset
    } by {
        let f = fs[fs.len() - 1 - k];
        assert(well_delimited(text, f));
        lemma_prefix_measures(text, f.start, f.end);
        lemma_prefix_measures(text, f.end, text.len() as int);
        lemma_char_index(text, f.start);
        lemma_char_index(text, f.end);
        assert(ps[k].selection.wf());
    }
    assert forall|j: int, k: int| 0 <= j < k < rs.len() implies (
    #[trigger] rs[k]).selection.end.offset <= (#[trigger] rs[j]).selection.start.offset by {
        let later = fs[fs.len() - 1 - j];
        let earlier = fs[fs.len() - 1 - k];
        assert(well_delimited(text, later));
        assert(well_delimited(text, earlier));
        lemma_found_ordered(fs, fs.len() - 1 - k, fs.len() - 1 - j);
        lemma_prefix_measures(text, earlier.end, later.start);
        lemma_prefix_measures(text, later.start, text.len() as int);
    }
}

/// A document is rendered exactly if the template names no filter that
/// does not exist, the document opens no metadata block that is malformed,
/// it has a title, and every placeholder of the template names a variable
/// of the document and asks for no filter that reads its value as a number.
/// The offsets of the placeholders never stand in the way.
pub proof fn lemma_document_succeeds(template: Seq<char>, markdown: Seq<char>)
    requires
        whole_text(template).wf(),
    ensures
        spec_document(template, markdown) is Err ==> !(spec_document(
            template,
            markdown,
        )->Err_0 is InvalidSelection),
        spec_document(template, markdown) is Ok <==> {
            &&& spec_scan(template, 0) is Ok
            &&& spec_body(markdown) is Some
            &&& spec_variables(spec_body(markdown)->Some_0.0, spec_body(markdown)->Some_0.1) is Some
            &&& renderable(
                located_backwards(whole_text(template), spec_scan(template, 0)->Ok_0),
                spec_variables(spec_body(markdown)->Some_0.0, spec_body(markdown)->Some_0.1)->0,
            )
        },
{
    if spec_scan(template, 0) is Ok && spec_body(markdown) is Some {
        let ps = located_backwards(whole_text(template), spec_scan(template, 0)->Ok_0);
        let body = spec_body(markdown)->0;
        let table = spec_variables(body.0, body.1);
        if table is Some {
            lemma_scanned_fit(template, table->0);
            lemma_substitute_fits(template, ps, table->0);
        }
    }
}

} // verus!
