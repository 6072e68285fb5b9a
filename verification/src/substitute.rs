//! The substitution engine: every placeholder of a template replaced by
//! the rendered value of its variable, from the end of the text to its
//! start, so that the offsets of the placeholders still to come stay valid.

use vstd::prelude::*;
use crate::filter::{Filter, FilterView, filter_views};
use crate::placeholder::{Placeholder, PlaceholderView, placeholder_views};
use crate::span::Selection;
use crate::render::{spec_render_filter, render_filter, is_boundary, char_index, spliced, locate,
    lemma_char_index_order, lemma_char_index};
use crate::text::{to_chars, text_of, append, byte_len};
use crate::variables::{Variables, RenderError, RenderErrorView};

verus! {

/// Whether one of `filters` reads its value as a number.
pub open spec fn has_numeric(filters: Seq<FilterView>) -> bool {
    exists|k: int| 0 <= k < filters.len() && (#[trigger] filters[k]).is_numeric()
}

/// What the first `n` of `filters` make of `value`, one after another.
pub open spec fn render_all(value: Seq<char>, filters: Seq<FilterView>, n: int) -> Seq<char>
    decreases n,
{
    if n <= 0 {
        value
    } else {
        spec_render_filter(render_all(value, filters, n - 1), filters[n - 1])
    }
}

/// Runs `value` through `filters`, from the first to the last. `None`
/// where one of them reads its value as a number.
pub fn render_filters(value: String, filters: &Vec<Filter>) -> (res: Option<String>)
    ensures
        res is None <==> has_numeric(filter_views(filters@)),
        res is Some ==> res->0@ == render_all(
            value@,
            filter_views(filters@),
            filters.len() as int,
        ),
{
    let mut k: usize = 0;
    while k < filters.len()
        invariant
            k <= filters.len(),
            forall|j: int| 0 <= j < k ==> !(#[trigger] filter_views(filters@)[j]).is_numeric(),
        decreases filters.len() - k,
    {
        if filters[k].is_numeric() {
            assert(filter_views(filters@)[k as int].is_numeric());
            return None;
        }
        k += 1;
    }
    let mut current = value;
    let mut n: usize = 0;
    while n < filters.len()
        invariant
            n <= filters.len(),
            forall|j: int|
                0 <= j < filters.len() ==> !(#[trigger] filter_views(filters@)[j]).is_numeric(),
            current@ == render_all(value@, filter_views(filters@), n as int),
        decreases filters.len() - n,
    {
        assert(filter_views(filters@)[n as int] == filters@[n as int]@);
        current = render_filter(current, &filters[n]);
        n += 1;
    }
    Some(current)
}

/// A replacement for a part of a text: the bytes that it replaces, what
/// stands there afterwards, and a name by which an error speaks of it.
#[derive(Clone, Debug, PartialEq)]
pub struct Patch {
    pub name: String,
    pub selection: Selection,
    pub replacement: String,
}

/// The mathematical content of a [`Patch`].
pub struct PatchView {
    pub name: Seq<char>,
    pub selection: Selection,
    pub replacement: Seq<char>,
}

impl View for Patch {
    type V = PatchView;

    open spec fn view(&self) -> PatchView {
        PatchView { name: self.name@, selection: self.selection, replacement: self.replacement@ }
    }
}

/// The contents of a list of patches.
pub open spec fn patch_views(patches: Seq<Patch>) -> Seq<PatchView> {
    Seq::new(patches.len(), |i: int| patches[i]@)
}

/// What is to stand in the place of a placeholder.
#[derive(Debug)]
pub enum Outcome {
    /// Nothing: no variable has the placeholder's name.
    Missing,
    /// Nothing: one of the placeholder's filters reads its value as a
    /// number.
    Numeric,
    /// This text.
    Value(String),
}

/// The mathematical content of an [`Outcome`].
pub enum OutcomeView {
    Missing,
    Numeric,
    Value(Seq<char>),
}

impl View for Outcome {
    type V = OutcomeView;

    open spec fn view(&self) -> OutcomeView {
        match self {
            Outcome::Missing => OutcomeView::Missing,
            Outcome::Numeric => OutcomeView::Numeric,
            Outcome::Value(text) => OutcomeView::Value(text@),
        }
    }
}

/// A part of a text together with what is to stand in its place.
#[derive(Debug)]
pub struct Resolved {
    pub name: String,
    pub selection: Selection,
    pub outcome: Outcome,
}

/// The mathematical content of a [`Resolved`].
pub struct ResolvedView {
    pub name: Seq<char>,
    pub selection: Selection,
    pub outcome: OutcomeView,
}

impl View for Resolved {
    type V = ResolvedView;

    open spec fn view(&self) -> ResolvedView {
        ResolvedView { name: self.name@, selection: self.selection, outcome: self.outcome@ }
    }
}

/// The contents of a list of resolved parts.
pub open spec fn resolved_views(items: Seq<Resolved>) -> Seq<ResolvedView> {
    Seq::new(items.len(), |i: int| items[i]@)
}

/// What is to stand in the place of the placeholder `p`: the value of its
/// variable in `vars`, run through its filters.
pub open spec fn resolve(p: PlaceholderView, vars: Map<Seq<char>, Seq<char>>) -> ResolvedView {
    ResolvedView {
        name: p.name,
        selection: p.selection,
        outcome: if !vars.contains_key(p.name) {
            OutcomeView::Missing
        } else if has_numeric(p.filters) {
            OutcomeView::Numeric
        } else {
            OutcomeView::Value(render_all(vars[p.name], p.filters, p.filters.len() as int))
        },
    }
}

/// What is to stand in the place of each of `ps`.
pub open spec fn resolve_all(ps: Seq<PlaceholderView>, vars: Map<Seq<char>, Seq<char>>) -> Seq<
    ResolvedView,
> {
    Seq::new(ps.len(), |k: int| resolve(ps[k], vars))
}

/// A patch as a part of a text with what is to stand in its place.
pub open spec fn patched(p: PatchView) -> ResolvedView {
    ResolvedView {
        name: p.name,
        selection: p.selection,
        outcome: OutcomeView::Value(p.replacement),
    }
}

/// Each of `patches` as a part of a text with what is to stand in its
/// place.
pub open spec fn patched_all(patches: Seq<PatchView>) -> Seq<ResolvedView> {
    Seq::new(patches.len(), |k: int| patched(patches[k]))
}

/// Whether the parts start at strictly descending offsets.
pub open spec fn descending(rs: Seq<ResolvedView>) -> bool {
    forall|j: int, k: int|
        0 <= j < k < rs.len() ==> start_of(#[trigger] rs[j]) > start_of(#[trigger] rs[k])
}

/// The byte offset at which a part starts.
pub open spec fn start_of(p: ResolvedView) -> int {
    p.selection.start.offset as int
}

/// The first index from `j` on at which `s` ends or holds a part that
/// starts before `key`.
pub open spec fn insert_pos(s: Seq<ResolvedView>, key: int, j: int) -> int
    decreases s.len() - j,
{
    if 0 <= j < s.len() && start_of(s[j]) >= key {
        insert_pos(s, key, j + 1)
    } else {
        j
    }
}

/// The first `n` of `ps` in descending order of the offsets at which they
/// start; those that start at the same offset stay in the order in which
/// they came.
pub open spec fn sorted_desc(ps: Seq<ResolvedView>, n: int) -> Seq<ResolvedView>
    decreases n,
{
    if n <= 0 {
        Seq::empty()
    } else {
        let s = sorted_desc(ps, n - 1);
        s.insert(insert_pos(s, start_of(ps[n - 1]), 0), ps[n - 1])
    }
}

/// The text after the part `r` of `cur` was replaced.
pub open spec fn spec_step(cur: Seq<char>, r: ResolvedView) -> Result<Seq<char>, RenderErrorView> {
    let start = r.selection.start.offset as int;
    let end = r.selection.end.offset as int;
    match r.outcome {
        OutcomeView::Missing => Err(RenderErrorView::MissingVariable { name: r.name }),
        OutcomeView::Numeric => Err(RenderErrorView::NumericFilter { name: r.name }),
        OutcomeView::Value(text) => if !(is_boundary(cur, start) && is_boundary(cur, end) && start
            <= end) {
            Err(RenderErrorView::InvalidSelection { name: r.name })
        } else {
            Ok(spliced(cur, char_index(cur, start), char_index(cur, end), text))
        },
    }
}

/// The text after the first `n` of `rs` were replaced in `text`, in the
/// order in which they stand in `rs`.
pub open spec fn spec_apply(text: Seq<char>, rs: Seq<ResolvedView>, n: int) -> Result<
    Seq<char>,
    RenderErrorView,
>
    decreases n,
{
    if n <= 0 {
        Ok(text)
    } else {
        match spec_apply(text, rs, n - 1) {
            Ok(cur) => spec_step(cur, rs[n - 1]),
            Err(e) => Err(e),
        }
    }
}

/// The text `text` with every part of `rs` replaced, those that start
/// later first.
pub open spec fn spec_engine(text: Seq<char>, rs: Seq<ResolvedView>) -> Result<
    Seq<char>,
    RenderErrorView,
> {
    spec_apply(text, sorted_desc(rs, rs.len() as int), rs.len() as int)
}

/// The template `text` with every placeholder of `ps` replaced by the
/// value of its variable in `vars`, run through its filters; those that
/// start later first.
pub open spec fn spec_substitute(
    text: Seq<char>,
    ps: Seq<PlaceholderView>,
    vars: Map<Seq<char>, Seq<char>>,
) -> Result<Seq<char>, RenderErrorView> {
    spec_engine(text, resolve_all(ps, vars))
}

/// The text `text` with every patch of `patches` applied, those that start
/// later first.
pub open spec fn spec_splice(text: Seq<char>, patches: Seq<PatchView>) -> Result<
    Seq<char>,
    RenderErrorView,
> {
    spec_engine(text, patched_all(patches))
}

/// Where a part is to be inserted lies inside the list; everything
/// before it starts at `key` or later, and what stands there starts before
/// `key`.
pub proof fn lemma_insert_pos(s: Seq<ResolvedView>, key: int, j: int)
    requires
        0 <= j <= s.len(),
    ensures
        j <= insert_pos(s, key, j) <= s.len(),
        forall|i: int| j <= i < insert_pos(s, key, j) ==> start_of(#[trigger] s[i]) >= key,
        insert_pos(s, key, j) < s.len() ==> start_of(s[insert_pos(s, key, j)]) < key,
    decreases s.len() - j,
{
    if j < s.len() && start_of(s[j]) >= key {
        lemma_insert_pos(s, key, j + 1);
    }
}

/// Whether `p` is one of `s`.
pub open spec fn occurs(s: Seq<ResolvedView>, p: ResolvedView) -> bool {
    exists|k: int| 0 <= k < s.len() && #[trigger] s[k] == p
}

/// Whether no two of the first `n` of `ps` start at the same offset.
pub open spec fn distinct_starts(ps: Seq<ResolvedView>, n: int) -> bool {
    forall|a: int, b: int|
        0 <= a < b < n ==> start_of(#[trigger] ps[a]) != start_of(#[trigger] ps[b])
}

/// Sorting keeps the parts and their number; where no two start at
/// the same offset, the sorted list is strictly descending.
pub proof fn lemma_sorted_desc(ps: Seq<ResolvedView>, n: int)
    requires
        0 <= n <= ps.len(),
    ensures
        sorted_desc(ps, n).len() == n,
        forall|p: ResolvedView|
            occurs(sorted_desc(ps, n), p) <==> exists|k: int| 0 <= k < n && #[trigger] ps[k] == p,
        distinct_starts(ps, n) ==> descending(sorted_desc(ps, n)),
    decreases n,
{
    if n > 0 {
        lemma_sorted_desc(ps, n - 1);
        let s = sorted_desc(ps, n - 1);
        let p = ps[n - 1];
        let pos = insert_pos(s, start_of(p), 0);
        lemma_insert_pos(s, start_of(p), 0);
        let t = s.insert(pos, p);
        assert(t == sorted_desc(ps, n));
        assert forall|q: ResolvedView| occurs(t, q) <==> exists|k: int|
            0 <= k < n && #[trigger] ps[k] == q by {
            if occurs(t, q) {
                let i = choose|i: int| 0 <= i < t.len() && #[trigger] t[i] == q;
                if i < pos {
                    assert(s[i] == q);
                    assert(occurs(s, q));
                } else if i == pos {
                    assert(ps[n - 1] == q);
                } else {
                    assert(s[i - 1] == q);
                    assert(occurs(s, q));
                }
            }
            if exists|k: int| 0 <= k < n && #[trigger] ps[k] == q {
                let k = choose|k: int| 0 <= k < n && #[trigger] ps[k] == q;
                if k == n - 1 {
                    assert(t[pos] == q);
                } else {
                    assert(occurs(s, q));
                    let i = choose|i: int| 0 <= i < s.len() && #[trigger] s[i] == q;
                    if i < pos {
                        assert(t[i] == q);
                    } else {
                        assert(t[i + 1] == q);
                    }
                }
            }
        }
        if distinct_starts(ps, n) {
            assert(distinct_starts(ps, n - 1));
            assert forall|i: int| 0 <= i < s.len() implies start_of(#[trigger] s[i]) != start_of(
                p,
            ) by {
                assert(occurs(s, s[i]));
                let k = choose|k: int| 0 <= k < n - 1 && #[trigger] ps[k] == s[i];
                assert(start_of(ps[k]) != start_of(ps[n - 1]));
            }
            assert forall|i: int, j: int| 0 <= i < j < t.len() implies start_of(#[trigger] t[i])
                > start_of(#[trigger] t[j]) by {
                let a = if i < pos {
                    i
                } else {
                    i - 1
                };
                let b = if j < pos {
                    j
                } else {
                    j - 1
                };
                if i != pos && j != pos {
                    assert(t[i] == s[a] && t[j] == s[b]);
                } else if i == pos {
                    assert(t[j] == s[b]);
                    if pos < s.len() {
                        assert(start_of(s[pos]) < start_of(p));
                        if b > pos {
                            assert(start_of(s[pos]) > start_of(s[b]));
                        }
                    }
                } else {
                    assert(t[i] == s[a]);
                    assert(start_of(s[a]) >= start_of(p));
                }
            }
        }
    }
}

/// Two strictly descending lists of the same parts are equal.
pub proof fn lemma_descending_unique(x: Seq<ResolvedView>, y: Seq<ResolvedView>)
    requires
        descending(x),
        descending(y),
        forall|p: ResolvedView| occurs(x, p) <==> occurs(y, p),
    ensures
        x == y,
    decreases x.len(),
{
    if x.len() == 0 {
        if y.len() > 0 {
            assert(occurs(y, y[0]));
            assert(occurs(x, y[0]));
        }
        assert(x =~= y);
    } else {
        assert(occurs(x, x[0]));
        assert(occurs(y, x[0]));
        let j = choose|j: int| 0 <= j < y.len() && #[trigger] y[j] == x[0];
        assert(occurs(y, y[0]));
        assert(occurs(x, y[0]));
        let i = choose|i: int| 0 <= i < x.len() && #[trigger] x[i] == y[0];
        if i > 0 {
            assert(start_of(x[0]) > start_of(x[i]));
            if j > 0 {
                assert(start_of(y[0]) > start_of(y[j]));
            }
        }
        assert(x[0] == y[0]);
        let xt = x.skip(1);
        let yt = y.skip(1);
        assert forall|a: int, b: int| 0 <= a < b < xt.len() implies start_of(#[trigger] xt[a])
            > start_of(#[trigger] xt[b]) by {
            assert(xt[a] == x[a + 1] && xt[b] == x[b + 1]);
        }
        assert forall|a: int, b: int| 0 <= a < b < yt.len() implies start_of(#[trigger] yt[a])
            > start_of(#[trigger] yt[b]) by {
            assert(yt[a] == y[a + 1] && yt[b] == y[b + 1]);
        }
        assert forall|p: ResolvedView| occurs(xt, p) <==> occurs(yt, p) by {
            if occurs(xt, p) {
                let k = choose|k: int| 0 <= k < xt.len() && #[trigger] xt[k] == p;
                assert(x[k + 1] == p);
                assert(occurs(x, p));
                let m = choose|m: int| 0 <= m < y.len() && #[trigger] y[m] == p;
                if m == 0 {
                    assert(start_of(x[0]) > start_of(x[k + 1]));
                }
                assert(yt[m - 1] == p);
            }
            if occurs(yt, p) {
                let k = choose|k: int| 0 <= k < yt.len() && #[trigger] yt[k] == p;
                assert(y[k + 1] == p);
                assert(occurs(y, p));
                let m = choose|m: int| 0 <= m < x.len() && #[trigger] x[m] == p;
                if m == 0 {
                    assert(start_of(y[0]) > start_of(y[k + 1]));
                }
                assert(xt[m - 1] == p);
            }
        }
        lemma_descending_unique(xt, yt);
        assert(x =~= seq![x[0]] + xt);
        assert(y =~= seq![y[0]] + yt);
    }
}

/// A template without placeholders is its own substitution.
pub proof fn lemma_substitute_nothing(text: Seq<char>, vars: Map<Seq<char>, Seq<char>>)
    ensures
        spec_substitute(text, Seq::<PlaceholderView>::empty(), vars) == Ok::<
            Seq<char>,
            RenderErrorView,
        >(text),
        spec_splice(text, Seq::<PatchView>::empty()) == Ok::<Seq<char>, RenderErrorView>(text),
{
}

/// The order in which parts are handed to the engine does not matter: two
/// lists of the same parts, in each of which no two start at the same
/// offset, give the same text.
pub proof fn lemma_engine_any_order(text: Seq<char>, a: Seq<ResolvedView>, b: Seq<ResolvedView>)
    requires
        a.len() == b.len(),
        forall|p: ResolvedView| occurs(a, p) <==> occurs(b, p),
        distinct_starts(a, a.len() as int),
        distinct_starts(b, b.len() as int),
    ensures
        spec_engine(text, a) == spec_engine(text, b),
{
    lemma_sorted_desc(a, a.len() as int);
    lemma_sorted_desc(b, b.len() as int);
    let x = sorted_desc(a, a.len() as int);
    let y = sorted_desc(b, b.len() as int);
    assert forall|p: ResolvedView| occurs(x, p) <==> occurs(y, p) by {
        if occurs(x, p) {
            assert(occurs(a, p));
            assert(occurs(b, p));
        }
        if occurs(y, p) {
            assert(occurs(b, p));
            assert(occurs(a, p));
        }
    }
    lemma_descending_unique(x, y);
}

/// Whether `p` is one of `ps`.
pub open spec fn placeholder_occurs(ps: Seq<PlaceholderView>, p: PlaceholderView) -> bool {
    exists|k: int| 0 <= k < ps.len() && #[trigger] ps[k] == p
}

/// Whether no two of `ps` start at the same offset.
pub open spec fn placeholders_apart(ps: Seq<PlaceholderView>) -> bool {
    forall|a: int, b: int|
        0 <= a < b < ps.len() ==> (#[trigger] ps[a]).selection.start.offset != (
        #[trigger] ps[b]).selection.start.offset
}

/// The order in which the placeholders are handed over does not matter:
/// two lists of the same placeholders, in each of which no two start at the
/// same offset, give the same substitution.
pub proof fn lemma_substitute_any_order(
    text: Seq<char>,
    a: Seq<PlaceholderView>,
    b: Seq<PlaceholderView>,
    vars: Map<Seq<char>, Seq<char>>,
)
    requires
        a.len() == b.len(),
        forall|p: PlaceholderView| placeholder_occurs(a, p) <==> placeholder_occurs(b, p),
        placeholders_apart(a),
        placeholders_apart(b),
    ensures
        spec_substitute(text, a, vars) == spec_substitute(text, b, vars),
{
    let x = resolve_all(a, vars);
    let y = resolve_all(b, vars);
    assert forall|r: ResolvedView| occurs(x, r) <==> occurs(y, r) by {
        if occurs(x, r) {
            let k = choose|k: int| 0 <= k < x.len() && #[trigger] x[k] == r;
            assert(placeholder_occurs(a, a[k]));
            assert(placeholder_occurs(b, a[k]));
            let j = choose|j: int| 0 <= j < b.len() && #[trigger] b[j] == a[k];
            assert(y[j] == r);
        }
        if occurs(y, r) {
            let k = choose|k: int| 0 <= k < y.len() && #[trigger] y[k] == r;
            assert(placeholder_occurs(b, b[k]));
            assert(placeholder_occurs(a, b[k]));
            let j = choose|j: int| 0 <= j < a.len() && #[trigger] a[j] == b[k];
            assert(x[j] == r);
        }
    }
    assert forall|i: int, j: int| 0 <= i < j < x.len() implies start_of(#[trigger] x[i])
        != start_of(#[trigger] x[j]) by {
        assert(a[i].selection.start.offset != a[j].selection.start.offset);
    }
    assert forall|i: int, j: int| 0 <= i < j < y.len() implies start_of(#[trigger] y[i])
        != start_of(#[trigger] y[j]) by {
        assert(b[i].selection.start.offset != b[j].selection.start.offset);
    }
    lemma_engine_any_order(text, x, y);
}

/// The parts of `items` that `order` names, in that order.
pub open spec fn picks(items: Seq<Resolved>, order: Seq<usize>) -> Seq<ResolvedView> {
    Seq::new(order.len(), |k: int| items[order[k] as int]@)
}

/// The indices of `items` in descending order of the offsets at which the
/// parts start.
fn sort_descending(items: &Vec<Resolved>) -> (order: Vec<usize>)
    ensures
        order.len() == items.len(),
        forall|k: int| 0 <= k < order.len() ==> (#[trigger] order@[k]) < items.len(),
        picks(items@, order@) == sorted_desc(resolved_views(items@), items.len() as int),
{
    let mut order: Vec<usize> = Vec::new();
    let mut n: usize = 0;
    assert(picks(items@, order@) =~= sorted_desc(resolved_views(items@), 0));
    while n < items.len()
        invariant
            n <= items.len(),
            order.len() == n,
            forall|k: int| 0 <= k < order.len() ==> (#[trigger] order@[k]) < items.len(),
            picks(items@, order@) == sorted_desc(resolved_views(items@), n as int),
        decreases items.len() - n,
    {
        let key = items[n].selection.start.offset;
        let ghost sorted = picks(items@, order@);
        let mut j: usize = 0;
        while j < order.len() && items[order[j]].selection.start.offset >= key
            invariant
                j <= order.len(),
                sorted == picks(items@, order@),
                forall|k: int| 0 <= k < order.len() ==> (#[trigger] order@[k]) < items.len(),
                insert_pos(sorted, key as int, j as int) == insert_pos(sorted, key as int, 0),
            decreases order.len() - j,
        {
            assert(sorted[j as int] == items@[order@[j as int] as int]@);
            j += 1;
        }
        proof {
            if j < order.len() {
                assert(sorted[j as int] == items@[order@[j as int] as int]@);
            }
            assert(resolved_views(items@)[n as int] == items@[n as int]@);
        }
        order.insert(j, n);
        assert(picks(items@, order@) =~= sorted.insert(j as int, items@[n as int]@));
        n += 1;
    }
    order
}

/// Once a part cannot be replaced, the whole has failed.
pub proof fn lemma_apply_fails(text: Seq<char>, rs: Seq<ResolvedView>, n: int, m: int)
    requires
        0 <= n <= m,
        spec_apply(text, rs, n) is Err,
    ensures
        spec_apply(text, rs, m) == spec_apply(text, rs, n),
    decreases m - n,
{
    if n < m {
        lemma_apply_fails(text, rs, n, m - 1);
    }
}

/// Replaces every part of `items` in `template`, those that start later
/// first.
fn run_engine(template: &str, items: &Vec<Resolved>) -> (res: Result<String, RenderError>)
    ensures
        match spec_engine(template@, resolved_views(items@)) {
            Ok(text) => res is Ok && res->Ok_0@ == text,
            Err(e) => res is Err && res->Err_0@ == e,
        },
{
    let order = sort_descending(items);
    let ghost sorted = picks(items@, order@);
    let ghost total = items.len() as int;
    let mut cur = to_chars(template);
    let mut n: usize = 0;
    while n < order.len()
        invariant
            n <= order.len(),
            order.len() == items.len(),
            total == items.len(),
            forall|k: int| 0 <= k < order.len() ==> (#[trigger] order@[k]) < items.len(),
            sorted == picks(items@, order@),
            sorted == sorted_desc(resolved_views(items@), total),
            spec_apply(template@, sorted, n as int) == Ok::<Seq<char>, RenderErrorView>(cur@),
        decreases order.len() - n,
    {
        let item = &items[order[n]];
        assert(sorted[n as int] == item@);
        proof {
            if spec_step(cur@, item@) is Err {
                lemma_apply_fails(template@, sorted, n + 1, total);
            }
        }
        let rendered = match &item.outcome {
            Outcome::Missing => {
                return Err(RenderError::MissingVariable { name: item.name.clone() });
            },
            Outcome::Numeric => {
                return Err(RenderError::NumericFilter { name: item.name.clone() });
            },
            Outcome::Value(text) => to_chars(text.as_str()),
        };
        let start = item.selection.start.offset;
        let end = item.selection.end.offset;
        let a = locate(&cur, start);
        let b = locate(&cur, end);
        if a.is_none() || b.is_none() || start > end {
            return Err(RenderError::InvalidSelection { name: item.name.clone() });
        }
        proof {
            lemma_char_index_order(cur@, start as int, end as int);
        }
        let a = a.unwrap();
        let b = b.unwrap();
        let mut next: Vec<char> = Vec::new();
        append(&mut next, &cur, 0, a);
        append(&mut next, &rendered, 0, rendered.len());
        append(&mut next, &cur, b, cur.len());
        assert(next@ =~= spliced(cur@, a as int, b as int, rendered@)) by {
            assert(rendered@.subrange(0, rendered.len() as int) =~= rendered@);
        }
        cur = next;
        n += 1;
    }
    Ok(text_of(&cur))
}

/// Replaces every placeholder of `placeholders` in `template` by the value
/// of its variable, run through its filters. The placeholders are taken in
/// descending order of the offsets at which they start, whatever their
/// order in the list, so that a replacement never moves a placeholder that
/// is still to come.
///
/// It is an error where a placeholder names a variable that `variables`
/// lacks, asks for a filter that reads its value as a number, or selects
/// bytes that are no run of characters of the text as it then stands; the
/// first placeholder, in descending order, that cannot be replaced decides
/// the error.
pub fn substitute(template: &str, placeholders: &Vec<Placeholder>, variables: &Variables) -> (res:
    Result<String, RenderError>)
    ensures
        match spec_substitute(template@, placeholder_views(placeholders@), variables@) {
            Ok(text) => res is Ok && res->Ok_0@ == text,
            Err(e) => res is Err && res->Err_0@ == e,
        },
{
    let mut items: Vec<Resolved> = Vec::new();
    let mut k: usize = 0;
    while k < placeholders.len()
        invariant
            k <= placeholders.len(),
            items.len() == k,
            forall|j: int|
                0 <= j < k ==> (#[trigger] items@[j])@ == resolve(
                    placeholders@[j]@,
                    variables@,
                ),
        decreases placeholders.len() - k,
    {
        let p = &placeholders[k];
        let outcome = match variables.get(p.name.as_str()) {
            Some(value) => match render_filters(value.clone(), &p.filters) {
                Some(text) => Outcome::Value(text),
                None => Outcome::Numeric,
            },
            None => Outcome::Missing,
        };
        items.push(Resolved { name: p.name.clone(), selection: p.selection, outcome });
        k += 1;
    }
    assert(resolved_views(items@) =~= resolve_all(placeholder_views(placeholders@), variables@));
    run_engine(template, &items)
}

/// Applies every patch of `patches` to `template`: the bytes that a patch
/// selects are replaced by its replacement. The patches are taken in
/// descending order of the offsets at which they start, whatever their
/// order in the list, so that a replacement never moves a part that is
/// still to come.
///
/// It is an error where a patch selects bytes that are no run of
/// characters of the text as it then stands; the first such patch, in
/// descending order, is named.
pub fn splice(template: &str, patches: &Vec<Patch>) -> (res: Result<String, RenderError>)
    ensures
        match spec_splice(template@, patch_views(patches@)) {
            Ok(text) => res is Ok && res->Ok_0@ == text,
            Err(e) => res is Err && res->Err_0@ == e,
        },
{
    let mut items: Vec<Resolved> = Vec::new();
    let mut k: usize = 0;
    while k < patches.len()
        invariant
            k <= patches.len(),
            items.len() == k,
            forall|j: int| 0 <= j < k ==> (#[trigger] items@[j])@ == patched(patches@[j]@),
        decreases patches.len() - k,
    {
        let p = &patches[k];
        items.push(
            Resolved {
                name: p.name.clone(),
                selection: p.selection,
                outcome: Outcome::Value(p.replacement.clone()),
            },
        );
        k += 1;
    }
    assert(resolved_views(items@) =~= patched_all(patch_views(patches@)));
    run_engine(template, &items)
}

/// Whether `ps` are parts of `text` that do not overlap, the later parts
/// first.
pub open spec fn fits(text: Seq<char>, ps: Seq<ResolvedView>) -> bool {
    &&& descending(ps)
    &&& forall|k: int|
        0 <= k < ps.len() ==> {
            &&& is_boundary(text, (#[trigger] ps[k]).selection.start.offset as int)
            &&& is_boundary(text, ps[k].selection.end.offset as int)
            &&& ps[k].selection.start.offset <= ps[k].selection.end.offset
        }
    &&& forall|j: int, k: int|
        0 <= j < k < ps.len() ==> (#[trigger] ps[k]).selection.end.offset <= (
        #[trigger] ps[j]).selection.start.offset
}

/// Whether for each of the first `n` of `rs` there is a text to stand in
/// its place.
pub open spec fn ready(rs: Seq<ResolvedView>, n: int) -> bool {
    forall|k: int| 0 <= k < n ==> (#[trigger] rs[k]).outcome is Value
}

/// Whether every placeholder names a variable of `vars` and asks for no
/// filter that reads its value as a number.
pub open spec fn renderable(ps: Seq<PlaceholderView>, vars: Map<Seq<char>, Seq<char>>) -> bool {
    forall|k: int|
        0 <= k < ps.len() ==> vars.contains_key((#[trigger] ps[k]).name) && !has_numeric(
            ps[k].filters,
        )
}

/// The number of characters at the start of `text` that the first `n`
/// replacements leave as they are.
pub open spec fn kept(text: Seq<char>, ps: Seq<ResolvedView>, n: int) -> int {
    if n <= 0 {
        text.len() as int
    } else {
        char_index(text, ps[n - 1].selection.start.offset as int)
    }
}

/// Texts that start with the same characters have the same byte lengths
/// there.
pub proof fn lemma_same_prefix_bytes(x: Seq<char>, y: Seq<char>, m: int, k: int)
    requires
        0 <= k <= m,
        m <= x.len(),
        m <= y.len(),
        x.take(m) == y.take(m),
    ensures
        byte_len(x, k) == byte_len(y, k),
    decreases k,
{
    if k > 0 {
        lemma_same_prefix_bytes(x, y, m, k - 1);
        assert(x[k - 1] == x.take(m)[k - 1]);
        assert(y[k - 1] == y.take(m)[k - 1]);
    }
}

/// A list that is in descending order already is its own sorted form.
pub proof fn lemma_sorted_already(ps: Seq<ResolvedView>, n: int)
    requires
        descending(ps),
        0 <= n <= ps.len(),
    ensures
        sorted_desc(ps, n) == ps.take(n),
    decreases n,
{
    if n > 0 {
        lemma_sorted_already(ps, n - 1);
        let s = ps.take(n - 1);
        let key = start_of(ps[n - 1]);
        lemma_insert_pos(s, key, 0);
        let pos = insert_pos(s, key, 0);
        if pos < s.len() {
            assert(s[pos] == ps[pos]);
            assert(start_of(ps[pos]) > start_of(ps[n - 1]));
        }
        assert(s.insert(n - 1, ps[n - 1]) =~= ps.take(n));
    } else {
        assert(ps.take(0) =~= Seq::<ResolvedView>::empty());
    }
}

/// The invariant of the engine: where the parts fit the text, each
/// replacement leaves the text before the part as it was, so the next part
/// still selects what it selected at first. No replacement fails on its
/// selection, and all succeed exactly if there is a text for each part.
pub proof fn lemma_apply_fits(text: Seq<char>, ps: Seq<ResolvedView>, n: int)
    requires
        fits(text, ps),
        0 <= n <= ps.len(),
    ensures
        spec_apply(text, ps, n) is Ok <==> ready(ps, n),
        spec_apply(text, ps, n) is Ok ==> {
            let cur = spec_apply(text, ps, n)->Ok_0;
            &&& 0 <= kept(text, ps, n) <= cur.len()
            &&& kept(text, ps, n) <= text.len()
            &&& cur.take(kept(text, ps, n)) == text.take(kept(text, ps, n))
        },
        spec_apply(text, ps, n) is Err ==> !(spec_apply(text, ps, n)->Err_0 is InvalidSelection),
    decreases n,
{
    if n == 0 {
        assert(text.take(text.len() as int) =~= text);
    } else {
        lemma_apply_fits(text, ps, n - 1);
        let before = spec_apply(text, ps, n - 1);
        let p = ps[n - 1];
        if before is Ok {
            let cur = before->Ok_0;
            let m = kept(text, ps, n - 1);
            let start = p.selection.start.offset as int;
            let end = p.selection.end.offset as int;
            let a = char_index(text, start);
            let b = char_index(text, end);
            lemma_char_index_order(text, start, end);
            if n - 1 > 0 {
                let q = ps[n - 2];
                assert(p.selection.end.offset <= q.selection.start.offset);
                lemma_char_index_order(text, end, q.selection.start.offset as int);
            }
            assert(b <= m);
            lemma_same_prefix_bytes(cur, text, m, a);
            lemma_same_prefix_bytes(cur, text, m, b);
            lemma_char_index(cur, a);
            lemma_char_index(cur, b);
            if p.outcome is Value {
                let out = spec_step(cur, p)->Ok_0;
                assert(out.take(a) =~= cur.take(a));
                assert(cur.take(a) =~= cur.take(m).take(a));
                assert(text.take(a) =~= text.take(m).take(a));
            }
        }
    }
}

/// Parts that fit the text are all replaced exactly if there is a text for
/// each of them; their selections never stand in the way.
pub proof fn lemma_engine_fits(text: Seq<char>, ps: Seq<ResolvedView>)
    requires
        fits(text, ps),
    ensures
        spec_engine(text, ps) is Ok <==> ready(ps, ps.len() as int),
        spec_engine(text, ps) is Err ==> !(spec_engine(text, ps)->Err_0 is InvalidSelection),
{
    lemma_sorted_already(ps, ps.len() as int);
    assert(ps.take(ps.len() as int) =~= ps);
    lemma_apply_fits(text, ps, ps.len() as int);
}

/// A substitution of placeholders that fit the text succeeds exactly if
/// every one of them names a variable of the table and asks for no filter
/// that reads its value as a number.
pub proof fn lemma_substitute_fits(
    text: Seq<char>,
    ps: Seq<PlaceholderView>,
    vars: Map<Seq<char>, Seq<char>>,
)
    requires
        fits(text, resolve_all(ps, vars)),
    ensures
        spec_substitute(text, ps, vars) is Ok <==> renderable(ps, vars),
        spec_substitute(text, ps, vars) is Err ==> !(spec_substitute(
            text,
            ps,
            vars,
        )->Err_0 is InvalidSelection),
{
    let rs = resolve_all(ps, vars);
    lemma_engine_fits(text, rs);
    if ready(rs, rs.len() as int) {
        assert forall|k: int| 0 <= k < ps.len() implies vars.contains_key(
            (#[trigger] ps[k]).name,
        ) && !has_numeric(ps[k].filters) by {
            assert(rs[k].outcome is Value);
        }
    }
    if renderable(ps, vars) {
        assert forall|k: int| 0 <= k < rs.len() implies (#[trigger] rs[k]).outcome is Value by {
            assert(vars.contains_key(ps[k].name));
        }
    }
}

/// Patches that fit the text are always applied.
pub proof fn lemma_splice_fits(text: Seq<char>, patches: Seq<PatchView>)
    requires
        fits(text, patched_all(patches)),
    ensures
        spec_splice(text, patches) is Ok,
{
    lemma_engine_fits(text, patched_all(patches));
}

} // verus!
