//! The table of variables that a document defines: its metadata, its title
//! and its content.

use vstd::prelude::*;
use crate::meta::{Meta, MetaView, meta_views, spec_title, title_at};
use crate::scan::{trimmed, trimmed_text};
use crate::span::Span;
use crate::text::{to_chars, to_text, same_chars, text_of};

verus! {

/// A name and the value that it has.
pub type Pair = (Seq<char>, Seq<char>);

/// The table that the first `n` of `pairs` make: a later pair replaces an
/// earlier one of the same name.
pub open spec fn table_of(pairs: Seq<Pair>, n: int) -> Map<Seq<char>, Seq<char>>
    decreases n,
{
    if n <= 0 {
        Map::empty()
    } else {
        table_of(pairs, n - 1).insert(pairs[n - 1].0, pairs[n - 1].1)
    }
}

/// The names and values of a list of entries.
pub open spec fn meta_pairs(metas: Seq<MetaView>) -> Seq<Pair> {
    Seq::new(metas.len(), |i: int| (metas[i].key, metas[i].value))
}

/// A table is made of the pairs before index `n` alone.
pub proof fn lemma_table_prefix(a: Seq<Pair>, b: Seq<Pair>, n: int)
    requires
        0 <= n <= a.len(),
        n <= b.len(),
        forall|k: int| 0 <= k < n ==> a[k] == b[k],
    ensures
        table_of(a, n) == table_of(b, n),
    decreases n,
{
    if n > 0 {
        lemma_table_prefix(a, b, n - 1);
    }
}

/// A name is in the table exactly if one of the pairs has it.
pub proof fn lemma_table_keys(pairs: Seq<Pair>, n: int, key: Seq<char>)
    requires
        0 <= n <= pairs.len(),
    ensures
        table_of(pairs, n).contains_key(key) <==> exists|k: int| 0 <= k < n && (#[trigger] pairs[k]).0 == key,
    decreases n,
{
    if n > 0 {
        lemma_table_keys(pairs, n - 1, key);
        if pairs[n - 1].0 == key {
        } else if table_of(pairs, n).contains_key(key) {
        } else {
        }
    }
}

/// Replacing the value of the only pair named `key` sets `key` in the table.
pub proof fn lemma_table_replace(pairs: Seq<Pair>, i: int, value: Seq<char>, n: int)
    requires
        0 <= i < pairs.len(),
        0 <= n <= pairs.len(),
        forall|j: int, k: int|
            0 <= j < k < pairs.len() ==> (#[trigger] pairs[j]).0 != (#[trigger] pairs[k]).0,
    ensures
        table_of(pairs.update(i, (pairs[i].0, value)), n) == if i < n {
            table_of(pairs, n).insert(pairs[i].0, value)
        } else {
            table_of(pairs, n)
        },
    decreases n,
{
    let changed = pairs.update(i, (pairs[i].0, value));
    if n > 0 {
        lemma_table_replace(pairs, i, value, n - 1);
        if i == n - 1 {
            assert(table_of(changed, n) =~= table_of(pairs, n).insert(pairs[i].0, value));
        } else if i < n - 1 {
            assert(pairs[i].0 != pairs[n - 1].0);
            assert(table_of(changed, n) =~= table_of(pairs, n).insert(pairs[i].0, value));
        }
    }
}

/// The variables of a document, by name. No name occurs twice.
#[derive(Debug)]
pub struct Variables {
    entries: Vec<(String, String)>,
}

impl Variables {
    /// The names and values that the table holds, in the order in which the
    /// names came.
    pub closed spec fn pairs(&self) -> Seq<Pair> {
        Seq::new(self.entries@.len(), |i: int| (self.entries@[i].0@, self.entries@[i].1@))
    }

    /// No name occurs twice.
    pub closed spec fn wf(&self) -> bool {
        forall|j: int, k: int|
            0 <= j < k < self.pairs().len() ==> (#[trigger] self.pairs()[j]).0 != (
            #[trigger] self.pairs()[k]).0
    }

    /// An empty table.
    pub fn new() -> (res: Variables)
        ensures
            res.wf(),
            res@ == Map::<Seq<char>, Seq<char>>::empty(),
    {
        Variables { entries: Vec::new() }
    }

    /// The index of the entry named `key`.
    fn position(&self, key: &Vec<char>) -> (res: Option<usize>)
        ensures
            res is Some <==> self@.contains_key(key@),
            res is Some ==> res->0 < self.entries.len() && self.pairs()[res->0 as int].0 == key@
                && self@[key@] == self.pairs()[res->0 as int].1,
    {
        let mut n: usize = self.entries.len();
        while n > 0
            invariant
                n <= self.entries.len(),
                table_of(self.pairs(), n as int).contains_key(key@) <==> self@.contains_key(key@),
                self@.contains_key(key@) ==> table_of(self.pairs(), n as int)[key@] == self@[key@],
            decreases n,
        {
            let name = to_chars(self.entries[n - 1].0.as_str());
            assert(self.pairs()[n - 1] == (self.entries@[n - 1].0@, self.entries@[n - 1].1@));
            if same_chars(&name, key) {
                return Some(n - 1);
            }
            n -= 1;
        }
        None
    }

    /// Whether the table has a variable named `key`.
    pub fn contains_key(&self, key: &str) -> (res: bool)
        ensures
            res == self@.contains_key(key@),
    {
        let name = to_chars(key);
        self.position(&name).is_some()
    }

    /// The value of the variable named `key`, if there is one.
    pub fn get(&self, key: &str) -> (res: Option<&String>)
        ensures
            res is Some == self@.contains_key(key@),
            res is Some ==> res->0@ == self@[key@],
    {
        let name = to_chars(key);
        match self.position(&name) {
            Some(k) => Some(&self.entries[k].1),
            None => None,
        }
    }

    /// The names of the variables, in the order in which they came.
    pub fn names(&self) -> (res: Vec<String>)
        ensures
            res.len() == self.pairs().len(),
            forall|k: int| 0 <= k < res.len() ==> (#[trigger] res@[k])@ == self.pairs()[k].0,
    {
        let mut res: Vec<String> = Vec::new();
        let mut k: usize = 0;
        while k < self.entries.len()
            invariant
                k <= self.entries.len(),
                res.len() == k,
                forall|j: int| 0 <= j < k ==> (#[trigger] res@[j])@ == self.pairs()[j].0,
            decreases self.entries.len() - k,
        {
            res.push(self.entries[k].0.clone());
            k += 1;
        }
        res
    }

    /// Gives the variable named `key` the value `value`, whether or not it
    /// had one.
    pub fn insert(&mut self, key: String, value: String)
        requires
            old(self).wf(),
        ensures
            final(self).wf(),
            final(self)@ == old(self)@.insert(key@, value@),
    {
        let name = to_chars(key.as_str());
        let ghost before = self.pairs();
        match self.position(&name) {
            Some(k) => {
                proof {
                    lemma_table_replace(before, k as int, value@, before.len() as int);
                }
                self.entries.set(k, (key, value));
                assert(self.pairs() =~= before.update(k as int, (before[k as int].0, value@)));
            },
            None => {
                proof {
                    assert forall|j: int| 0 <= j < before.len() implies (#[trigger] before[j]).0
                        != key@ by {
                        lemma_table_keys(before, before.len() as int, key@);
                    }
                }
                self.entries.push((key, value));
                assert(self.pairs() =~= before.push((key@, value@)));
                proof {
                    lemma_table_prefix(self.pairs(), before, before.len() as int);
                }
            },
        }
    }
}

impl View for Variables {
    type V = Map<Seq<char>, Seq<char>>;

    closed spec fn view(&self) -> Map<Seq<char>, Seq<char>> {
        table_of(self.pairs(), self.pairs().len() as int)
    }
}


/// Why a document could not be rendered.
#[derive(Debug, PartialEq)]
pub enum RenderError {
    /// The document has no title: none in its metadata, and no heading.
    MissingTitle,
    /// A placeholder names a variable that the document does not define.
    MissingVariable { name: String },
    /// A placeholder asks for a filter that reads its value as a number.
    NumericFilter { name: String },
    /// A placeholder selects bytes that are not a run of characters of the
    /// text.
    InvalidSelection { name: String },
    /// The template names a filter that does not exist.
    UnknownFilter,
    /// The document opens a metadata block that is not well-formed.
    MalformedMetadata,
}

/// The mathematical content of a [`RenderError`].
pub enum RenderErrorView {
    MissingTitle,
    MissingVariable { name: Seq<char> },
    NumericFilter { name: Seq<char> },
    InvalidSelection { name: Seq<char> },
    UnknownFilter,
    MalformedMetadata,
}

impl View for RenderError {
    type V = RenderErrorView;

    open spec fn view(&self) -> RenderErrorView {
        match self {
            RenderError::MissingTitle => RenderErrorView::MissingTitle,
            RenderError::MissingVariable { name } => RenderErrorView::MissingVariable {
                name: name@,
            },
            RenderError::NumericFilter { name } => RenderErrorView::NumericFilter { name: name@ },
            RenderError::InvalidSelection { name } => RenderErrorView::InvalidSelection {
                name: name@,
            },
            RenderError::UnknownFilter => RenderErrorView::UnknownFilter,
            RenderError::MalformedMetadata => RenderErrorView::MalformedMetadata,
        }
    }
}

/// The table of a document with the entries `metas` and the text `markdown`
/// behind its metadata block: the entries, a later one replacing an earlier
/// one of the same name; the title, from the entries or else from the first
/// heading of the text; the content, from the entries or else the whole
/// text, trimmed. `None` where there is no title.
pub open spec fn spec_variables(markdown: Seq<char>, metas: Seq<MetaView>) -> Option<
    Map<Seq<char>, Seq<char>>,
> {
    let base = table_of(meta_pairs(metas), metas.len() as int);
    let titled = if base.contains_key("title"@) {
        Some(base)
    } else {
        match spec_title(markdown, 0) {
            Some(t) => Some(base.insert("title"@, markdown.subrange(t.1, t.2))),
            None => None,
        }
    };
    match titled {
        Some(table) => if table.contains_key("content"@) {
            Some(table)
        } else {
            Some(table.insert("content"@, trimmed(markdown)))
        },
        None => None,
    }
}

/// Builds the table of a document's variables from the entries of its
/// metadata block and from `markdown`, the text behind that block. The
/// title and the content are added where no entry defines them; a document
/// without a title is an error.
pub fn create_variables(markdown: Span, meta_values: Vec<Meta>) -> (res: Result<
    Variables,
    RenderError,
>)
    ensures
        match spec_variables(markdown@.text, meta_views(meta_values@)) {
            Some(table) => res is Ok && res->Ok_0@ == table && res->Ok_0.wf(),
            None => res is Err && res->Err_0@ == RenderErrorView::MissingTitle,
        },
{
    let mut variables = Variables::new();
    let ghost pairs = meta_pairs(meta_views(meta_values@));
    let mut metas = meta_values;
    let mut k: usize = 0;
    let n = metas.len();
    while k < n
        invariant
            k <= n,
            n == metas.len(),
            metas@ == meta_values@,
            pairs == meta_pairs(meta_views(meta_values@)),
            variables.wf(),
            variables@ == table_of(pairs, k as int),
        decreases n - k,
    {
        let key = metas[k].key.clone();
        let value = metas[k].value.clone();
        assert(pairs[k as int] == (key@, value@));
        variables.insert(key, value);
        k += 1;
    }
    let chars = to_chars(markdown.fragment);
    if !variables.contains_key("title") {
        match title_at(&chars, 0) {
            Some((_, a, b)) => {
                variables.insert(text_of(&to_chars("title")), to_text(&chars, a, b));
            },
            None => {
                return Err(RenderError::MissingTitle);
            },
        }
    }
    if !variables.contains_key("content") {
        variables.insert(text_of(&to_chars("content")), trimmed_text(&chars));
    }
    Ok(variables)
}

} // verus!
