//! The filters that a placeholder may name, and the text cases among them.

use vstd::prelude::*;

verus! {

/// The ways in which the `text` filter can recase a value.
#[derive(Clone, Copy, Debug, PartialEq, Eq, Structural)]
pub enum TextCase {
    /// All lowercase.
    Lower,
    /// All uppercase.
    Upper,
    /// The first letter of each word in uppercase.
    Title,
    /// Lowercase words joined by `-`.
    Kebab,
    /// Lowercase words joined by `_`.
    Snake,
    /// Capitalised words, joined without a separator.
    Pascal,
    /// As Pascal, but the first word starts in lowercase.
    Camel,
    /// The case of every character flipped.
    Invert,
}

/// A named transformation of a placeholder's value.
#[derive(Clone, Debug, PartialEq)]
pub enum Filter {
    /// Rounds a number up to a whole number.
    Ceil,
    /// Rounds a number down to a whole number.
    Floor,
    /// Rounds a number to `precision` decimal places.
    Round { precision: u8 },
    /// All lowercase.
    Lowercase,
    /// All uppercase.
    Uppercase,
    /// Renders Markdown as HTML.
    Markdown,
    /// Replaces `find` by `replacement`, at most `limit` times if a limit is
    /// given.
    Replace { find: String, replacement: String, limit: Option<u8> },
    /// Reverses the characters.
    Reverse,
    /// Recases the text.
    Text { case: TextCase },
    /// Keeps at most `characters` characters, and appends `trail` if any were
    /// cut.
    Truncate { characters: u8, trail: String },
}

/// The mathematical content of a [`Filter`].
pub enum FilterView {
    Ceil,
    Floor,
    Round { precision: u8 },
    Lowercase,
    Uppercase,
    Markdown,
    Replace { find: Seq<char>, replacement: Seq<char>, limit: Option<u8> },
    Reverse,
    Text { case: TextCase },
    Truncate { characters: u8, trail: Seq<char> },
}

impl FilterView {
    /// The filters that read their value as a number.
    pub open spec fn is_numeric(self) -> bool {
        self is Ceil || self is Floor || self is Round
    }
}

impl View for Filter {
    type V = FilterView;

    open spec fn view(&self) -> FilterView {
        match self {
            Filter::Ceil => FilterView::Ceil,
            Filter::Floor => FilterView::Floor,
            Filter::Round { precision } => FilterView::Round { precision: *precision },
            Filter::Lowercase => FilterView::Lowercase,
            Filter::Uppercase => FilterView::Uppercase,
            Filter::Markdown => FilterView::Markdown,
            Filter::Replace { find, replacement, limit } => FilterView::Replace {
                find: find@,
                replacement: replacement@,
                limit: *limit,
            },
            Filter::Reverse => FilterView::Reverse,
            Filter::Text { case } => FilterView::Text { case: *case },
            Filter::Truncate { characters, trail } => FilterView::Truncate {
                characters: *characters,
                trail: trail@,
            },
        }
    }
}

impl Filter {
    /// Whether the filter reads its value as a number.
    pub fn is_numeric(&self) -> (res: bool)
        ensures
            res == self@.is_numeric(),
    {
        match self {
            Filter::Ceil => true,
            Filter::Floor => true,
            Filter::Round { .. } => true,
            _ => false,
        }
    }

    /// Whether the filter is the Markdown renderer.
    pub fn is_markdown(&self) -> (res: bool)
        ensures
            res == (self@ is Markdown),
    {
        match self {
            Filter::Markdown => true,
            _ => false,
        }
    }
}

/// The views of a list of filters, in order.
pub open spec fn filter_views(filters: Seq<Filter>) -> Seq<FilterView> {
    Seq::new(filters.len(), |i: int| filters[i]@)
}

} // verus!
