//! Located text: a fragment of a larger text together with the byte offset
//! and line at which it starts, and the markers and selections cut from it.

use vstd::prelude::*;
use vstd::string::*;
use crate::text::{byte_len, newlines, to_chars, char_width, text_bytes, lemma_prefix_measures,
    lemma_slice_measures};

verus! {

/// Why a parser did not produce a value.
#[derive(Clone, Copy, Debug, PartialEq, Eq, Structural)]
pub enum SyntaxError {
    /// The text at this point does not have the expected form.
    NoMatch,
    /// A filter was named that does not exist; nothing after it is read.
    UnknownFilter,
    /// A metadata block is opened but is not well-formed.
    MalformedMeta,
}

/// A fragment of text and where it starts in the text it was cut from.
#[derive(Clone, Copy, Debug, PartialEq, Eq)]
pub struct Span<'a> {
    pub fragment: &'a str,
    pub offset: usize,
    pub line: u32,
}

/// The mathematical content of a [`Span`].
pub struct SpanView {
    pub text: Seq<char>,
    pub offset: nat,
    pub line: nat,
}

/// The line number `n`, or the largest line number that can be held if `n`
/// is beyond it.
pub open spec fn capped_line(n: nat) -> nat {
    if n > u32::MAX {
        u32::MAX as nat
    } else {
        n
    }
}

impl SpanView {
    /// The end of the fragment is still a representable offset.
    pub open spec fn wf(self) -> bool {
        &&& self.offset + byte_len(self.text, self.text.len() as int) <= usize::MAX
        &&& self.line <= u32::MAX
    }

    /// The characters `a..b` of the fragment, located.
    pub open spec fn part(self, a: int, b: int) -> SpanView {
        SpanView {
            text: self.text.subrange(a, b),
            offset: self.offset + byte_len(self.text, a),
            line: capped_line(self.line + newlines(self.text, a)),
        }
    }

    /// What is left of the fragment after its first `a` characters.
    pub open spec fn rest(self, a: int) -> SpanView {
        self.part(a, self.text.len() as int)
    }

    /// A part of a well-formed span is well-formed.
    pub proof fn lemma_part_wf(self, a: int, b: int)
        requires
            self.wf(),
            0 <= a <= b <= self.text.len(),
        ensures
            self.part(a, b).wf(),
            self.part(a, b).offset + byte_len(self.part(a, b).text, b - a) == self.offset
                + byte_len(self.text, b),
    {
        lemma_slice_measures(self.text, a, b, b - a);
        lemma_prefix_measures(self.text, b, self.text.len() as int);
    }
}

/// The span of a whole text: it starts at offset 0 on line 1.
pub open spec fn whole_text(text: Seq<char>) -> SpanView {
    SpanView { text: text, offset: 0, line: 1 }
}

impl<'a> View for Span<'a> {
    type V = SpanView;

    open spec fn view(&self) -> SpanView {
        SpanView { text: self.fragment@, offset: self.offset as nat, line: self.line as nat }
    }
}

impl<'a> Span<'a> {
    /// The span of a whole text: offset 0, line 1.
    pub fn new(text: &'a str) -> (res: Span<'a>)
        ensures
            res@ == whole_text(text@),
            res@.wf(),
    {
        let _ = text_bytes(text);
        Span { fragment: text, offset: 0, line: 1 }
    }

    /// The text of the fragment.
    pub fn fragment(&self) -> (res: &'a str)
        ensures
            res@ == self@.text,
    {
        self.fragment
    }

    /// The byte offset at which the fragment starts.
    pub fn location_offset(&self) -> (res: usize)
        ensures
            res == self@.offset,
    {
        self.offset
    }

    /// The line, counted from 1, on which the fragment starts.
    pub fn location_line(&self) -> (res: u32)
        ensures
            res == self@.line,
    {
        self.line
    }

    /// Whether the end of the fragment is a representable offset; the
    /// parsers ask for it, and the spans that they and [`Span::new`] give
    /// have it.
    pub fn is_wf(&self) -> (res: bool)
        ensures
            res == self@.wf(),
    {
        text_bytes(self.fragment) <= usize::MAX - self.offset
    }

    /// The characters `a..b` of the fragment as a span of their own, where
    /// `chars` holds the fragment's characters.
    pub fn part(&self, chars: &Vec<char>, a: usize, b: usize) -> (res: Span<'a>)
        requires
            self@.wf(),
            chars@ == self@.text,
            a <= b <= chars.len(),
        ensures
            res@ == self@.part(a as int, b as int),
            res@.wf(),
    {
        let mut bytes: usize = self.offset;
        let mut lines: u32 = self.line;
        let mut i: usize = 0;
        while i < a
            invariant
                i <= a <= chars.len(),
                chars@ == self@.text,
                self@.wf(),
                bytes == self.offset + byte_len(chars@, i as int),
                lines == capped_line((self.line + newlines(chars@, i as int)) as nat),
            decreases a - i,
        {
            proof {
                lemma_prefix_measures(chars@, i as int + 1, chars.len() as int);
            }
            bytes += char_width(chars[i]);
            if chars[i] == '\n' && lines < u32::MAX {
                lines += 1;
            }
            i += 1;
        }
        proof {
            self@.lemma_part_wf(a as int, b as int);
        }
        Span { fragment: self.fragment.substring_char(a, b), offset: bytes, line: lines }
    }
}

/// A position in a text: its line, counted from 1, and its byte offset.
#[derive(Clone, Copy, Debug, PartialEq, Eq, Structural)]
pub struct Marker {
    pub line: u32,
    pub offset: usize,
}

impl Marker {
    /// The position at which `span` starts.
    pub fn new(span: Span) -> (res: Marker)
        ensures
            res == (Marker { line: span.line, offset: span.offset }),
    {
        Marker { line: span.line, offset: span.offset }
    }
}

impl Default for Marker {
    /// Line 1, offset 1.
    fn default() -> (res: Marker)
        ensures
            res == (Marker { line: 1, offset: 1 }),
    {
        Marker { line: 1, offset: 1 }
    }
}

/// The bytes of a text from `start.offset` up to, not including, `end.offset`.
#[derive(Clone, Copy, Debug, PartialEq, Eq, Structural)]
pub struct Selection {
    pub start: Marker,
    pub end: Marker,
}

impl Selection {
    /// The selection that a pair of positions in the view of a span makes.
    pub open spec fn spec_between(start: SpanView, end: SpanView) -> Selection {
        Selection {
            start: Marker { line: start.line as u32, offset: start.offset as usize },
            end: Marker {
                line: end.line as u32,
                offset: (end.offset + byte_len(end.text, end.text.len() as int)) as usize,
            },
        }
    }

    /// The end is not before the start.
    pub open spec fn wf(self) -> bool {
        self.start.offset <= self.end.offset
    }

    /// The selection from where `start` begins to where `end` ends.
    pub fn from(start: Span, end: Span) -> (res: Selection)
        requires
            end@.wf(),
        ensures
            res == Selection::spec_between(start@, end@),
    {
        let chars = to_chars(end.fragment);
        let mut bytes: usize = end.offset;
        let mut i: usize = 0;
        while i < chars.len()
            invariant
                i <= chars.len(),
                chars@ == end@.text,
                end@.wf(),
                bytes == end.offset + byte_len(chars@, i as int),
            decreases chars.len() - i,
        {
            proof {
                lemma_prefix_measures(chars@, i as int + 1, chars.len() as int);
            }
            bytes += char_width(chars[i]);
            i += 1;
        }
        Selection { start: Marker::new(start), end: Marker { line: end.line, offset: bytes } }
    }
}

impl Default for Selection {
    /// Both markers at their default.
    fn default() -> (res: Selection)
        ensures
            res == (Selection {
                start: Marker { line: 1, offset: 1 },
                end: Marker { line: 1, offset: 1 },
            }),
    {
        Selection { start: Marker { line: 1, offset: 1 }, end: Marker { line: 1, offset: 1 } }
    }
}

} // verus!
