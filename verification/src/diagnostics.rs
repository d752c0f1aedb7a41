//! Finding the line of a source text that a span points into.

use crate::span::Span;
use crate::tokenizer::{
    byte_len, characters, copy_range, find_line_end, line_end, offset, offsets_of,
};
use vstd::prelude::*;

verus! {

/// What an [`Excerpt`] stands for in contracts.
pub struct ExcerptView {
    pub line_index: nat,
    pub line: Seq<char>,
    pub column: nat,
    pub width: nat,
}

/// What it takes to show a span under the line of the source that it starts
/// in: the index of the line, counted from 0, and its text; the number of
/// characters of the line before the span; the number of bytes of the span.
#[derive(Debug)]
pub struct Excerpt {
    pub line_index: usize,
    pub line: String,
    pub column: usize,
    pub width: usize,
}

impl View for Excerpt {
    type V = ExcerptView;

    open spec fn view(&self) -> ExcerptView {
        ExcerptView {
            line_index: self.line_index as nat,
            line: self.line@,
            column: self.column as nat,
            width: self.width as nat,
        }
    }
}

/// The index of the character that starts at the byte offset `byte`, looked
/// for from index `i` on; the length of `src` for the offset of its end.
pub open spec fn char_at_offset(src: Seq<char>, byte: nat, i: int) -> Option<int>
    decreases src.len() - i,
{
    if i < 0 || i > src.len() || offset(src, i) > byte {
        None
    } else if offset(src, i) == byte {
        Some(i)
    } else if i == src.len() {
        None
    } else {
        char_at_offset(src, byte, i + 1)
    }
}

/// The index at which the line that holds the character of index `i`
/// starts.
pub open spec fn line_start(src: Seq<char>, i: int) -> int
    decreases i,
{
    if i <= 0 || i > src.len() {
        0
    } else if src[i - 1] == '\n' {
        i
    } else {
        line_start(src, i - 1)
    }
}

/// The number of line feeds before the character of index `i`.
pub open spec fn lines_before(src: Seq<char>, i: int) -> nat
    decreases i,
{
    if i <= 0 || i > src.len() {
        0
    } else if src[i - 1] == '\n' {
        lines_before(src, i - 1) + 1
    } else {
        lines_before(src, i - 1)
    }
}

/// The index at which the text of a line stops that starts at `start` and
/// ends at `end`: a carriage return before the line feed is no part of it.
pub open spec fn text_end(src: Seq<char>, start: int, end: int) -> int {
    if start < end < src.len() && src[end - 1] == '\r' {
        end - 1
    } else {
        end
    }
}

/// What there is to show of `span` in `src`: nothing where the span ends
/// before it starts, or starts neither at a character of `src` nor at its
/// end.
pub open spec fn excerpt_model(src: Seq<char>, span: Span) -> Option<ExcerptView> {
    match char_at_offset(src, span.0 as nat, 0) {
        Some(at) => if span.well_formed() && byte_len(src) <= usize::MAX {
            let start = line_start(src, at);
            let end = line_end(src, at);
            Some(
                ExcerptView {
                    line_index: lines_before(src, at),
                    line: src.subrange(start, text_end(src, start, end)),
                    column: (at - start) as nat,
                    width: (span.1 - span.0) as nat,
                },
            )
        } else {
            None
        },
        None => None,
    }
}

/// Finds what there is to show of `span` in `source`, as [`excerpt_model`]
/// says.
pub fn excerpt(source: &str, span: Span) -> (res: Option<Excerpt>)
    ensures
        match res {
            Some(found) => excerpt_model(source@, span) == Some(found@),
            None => excerpt_model(source@, span) is None,
        },
{
    if span.1 < span.0 {
        return None;
    }
    let chars = characters(source);
    let offsets = match offsets_of(&chars) {
        Some(offsets) => offsets,
        None => {
            return None;
        },
    };
    let mut at: usize = 0;
    while at < chars.len() && offsets[at] < span.0
        invariant
            at <= chars.len(),
            chars@ == source@,
            offsets.len() == chars.len() + 1,
            forall|k: int| 0 <= k <= chars.len() ==> (#[trigger] offsets[k]) == offset(chars@, k),
            char_at_offset(chars@, span.0 as nat, 0) == char_at_offset(
                chars@,
                span.0 as nat,
                at as int,
            ),
        decreases chars.len() - at,
    {
        at = at + 1;
    }
    if offsets[at] != span.0 {
        return None;
    }
    let mut start: usize = at;
    while start > 0 && chars[start - 1] != '\n'
        invariant
            start <= at <= chars.len(),
            line_start(chars@, at as int) == line_start(chars@, start as int),
        decreases start,
    {
        start = start - 1;
    }
    let mut lines: usize = 0;
    let mut k: usize = 0;
    while k < at
        invariant
            k <= at <= chars.len(),
            lines <= k,
            lines == lines_before(chars@, k as int),
        decreases at - k,
    {
        if chars[k] == '\n' {
            lines = lines + 1;
        }
        k = k + 1;
    }
    let end = find_line_end(&chars, at);
    let stop = if start < end && end < chars.len() && chars[end - 1] == '\r' {
        end - 1
    } else {
        end
    };
    Some(
        Excerpt {
            line_index: lines,
            line: copy_range(&chars, start, stop),
            column: at - start,
            width: span.1 - span.0,
        },
    )
}

} // verus!
