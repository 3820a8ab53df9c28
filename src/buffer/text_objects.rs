//! Text objects: ranges such as a word, a paragraph or a bracketed span,
//! found around or near a position of a read-only text source.

pub mod kinds;
pub mod plain;
pub mod regex_matcher;
pub mod treesitter;

use vstd::prelude::*;

use std::ops::Range;

use super::buffer::{char_holding_byte, Buffer};
use super::grapheme::utf8_len;
use super::grapheme::{is_grapheme_boundary_spec, next_grapheme_spec, prev_grapheme_spec};
use super::lines::{line_count, line_end, line_of, line_start};

verus! {

/// Whether a text object excludes (`Inside`) or includes (`Around`) its
/// delimiters or surrounding whitespace.
#[derive(Debug, Clone, Copy, PartialEq, Eq, Structural)]
pub enum SelectionMode {
    Inside,
    Around,
}

/// The pair of ends of an optional range.
pub open spec fn range_view(r: Option<Range<usize>>) -> Option<(int, int)> {
    match r {
        Some(r) => Some((r.start as int, r.end as int)),
        None => None,
    }
}

/// Read access to a text, by character index.
pub trait TextSource {
    /// The characters of the source.
    spec fn source_text(&self) -> Seq<char>;

    fn len_chars(&self) -> (r: usize)
        ensures
            r == self.source_text().len(),
    ;

    fn len_lines(&self) -> (r: usize)
        ensures
            r == line_count(self.source_text()),
    ;

    /// The character at `pos`, or `None` past the end.
    fn char_at(&self, pos: usize) -> (r: Option<char>)
        ensures
            pos < self.source_text().len() ==> r == Some(self.source_text()[pos as int]),
            pos >= self.source_text().len() ==> r is None,
    ;

    fn char_to_line(&self, pos: usize) -> (r: usize)
        requires
            pos <= self.source_text().len(),
        ensures
            r == line_of(self.source_text(), pos as int),
    ;

    fn line_to_char(&self, line: usize) -> (r: usize)
        requires
            line <= line_count(self.source_text()),
        ensures
            r == line_start(self.source_text(), line as nat),
            r <= self.source_text().len(),
    ;

    fn slice_to_string(&self, start: usize, end: usize) -> (r: String)
        requires
            start <= end <= self.source_text().len(),
        ensures
            r@ == self.source_text().subrange(start as int, end as int),
    ;

    /// The characters of line `line`, its newline included.
    fn line_chars(&self, line: usize) -> (r: Vec<char>)
        requires
            line < line_count(self.source_text()),
        ensures
            r@ == self.source_text().subrange(
                line_start(self.source_text(), line as nat),
                line_end(self.source_text(), line as nat),
            ),
    ;

    /// Byte offset of character `pos` in the UTF-8 text.
    fn char_to_byte(&self, pos: usize) -> (r: usize)
        requires
            pos <= self.source_text().len(),
        ensures
            r == utf8_len(self.source_text().take(pos as int)),
    ;

    /// The character that byte `byte` of the UTF-8 text belongs to.
    fn byte_to_char(&self, byte: usize) -> (r: usize)
        requires
            byte <= utf8_len(self.source_text()),
        ensures
            char_holding_byte(self.source_text(), byte as int, r as int),
    ;

    /// The previous grapheme boundary before `pos`.
    fn prev_grapheme_boundary(&self, pos: usize) -> (r: usize)
        requires
            pos <= self.source_text().len(),
        ensures
            r == prev_grapheme_spec(self.source_text(), pos as int),
    ;

    /// The next grapheme boundary after `pos`.
    fn next_grapheme_boundary(&self, pos: usize) -> (r: usize)
        requires
            pos <= self.source_text().len(),
        ensures
            r == next_grapheme_spec(self.source_text(), pos as int),
    ;

    fn is_grapheme_boundary(&self, pos: usize) -> (r: bool)
        requires
            pos <= self.source_text().len(),
        ensures
            r == is_grapheme_boundary_spec(self.source_text(), pos as int),
    ;
}

/// Finds one kind of text object. Each method returns a half-open
/// character range, or `None` when there is no such object; what each
/// matcher may return is stated by its `*_result` predicates.
pub trait TextObjectMatcher {
    /// `r` is what `find_at` may return on `text`.
    spec fn at_result(&self, text: Seq<char>, pos: int, mode: SelectionMode, r: Option<(int, int)>) -> bool;

    /// `r` is what `find_next` may return on `text`.
    spec fn next_result(&self, text: Seq<char>, pos: int, mode: SelectionMode, r: Option<(int, int)>) -> bool;

    /// `r` is what `find_prev` may return on `text`.
    spec fn prev_result(&self, text: Seq<char>, pos: int, mode: SelectionMode, r: Option<(int, int)>) -> bool;

    /// The object at or containing `pos`.
    fn find_at<S: TextSource>(&self, buffer: &S, pos: usize, mode: SelectionMode) -> (r: Option<
        Range<usize>,
    >)
        ensures
            self.at_result(buffer.source_text(), pos as int, mode, range_view(r)),
    ;

    /// The next object after `pos`.
    fn find_next<S: TextSource>(&self, buffer: &S, pos: usize, mode: SelectionMode) -> (r: Option<
        Range<usize>,
    >)
        ensures
            self.next_result(buffer.source_text(), pos as int, mode, range_view(r)),
    ;

    /// The previous object before `pos`.
    fn find_prev<S: TextSource>(&self, buffer: &S, pos: usize, mode: SelectionMode) -> (r: Option<
        Range<usize>,
    >)
        ensures
            self.prev_result(buffer.source_text(), pos as int, mode, range_view(r)),
    ;
}

impl TextSource for Buffer {
    open spec fn source_text(&self) -> Seq<char> {
        self@
    }

    fn len_chars(&self) -> (r: usize) {
        Buffer::len_chars(self)
    }

    fn len_lines(&self) -> (r: usize) {
        Buffer::len_lines(self)
    }

    fn char_at(&self, pos: usize) -> (r: Option<char>) {
        Buffer::char_at(self, pos)
    }

    fn char_to_line(&self, pos: usize) -> (r: usize) {
        Buffer::char_to_line(self, pos)
    }

    fn line_to_char(&self, line: usize) -> (r: usize) {
        Buffer::line_to_char(self, line)
    }

    fn slice_to_string(&self, start: usize, end: usize) -> (r: String) {
        Buffer::slice_to_string(self, start, end)
    }

    fn line_chars(&self, line: usize) -> (r: Vec<char>) {
        let start = Buffer::line_to_char(self, line);
        let end = Buffer::line_end_char(self, line);
        let mut out: Vec<char> = Vec::new();
        let mut i: usize = start;
        while i < end
            invariant
                start <= i <= end,
                end <= self@.len(),
                out@ == self@.subrange(start as int, i as int),
            decreases end - i,
        {
            let c = Buffer::char_at(self, i);
            match c {
                Some(c) => out.push(c),
                None => {},
            }
            i = i + 1;
            proof {
                assert(out@ =~= self@.subrange(start as int, i as int));
            }
        }
        out
    }

    fn char_to_byte(&self, pos: usize) -> (r: usize) {
        Buffer::char_to_byte(self, pos)
    }

    fn byte_to_char(&self, byte: usize) -> (r: usize) {
        Buffer::byte_to_char(self, byte)
    }

    fn prev_grapheme_boundary(&self, pos: usize) -> (r: usize) {
        Buffer::prev_grapheme(self, pos)
    }

    fn next_grapheme_boundary(&self, pos: usize) -> (r: usize) {
        Buffer::next_grapheme(self, pos)
    }

    fn is_grapheme_boundary(&self, pos: usize) -> (r: bool) {
        Buffer::is_grapheme_boundary(self, pos)
    }
}

} // verus!
