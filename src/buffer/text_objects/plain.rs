//! Text objects found by scanning characters: words, paragraphs, bracket
//! pairs and quotes.

use vstd::prelude::*;

use std::ops::Range;

use super::{range_view, SelectionMode, TextObjectMatcher, TextSource};
use crate::buffer::lines::{
    lemma_count_newlines_prefix, line_count, line_end, line_of, line_start,
};

verus! {

/// Whether a character is alphanumeric, as `char::is_alphanumeric` decides.
pub uninterp spec fn char_is_alphanumeric(c: char) -> bool;

/// Whether a character has the Unicode White_Space property, which is what
/// `char::is_whitespace` tests.
pub open spec fn char_is_whitespace(c: char) -> bool {
    let v = c as int;
    ||| 0x9 <= v <= 0xD
    ||| v == 0x20
    ||| v == 0x85
    ||| v == 0xA0
    ||| v == 0x1680
    ||| 0x2000 <= v <= 0x200A
    ||| v == 0x2028
    ||| v == 0x2029
    ||| v == 0x202F
    ||| v == 0x205F
    ||| v == 0x3000
}

/// Relies on `char::is_alphanumeric`: the Unicode Alphabetic or Numeric
/// property of `c`.
#[verifier::external_body]
fn is_alphanumeric(c: char) -> (r: bool)
    ensures
        r == char_is_alphanumeric(c),
{
    c.is_alphanumeric()
}

fn is_whitespace(c: char) -> (r: bool)
    ensures
        r == char_is_whitespace(c),
{
    let v = c as u32;
    (0x9 <= v && v <= 0xD) || v == 0x20 || v == 0x85 || v == 0xA0 || v == 0x1680 || (0x2000 <= v
        && v <= 0x200A) || v == 0x2028 || v == 0x2029 || v == 0x202F || v == 0x205F || v == 0x3000
}

/// A word character: alphanumeric or underscore.
pub open spec fn spec_is_word_char(c: char) -> bool {
    char_is_alphanumeric(c) || c == '_'
}

pub fn is_word_char(ch: char) -> (r: bool)
    ensures
        r == spec_is_word_char(ch),
{
    is_alphanumeric(ch) || ch == '_'
}

/// The characters a word is made of: word characters, or for a big word
/// anything but white space.
pub open spec fn in_class(c: char, big: bool) -> bool {
    if big {
        !char_is_whitespace(c)
    } else {
        spec_is_word_char(c)
    }
}

fn is_class_char(c: char, big: bool) -> (r: bool)
    ensures
        r == in_class(c, big),
{
    if big {
        !is_whitespace(c)
    } else {
        is_word_char(c)
    }
}

/// Start of the run of class characters that ends at `p`.
pub open spec fn run_start(t: Seq<char>, p: int, big: bool) -> int
    decreases p,
{
    if 0 < p <= t.len() && in_class(t[p - 1], big) {
        run_start(t, p - 1, big)
    } else {
        p
    }
}

/// End of the run of class characters that starts at `p`.
pub open spec fn run_end(t: Seq<char>, p: int, big: bool) -> int
    decreases t.len() - p,
{
    if 0 <= p < t.len() && in_class(t[p], big) {
        run_end(t, p + 1, big)
    } else {
        p
    }
}

/// End of the run of white space that starts at `p`.
pub open spec fn space_end(t: Seq<char>, p: int) -> int
    decreases t.len() - p,
{
    if 0 <= p < t.len() && char_is_whitespace(t[p]) {
        space_end(t, p + 1)
    } else {
        p
    }
}

/// First index at or after `p` holding a class character, or the end.
pub open spec fn next_in_class(t: Seq<char>, p: int, big: bool) -> int
    decreases t.len() - p,
{
    if 0 <= p < t.len() && !in_class(t[p], big) {
        next_in_class(t, p + 1, big)
    } else {
        p
    }
}

/// Start of the run of non-class characters that ends at `p`.
pub open spec fn gap_start(t: Seq<char>, p: int, big: bool) -> int
    decreases p,
{
    if 0 < p <= t.len() && !in_class(t[p - 1], big) {
        gap_start(t, p - 1, big)
    } else {
        p
    }
}

/// The word containing `pos`, with its trailing white space in `Around`
/// mode; `None` if `pos` is not on a word character.
pub open spec fn word_at(t: Seq<char>, pos: int, mode: SelectionMode, big: bool) -> Option<(int, int)> {
    if 0 <= pos < t.len() && in_class(t[pos], big) {
        let e = run_end(t, pos + 1, big);
        Some((run_start(t, pos, big), if mode is Around { space_end(t, e) } else { e }))
    } else {
        None
    }
}

/// The first word whose character after `pos` is found scanning forward.
pub open spec fn word_next(t: Seq<char>, pos: int, mode: SelectionMode, big: bool) -> Option<(int, int)> {
    let i = next_in_class(t, pos + 1, big);
    if i < t.len() {
        word_at(t, i, mode, big)
    } else {
        None
    }
}

/// The first word found scanning backward from just before `pos`.
pub open spec fn word_prev(t: Seq<char>, pos: int, mode: SelectionMode, big: bool) -> Option<(int, int)> {
    if pos == 0 || pos > t.len() {
        None
    } else {
        let s = gap_start(t, pos, big);
        if s > 0 {
            word_at(t, s - 1, mode, big)
        } else {
            None
        }
    }
}

/// Whether `i` is in range and holds a class character.
fn class_at<S: TextSource>(buffer: &S, i: usize, big: bool) -> (r: bool)
    ensures
        r == (i < buffer.source_text().len() && in_class(buffer.source_text()[i as int], big)),
{
    match buffer.char_at(i) {
        Some(c) => is_class_char(c, big),
        None => false,
    }
}

/// Whether `i` is in range and holds white space.
fn space_at<S: TextSource>(buffer: &S, i: usize) -> (r: bool)
    ensures
        r == (i < buffer.source_text().len() && char_is_whitespace(buffer.source_text()[i as int])),
{
    match buffer.char_at(i) {
        Some(c) => is_whitespace(c),
        None => false,
    }
}

fn word_find_at<S: TextSource>(buffer: &S, pos: usize, mode: SelectionMode, big: bool) -> (r: Option<
    Range<usize>,
>)
    ensures
        range_view(r) == word_at(buffer.source_text(), pos as int, mode, big),
{
    let ghost t = buffer.source_text();
    let len = buffer.len_chars();
    if pos >= len || !class_at(buffer, pos, big) {
        return None;
    }
    let mut start = pos;
    while start > 0 && class_at(buffer, start - 1, big)
        invariant
            start <= pos < len,
            len == t.len(),
            t == buffer.source_text(),
            run_start(t, start as int, big) == run_start(t, pos as int, big),
        decreases start,
    {
        start = start - 1;
    }
    let mut end = pos + 1;
    while end < len && class_at(buffer, end, big)
        invariant
            pos < end <= len,
            len == t.len(),
            t == buffer.source_text(),
            run_end(t, end as int, big) == run_end(t, pos + 1, big),
        decreases len - end,
    {
        end = end + 1;
    }
    match mode {
        SelectionMode::Inside => Some(start..end),
        SelectionMode::Around => {
            let ghost e0 = end;
            while end < len && space_at(buffer, end)
                invariant
                    e0 <= end <= len,
                    len == t.len(),
                    t == buffer.source_text(),
                    space_end(t, end as int) == space_end(t, e0 as int),
                decreases len - end,
            {
                end = end + 1;
            }
            Some(start..end)
        },
    }
}

fn word_find_next<S: TextSource>(buffer: &S, pos: usize, mode: SelectionMode, big: bool) -> (r: Option<
    Range<usize>,
>)
    ensures
        range_view(r) == word_next(buffer.source_text(), pos as int, mode, big),
{
    let ghost t = buffer.source_text();
    let len = buffer.len_chars();
    if pos >= len {
        return None;
    }
    let mut search_pos = pos + 1;
    while search_pos < len && !class_at(buffer, search_pos, big)
        invariant
            pos < search_pos <= len,
            len == t.len(),
            t == buffer.source_text(),
            next_in_class(t, search_pos as int, big) == next_in_class(t, pos + 1, big),
        decreases len - search_pos,
    {
        search_pos = search_pos + 1;
    }
    if search_pos < len {
        word_find_at(buffer, search_pos, mode, big)
    } else {
        None
    }
}

fn word_find_prev<S: TextSource>(buffer: &S, pos: usize, mode: SelectionMode, big: bool) -> (r: Option<
    Range<usize>,
>)
    ensures
        range_view(r) == word_prev(buffer.source_text(), pos as int, mode, big),
{
    let ghost t = buffer.source_text();
    let len = buffer.len_chars();
    if pos == 0 || pos > len {
        return None;
    }
    let mut i = pos;
    while i > 0 && !class_at(buffer, i - 1, big)
        invariant
            i <= pos <= len,
            len == t.len(),
            t == buffer.source_text(),
            gap_start(t, i as int, big) == gap_start(t, pos as int, big),
        decreases i,
    {
        i = i - 1;
    }
    if i > 0 {
        word_find_at(buffer, i - 1, mode, big)
    } else {
        None
    }
}

/// Words: runs of alphanumeric characters and underscores.
#[derive(Debug)]
pub struct WordMatcher;

impl TextObjectMatcher for WordMatcher {
    open spec fn at_result(&self, text: Seq<char>, pos: int, mode: SelectionMode, r: Option<(int, int)>) -> bool {
        r == {
            word_at(text, pos, mode, false)
        }
    }

    open spec fn next_result(&self, text: Seq<char>, pos: int, mode: SelectionMode, r: Option<(int, int)>) -> bool {
        r == {
            word_next(text, pos, mode, false)
        }
    }

    open spec fn prev_result(&self, text: Seq<char>, pos: int, mode: SelectionMode, r: Option<(int, int)>) -> bool {
        r == {
            word_prev(text, pos, mode, false)
        }
    }

    fn find_at<S: TextSource>(&self, buffer: &S, pos: usize, mode: SelectionMode) -> (r: Option<Range<usize>>) {
        word_find_at(buffer, pos, mode, false)
    }

    fn find_next<S: TextSource>(&self, buffer: &S, pos: usize, mode: SelectionMode) -> (r: Option<Range<usize>>) {
        word_find_next(buffer, pos, mode, false)
    }

    fn find_prev<S: TextSource>(&self, buffer: &S, pos: usize, mode: SelectionMode) -> (r: Option<Range<usize>>) {
        word_find_prev(buffer, pos, mode, false)
    }
}

/// Big words: runs of characters other than white space.
#[derive(Debug)]
pub struct BigWordMatcher;

impl TextObjectMatcher for BigWordMatcher {
    open spec fn at_result(&self, text: Seq<char>, pos: int, mode: SelectionMode, r: Option<(int, int)>) -> bool {
        r == {
            word_at(text, pos, mode, true)
        }
    }

    open spec fn next_result(&self, text: Seq<char>, pos: int, mode: SelectionMode, r: Option<(int, int)>) -> bool {
        r == {
            word_next(text, pos, mode, true)
        }
    }

    open spec fn prev_result(&self, text: Seq<char>, pos: int, mode: SelectionMode, r: Option<(int, int)>) -> bool {
        r == {
            word_prev(text, pos, mode, true)
        }
    }

    fn find_at<S: TextSource>(&self, buffer: &S, pos: usize, mode: SelectionMode) -> (r: Option<Range<usize>>) {
        word_find_at(buffer, pos, mode, true)
    }

    fn find_next<S: TextSource>(&self, buffer: &S, pos: usize, mode: SelectionMode) -> (r: Option<Range<usize>>) {
        word_find_next(buffer, pos, mode, true)
    }

    fn find_prev<S: TextSource>(&self, buffer: &S, pos: usize, mode: SelectionMode) -> (r: Option<Range<usize>>) {
        word_find_prev(buffer, pos, mode, true)
    }
}

/// Every character of line `k` is white space.
pub open spec fn line_blank(t: Seq<char>, k: nat) -> bool {
    forall|i: int| line_start(t, k) <= i < line_end(t, k) ==> char_is_whitespace(#[trigger] t[i])
}

/// First line of the run of non-blank lines that ends with line `k`.
pub open spec fn para_top(t: Seq<char>, k: nat) -> nat
    decreases k,
{
    if k > 0 && !line_blank(t, (k - 1) as nat) {
        para_top(t, (k - 1) as nat)
    } else {
        k
    }
}

/// First line at or after `k` that is blank, or the line count.
pub open spec fn para_bottom(t: Seq<char>, k: nat) -> nat
    decreases line_count(t) - k,
{
    if k < line_count(t) && !line_blank(t, k) {
        para_bottom(t, k + 1)
    } else {
        k
    }
}

/// First line at or after `k` that is not blank, or the line count.
pub open spec fn next_nonblank(t: Seq<char>, k: nat) -> nat
    decreases line_count(t) - k,
{
    if k < line_count(t) && line_blank(t, k) {
        next_nonblank(t, k + 1)
    } else {
        k
    }
}

/// The paragraph (maximal run of non-blank lines) holding `pos`, from the
/// start of its first line to the start of the line after it; `None` on a
/// blank line.
pub open spec fn paragraph_at(t: Seq<char>, pos: int) -> Option<(int, int)> {
    if 0 <= pos <= t.len() {
        let l = line_of(t, pos);
        if line_blank(t, l) {
            None
        } else {
            Some((line_start(t, para_top(t, l)), line_start(t, para_bottom(t, l))))
        }
    } else {
        None
    }
}

/// The first paragraph that starts below the one holding `pos`, past any
/// blank lines.
pub open spec fn paragraph_next(t: Seq<char>, pos: int) -> Option<(int, int)> {
    if 0 <= pos <= t.len() {
        let k = next_nonblank(t, para_bottom(t, line_of(t, pos)));
        if k < line_count(t) {
            Some((line_start(t, k), line_start(t, para_bottom(t, k))))
        } else {
            None
        }
    } else {
        None
    }
}

/// The paragraph holding the start of the line above `pos`.
pub open spec fn paragraph_prev(t: Seq<char>, pos: int) -> Option<(int, int)> {
    if 0 <= pos <= t.len() && line_of(t, pos) > 0 {
        paragraph_at(t, line_start(t, (line_of(t, pos) - 1) as nat))
    } else {
        None
    }
}

/// Whether every character of line `k` is white space.
fn line_is_blank<S: TextSource>(buffer: &S, k: usize) -> (r: bool)
    requires
        k < line_count(buffer.source_text()),
    ensures
        r == line_blank(buffer.source_text(), k as nat),
{
    let ghost t = buffer.source_text();
    let start = buffer.line_to_char(k);
    let end = if k < buffer.len_lines() - 1 {
        buffer.line_to_char(k + 1)
    } else {
        buffer.len_chars()
    };
    let mut i = start;
    while i < end && space_at(buffer, i)
        invariant
            start == line_start(t, k as nat),
            end == line_end(t, k as nat),
            end <= t.len(),
            start <= i,
            t == buffer.source_text(),
            forall|j: int| start <= j < i ==> char_is_whitespace(#[trigger] t[j]),
        decreases end - i,
    {
        i = i + 1;
    }
    i >= end
}

/// Paragraphs: maximal runs of lines that are not all white space.
#[derive(Debug)]
pub struct ParagraphMatcher;

impl TextObjectMatcher for ParagraphMatcher {
    open spec fn at_result(&self, text: Seq<char>, pos: int, mode: SelectionMode, r: Option<(int, int)>) -> bool {
        r == {
            paragraph_at(text, pos)
        }
    }

    open spec fn next_result(&self, text: Seq<char>, pos: int, mode: SelectionMode, r: Option<(int, int)>) -> bool {
        r == {
            paragraph_next(text, pos)
        }
    }

    open spec fn prev_result(&self, text: Seq<char>, pos: int, mode: SelectionMode, r: Option<(int, int)>) -> bool {
        r == {
            paragraph_prev(text, pos)
        }
    }

    fn find_at<S: TextSource>(&self, buffer: &S, pos: usize, _mode: SelectionMode) -> (r: Option<Range<usize>>) {
        let ghost t = buffer.source_text();
        if pos > buffer.len_chars() {
            return None;
        }
        proof {
            lemma_count_newlines_prefix(t, pos as int);
        }
        let current_line = buffer.char_to_line(pos);
        if line_is_blank(buffer, current_line) {
            return None;
        }
        let lines = buffer.len_lines();
        let mut start_line = current_line;
        while start_line > 0 && !line_is_blank(buffer, start_line - 1)
            invariant
                start_line <= current_line < lines,
                lines == line_count(t),
                t == buffer.source_text(),
                para_top(t, start_line as nat) == para_top(t, current_line as nat),
            decreases start_line,
        {
            start_line = start_line - 1;
        }
        let mut end_line = current_line + 1;
        while end_line < lines && !line_is_blank(buffer, end_line)
            invariant
                current_line < end_line <= lines,
                lines == line_count(t),
                t == buffer.source_text(),
                !line_blank(t, current_line as nat),
                para_bottom(t, end_line as nat) == para_bottom(t, current_line as nat),
            decreases lines - end_line,
        {
            end_line = end_line + 1;
        }
        let start = buffer.line_to_char(start_line);
        let end = buffer.line_to_char(end_line);
        Some(start..end)
    }

    fn find_next<S: TextSource>(&self, buffer: &S, pos: usize, _mode: SelectionMode) -> (r: Option<Range<usize>>) {
        let ghost t = buffer.source_text();
        if pos > buffer.len_chars() {
            return None;
        }
        proof {
            lemma_count_newlines_prefix(t, pos as int);
        }
        let lines = buffer.len_lines();
        let current_line = buffer.char_to_line(pos);
        let mut line = current_line;
        while line < lines && !line_is_blank(buffer, line)
            invariant
                current_line <= line <= lines,
                lines == line_count(t),
                t == buffer.source_text(),
                para_bottom(t, line as nat) == para_bottom(t, current_line as nat),
            decreases lines - line,
        {
            line = line + 1;
        }
        let ghost bottom = line;
        while line < lines && line_is_blank(buffer, line)
            invariant
                bottom <= line <= lines,
                lines == line_count(t),
                t == buffer.source_text(),
                next_nonblank(t, line as nat) == next_nonblank(t, bottom as nat),
            decreases lines - line,
        {
            line = line + 1;
        }
        if line >= lines {
            return None;
        }
        let first = line;
        line = line + 1;
        while line < lines && !line_is_blank(buffer, line)
            invariant
                first < line <= lines,
                lines == line_count(t),
                t == buffer.source_text(),
                !line_blank(t, first as nat),
                para_bottom(t, line as nat) == para_bottom(t, first as nat),
            decreases lines - line,
        {
            line = line + 1;
        }
        let start = buffer.line_to_char(first);
        let end = buffer.line_to_char(line);
        Some(start..end)
    }

    fn find_prev<S: TextSource>(&self, buffer: &S, pos: usize, mode: SelectionMode) -> (r: Option<Range<usize>>) {
        if pos > buffer.len_chars() {
            return None;
        }
        proof {
            lemma_count_newlines_prefix(buffer.source_text(), pos as int);
        }
        let current_line = buffer.char_to_line(pos);
        if current_line == 0 {
            return None;
        }
        let line_start_pos = buffer.line_to_char(current_line - 1);
        self.find_at(buffer, line_start_pos, mode)
    }
}

/// Scanning backward from `i` with `depth` unmatched closers: the opener
/// that encloses the start of the scan.
pub open spec fn open_before(t: Seq<char>, i: int, depth: int, open: char, close: char) -> Option<int>
    decreases i + 1,
{
    if i < 0 || i >= t.len() {
        None
    } else if t[i] == close {
        open_before(t, i - 1, depth + 1, open, close)
    } else if t[i] == open {
        if depth == 0 {
            Some(i)
        } else {
            open_before(t, i - 1, depth - 1, open, close)
        }
    } else {
        open_before(t, i - 1, depth, open, close)
    }
}

/// Scanning forward from `i` with nesting `depth`: the closer that brings
/// the depth back to zero.
pub open spec fn close_after(t: Seq<char>, i: int, depth: int, open: char, close: char) -> Option<int>
    decreases t.len() - i,
{
    if i < 0 || i >= t.len() {
        None
    } else if t[i] == open {
        close_after(t, i + 1, depth + 1, open, close)
    } else if t[i] == close {
        if depth - 1 == 0 {
            Some(i)
        } else {
            close_after(t, i + 1, depth - 1, open, close)
        }
    } else {
        close_after(t, i + 1, depth, open, close)
    }
}

/// The innermost pair of delimiters around `pos`: inside or including the
/// delimiters.
pub open spec fn delimited_at(t: Seq<char>, pos: int, mode: SelectionMode, open: char, close: char) -> Option<(int, int)> {
    if pos < 0 || pos >= t.len() {
        None
    } else {
        match open_before(t, pos, 0, open, close) {
            None => None,
            Some(s) => match close_after(t, s, 0, open, close) {
                None => None,
                Some(c) => if mode is Inside {
                    Some((s + 1, c))
                } else {
                    Some((s, c + 1))
                },
            },
        }
    }
}

/// First index at or after `p` holding `c`, or the end.
pub open spec fn next_index_of(t: Seq<char>, p: int, c: char) -> int
    decreases t.len() - p,
{
    if 0 <= p < t.len() && t[p] != c {
        next_index_of(t, p + 1, c)
    } else {
        p
    }
}

/// Start of the run of characters other than `c` that ends at `p`.
pub open spec fn gap_before(t: Seq<char>, p: int, c: char) -> int
    decreases p,
{
    if 0 < p <= t.len() && t[p - 1] != c {
        gap_before(t, p - 1, c)
    } else {
        p
    }
}

proof fn lemma_open_before_found(t: Seq<char>, i: int, depth: int, open: char, close: char)
    ensures
        match open_before(t, i, depth, open, close) {
            Some(s) => 0 <= s <= i && s < t.len() && t[s] == open && t[s] != close,
            None => true,
        },
    decreases i + 1,
{
    if 0 <= i < t.len() {
        if t[i] == close {
            lemma_open_before_found(t, i - 1, depth + 1, open, close);
        } else if t[i] == open && depth != 0 {
            lemma_open_before_found(t, i - 1, depth - 1, open, close);
        } else if t[i] != open {
            lemma_open_before_found(t, i - 1, depth, open, close);
        }
    }
}

proof fn lemma_close_after_found(t: Seq<char>, i: int, depth: int, open: char, close: char)
    ensures
        match close_after(t, i, depth, open, close) {
            Some(c) => i <= c < t.len(),
            None => true,
        },
    decreases t.len() - i,
{
    if 0 <= i < t.len() {
        if t[i] == open {
            lemma_close_after_found(t, i + 1, depth + 1, open, close);
        } else if t[i] == close && depth - 1 != 0 {
            lemma_close_after_found(t, i + 1, depth - 1, open, close);
        } else if t[i] != close {
            lemma_close_after_found(t, i + 1, depth, open, close);
        }
    }
}

fn find_opener<S: TextSource>(buffer: &S, pos: usize, open: char, close: char) -> (r: Option<usize>)
    requires
        pos < buffer.source_text().len(),
    ensures
        match r {
            Some(s) => open_before(buffer.source_text(), pos as int, 0, open, close) == Some(s as int),
            None => open_before(buffer.source_text(), pos as int, 0, open, close) is None,
        },
{
    let ghost t = buffer.source_text();
    let len = buffer.len_chars();
    let mut k: usize = pos + 1;
    let mut depth: usize = 0;
    while k > 0
        invariant
            k <= pos + 1,
            pos < len,
            len == t.len(),
            t == buffer.source_text(),
            depth <= pos + 1 - k,
            open_before(t, k - 1, depth as int, open, close) == open_before(t, pos as int, 0, open, close),
        decreases k,
    {
        let c = match buffer.char_at(k - 1) {
            Some(c) => c,
            None => return None,
        };
        if c == close {
            depth = depth + 1;
        } else if c == open {
            if depth == 0 {
                return Some(k - 1);
            }
            depth = depth - 1;
        }
        k = k - 1;
    }
    None
}

fn find_closer<S: TextSource>(buffer: &S, start: usize, open: char, close: char) -> (r: Option<usize>)
    requires
        start < buffer.source_text().len(),
        buffer.source_text()[start as int] == open,
        open != close,
    ensures
        match r {
            Some(c) => close_after(buffer.source_text(), start as int, 0, open, close) == Some(c as int),
            None => close_after(buffer.source_text(), start as int, 0, open, close) is None,
        },
{
    let ghost t = buffer.source_text();
    let len = buffer.len_chars();
    let mut i: usize = start + 1;
    let mut depth: usize = 1;
    while i < len
        invariant
            start < i <= len,
            len == t.len(),
            t == buffer.source_text(),
            1 <= depth <= i - start,
            close_after(t, i as int, depth as int, open, close) == close_after(t, start as int, 0, open, close),
        decreases len - i,
    {
        let c = match buffer.char_at(i) {
            Some(c) => c,
            None => return None,
        };
        if c == open {
            depth = depth + 1;
        } else if c == close {
            if depth == 1 {
                return Some(i);
            }
            depth = depth - 1;
        }
        i = i + 1;
    }
    None
}

/// Pairs of distinct opening and closing characters, such as parentheses.
#[derive(Debug)]
pub struct DelimiterMatcher {
    pub open: char,
    pub close: char,
}

impl DelimiterMatcher {
    pub fn new(open: char, close: char) -> (r: Self)
        ensures
            r.open == open,
            r.close == close,
    {
        DelimiterMatcher { open, close }
    }

    pub fn parentheses() -> (r: Self)
        ensures
            r.open == '(',
            r.close == ')',
    {
        Self::new('(', ')')
    }

    pub fn brackets() -> (r: Self)
        ensures
            r.open == '[',
            r.close == ']',
    {
        Self::new('[', ']')
    }

    pub fn braces() -> (r: Self)
        ensures
            r.open == '{',
            r.close == '}',
    {
        Self::new('{', '}')
    }

    pub fn angle_brackets() -> (r: Self)
        ensures
            r.open == '<',
            r.close == '>',
    {
        Self::new('<', '>')
    }
}

impl TextObjectMatcher for DelimiterMatcher {
    open spec fn at_result(&self, text: Seq<char>, pos: int, mode: SelectionMode, r: Option<(int, int)>) -> bool {
        r == {
            delimited_at(text, pos, mode, self.open, self.close)
        }
    }

    open spec fn next_result(&self, text: Seq<char>, pos: int, mode: SelectionMode, r: Option<(int, int)>) -> bool {
        r == {
            let i = next_index_of(text, pos + 1, self.open);
            if 0 <= pos < text.len() && i < text.len() {
                delimited_at(text, i + 1, mode, self.open, self.close)
            } else {
                None
            }
        }
    }

    open spec fn prev_result(&self, text: Seq<char>, pos: int, mode: SelectionMode, r: Option<(int, int)>) -> bool {
        r == {
            if pos <= text.len() {
                let s = gap_before(text, pos, self.open);
                if s > 0 {
                    delimited_at(text, s, mode, self.open, self.close)
                } else {
                    None
                }
            } else {
                None
            }
        }
    }

    fn find_at<S: TextSource>(&self, buffer: &S, pos: usize, mode: SelectionMode) -> (r: Option<Range<usize>>) {
        let ghost t = buffer.source_text();
        if pos >= buffer.len_chars() {
            return None;
        }
        let start = match find_opener(buffer, pos, self.open, self.close) {
            Some(s) => s,
            None => return None,
        };
        proof {
            lemma_open_before_found(t, pos as int, 0, self.open, self.close);
        }
        match find_closer(buffer, start, self.open, self.close) {
            Some(i) => {
                proof {
                    lemma_close_after_found(t, start as int, 0, self.open, self.close);
                }
                match mode {
                    SelectionMode::Inside => Some(start + 1..i),
                    SelectionMode::Around => Some(start..i + 1),
                }
            },
            None => None,
        }
    }

    fn find_next<S: TextSource>(&self, buffer: &S, pos: usize, mode: SelectionMode) -> (r: Option<Range<usize>>) {
        let ghost t = buffer.source_text();
        let len = buffer.len_chars();
        if pos >= len {
            return None;
        }
        let mut i = pos + 1;
        while i < len && buffer.char_at(i) != Some(self.open)
            invariant
                pos < i <= len,
                len == t.len(),
                t == buffer.source_text(),
                next_index_of(t, i as int, self.open) == next_index_of(t, pos + 1, self.open),
            decreases len - i,
        {
            i = i + 1;
        }
        if i < len {
            self.find_at(buffer, i + 1, mode)
        } else {
            None
        }
    }

    fn find_prev<S: TextSource>(&self, buffer: &S, pos: usize, mode: SelectionMode) -> (r: Option<Range<usize>>) {
        let ghost t = buffer.source_text();
        if pos > buffer.len_chars() {
            return None;
        }
        let mut i = pos;
        while i > 0 && buffer.char_at(i - 1) != Some(self.open)
            invariant
                i <= pos <= t.len(),
                t == buffer.source_text(),
                gap_before(t, i as int, self.open) == gap_before(t, pos as int, self.open),
            decreases i,
        {
            i = i - 1;
        }
        if i > 0 {
            self.find_at(buffer, i, mode)
        } else {
            None
        }
    }
}

/// Scanning backward from `i`: the first quote that is not escaped. A
/// backslash not itself escaped escapes the one character that follows it
/// in the scan.
pub open spec fn quote_before(t: Seq<char>, i: int, escaped: bool, quote: char) -> Option<int>
    decreases i + 1,
{
    if i < 0 || i >= t.len() {
        None
    } else if t[i] == '\\' && !escaped {
        quote_before(t, i - 1, true, quote)
    } else if t[i] == quote && !escaped {
        Some(i)
    } else {
        quote_before(t, i - 1, false, quote)
    }
}

/// Scanning forward from `i`: the first quote that is not escaped.
pub open spec fn quote_after(t: Seq<char>, i: int, escaped: bool, quote: char) -> Option<int>
    decreases t.len() - i,
{
    if i < 0 || i >= t.len() {
        None
    } else if t[i] == '\\' && !escaped {
        quote_after(t, i + 1, true, quote)
    } else if t[i] == quote && !escaped {
        Some(i)
    } else {
        quote_after(t, i + 1, false, quote)
    }
}

/// The quoted span around `pos`: inside or including the quotes.
pub open spec fn quoted_at(t: Seq<char>, pos: int, mode: SelectionMode, quote: char) -> Option<(int, int)> {
    if pos < 0 || pos >= t.len() {
        None
    } else {
        match quote_before(t, pos, false, quote) {
            None => None,
            Some(s) => match quote_after(t, s + 1, false, quote) {
                None => None,
                Some(e) => if mode is Inside {
                    Some((s + 1, e))
                } else {
                    Some((s, e + 1))
                },
            },
        }
    }
}

proof fn lemma_quote_before_found(t: Seq<char>, i: int, escaped: bool, quote: char)
    ensures
        match quote_before(t, i, escaped, quote) {
            Some(s) => 0 <= s <= i && s < t.len(),
            None => true,
        },
    decreases i + 1,
{
    if 0 <= i < t.len() {
        if t[i] == '\\' && !escaped {
            lemma_quote_before_found(t, i - 1, true, quote);
        } else if !(t[i] == quote && !escaped) {
            lemma_quote_before_found(t, i - 1, false, quote);
        }
    }
}

proof fn lemma_quote_after_found(t: Seq<char>, i: int, escaped: bool, quote: char)
    ensures
        match quote_after(t, i, escaped, quote) {
            Some(e) => i <= e < t.len(),
            None => true,
        },
    decreases t.len() - i,
{
    if 0 <= i < t.len() {
        if t[i] == '\\' && !escaped {
            lemma_quote_after_found(t, i + 1, true, quote);
        } else if !(t[i] == quote && !escaped) {
            lemma_quote_after_found(t, i + 1, false, quote);
        }
    }
}

fn scan_quote_backward<S: TextSource>(buffer: &S, from: usize, quote: char) -> (r: Option<usize>)
    requires
        from < buffer.source_text().len(),
    ensures
        match r {
            Some(s) => quote_before(buffer.source_text(), from as int, false, quote) == Some(s as int),
            None => quote_before(buffer.source_text(), from as int, false, quote) is None,
        },
{
    let ghost t = buffer.source_text();
    let len = buffer.len_chars();
    let mut k: usize = from + 1;
    let mut escaped = false;
    while k > 0
        invariant
            k <= from + 1,
            from < len,
            len == t.len(),
            t == buffer.source_text(),
            quote_before(t, k - 1, escaped, quote) == quote_before(t, from as int, false, quote),
        decreases k,
    {
        let ch = match buffer.char_at(k - 1) {
            Some(c) => c,
            None => return None,
        };
        if ch == '\\' && !escaped {
            escaped = true;
        } else if ch == quote && !escaped {
            return Some(k - 1);
        } else {
            escaped = false;
        }
        k = k - 1;
    }
    None
}

fn scan_quote_forward<S: TextSource>(buffer: &S, from: usize, quote: char) -> (r: Option<usize>)
    ensures
        match r {
            Some(e) => quote_after(buffer.source_text(), from as int, false, quote) == Some(e as int),
            None => quote_after(buffer.source_text(), from as int, false, quote) is None,
        },
{
    let ghost t = buffer.source_text();
    let len = buffer.len_chars();
    let mut i = from;
    let mut escaped = false;
    while i < len
        invariant
            from <= i,
            len == t.len(),
            t == buffer.source_text(),
            quote_after(t, i as int, escaped, quote) == quote_after(t, from as int, false, quote),
        decreases len - i,
    {
        let ch = match buffer.char_at(i) {
            Some(c) => c,
            None => return None,
        };
        if ch == '\\' && !escaped {
            escaped = true;
        } else if ch == quote && !escaped {
            return Some(i);
        } else {
            escaped = false;
        }
        i = i + 1;
    }
    None
}

/// Spans between two unescaped occurrences of one quote character.
#[derive(Debug)]
pub struct QuoteMatcher {
    pub quote: char,
}

impl QuoteMatcher {
    pub fn new(quote: char) -> (r: Self)
        ensures
            r.quote == quote,
    {
        QuoteMatcher { quote }
    }

    pub fn single() -> (r: Self)
        ensures
            r.quote == '\'',
    {
        Self::new('\'')
    }

    pub fn double() -> (r: Self)
        ensures
            r.quote == '"',
    {
        Self::new('"')
    }

    pub fn backtick() -> (r: Self)
        ensures
            r.quote == '`',
    {
        Self::new('`')
    }
}

impl TextObjectMatcher for QuoteMatcher {
    open spec fn at_result(&self, text: Seq<char>, pos: int, mode: SelectionMode, r: Option<(int, int)>) -> bool {
        r == {
            quoted_at(text, pos, mode, self.quote)
        }
    }

    open spec fn next_result(&self, text: Seq<char>, pos: int, mode: SelectionMode, r: Option<(int, int)>) -> bool {
        r == {
            if 0 <= pos < text.len() {
                match quote_after(text, pos + 1, false, self.quote) {
                    Some(i) => quoted_at(text, i + 1, mode, self.quote),
                    None => None,
                }
            } else {
                None
            }
        }
    }

    open spec fn prev_result(&self, text: Seq<char>, pos: int, mode: SelectionMode, r: Option<(int, int)>) -> bool {
        r == {
            if 0 < pos <= text.len() {
                match quote_before(text, pos - 1, false, self.quote) {
                    Some(i) => quoted_at(text, i + 1, mode, self.quote),
                    None => None,
                }
            } else {
                None
            }
        }
    }

    fn find_at<S: TextSource>(&self, buffer: &S, pos: usize, mode: SelectionMode) -> (r: Option<Range<usize>>) {
        let ghost t = buffer.source_text();
        if pos >= buffer.len_chars() {
            return None;
        }
        let start = match scan_quote_backward(buffer, pos, self.quote) {
            Some(s) => s,
            None => return None,
        };
        proof {
            lemma_quote_before_found(t, pos as int, false, self.quote);
        }
        match scan_quote_forward(buffer, start + 1, self.quote) {
            Some(i) => {
                proof {
                    lemma_quote_after_found(t, start + 1, false, self.quote);
                }
                match mode {
                    SelectionMode::Inside => Some(start + 1..i),
                    SelectionMode::Around => Some(start..i + 1),
                }
            },
            None => None,
        }
    }

    fn find_next<S: TextSource>(&self, buffer: &S, pos: usize, mode: SelectionMode) -> (r: Option<Range<usize>>) {
        let ghost t = buffer.source_text();
        if pos >= buffer.len_chars() {
            return None;
        }
        match scan_quote_forward(buffer, pos + 1, self.quote) {
            Some(i) => {
                proof {
                    lemma_quote_after_found(t, pos + 1, false, self.quote);
                }
                self.find_at(buffer, i + 1, mode)
            },
            None => None,
        }
    }

    fn find_prev<S: TextSource>(&self, buffer: &S, pos: usize, mode: SelectionMode) -> (r: Option<Range<usize>>) {
        let ghost t = buffer.source_text();
        if pos == 0 || pos > buffer.len_chars() {
            return None;
        }
        match scan_quote_backward(buffer, pos - 1, self.quote) {
            Some(i) => {
                proof {
                    lemma_quote_before_found(t, pos - 1, false, self.quote);
                }
                self.find_at(buffer, i + 1, mode)
            },
            None => None,
        }
    }
}

} // verus!
