//! Text storage on a rope, addressed by character index.

use vstd::prelude::*;

use ropey::Rope;

use super::lines::{line_count, line_end, line_of, line_start, lemma_line_start_bounds, lemma_line_start_monotonic};
use super::grapheme::{self, is_grapheme_boundary_spec, next_grapheme_spec, prev_grapheme_spec, utf8_len};
use crate::edit::{apply_edit, Edit};

verus! {

#[verifier::external_type_specification]
#[verifier::external_body]
pub struct ExRope(ropey::Rope);

/// The characters that a rope holds.
pub uninterp spec fn rope_text(r: Rope) -> Seq<char>;

/// Relies on `Rope::new`: an empty rope.
#[verifier::external_body]
fn rope_new() -> (r: Rope)
    ensures
        rope_text(r) == Seq::<char>::empty(),
{
    Rope::new()
}

/// Relies on `Rope::from_str`: a rope holding `s`.
#[verifier::external_body]
fn rope_from_str(s: &str) -> (r: Rope)
    ensures
        rope_text(r) == s@,
{
    Rope::from_str(s)
}

/// Relies on `Rope`'s `Display`: the whole text as a string.
#[verifier::external_body]
fn rope_to_string(r: &Rope) -> (s: String)
    ensures
        s@ == rope_text(*r),
{
    r.to_string()
}

/// Relies on `Rope::len_chars`: the number of characters.
#[verifier::external_body]
fn rope_len_chars(r: &Rope) -> (n: usize)
    ensures
        n == rope_text(*r).len(),
{
    r.len_chars()
}

/// Relies on `Rope::len_lines`: one more than the number of line breaks,
/// which without ropey's `cr_lines` and `unicode_lines` features are the
/// `'\n'` characters.
#[verifier::external_body]
fn rope_len_lines(r: &Rope) -> (n: usize)
    ensures
        n == line_count(rope_text(*r)),
{
    r.len_lines()
}

/// Relies on `Rope::char`: the character at `i`; panics past the end.
#[verifier::external_body]
fn rope_char(r: &Rope, i: usize) -> (c: char)
    requires
        i < rope_text(*r).len(),
    ensures
        c == rope_text(*r)[i as int],
{
    r.char(i)
}

/// Relies on `Rope::char_to_line`: the number of line breaks before `pos`;
/// panics past one-past-the-end.
#[verifier::external_body]
fn rope_char_to_line(r: &Rope, pos: usize) -> (n: usize)
    requires
        pos <= rope_text(*r).len(),
    ensures
        n == line_of(rope_text(*r), pos as int),
{
    r.char_to_line(pos)
}

/// Relies on `Rope::line_to_char`: where line `k` starts, one-past-the-end
/// for `k == len_lines()`; panics beyond.
#[verifier::external_body]
fn rope_line_to_char(r: &Rope, k: usize) -> (n: usize)
    requires
        k <= line_count(rope_text(*r)),
    ensures
        n == line_start(rope_text(*r), k as nat),
{
    r.line_to_char(k)
}

/// Relies on `Rope::slice`: the characters in `[start, end)`; panics on an
/// inverted or out-of-bounds range.
#[verifier::external_body]
fn rope_slice_string(r: &Rope, start: usize, end: usize) -> (s: String)
    requires
        start <= end <= rope_text(*r).len(),
    ensures
        s@ == rope_text(*r).subrange(start as int, end as int),
{
    String::from(r.slice(start..end))
}

/// Relies on `Rope::remove`: the characters in `[start, end)` are taken out;
/// panics on an inverted or out-of-bounds range.
#[verifier::external_body]
fn rope_remove(r: &mut Rope, start: usize, end: usize)
    requires
        start <= end <= rope_text(*old(r)).len(),
    ensures
        rope_text(*final(r)) == rope_text(*old(r)).subrange(0, start as int) + rope_text(
            *old(r),
        ).subrange(end as int, rope_text(*old(r)).len() as int),
{
    r.remove(start..end)
}

/// Relies on `Rope::insert`: `text` goes in at `pos`; panics past the end.
#[verifier::external_body]
fn rope_insert(r: &mut Rope, pos: usize, text: &str)
    requires
        pos <= rope_text(*old(r)).len(),
    ensures
        rope_text(*final(r)) == rope_text(*old(r)).subrange(0, pos as int) + text@ + rope_text(
            *old(r),
        ).subrange(pos as int, rope_text(*old(r)).len() as int),
{
    r.insert(pos, text)
}

/// Relies on `Rope::char_to_byte`: the byte offset of character `pos`, one
/// past the end for `pos == len_chars()`; panics beyond.
#[verifier::external_body]
fn rope_char_to_byte(r: &Rope, pos: usize) -> (n: usize)
    requires
        pos <= rope_text(*r).len(),
    ensures
        n == utf8_len(rope_text(*r).take(pos as int)),
{
    r.char_to_byte(pos)
}

/// Relies on `Rope::byte_to_char`: the character that byte `b` belongs to,
/// one past the end for `b == len_bytes()`; panics beyond.
#[verifier::external_body]
fn rope_byte_to_char(r: &Rope, b: usize) -> (n: usize)
    requires
        b <= utf8_len(rope_text(*r)),
    ensures
        char_holding_byte(rope_text(*r), b as int, n as int),
{
    r.byte_to_char(b)
}

/// Character `c` of `t` holds byte `b`, or `c` is the end and so is `b`.
pub open spec fn char_holding_byte(t: Seq<char>, b: int, c: int) -> bool {
    &&& 0 <= c <= t.len()
    &&& utf8_len(t.take(c)) <= b
    &&& c < t.len() ==> b < utf8_len(t.take(c + 1))
}

/// Mutable text storage addressed by character index.
pub struct Buffer {
    content: Rope,
}

impl View for Buffer {
    type V = Seq<char>;

    closed spec fn view(&self) -> Seq<char> {
        rope_text(self.content)
    }
}

impl Buffer {
    pub fn new() -> (r: Self)
        ensures
            r@ == Seq::<char>::empty(),
    {
        Buffer { content: rope_new() }
    }

    pub fn from_str(text: &str) -> (r: Self)
        ensures
            r@ == text@,
    {
        Buffer { content: rope_from_str(text) }
    }

    pub fn text(&self) -> (r: String)
        ensures
            r@ == self@,
    {
        rope_to_string(&self.content)
    }

    pub fn len_chars(&self) -> (r: usize)
        ensures
            r == self@.len(),
    {
        rope_len_chars(&self.content)
    }

    pub fn len_lines(&self) -> (r: usize)
        ensures
            r == line_count(self@),
    {
        rope_len_lines(&self.content)
    }

    /// The character at `pos`, or `None` past the end.
    pub fn char_at(&self, pos: usize) -> (r: Option<char>)
        ensures
            pos < self@.len() ==> r == Some(self@[pos as int]),
            pos >= self@.len() ==> r is None,
    {
        if pos < self.len_chars() {
            Some(rope_char(&self.content, pos))
        } else {
            None
        }
    }

    /// The text of line `idx`, with its newline if it has one.
    pub fn line(&self, idx: usize) -> (r: String)
        requires
            idx < line_count(self@),
        ensures
            r@ == self@.subrange(line_start(self@, idx as nat), line_end(self@, idx as nat)),
    {
        let start = self.line_to_char(idx);
        let end = self.line_end_char(idx);
        self.slice_to_string(start, end)
    }

    /// Number of characters of line `idx`, its newline included.
    pub fn line_len(&self, idx: usize) -> (r: usize)
        requires
            idx < line_count(self@),
        ensures
            r == line_end(self@, idx as nat) - line_start(self@, idx as nat),
    {
        let start = self.line_to_char(idx);
        let end = self.line_end_char(idx);
        end - start
    }

    /// Where line `idx` ends: the start of the next line, or the end of the
    /// text on the last line.
    pub fn line_end_char(&self, idx: usize) -> (r: usize)
        requires
            idx < line_count(self@),
        ensures
            r == line_end(self@, idx as nat),
            line_start(self@, idx as nat) <= r <= self@.len(),
    {
        proof {
            lemma_line_start_monotonic(self@, idx as nat, idx as nat + 1);
            lemma_line_start_bounds(self@, idx as nat + 1);
        }
        if idx < self.len_lines() - 1 {
            self.line_to_char(idx + 1)
        } else {
            self.len_chars()
        }
    }

    pub fn char_to_line(&self, pos: usize) -> (r: usize)
        requires
            pos <= self@.len(),
        ensures
            r == line_of(self@, pos as int),
    {
        rope_char_to_line(&self.content, pos)
    }

    /// Start of line `line`; the end of the text for `line == len_lines()`.
    pub fn line_to_char(&self, line: usize) -> (r: usize)
        requires
            line <= line_count(self@),
        ensures
            r == line_start(self@, line as nat),
            r <= self@.len(),
    {
        proof {
            lemma_line_start_bounds(self@, line as nat);
        }
        rope_line_to_char(&self.content, line)
    }

    /// The characters in `[start, end)`.
    pub fn slice_to_string(&self, start: usize, end: usize) -> (r: String)
        requires
            start <= end <= self@.len(),
        ensures
            r@ == self@.subrange(start as int, end as int),
    {
        rope_slice_string(&self.content, start, end)
    }

    /// The next grapheme boundary after `pos`: past `pos` unless it is the
    /// end, never past the end.
    pub fn next_grapheme(&self, pos: usize) -> (r: usize)
        requires
            pos <= self@.len(),
        ensures
            r == next_grapheme_spec(self@, pos as int),
            pos < self@.len() ==> pos < r <= self@.len(),
            pos == self@.len() ==> r == pos,
            pos < self@.len() ==> is_grapheme_boundary_spec(self@, r as int),
            forall|k: int| pos < k < r ==> !#[trigger] is_grapheme_boundary_spec(self@, k),
    {
        let text = self.text();
        grapheme::next_grapheme(text.as_str(), pos)
    }

    /// The previous grapheme boundary before `pos`: before `pos` unless it
    /// is the start.
    pub fn prev_grapheme(&self, pos: usize) -> (r: usize)
        requires
            pos <= self@.len(),
        ensures
            r == prev_grapheme_spec(self@, pos as int),
            pos > 0 ==> r < pos,
            pos == 0 ==> r == 0,
            pos > 0 ==> is_grapheme_boundary_spec(self@, r as int),
            forall|k: int| r < k < pos ==> !#[trigger] is_grapheme_boundary_spec(self@, k),
    {
        let text = self.text();
        grapheme::prev_grapheme(text.as_str(), pos)
    }

    /// Whether `pos` is a grapheme boundary; the start and the end are.
    pub fn is_grapheme_boundary(&self, pos: usize) -> (r: bool)
        requires
            pos <= self@.len(),
        ensures
            r == is_grapheme_boundary_spec(self@, pos as int),
            pos == 0 || pos == self@.len() ==> r,
    {
        let text = self.text();
        grapheme::is_grapheme_boundary(text.as_str(), pos)
    }

    /// Byte offset of character `pos` in the UTF-8 text.
    pub fn char_to_byte(&self, pos: usize) -> (r: usize)
        requires
            pos <= self@.len(),
        ensures
            r == utf8_len(self@.take(pos as int)),
    {
        rope_char_to_byte(&self.content, pos)
    }

    /// The character that byte `byte` of the UTF-8 text belongs to.
    pub fn byte_to_char(&self, byte: usize) -> (r: usize)
        requires
            byte <= utf8_len(self@),
        ensures
            char_holding_byte(self@, byte as int, r as int),
    {
        rope_byte_to_char(&self.content, byte)
    }

    /// Replace `[edit.start, edit.end)` with `edit.text`; returns the text
    /// that was replaced. An empty edit of an empty range changes nothing.
    pub fn apply(&mut self, edit: &Edit) -> (r: String)
        requires
            edit@.fits(old(self)@),
        ensures
            final(self)@ == apply_edit(old(self)@, edit@),
            r@ == old(self)@.subrange(edit.start as int, edit.end as int),
    {
        let ghost before = self@;
        let replaced = rope_slice_string(&self.content, edit.start, edit.end);
        if edit.start != edit.end {
            rope_remove(&mut self.content, edit.start, edit.end);
        }
        if !edit.text.as_str().is_empty() {
            rope_insert(&mut self.content, edit.start, edit.text.as_str());
        }
        proof {
            let mid = before.subrange(0, edit.start as int) + before.subrange(
                edit.end as int,
                before.len() as int,
            );
            if edit.start == edit.end {
                assert(mid =~= before);
            }
            assert(mid.subrange(0, edit.start as int) =~= before.subrange(0, edit.start as int));
            assert(mid.subrange(edit.start as int, mid.len() as int) =~= before.subrange(
                edit.end as int,
                before.len() as int,
            ));
            assert(self@ =~= apply_edit(before, edit@));
        }
        replaced
    }
}

impl Default for Buffer {
    fn default() -> (r: Self)
        ensures
            r@ == Seq::<char>::empty(),
    {
        Buffer::new()
    }
}

} // verus!
