//! Grapheme-cluster motion by character index.
//!
//! Boundaries are found by `unicode_segmentation`'s extended grapheme
//! rules over the UTF-8 text; positions are converted between characters
//! and bytes on either side.

use vstd::prelude::*;

use ropey::str_utils::{byte_to_char_idx, char_to_byte_idx};
use unicode_segmentation::GraphemeCursor;

verus! {

/// Bytes in the UTF-8 encoding of `c`.
pub open spec fn utf8_width(c: char) -> int {
    if (c as int) < 0x80 {
        1
    } else if (c as int) < 0x800 {
        2
    } else if (c as int) < 0x10000 {
        3
    } else {
        4
    }
}

/// Bytes in the UTF-8 encoding of `s`.
pub open spec fn utf8_len(s: Seq<char>) -> int
    decreases s.len(),
{
    if s.len() == 0 {
        0
    } else {
        utf8_len(s.drop_last()) + utf8_width(s.last())
    }
}

/// `b` is the byte offset of a position between two characters of `s`.
pub open spec fn on_char_boundary(s: Seq<char>, b: int) -> bool {
    exists|i: int| 0 <= i <= s.len() && utf8_len(s.take(i)) == b
}

/// The character index whose byte offset is `b`.
pub open spec fn char_index_of(s: Seq<char>, b: int) -> int {
    choose|i: int| 0 <= i <= s.len() && utf8_len(s.take(i)) == b
}

/// An optional offset as an optional integer.
pub open spec fn offset_view(o: Option<usize>) -> Option<int> {
    match o {
        Some(n) => Some(n as int),
        None => None,
    }
}

/// A boundary search forward from byte `b` gives nothing at the end, and
/// otherwise a position between characters past `b`.
pub open spec fn moves_forward(s: Seq<char>, b: int, r: Option<int>) -> bool {
    &&& b == utf8_len(s) ==> r is None
    &&& b < utf8_len(s) ==> (r matches Some(n) && b < n <= utf8_len(s) && on_char_boundary(s, n))
}

/// A boundary search backward from byte `b` gives nothing at the start, and
/// otherwise a position between characters before `b`.
pub open spec fn moves_backward(s: Seq<char>, b: int, r: Option<int>) -> bool {
    &&& b == 0 ==> r is None
    &&& b > 0 ==> (r matches Some(n) && 0 <= n < b && on_char_boundary(s, n))
}

/// No grapheme boundary lies strictly between bytes `lo` and `hi` of `s`.
pub open spec fn no_boundary_between(s: Seq<char>, lo: int, hi: int) -> bool {
    forall|k: int|
        lo < k < hi && on_char_boundary(s, k) ==> !#[trigger] grapheme_boundary_of(s, k)
}

/// A boundary found forward from byte `b` is a boundary, and the first one.
pub open spec fn nearest_after(s: Seq<char>, b: int, r: Option<int>) -> bool {
    r matches Some(n) ==> grapheme_boundary_of(s, n) && no_boundary_between(s, b, n)
}

/// A boundary found backward from byte `b` is a boundary, and the first one.
pub open spec fn nearest_before(s: Seq<char>, b: int, r: Option<int>) -> bool {
    r matches Some(n) ==> grapheme_boundary_of(s, n) && no_boundary_between(s, n, b)
}

/// Byte offset of the next extended grapheme boundary after byte `b`.
pub uninterp spec fn grapheme_next_of(s: Seq<char>, b: int) -> Option<int>;

/// Byte offset of the previous extended grapheme boundary before byte `b`.
pub uninterp spec fn grapheme_prev_of(s: Seq<char>, b: int) -> Option<int>;

/// Whether byte `b` is an extended grapheme boundary.
pub uninterp spec fn grapheme_boundary_of(s: Seq<char>, b: int) -> bool;

pub proof fn lemma_utf8_len_increasing(s: Seq<char>, i: int, j: int)
    requires
        0 <= i < j <= s.len(),
    ensures
        utf8_len(s.take(i)) < utf8_len(s.take(j)),
    decreases j - i,
{
    assert(s.take(j).drop_last() =~= s.take(j - 1));
    if i < j - 1 {
        lemma_utf8_len_increasing(s, i, j - 1);
    }
}

pub proof fn lemma_char_index_unique(s: Seq<char>, i: int, b: int)
    requires
        0 <= i <= s.len(),
        utf8_len(s.take(i)) == b,
    ensures
        char_index_of(s, b) == i,
{
    let j = char_index_of(s, b);
    if j < i {
        lemma_utf8_len_increasing(s, j, i);
    } else if i < j {
        lemma_utf8_len_increasing(s, i, j);
    }
}

/// Relies on `ropey::str_utils::char_to_byte_idx`: the byte offset of
/// character `c`, one past the end for `c == len`.
#[verifier::external_body]
pub(crate) fn str_char_to_byte(s: &str, c: usize) -> (r: usize)
    requires
        c <= s@.len(),
    ensures
        r == utf8_len(s@.take(c as int)),
{
    char_to_byte_idx(s, c)
}

/// Relies on `ropey::str_utils::byte_to_char_idx`: the character at byte
/// offset `b`.
#[verifier::external_body]
pub(crate) fn str_byte_to_char(s: &str, b: usize) -> (r: usize)
    requires
        on_char_boundary(s@, b as int),
    ensures
        r <= s@.len(),
        utf8_len(s@.take(r as int)) == b,
{
    byte_to_char_idx(s, b)
}

/// Relies on `GraphemeCursor::next_boundary` over the whole string: the
/// next boundary after `b`, which moves past at least one character and
/// lands between characters, with no boundary passed over; none at the end.
#[verifier::external_body]
fn next_boundary(s: &str, b: usize) -> (r: Option<usize>)
    requires
        on_char_boundary(s@, b as int),
    ensures
        offset_view(r) == grapheme_next_of(s@, b as int),
        moves_forward(s@, b as int, offset_view(r)),
        nearest_after(s@, b as int, offset_view(r)),
{
    let mut cursor = GraphemeCursor::new(b, s.len(), true);
    cursor.next_boundary(s, 0).ok().flatten()
}

/// Relies on `GraphemeCursor::prev_boundary` over the whole string: the
/// previous boundary before `b`, which moves back at least one character
/// and lands between characters, with no boundary passed over; none at the
/// start.
#[verifier::external_body]
fn prev_boundary(s: &str, b: usize) -> (r: Option<usize>)
    requires
        on_char_boundary(s@, b as int),
    ensures
        offset_view(r) == grapheme_prev_of(s@, b as int),
        moves_backward(s@, b as int, offset_view(r)),
        nearest_before(s@, b as int, offset_view(r)),
{
    let mut cursor = GraphemeCursor::new(b, s.len(), true);
    cursor.prev_boundary(s, 0).ok().flatten()
}

/// Relies on `GraphemeCursor::is_boundary` over the whole string; the start
/// and the end are boundaries.
#[verifier::external_body]
fn is_boundary(s: &str, b: usize) -> (r: bool)
    requires
        on_char_boundary(s@, b as int),
    ensures
        r == grapheme_boundary_of(s@, b as int),
        b == 0 || b == utf8_len(s@) ==> r,
{
    let mut cursor = GraphemeCursor::new(b, s.len(), true);
    cursor.is_boundary(s, 0).unwrap_or(false)
}

/// Character index of the next grapheme boundary after `pos`; the length
/// at the end.
pub open spec fn next_grapheme_spec(t: Seq<char>, pos: int) -> int {
    match grapheme_next_of(t, utf8_len(t.take(pos))) {
        Some(n) => char_index_of(t, n),
        None => t.len() as int,
    }
}

/// Character index of the previous grapheme boundary before `pos`; zero at
/// the start.
pub open spec fn prev_grapheme_spec(t: Seq<char>, pos: int) -> int {
    match grapheme_prev_of(t, utf8_len(t.take(pos))) {
        Some(n) => char_index_of(t, n),
        None => 0,
    }
}

pub open spec fn is_grapheme_boundary_spec(t: Seq<char>, pos: int) -> bool {
    grapheme_boundary_of(t, utf8_len(t.take(pos)))
}

/// Stepping back one grapheme from `pos` to `p` and then forward to `n`,
/// each step stopping at the nearest boundary as `prev_grapheme` and
/// `next_grapheme` ensure, never ends before `pos`, and ends at `pos` when
/// `pos` is a boundary.
pub proof fn lemma_next_of_prev(t: Seq<char>, pos: int, p: int, n: int)
    requires
        0 < pos <= t.len(),
        0 <= p < pos,
        forall|k: int| p < k < pos ==> !#[trigger] is_grapheme_boundary_spec(t, k),
        p < n <= t.len(),
        is_grapheme_boundary_spec(t, n),
        forall|k: int| p < k < n ==> !#[trigger] is_grapheme_boundary_spec(t, k),
    ensures
        n >= pos,
        is_grapheme_boundary_spec(t, pos) ==> n == pos,
{
    if n < pos {
        assert(!is_grapheme_boundary_spec(t, n));
    }
    if is_grapheme_boundary_spec(t, pos) && n > pos {
        assert(!is_grapheme_boundary_spec(t, pos));
    }
}

/// The next grapheme boundary after character `char_idx` of `text`: always
/// past `char_idx` unless it is the end, and never past the end.
pub fn next_grapheme(text: &str, char_idx: usize) -> (r: usize)
    requires
        char_idx <= text@.len(),
    ensures
        r == next_grapheme_spec(text@, char_idx as int),
        char_idx < text@.len() ==> char_idx < r <= text@.len(),
        char_idx == text@.len() ==> r == text@.len(),
        char_idx < text@.len() ==> is_grapheme_boundary_spec(text@, r as int),
        forall|k: int| char_idx < k < r ==> !#[trigger] is_grapheme_boundary_spec(text@, k),
{
    let b = str_char_to_byte(text, char_idx);
    let len = text.unicode_len();
    proof {
        assert(text@.take(text@.len() as int) =~= text@);
        if char_idx < text@.len() {
            lemma_utf8_len_increasing(text@, char_idx as int, text@.len() as int);
        }
    }
    match next_boundary(text, b) {
        Some(n) => {
            let c = str_byte_to_char(text, n);
            proof {
                lemma_char_index_unique(text@, c as int, n as int);
                if c <= char_idx {
                    if c < char_idx {
                        lemma_utf8_len_increasing(text@, c as int, char_idx as int);
                    }
                }
                assert forall|k: int| char_idx < k < c implies !#[trigger] is_grapheme_boundary_spec(text@, k) by {
                    lemma_utf8_len_increasing(text@, char_idx as int, k);
                    lemma_utf8_len_increasing(text@, k, c as int);
                    assert(on_char_boundary(text@, utf8_len(text@.take(k))));
                }
            }
            c
        },
        None => len,
    }
}

/// The previous grapheme boundary before character `char_idx` of `text`:
/// always before `char_idx` unless it is the start.
pub fn prev_grapheme(text: &str, char_idx: usize) -> (r: usize)
    requires
        char_idx <= text@.len(),
    ensures
        r == prev_grapheme_spec(text@, char_idx as int),
        char_idx > 0 ==> r < char_idx,
        char_idx == 0 ==> r == 0,
        char_idx > 0 ==> is_grapheme_boundary_spec(text@, r as int),
        forall|k: int| r < k < char_idx ==> !#[trigger] is_grapheme_boundary_spec(text@, k),
{
    let b = str_char_to_byte(text, char_idx);
    proof {
        assert(text@.take(0) =~= Seq::<char>::empty());
        if char_idx > 0 {
            lemma_utf8_len_increasing(text@, 0, char_idx as int);
        }
    }
    match prev_boundary(text, b) {
        Some(n) => {
            let c = str_byte_to_char(text, n);
            proof {
                lemma_char_index_unique(text@, c as int, n as int);
                if c >= char_idx {
                    if c > char_idx {
                        lemma_utf8_len_increasing(text@, char_idx as int, c as int);
                    }
                }
                assert forall|k: int| c < k < char_idx implies !#[trigger] is_grapheme_boundary_spec(text@, k) by {
                    lemma_utf8_len_increasing(text@, c as int, k);
                    lemma_utf8_len_increasing(text@, k, char_idx as int);
                    assert(on_char_boundary(text@, utf8_len(text@.take(k))));
                }
            }
            c
        },
        None => 0,
    }
}

/// Whether character position `char_idx` of `text` is a grapheme boundary;
/// the start and the end always are.
pub fn is_grapheme_boundary(text: &str, char_idx: usize) -> (r: bool)
    requires
        char_idx <= text@.len(),
    ensures
        r == is_grapheme_boundary_spec(text@, char_idx as int),
        char_idx == 0 || char_idx == text@.len() ==> r,
{
    let b = str_char_to_byte(text, char_idx);
    proof {
        assert(text@.take(0) =~= Seq::<char>::empty());
        assert(text@.take(text@.len() as int) =~= text@);
    }
    is_boundary(text, b)
}

} // verus!
