//! A single replace operation on a character-indexed document.

pub mod ot;

use vstd::prelude::*;

verus! {

/// Mathematical value of an [`Edit`]: replace the half-open character range
/// `[start, end)` with `text`.
#[verifier::ext_equal]
pub struct EditView {
    pub start: int,
    pub end: int,
    pub text: Seq<char>,
}

impl EditView {
    /// The range is not inverted.
    pub open spec fn wf(self) -> bool {
        0 <= self.start <= self.end
    }

    /// The range is not inverted and lies within `doc`.
    pub open spec fn fits(self, doc: Seq<char>) -> bool {
        0 <= self.start <= self.end <= doc.len()
    }

    pub open spec fn is_insert(self) -> bool {
        self.start == self.end
    }

    pub open spec fn is_delete(self) -> bool {
        self.text.len() == 0 && self.start != self.end
    }

    pub open spec fn is_replace(self) -> bool {
        self.text.len() != 0 && self.start != self.end
    }

    pub open spec fn is_noop(self) -> bool {
        self.start == self.end && self.text.len() == 0
    }

    /// Change of document length caused by the edit.
    pub open spec fn delta(self) -> int {
        self.text.len() - (self.end - self.start)
    }
}

/// The document obtained by applying `e` to `doc`.
pub open spec fn apply_edit(doc: Seq<char>, e: EditView) -> Seq<char> {
    doc.subrange(0, e.start) + e.text + doc.subrange(e.end, doc.len() as int)
}

/// Replace the characters in `[start, end)` with `text`.
#[derive(Debug, PartialEq, Eq)]
pub struct Edit {
    pub start: usize,
    pub end: usize,
    pub text: String,
}

impl View for Edit {
    type V = EditView;

    open spec fn view(&self) -> EditView {
        EditView { start: self.start as int, end: self.end as int, text: self.text@ }
    }
}

impl Clone for Edit {
    fn clone(&self) -> (r: Self)
        ensures
            r@ == self@,
    {
        Edit { start: self.start, end: self.end, text: self.text.clone() }
    }
}

impl Edit {
    pub fn new(start: usize, end: usize, text: String) -> (r: Self)
        ensures
            r.start == start,
            r.end == end,
            r.text@ == text@,
    {
        Edit { start, end, text }
    }

    pub fn is_insert(&self) -> (r: bool)
        ensures
            r == self@.is_insert(),
    {
        self.start == self.end
    }

    pub fn is_delete(&self) -> (r: bool)
        ensures
            r == self@.is_delete(),
    {
        self.text.as_str().is_empty() && self.start != self.end
    }

    pub fn is_replace(&self) -> (r: bool)
        ensures
            r == self@.is_replace(),
    {
        !self.text.as_str().is_empty() && self.start != self.end
    }

    pub fn is_noop(&self) -> (r: bool)
        ensures
            r == self@.is_noop(),
    {
        self.text.as_str().is_empty() && self.start == self.end
    }

    /// Number of characters in the replacement text.
    pub fn text_len(&self) -> (r: usize)
        ensures
            r == self.text@.len(),
    {
        self.text.as_str().unicode_len()
    }

    /// Change of document length, in characters.
    pub fn delta(&self) -> (r: isize)
        requires
            self.start <= self.end,
            self.end - self.start <= isize::MAX,
            self.text@.len() <= isize::MAX,
        ensures
            r == self@.delta(),
    {
        let ins = self.text_len();
        ins as isize - (self.end - self.start) as isize
    }
}

} // verus!
