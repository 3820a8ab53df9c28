//! A single cursor-style selection with the two update policies applied
//! after edits: move to the end of the change, or keep the relative place.

use vstd::prelude::*;

use crate::edit::ot::{edit_views, pos_seq_fits, transform_pos_list, transform_pos_seq};
use crate::edit::{Edit, EditView};

verus! {

/// Where the cursor goes after the user's own edit `e`: past the inserted
/// text for an insert or a replace, to the start for a delete, and nowhere
/// (it stays at `head`) for a no-op.
pub open spec fn cursor_after_spec(e: EditView, head: int) -> int {
    if e.is_noop() {
        head
    } else if e.is_delete() {
        e.start
    } else {
        e.start + e.text.len()
    }
}

/// A range with a fixed side (`anchor`) and a moving side (`head`).
#[derive(Debug, Clone, Copy, PartialEq, Eq, Structural)]
pub struct Selection {
    pub anchor: usize,
    pub head: usize,
}

impl Selection {
    pub fn new(anchor: usize, head: usize) -> (r: Self)
        ensures
            r.anchor == anchor,
            r.head == head,
    {
        Selection { anchor, head }
    }

    pub fn cursor(position: usize) -> (r: Self)
        ensures
            r.anchor == position,
            r.head == position,
    {
        Selection { anchor: position, head: position }
    }

    pub fn is_cursor(&self) -> (r: bool)
        ensures
            r == (self.anchor == self.head),
    {
        self.anchor == self.head
    }

    pub fn cursor_to(&mut self, position: usize)
        ensures
            final(self).anchor == position,
            final(self).head == position,
    {
        self.anchor = position;
        self.head = position;
    }

    pub fn set_range(&mut self, anchor: usize, head: usize)
        ensures
            final(self).anchor == anchor,
            final(self).head == head,
    {
        self.anchor = anchor;
        self.head = head;
    }

    /// The range as `(min, max)`.
    pub fn range(&self) -> (r: (usize, usize))
        ensures
            r.0 <= r.1,
            self.anchor <= self.head ==> r == (self.anchor, self.head),
            self.anchor > self.head ==> r == (self.head, self.anchor),
    {
        if self.anchor <= self.head {
            (self.anchor, self.head)
        } else {
            (self.head, self.anchor)
        }
    }

    /// Cursor position after the user's own edit.
    pub fn cursor_after_edit(&self, edit: &Edit) -> (r: usize)
        requires
            edit.start + edit.text@.len() <= usize::MAX,
        ensures
            r == cursor_after_spec(edit@, self.head as int),
    {
        if edit.is_noop() {
            self.head
        } else if edit.is_delete() {
            edit.start
        } else {
            edit.start + edit.text_len()
        }
    }

    /// Cursor position after a batch of the user's own edits: decided by the
    /// last edit; `head` for an empty batch.
    pub fn cursor_after_edits(&self, edits: &[Edit]) -> (r: usize)
        requires
            edits@.len() > 0 ==> edits@.last().start + edits@.last().text@.len() <= usize::MAX,
        ensures
            edits@.len() == 0 ==> r == self.head,
            edits@.len() > 0 ==> r == cursor_after_spec(edits@.last()@, self.head as int),
    {
        if edits.len() == 0 {
            return self.head;
        }
        let last = &edits[edits.len() - 1];
        self.cursor_after_edit(last)
    }

    /// Carry both sides across each edit in order, keeping their place
    /// relative to the surrounding text.
    pub fn update_after_edits(&mut self, edits: &[Edit])
        requires
            forall|j: int| 0 <= j < edits@.len() ==> (#[trigger] edits@[j])@.wf(),
            pos_seq_fits(old(self).anchor as int, edit_views(edits@)),
            pos_seq_fits(old(self).head as int, edit_views(edits@)),
        ensures
            final(self).anchor == transform_pos_seq(old(self).anchor as int, edit_views(edits@)),
            final(self).head == transform_pos_seq(old(self).head as int, edit_views(edits@)),
    {
        self.anchor = transform_pos_list(self.anchor, edits);
        self.head = transform_pos_list(self.head, edits);
    }
}

impl Default for Selection {
    fn default() -> (r: Self)
        ensures
            r.anchor == 0,
            r.head == 0,
    {
        Selection { anchor: 0, head: 0 }
    }
}

} // verus!
