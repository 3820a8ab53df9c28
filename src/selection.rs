//! Anchor/head selections and multi-cursor selection groups.

use vstd::prelude::*;

use crate::edit::ot::{transform_pos, transform_pos_spec, lemma_transform_pos_in_bounds};
use crate::edit::{apply_edit, Edit, EditView};

verus! {

/// A range with a fixed side (`anchor`) and a moving side (`head`); a cursor
/// when both are equal.
#[derive(Clone, Copy, Debug, PartialEq, Eq, Structural)]
pub struct Selection {
    pub anchor: usize,
    pub head: usize,
}

impl Selection {
    /// Both sides lie within a document of `len` characters.
    pub open spec fn within(self, len: int) -> bool {
        self.anchor <= len && self.head <= len
    }

    /// Both sides carried across `e` by the position rule.
    pub open spec fn transform_spec(self, e: EditView) -> (int, int) {
        (transform_pos_spec(self.anchor as int, e), transform_pos_spec(self.head as int, e))
    }

    /// A cursor at `pos`.
    pub fn new(pos: usize) -> (r: Self)
        ensures
            r.anchor == pos,
            r.head == pos,
    {
        Selection { anchor: pos, head: pos }
    }

    pub fn range(anchor: usize, head: usize) -> (r: Self)
        ensures
            r.anchor == anchor,
            r.head == head,
    {
        Selection { anchor, head }
    }

    /// The range as `(min, max)`.
    pub fn ordered(&self) -> (r: (usize, usize))
        ensures
            r.0 <= r.1,
            self.anchor <= self.head ==> r == (self.anchor, self.head),
            self.anchor > self.head ==> r == (self.head, self.anchor),
    {
        if self.anchor <= self.head {
            (self.anchor, self.head)
        } else {
            (self.head, self.anchor)
        }
    }

    pub fn is_forward(&self) -> (r: bool)
        ensures
            r == (self.anchor <= self.head),
    {
        self.anchor <= self.head
    }

    /// Carry both sides across an edit that has been applied, keeping their
    /// place relative to the surrounding text.
    pub fn transform(&self, edit: &Edit) -> (r: Self)
        requires
            edit@.wf(),
            self.transform_spec(edit@).0 <= usize::MAX,
            self.transform_spec(edit@).1 <= usize::MAX,
        ensures
            (r.anchor as int, r.head as int) == self.transform_spec(edit@),
    {
        Selection { anchor: transform_pos(self.anchor, edit), head: transform_pos(self.head, edit) }
    }
}

impl Default for Selection {
    fn default() -> (r: Self)
        ensures
            r.anchor == 0,
            r.head == 0,
    {
        Selection { anchor: 0, head: 0 }
    }
}

/// A non-empty sequence of selections, one of which is primary.
#[derive(Debug, PartialEq, Eq)]
pub struct SelectionGroup {
    pub sels: Vec<Selection>,
    pub primary: usize,
}

/// Mathematical value of a [`SelectionGroup`].
pub struct SelectionGroupView {
    pub sels: Seq<Selection>,
    pub primary: int,
}

impl View for SelectionGroup {
    type V = SelectionGroupView;

    open spec fn view(&self) -> SelectionGroupView {
        SelectionGroupView { sels: self.sels@, primary: self.primary as int }
    }
}

impl SelectionGroupView {
    pub open spec fn wf(self) -> bool {
        self.sels.len() > 0 && 0 <= self.primary < self.sels.len()
    }

    /// Every selection lies within a document of `len` characters.
    pub open spec fn within(self, len: int) -> bool {
        forall|i: int| 0 <= i < self.sels.len() ==> (#[trigger] self.sels[i]).within(len)
    }

    /// Every side pulled back to at most `len`.
    pub open spec fn clamped(self, len: int) -> SelectionGroupView {
        SelectionGroupView {
            sels: self.sels.map_values(|s: Selection| Selection {
                anchor: if s.anchor > len { len as usize } else { s.anchor },
                head: if s.head > len { len as usize } else { s.head },
            }),
            primary: self.primary,
        }
    }
}

/// View of an optional group.
pub open spec fn group_opt_view(g: Option<SelectionGroup>) -> Option<SelectionGroupView> {
    match g {
        Some(g) => Some(g@),
        None => None,
    }
}

impl Clone for SelectionGroup {
    fn clone(&self) -> (r: Self)
        ensures
            r@ == self@,
    {
        let mut sels: Vec<Selection> = Vec::new();
        let mut i: usize = 0;
        while i < self.sels.len()
            invariant
                i <= self.sels@.len(),
                sels@ == self.sels@.subrange(0, i as int),
            decreases self.sels@.len() - i,
        {
            sels.push(self.sels[i]);
            i = i + 1;
            proof {
                assert(sels@ =~= self.sels@.subrange(0, i as int));
            }
        }
        proof {
            assert(sels@ =~= self.sels@);
        }
        SelectionGroup { sels, primary: self.primary }
    }
}

impl SelectionGroup {
    /// The group with every side pulled back to at most `len`, so that it
    /// fits a document of `len` characters.
    pub fn normalized(&self, len: usize) -> (r: Self)
        ensures
            r@ == self@.clamped(len as int),
            r@.within(len as int),
            self@.wf() ==> r@.wf(),
    {
        let mut sels: Vec<Selection> = Vec::new();
        let mut i: usize = 0;
        while i < self.sels.len()
            invariant
                i <= self.sels@.len(),
                sels@ == self@.clamped(len as int).sels.subrange(0, i as int),
            decreases self.sels@.len() - i,
        {
            let s = self.sels[i];
            let anchor = if s.anchor > len { len } else { s.anchor };
            let head = if s.head > len { len } else { s.head };
            sels.push(Selection { anchor, head });
            i = i + 1;
            proof {
                assert(sels@ =~= self@.clamped(len as int).sels.subrange(0, i as int));
            }
        }
        proof {
            assert(sels@ =~= self@.clamped(len as int).sels);
        }
        SelectionGroup { sels, primary: self.primary }
    }
}

/// A copy of an optional group.
pub fn clone_group_opt(g: &Option<SelectionGroup>) -> (r: Option<SelectionGroup>)
    ensures
        group_opt_view(r) == group_opt_view(*g),
{
    match g {
        Some(g) => Some(g.clone()),
        None => None,
    }
}

impl SelectionGroup {
    pub open spec fn wf(&self) -> bool {
        self.sels@.len() > 0 && self.primary < self.sels@.len()
    }

    /// Every selection lies within a document of `len` characters.
    pub open spec fn within(&self, len: int) -> bool {
        forall|i: int| 0 <= i < self.sels@.len() ==> (#[trigger] self.sels@[i]).within(len)
    }

    /// Every selection can be carried across `e` without overflow.
    pub open spec fn can_transform(&self, e: EditView) -> bool {
        forall|i: int|
            0 <= i < self.sels@.len() ==> (#[trigger] self.sels@[i]).transform_spec(e).0
                <= usize::MAX && self.sels@[i].transform_spec(e).1 <= usize::MAX
    }

    /// One cursor at `pos`.
    pub fn single(pos: usize) -> (r: Self)
        ensures
            r.wf(),
            r.sels@ == seq![Selection { anchor: pos, head: pos }],
            r.primary == 0,
    {
        let mut sels: Vec<Selection> = Vec::new();
        sels.push(Selection::new(pos));
        proof {
            assert(sels@ =~= seq![Selection { anchor: pos, head: pos }]);
        }
        SelectionGroup { sels, primary: 0 }
    }

    pub fn primary(&self) -> (r: &Selection)
        requires
            self.wf(),
        ensures
            *r == self.sels@[self.primary as int],
    {
        &self.sels[self.primary]
    }

    pub fn primary_mut(&mut self) -> (r: &mut Selection)
        requires
            old(self).wf(),
        ensures
            *r == old(self).sels@[old(self).primary as int],
            final(self).primary == old(self).primary,
            final(self).sels@ == old(self).sels@.update(old(self).primary as int, *final(r)),
    {
        &mut self.sels[self.primary]
    }

    /// Every selection carried across an applied edit; `primary` is kept.
    /// A no-op edit gives an equal group.
    pub fn transform(&self, edit: &Edit) -> (r: Self)
        requires
            edit@.wf(),
            self.can_transform(edit@),
        ensures
            r.primary == self.primary,
            r.sels@.len() == self.sels@.len(),
            forall|i: int|
                0 <= i < self.sels@.len() ==> ((#[trigger] r.sels@[i]).anchor as int,
                r.sels@[i].head as int) == self.sels@[i].transform_spec(edit@),
            edit@.is_noop() ==> r.sels@ == self.sels@,
            self.wf() ==> r.wf(),
    {
        let mut sels: Vec<Selection> = Vec::new();
        let mut i: usize = 0;
        while i < self.sels.len()
            invariant
                i <= self.sels@.len(),
                sels@.len() == i,
                edit@.wf(),
                self.can_transform(edit@),
                forall|k: int|
                    0 <= k < i ==> ((#[trigger] sels@[k]).anchor as int, sels@[k].head as int)
                        == self.sels@[k].transform_spec(edit@),
            decreases self.sels@.len() - i,
        {
            let s = self.sels[i].transform(edit);
            sels.push(s);
            i = i + 1;
        }
        proof {
            if edit@.is_noop() {
                assert(sels@ =~= self.sels@);
            }
        }
        SelectionGroup { sels, primary: self.primary }
    }
}

impl Default for SelectionGroup {
    fn default() -> (r: Self)
        ensures
            r.wf(),
            r.sels@ == seq![Selection { anchor: 0, head: 0 }],
            r.primary == 0,
    {
        SelectionGroup::single(0)
    }
}

/// Carrying a group of selections that lie within a document across an edit
/// that fits it leaves every side within the edited document.
pub proof fn lemma_group_transform_within(
    doc: Seq<char>,
    e: EditView,
    before: Seq<Selection>,
    after: Seq<Selection>,
)
    requires
        e.fits(doc),
        before.len() == after.len(),
        forall|i: int| 0 <= i < before.len() ==> (#[trigger] before[i]).within(doc.len() as int),
        forall|i: int|
            0 <= i < before.len() ==> ((#[trigger] after[i]).anchor as int, after[i].head as int)
                == before[i].transform_spec(e),
    ensures
        forall|i: int|
            0 <= i < after.len() ==> (#[trigger] after[i]).within(apply_edit(doc, e).len() as int),
{
    assert forall|i: int| 0 <= i < after.len() implies (#[trigger] after[i]).within(
        apply_edit(doc, e).len() as int,
    ) by {
        lemma_transform_pos_in_bounds(doc, before[i].anchor as int, e);
        lemma_transform_pos_in_bounds(doc, before[i].head as int, e);
    }
}

} // verus!
