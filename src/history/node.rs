//! One node of the history tree: a group of edits with the text each one
//! replaced.

use vstd::prelude::*;

use crate::edit::ot::edit_views;
use crate::edit::{apply_edit, Edit, EditView};
use crate::selection::SelectionGroup;

verus! {

pub type NodeId = usize;

/// The document after applying `es` to `doc` in order.
pub open spec fn apply_seq(doc: Seq<char>, es: Seq<EditView>) -> Seq<char>
    decreases es.len(),
{
    if es.len() == 0 {
        doc
    } else {
        apply_seq(apply_edit(doc, es[0]), es.drop_first())
    }
}

/// Each edit of `es` fits the document that the edits before it produce,
/// and `reps[i]` is the text that `es[i]` replaced there.
pub open spec fn records_replaced(doc: Seq<char>, es: Seq<EditView>, reps: Seq<Seq<char>>) -> bool {
    &&& reps.len() == es.len()
    &&& forall|i: int|
        0 <= i < es.len() ==> {
            let before = #[trigger] apply_seq(doc, es.take(i));
            &&& es[i].fits(before)
            &&& reps[i] == before.subrange(es[i].start, es[i].end)
        }
}

/// The edit that undoes `e`, given the text `e` replaced.
pub open spec fn inverse_edit(e: EditView, replaced: Seq<char>) -> EditView {
    EditView { start: e.start, end: e.start + e.text.len(), text: replaced }
}

/// The inverses of the first `n` edits, last edit first.
pub open spec fn inverse_seq(es: Seq<EditView>, reps: Seq<Seq<char>>, n: int) -> Seq<EditView> {
    Seq::new(n as nat, |i: int| inverse_edit(es[n - 1 - i], reps[n - 1 - i]))
}

pub proof fn lemma_apply_seq_push(doc: Seq<char>, es: Seq<EditView>, e: EditView)
    ensures
        apply_seq(doc, es.push(e)) == apply_edit(apply_seq(doc, es), e),
    decreases es.len(),
{
    if es.len() > 0 {
        assert(es.push(e)[0] == es[0]);
        assert(es.push(e).drop_first() =~= es.drop_first().push(e));
        lemma_apply_seq_push(apply_edit(doc, es[0]), es.drop_first(), e);
    } else {
        assert(es.push(e).drop_first() =~= Seq::<EditView>::empty());
        assert(apply_seq(apply_edit(doc, e), Seq::<EditView>::empty()) == apply_edit(doc, e));
    }
}

proof fn lemma_apply_inverse(doc: Seq<char>, e: EditView)
    requires
        e.fits(doc),
    ensures
        apply_edit(apply_edit(doc, e), inverse_edit(e, doc.subrange(e.start, e.end))) == doc,
{
    let d1 = apply_edit(doc, e);
    assert(d1.subrange(0, e.start) =~= doc.subrange(0, e.start));
    assert(d1.subrange(e.start + e.text.len(), d1.len() as int) =~= doc.subrange(
        e.end,
        doc.len() as int,
    ));
    assert(apply_edit(d1, inverse_edit(e, doc.subrange(e.start, e.end))) =~= doc);
}

/// Undoing restores the text: applying a node's edits and then their
/// inverses, built from the replaced texts, gives back the document it started from.
pub proof fn lemma_inverse_restores(doc: Seq<char>, es: Seq<EditView>, reps: Seq<Seq<char>>)
    requires
        records_replaced(doc, es, reps),
    ensures
        apply_seq(apply_seq(doc, es), inverse_seq(es, reps, es.len() as int)) == doc,
    decreases es.len(),
{
    let n = es.len() as int;
    if n > 0 {
        let es0 = es.take(n - 1);
        let reps0 = reps.take(n - 1);
        assert forall|i: int| 0 <= i < es0.len() implies {
            let before = #[trigger] apply_seq(doc, es0.take(i));
            &&& es0[i].fits(before)
            &&& reps0[i] == before.subrange(es0[i].start, es0[i].end)
        } by {
            assert(es0.take(i) =~= es.take(i));
            let _ = apply_seq(doc, es.take(i));
        }
        lemma_inverse_restores(doc, es0, reps0);
        let mid = apply_seq(doc, es0);
        assert(es0.push(es[n - 1]) =~= es);
        lemma_apply_seq_push(doc, es0, es[n - 1]);
        assert(es.take(n - 1) =~= es0);
        let _ = apply_seq(doc, es.take(n - 1));
        lemma_apply_inverse(mid, es[n - 1]);
        let inv = inverse_seq(es, reps, n);
        assert(inv.drop_first() =~= inverse_seq(es0, reps0, n - 1));
        assert(inv[0] == inverse_edit(es[n - 1], reps[n - 1]));
    } else {
        assert(inverse_seq(es, reps, 0) =~= Seq::<EditView>::empty());
    }
}

/// A group of edits recorded together, with what each replaced.
#[derive(Debug)]
pub struct HistoryNode {
    pub edits: Vec<Edit>,
    pub replaced: Vec<String>,
    pub selection_before: Option<SelectionGroup>,
    /// Milliseconds on the owning tree's clock when the node was last
    /// recorded into.
    pub timestamp: u64,
    pub parent: Option<NodeId>,
    pub children: Vec<NodeId>,
}

pub open spec fn string_views(s: Seq<String>) -> Seq<Seq<char>> {
    s.map_values(|t: String| t@)
}

impl HistoryNode {
    /// Edits and replaced texts are paired one to one.
    pub open spec fn wf(&self) -> bool {
        self.edits@.len() == self.replaced@.len()
    }

    pub open spec fn edit_views(&self) -> Seq<EditView> {
        edit_views(self.edits@)
    }

    pub open spec fn replaced_views(&self) -> Seq<Seq<char>> {
        string_views(self.replaced@)
    }

    /// Number of paired edits.
    pub open spec fn paired_len(&self) -> int {
        if self.edits@.len() <= self.replaced@.len() {
            self.edits@.len() as int
        } else {
            self.replaced@.len() as int
        }
    }

    /// The edits that undo this node, in the order in which to apply them.
    pub open spec fn inverse_spec(&self) -> Seq<EditView> {
        inverse_seq(self.edit_views(), self.replaced_views(), self.paired_len())
    }

    /// Every inverse edit's end fits in `usize`.
    pub open spec fn inverse_fits(&self) -> bool {
        forall|i: int|
            0 <= i < self.edits@.len() ==> (#[trigger] self.edits@[i]).start
                + self.edits@[i].text@.len() <= usize::MAX
    }

    /// A detached node at time zero.
    pub fn new(
        edits: Vec<Edit>,
        replaced: Vec<String>,
        selection_before: Option<SelectionGroup>,
    ) -> (r: Self)
        ensures
            r.edits == edits,
            r.replaced == replaced,
            r.selection_before == selection_before,
            r.timestamp == 0,
            r.parent is None,
            r.children@.len() == 0,
    {
        HistoryNode {
            edits,
            replaced,
            selection_before,
            timestamp: 0,
            parent: None,
            children: Vec::new(),
        }
    }

    /// Inverse edits for undo: for each paired edit, last first, the edit
    /// that puts the replaced text back over what the edit inserted.
    pub fn inverse(&self) -> (r: Vec<Edit>)
        requires
            self.inverse_fits(),
        ensures
            r@.len() == self.paired_len(),
            forall|i: int| 0 <= i < r@.len() ==> (#[trigger] r@[i])@ == self.inverse_spec()[i],
    {
        let n: usize = if self.edits.len() <= self.replaced.len() {
            self.edits.len()
        } else {
            self.replaced.len()
        };
        let mut out: Vec<Edit> = Vec::new();
        let mut k: usize = n;
        while k > 0
            invariant
                k <= n,
                n == self.paired_len(),
                self.inverse_fits(),
                out@.len() == n - k,
                forall|i: int|
                    0 <= i < out@.len() ==> (#[trigger] out@[i])@ == self.inverse_spec()[i],
            decreases k,
        {
            k = k - 1;
            let e = &self.edits[k];
            let inv = Edit::new(e.start, e.start + e.text_len(), self.replaced[k].clone());
            out.push(inv);
        }
        out
    }
}

} // verus!
