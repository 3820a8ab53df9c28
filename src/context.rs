//! The editing engine: a buffer, a selection group and a history, kept in
//! step as edits are applied, undone and redone.

use vstd::prelude::*;

use crate::buffer::buffer::Buffer;
use crate::buffer::selection::cursor_after_spec;
use crate::edit::ot::{
    edit_views, lemma_transform_pos_in_bounds, lemma_transform_pos_seq_step, transform_pos_seq,
};
use crate::edit::{apply_edit, Edit, EditView};
use crate::history::node::{
    apply_seq, lemma_apply_seq_push, records_replaced, string_views, NodeId,
};
use crate::history::tree::{ends_with, recorded_at, HistoryTree, HistoryView};
use crate::selection::{
    lemma_group_transform_within, Selection, SelectionGroup, SelectionGroupView,
};

verus! {

/// Why a batch of edits was refused.
#[derive(Debug, Clone, Copy, PartialEq, Eq, Structural)]
pub enum EditError {
    /// A position past the end of the text, or an inverted range; with the
    /// offending position and the length of the text it was checked against.
    OutOfBounds { pos: usize, len: usize },
    /// The history already holds as many nodes as an id can count.
    HistoryFull,
}

/// Each edit of `es`, applied in order to a text of `len` characters, fits
/// the text it meets, and no text grows past `usize::MAX` characters.
pub open spec fn batch_fits(len: int, es: Seq<EditView>) -> bool
    decreases es.len(),
{
    if es.len() == 0 {
        true
    } else {
        &&& 0 <= es[0].start <= es[0].end <= len
        &&& len + es[0].delta() <= usize::MAX
        &&& batch_fits(len + es[0].delta(), es.drop_first())
    }
}

/// Position and text length reported for the first edit of `es` that does
/// not fit: its start if its range is inverted, else its end.
pub open spec fn batch_error(len: int, es: Seq<EditView>) -> (int, int)
    decreases es.len(),
{
    if es.len() == 0 {
        (0, len)
    } else if es[0].start > es[0].end {
        (es[0].start, len)
    } else if !(es[0].end <= len && len + es[0].delta() <= usize::MAX) {
        (es[0].end, len)
    } else {
        batch_error(len + es[0].delta(), es.drop_first())
    }
}

proof fn lemma_skip_step<T>(s: Seq<T>, i: int)
    requires
        0 <= i < s.len(),
    ensures
        s.skip(i)[0] == s[i],
        s.skip(i).drop_first() == s.skip(i + 1),
{
    assert(s.skip(i).drop_first() =~= s.skip(i + 1));
}

/// The first edit of a batch that does not fit, as a position and a length.
fn check_batch(len: usize, edits: &[Edit]) -> (r: Option<(usize, usize)>)
    ensures
        r is None <==> batch_fits(len as int, edit_views(edits@)),
        r matches Some((p, l)) ==> (p as int, l as int) == batch_error(len as int, edit_views(edits@)),
{
    let ghost vs = edit_views(edits@);
    let mut cur = len;
    let mut i: usize = 0;
    assert(vs.skip(0) =~= vs);
    while i < edits.len()
        invariant
            i <= edits@.len(),
            vs == edit_views(edits@),
            batch_fits(len as int, vs) == batch_fits(cur as int, vs.skip(i as int)),
            !batch_fits(len as int, vs) ==> batch_error(len as int, vs) == batch_error(cur as int, vs.skip(i as int)),
        decreases edits@.len() - i,
    {
        proof {
            lemma_skip_step(vs, i as int);
        }
        let e = &edits[i];
        if e.start > e.end {
            return Some((e.start, cur));
        }
        if e.end > cur {
            return Some((e.end, cur));
        }
        let base = cur - (e.end - e.start);
        let ins = e.text_len();
        if ins > usize::MAX - base {
            return Some((e.end, cur));
        }
        cur = base + ins;
        i = i + 1;
    }
    proof {
        assert(vs.skip(i as int) =~= Seq::<EditView>::empty());
    }
    None
}

proof fn lemma_batch_fits_edits(len: int, es: Seq<EditView>)
    requires
        batch_fits(len, es),
    ensures
        forall|j: int| 0 <= j < es.len() ==> (#[trigger] es[j]).start + es[j].text.len() <= usize::MAX,
    decreases es.len(),
{
    if es.len() > 0 {
        lemma_batch_fits_edits(len + es[0].delta(), es.drop_first());
        assert forall|j: int| 0 <= j < es.len() implies (#[trigger] es[j]).start + es[j].text.len()
            <= usize::MAX by {
            if j > 0 {
                assert(es[j] == es.drop_first()[j - 1]);
            }
        }
    }
}

/// Mathematical value of a [`Context`].
pub struct ContextView {
    pub text: Seq<char>,
    pub selection: SelectionGroupView,
    pub history: HistoryView,
}

/// A selection carried across each edit of `es`.
pub open spec fn shifted(s: Selection, es: Seq<EditView>) -> (int, int) {
    (transform_pos_seq(s.anchor as int, es), transform_pos_seq(s.head as int, es))
}

/// The group after the user's own batch `es`: every selection carried
/// across the batch, then the primary one collapsed to the end of the last
/// change unless that edit is a no-op.
pub open spec fn group_after_own_edits(g: SelectionGroupView, es: Seq<EditView>, s: SelectionGroupView) -> bool {
    &&& s.primary == g.primary
    &&& s.sels.len() == g.sels.len()
    &&& forall|k: int|
        0 <= k < g.sels.len() && (k != g.primary || es.last().is_noop()) ==> ((#[trigger] s.sels[k]).anchor as int,
        s.sels[k].head as int) == shifted(g.sels[k], es)
    &&& !es.last().is_noop() ==> s.sels[g.primary].anchor == cursor_after_spec(es.last(), 0)
        && s.sels[g.primary].head == cursor_after_spec(es.last(), 0)
}

/// A buffer, its selections and its undo history.
pub struct Context {
    buffer: Buffer,
    selection: SelectionGroup,
    history: HistoryTree,
}

impl View for Context {
    type V = ContextView;

    closed spec fn view(&self) -> ContextView {
        ContextView { text: self.buffer@, selection: self.selection@, history: self.history@ }
    }
}

impl Context {
    /// The history is well formed and the selection group is non-empty and
    /// lies within the text.
    pub open spec fn wf(&self) -> bool {
        &&& self@.history.wf()
        &&& self@.selection.wf()
        &&& self@.selection.within(self@.text.len() as int)
    }

    /// An empty text with one cursor at 0.
    pub fn new() -> (r: Self)
        ensures
            r.wf(),
            r@.text == Seq::<char>::empty(),
            r@.selection.sels == seq![Selection { anchor: 0, head: 0 }],
            r@.history.nodes.len() == 1,
    {
        Context {
            buffer: Buffer::new(),
            selection: SelectionGroup::single(0),
            history: HistoryTree::default(),
        }
    }

    /// `text` with one cursor at 0.
    pub fn from_text(text: &str) -> (r: Self)
        ensures
            r.wf(),
            r@.text == text@,
            r@.selection.sels == seq![Selection { anchor: 0, head: 0 }],
            r@.history.nodes.len() == 1,
    {
        Context {
            buffer: Buffer::from_str(text),
            selection: SelectionGroup::single(0),
            history: HistoryTree::default(),
        }
    }

    pub fn buffer(&self) -> (r: &Buffer)
        ensures
            r@ == self@.text,
    {
        &self.buffer
    }

    pub fn buffer_mut(&mut self) -> (r: &mut Buffer)
        ensures
            r@ == old(self)@.text,
            final(self)@.text == final(r)@,
            final(self)@.selection == old(self)@.selection,
            final(self)@.history == old(self)@.history,
    {
        &mut self.buffer
    }

    pub fn selection(&self) -> (r: &SelectionGroup)
        ensures
            r@ == self@.selection,
    {
        &self.selection
    }

    pub fn selection_mut(&mut self) -> (r: &mut SelectionGroup)
        ensures
            r@ == old(self)@.selection,
            final(self)@.selection == final(r)@,
            final(self)@.text == old(self)@.text,
            final(self)@.history == old(self)@.history,
    {
        &mut self.selection
    }

    pub fn history(&self) -> (r: &HistoryTree)
        ensures
            r@ == self@.history,
    {
        &self.history
    }

    pub fn history_mut(&mut self) -> (r: &mut HistoryTree)
        ensures
            r@ == old(self)@.history,
            final(self)@.history == final(r)@,
            final(self)@.text == old(self)@.text,
            final(self)@.selection == old(self)@.selection,
    {
        &mut self.history
    }

    /// Apply a batch that fits, in order, carrying every selection across
    /// each edit; returns what each edit replaced.
    fn apply_batch(&mut self, edits: &[Edit]) -> (replaced: Vec<String>)
        requires
            old(self)@.selection.wf(),
            old(self)@.selection.within(old(self)@.text.len() as int),
            batch_fits(old(self)@.text.len() as int, edit_views(edits@)),
        ensures
            final(self)@.text == apply_seq(old(self)@.text, edit_views(edits@)),
            records_replaced(old(self)@.text, edit_views(edits@), string_views(replaced@)),
            final(self)@.history == old(self)@.history,
            final(self)@.selection.wf(),
            final(self)@.selection.within(final(self)@.text.len() as int),
            final(self)@.selection.primary == old(self)@.selection.primary,
            final(self)@.selection.sels.len() == old(self)@.selection.sels.len(),
            forall|k: int|
                0 <= k < old(self)@.selection.sels.len() ==> ((#[trigger] final(self)@.selection.sels[k]).anchor as int,
                final(self)@.selection.sels[k].head as int) == shifted(old(self)@.selection.sels[k], edit_views(edits@)),
    {
        let ghost vs = edit_views(edits@);
        let ghost t0 = self.buffer@;
        let ghost g0 = self.selection@;
        let mut replaced: Vec<String> = Vec::new();
        let mut i: usize = 0;
        proof {
            assert(vs.skip(0) =~= vs);
            assert(vs.take(0) =~= Seq::<EditView>::empty());
            assert(forall|k: int| 0 <= k < g0.sels.len() ==> shifted(#[trigger] g0.sels[k], vs.take(0)) == (g0.sels[k].anchor as int, g0.sels[k].head as int));
        }
        while i < edits.len()
            invariant
                i <= edits@.len(),
                vs == edit_views(edits@),
                self.buffer@ == apply_seq(t0, vs.take(i as int)),
                batch_fits(self.buffer@.len() as int, vs.skip(i as int)),
                replaced@.len() == i,
                forall|j: int|
                    0 <= j < i ==> {
                        let before = #[trigger] apply_seq(t0, vs.take(j));
                        &&& vs[j].fits(before)
                        &&& replaced@[j]@ == before.subrange(vs[j].start, vs[j].end)
                    },
                self.history == old(self).history,
                self.selection@.wf(),
                self.selection@.within(self.buffer@.len() as int),
                self.selection@.primary == g0.primary,
                self.selection@.sels.len() == g0.sels.len(),
                forall|k: int|
                    0 <= k < g0.sels.len() ==> ((#[trigger] self.selection@.sels[k]).anchor as int,
                    self.selection@.sels[k].head as int) == shifted(g0.sels[k], vs.take(i as int)),
            decreases edits@.len() - i,
        {
            let ghost before = self.buffer@;
            let ghost sels_before = self.selection@.sels;
            proof {
                lemma_skip_step(vs, i as int);
                assert(vs.take(i as int).push(vs[i as int]) =~= vs.take(i + 1));
                lemma_apply_seq_push(t0, vs.take(i as int), vs[i as int]);
                assert forall|k: int| 0 <= k < sels_before.len() implies (#[trigger] sels_before[k]).transform_spec(vs[i as int]).0
                    <= usize::MAX && sels_before[k].transform_spec(vs[i as int]).1 <= usize::MAX by {
                    lemma_transform_pos_in_bounds(before, sels_before[k].anchor as int, vs[i as int]);
                    lemma_transform_pos_in_bounds(before, sels_before[k].head as int, vs[i as int]);
                }
            }
            let r = self.buffer.apply(&edits[i]);
            replaced.push(r);
            self.selection = self.selection.transform(&edits[i]);
            proof {
                lemma_group_transform_within(before, vs[i as int], sels_before, self.selection@.sels);
                assert forall|k: int| 0 <= k < g0.sels.len() implies ((#[trigger] self.selection@.sels[k]).anchor as int,
                    self.selection@.sels[k].head as int) == shifted(g0.sels[k], vs.take(i + 1)) by {
                    lemma_transform_pos_seq_step(g0.sels[k].anchor as int, vs, i as int);
                    lemma_transform_pos_seq_step(g0.sels[k].head as int, vs, i as int);
                }
                assert forall|j: int| 0 <= j < i + 1 implies {
                    let b = #[trigger] apply_seq(t0, vs.take(j));
                    &&& vs[j].fits(b)
                    &&& replaced@[j]@ == b.subrange(vs[j].start, vs[j].end)
                } by {
                    if j == i {
                        assert(vs.take(j) == vs.take(i as int));
                    }
                }
            }
            i = i + 1;
        }
        proof {
            assert(vs.take(edits@.len() as int) =~= vs);
            let reps = string_views(replaced@);
            assert forall|j: int| 0 <= j < vs.len() implies {
                let b = #[trigger] apply_seq(t0, vs.take(j));
                &&& vs[j].fits(b)
                &&& reps[j] == b.subrange(vs[j].start, vs[j].end)
            } by {
                let _ = apply_seq(t0, vs.take(j));
            }
        }
        replaced
    }

    /// Collapse the primary selection to where the user's own edit `last`
    /// leaves the cursor, unless it is a no-op.
    fn move_primary_after(&mut self, last: &Edit)
        requires
            old(self)@.selection.wf(),
            old(self)@.selection.within(old(self)@.text.len() as int),
            last.start + last.text@.len() <= old(self)@.text.len(),
        ensures
            final(self)@.text == old(self)@.text,
            final(self)@.history == old(self)@.history,
            final(self)@.selection.wf(),
            final(self)@.selection.within(final(self)@.text.len() as int),
            final(self)@.selection.primary == old(self)@.selection.primary,
            final(self)@.selection.sels.len() == old(self)@.selection.sels.len(),
            forall|k: int|
                0 <= k < old(self)@.selection.sels.len() && (k != old(self)@.selection.primary
                    || last@.is_noop()) ==> #[trigger] final(self)@.selection.sels[k]
                    == old(self)@.selection.sels[k],
            !last@.is_noop() ==> final(self)@.selection.sels[old(self)@.selection.primary].anchor
                == cursor_after_spec(last@, 0) && final(self)@.selection.sels[old(
                self,
            )@.selection.primary].head == cursor_after_spec(last@, 0),
    {
        let _len = self.buffer.len_chars();
        if !last.is_noop() {
            let pos = if last.is_delete() {
                last.start
            } else {
                last.start + last.text_len()
            };
            let p = self.selection.primary_mut();
            p.anchor = pos;
            p.head = pos;
        }
    }

    /// Apply the user's own batch of edits in order. An empty batch changes
    /// nothing. A batch with an edit that does not fit the text it meets is
    /// refused whole, as is any batch when the history is full. Otherwise
    /// the edits are applied and recorded in the history with the texts they
    /// replaced and the selection before them; every selection is carried
    /// across them, and the primary one is then collapsed to the end of the
    /// last change.
    pub fn apply_edits(&mut self, edits: Vec<Edit>) -> (r: Result<(), EditError>)
        requires
            old(self).wf(),
        ensures
            final(self).wf(),
            edits@.len() == 0 ==> r is Ok && final(self)@ == old(self)@,
            edits@.len() > 0 && !batch_fits(old(self)@.text.len() as int, edit_views(edits@)) ==> {
                &&& r matches Err(EditError::OutOfBounds { pos, len })
                &&& (pos as int, len as int) == batch_error(old(self)@.text.len() as int, edit_views(edits@))
                &&& final(self)@ == old(self)@
            },
            edits@.len() > 0 && batch_fits(old(self)@.text.len() as int, edit_views(edits@))
                && old(self)@.history.nodes.len() >= usize::MAX ==> r == Err::<(), EditError>(
                EditError::HistoryFull,
            ) && final(self)@ == old(self)@,
            edits@.len() > 0 && batch_fits(old(self)@.text.len() as int, edit_views(edits@))
                && old(self)@.history.nodes.len() < usize::MAX ==> {
                let h = final(self)@.history;
                &&& r is Ok
                &&& final(self)@.text == apply_seq(old(self)@.text, edit_views(edits@))
                &&& group_after_own_edits(old(self)@.selection, edit_views(edits@), final(self)@.selection)
                &&& ends_with(h.nodes[h.current].edits@, edits@)
                &&& h.current == old(self)@.history.current || h.current == old(self)@.history.nodes.len()
                &&& exists|reps: Seq<String>, g: SelectionGroup, now: int|
                    #[trigger] recorded_at(old(self)@.history, h, edits@, reps, g, now, h.current)
                        && records_replaced(old(self)@.text, edit_views(edits@), string_views(reps))
                        && g@ == old(self)@.selection
            },
    {
        if edits.len() == 0 {
            return Ok(());
        }
        match check_batch(self.buffer.len_chars(), edits.as_slice()) {
            Some((pos, len)) => {
                return Err(EditError::OutOfBounds { pos, len });
            },
            None => {},
        }
        if self.history.len() == usize::MAX {
            return Err(EditError::HistoryFull);
        }
        let ghost vs = edit_views(edits@);
        let ghost t0 = self.buffer@;
        let before = self.selection.clone();
        let replaced = self.apply_batch(edits.as_slice());
        let n = edits.len();
        proof {
            lemma_batch_fits_edits(t0.len() as int, vs);
            assert(vs.take(n - 1).push(vs[n - 1]) =~= vs);
            lemma_apply_seq_push(t0, vs.take(n - 1), vs[n - 1]);
            let _ = apply_seq(t0, vs.take(n - 1));
            assert(vs.last() == edits@[n - 1]@);
        }
        self.move_primary_after(&edits[n - 1]);
        let ghost g1 = self.selection@;
        proof {
            assert forall|k: int| 0 <= k < old(self)@.selection.sels.len() && (k != old(self)@.selection.primary || vs.last().is_noop())
                implies ((#[trigger] g1.sels[k]).anchor as int, g1.sels[k].head as int) == shifted(old(self)@.selection.sels[k], vs) by {
            }
            assert forall|i: int| 0 <= i < edits@.len() implies (#[trigger] edits@[i]).start + edits@[i].text@.len() <= usize::MAX by {
                assert(vs[i] == edits@[i]@);
            }
        }
        let ghost reps = replaced@;
        let ghost g = before;
        self.history.record(edits, replaced, before);
        proof {
            assert(records_replaced(t0, vs, string_views(reps)));
            assert(g@ == old(self)@.selection);
        }
        Ok(())
    }

    /// Apply a single edit; see [`Context::apply_edits`].
    pub fn apply_edit(&mut self, edit: Edit) -> (r: Result<(), EditError>)
        requires
            old(self).wf(),
        ensures
            final(self).wf(),
            r is Ok <==> batch_fits(old(self)@.text.len() as int, seq![edit@])
                && old(self)@.history.nodes.len() < usize::MAX,
            r is Ok ==> final(self)@.text == apply_edit(old(self)@.text, edit@),
            r is Err ==> final(self)@ == old(self)@,
    {
        let ghost e = edit@;
        let ghost t0 = self@.text;
        let edits = vec![edit];
        proof {
            assert(edit_views(edits@) =~= seq![e]);
            assert(seq![e][0] == e);
            assert(seq![e].drop_first() =~= Seq::<EditView>::empty());
            assert(apply_seq(apply_edit(t0, e), Seq::<EditView>::empty()) == apply_edit(t0, e));
            assert(apply_seq(t0, seq![e]) == apply_edit(t0, e));
            assert(batch_fits(t0.len() + e.delta(), Seq::<EditView>::empty()));
        }
        self.apply_edits(edits)
    }

    /// Undo the current history node: apply its inverse edits without
    /// recording them and restore the selection from before it, pulled back
    /// into the text. `Ok(None)` at the root; an error, with nothing changed,
    /// if the inverse edits do not fit the text.
    pub fn undo(&mut self) -> (r: Result<Option<NodeId>, EditError>)
        requires
            old(self).wf(),
        ensures
            final(self).wf(),
            ({
                let h = old(self)@.history;
                let cur = h.nodes[h.current];
                match cur.parent {
                    None => r == Ok::<Option<NodeId>, EditError>(None) && final(self)@ == old(self)@,
                    Some(p) => if batch_fits(old(self)@.text.len() as int, cur.inverse_spec()) {
                        &&& r == Ok::<Option<NodeId>, EditError>(Some(p))
                        &&& final(self)@.history.current == p
                        &&& final(self)@.history.nodes == h.nodes
                        &&& final(self)@.history.threshold == h.threshold
                        &&& final(self)@.text == apply_seq(old(self)@.text, cur.inverse_spec())
                        &&& (cur.selection_before matches Some(g) ==> final(self)@.selection == g@.clamped(
                            final(self)@.text.len() as int,
                        ))
                    } else {
                        &&& r matches Err(EditError::OutOfBounds { pos, len })
                        &&& (pos as int, len as int) == batch_error(old(self)@.text.len() as int, cur.inverse_spec())
                        &&& final(self)@ == old(self)@
                    },
                }
            }),
    {
        let cur_id = self.history.current();
        let node = self.history.node(cur_id);
        if node.parent.is_none() {
            return Ok(None);
        }
        let inv = node.inverse();
        proof {
            assert(edit_views(inv@) =~= node.inverse_spec());
        }
        match check_batch(self.buffer.len_chars(), inv.as_slice()) {
            Some((pos, len)) => {
                return Err(EditError::OutOfBounds { pos, len });
            },
            None => {},
        }
        match self.history.undo() {
            Some((edits, sel, p)) => {
                self.apply_batch(edits.as_slice());
                match sel {
                    Some(g) => {
                        let len = self.buffer.len_chars();
                        self.selection = g.normalized(len);
                    },
                    None => {},
                }
                Ok(Some(p))
            },
            None => Ok(None),
        }
    }

    /// Redo along the first child of the current history node: apply its
    /// edits without recording them, restore the selection from before them,
    /// pulled back into the text, and collapse the primary selection to the
    /// end of the last change as [`Context::apply_edits`] does. `Ok(None)`
    /// at a leaf; an error, with nothing changed, if the edits do not fit
    /// the text.
    pub fn redo(&mut self) -> (r: Result<Option<NodeId>, EditError>)
        requires
            old(self).wf(),
        ensures
            final(self).wf(),
            ({
                let h = old(self)@.history;
                let cur = h.nodes[h.current];
                if cur.children@.len() == 0 {
                    r == Ok::<Option<NodeId>, EditError>(None) && final(self)@ == old(self)@
                } else {
                    let c = cur.children@[0];
                    let child = h.nodes[c as int];
                    let es = edit_views(child.edits@);
                    if batch_fits(old(self)@.text.len() as int, es) {
                        &&& r == Ok::<Option<NodeId>, EditError>(Some(c))
                        &&& final(self)@.history.current == c
                        &&& final(self)@.history.nodes == h.nodes
                        &&& final(self)@.history.threshold == h.threshold
                        &&& final(self)@.text == apply_seq(old(self)@.text, es)
                        &&& (child.selection_before matches Some(g) ==> es.len() > 0 ==> {
                            let base = g@.clamped(final(self)@.text.len() as int);
                            &&& final(self)@.selection.primary == base.primary
                            &&& final(self)@.selection.sels.len() == base.sels.len()
                            &&& forall|k: int|
                                0 <= k < base.sels.len() && (k != base.primary || es.last().is_noop())
                                    ==> #[trigger] final(self)@.selection.sels[k] == base.sels[k]
                            &&& !es.last().is_noop() ==> final(self)@.selection.sels[base.primary].anchor
                                == cursor_after_spec(es.last(), 0) && final(self)@.selection.sels[base.primary].head
                                == cursor_after_spec(es.last(), 0)
                        })
                    } else {
                        &&& r matches Err(EditError::OutOfBounds { pos, len })
                        &&& (pos as int, len as int) == batch_error(old(self)@.text.len() as int, es)
                        &&& final(self)@ == old(self)@
                    }
                }
            }),
    {
        let cur_id = self.history.current();
        let node = self.history.node(cur_id);
        if node.children.len() == 0 {
            return Ok(None);
        }
        let child_id = node.children[0];
        let child = self.history.node(child_id);
        match check_batch(self.buffer.len_chars(), child.edits.as_slice()) {
            Some((pos, len)) => {
                return Err(EditError::OutOfBounds { pos, len });
            },
            None => {},
        }
        match self.history.redo() {
            Some((edits, sel, id)) => {
                let ghost t0 = self.buffer@;
                let ghost vs = edit_views(edits@);
                self.apply_batch(edits.as_slice());
                match sel {
                    Some(g) => {
                        let len = self.buffer.len_chars();
                        self.selection = g.normalized(len);
                    },
                    None => {},
                }
                let n = edits.len();
                if n > 0 {
                    proof {
                        lemma_batch_fits_edits(t0.len() as int, vs);
                        assert(vs.take(n - 1).push(vs[n - 1]) =~= vs);
                        lemma_apply_seq_push(t0, vs.take(n - 1), vs[n - 1]);
                        let _ = apply_seq(t0, vs.take(n - 1));
                        assert(vs.last() == edits@[n - 1]@);
                    }
                    self.move_primary_after(&edits[n - 1]);
                }
                Ok(Some(id))
            },
            None => Ok(None),
        }
    }


    /// Put the primary selection at `anchor`..`head`.
    pub fn set_primary(&mut self, anchor: usize, head: usize)
        requires
            old(self).wf(),
            anchor <= old(self)@.text.len(),
            head <= old(self)@.text.len(),
        ensures
            final(self).wf(),
            final(self)@.text == old(self)@.text,
            final(self)@.history == old(self)@.history,
            final(self)@.selection.primary == old(self)@.selection.primary,
            final(self)@.selection.sels == old(self)@.selection.sels.update(
                old(self)@.selection.primary,
                Selection { anchor, head },
            ),
    {
        let p = self.selection.primary_mut();
        p.anchor = anchor;
        p.head = head;
    }

    /// The head of the primary selection.
    pub fn primary_head(&self) -> (r: usize)
        requires
            self.wf(),
        ensures
            r == self@.selection.sels[self@.selection.primary].head,
            r <= self@.text.len(),
    {
        self.selection.primary().head
    }

}

impl Default for Context {
    fn default() -> (r: Self)
        ensures
            r.wf(),
            r@.text == Seq::<char>::empty(),
            r@.history.nodes.len() == 1,
    {
        Context::new()
    }
}

} // verus!
