//! An arena of history nodes with a pointer to the current state.

use vstd::prelude::*;

use std::time::{Duration, Instant};

use super::node::{HistoryNode, NodeId};
use crate::edit::ot::edit_views;
use crate::edit::Edit;
use crate::selection::{clone_group_opt, group_opt_view, SelectionGroup};

verus! {

#[verifier::external_type_specification]
#[verifier::external_body]
pub struct ExInstant(std::time::Instant);

/// Relies on `Instant::now`: a reading of the monotonic clock.
#[verifier::external_body]
fn clock_now() -> Instant {
    Instant::now()
}

/// Relies on `Instant::elapsed`: time passed since `t`.
#[verifier::external_body]
fn clock_elapsed(t: &Instant) -> Duration {
    t.elapsed()
}

/// Relies on `Duration::as_millis`: whole milliseconds in `d`.
#[verifier::external_body]
fn duration_millis(d: &Duration) -> u128 {
    d.as_millis()
}

/// Mathematical value of a [`HistoryTree`].
pub struct HistoryView {
    pub nodes: Seq<HistoryNode>,
    pub current: int,
    /// Coalescing window, in milliseconds.
    pub threshold: int,
}

/// Milliseconds from `then` to `now`, zero if `now` is earlier.
pub open spec fn elapsed_ms(now: int, then: int) -> int {
    if now >= then {
        now - then
    } else {
        0
    }
}

impl HistoryView {
    /// Node ids are in range, the root has no parent and no edits, every
    /// other node's parent has a smaller id (so the tree is acyclic) and
    /// lists it among its children, child lists are in increasing order of
    /// id (the order of insertion) and point back through `parent`, and
    /// every node pairs its edits with replaced texts.
    pub open spec fn wf(self) -> bool {
        &&& self.nodes.len() > 0
        &&& 0 <= self.current < self.nodes.len()
        &&& self.nodes[0].parent is None
        &&& self.nodes[0].edits@.len() == 0
        &&& forall|i: int|
            0 < i < self.nodes.len() ==> match (#[trigger] self.nodes[i]).parent {
                Some(p) => p < i,
                None => false,
            }
        &&& forall|i: int, j: int|
            0 <= i < self.nodes.len() && 0 <= j < self.nodes[i].children@.len() ==> {
                let c = #[trigger] self.nodes[i].children@[j];
                &&& i < c < self.nodes.len()
                &&& self.nodes[c as int].parent == Some(i as usize)
            }
        &&& forall|i: int|
            0 < i < self.nodes.len() ==> match (#[trigger] self.nodes[i]).parent {
                Some(p) => self.nodes[p as int].children@.contains(i as usize),
                None => true,
            }
        &&& forall|i: int, j: int, k: int|
            0 <= i < self.nodes.len() && 0 <= j < k < self.nodes[i].children@.len()
                ==> (#[trigger] self.nodes[i].children@[j]) < (#[trigger] self.nodes[i].children@[k])
        &&& forall|i: int|
            0 <= i < self.nodes.len() ==> (#[trigger] self.nodes[i]).wf()
                && self.nodes[i].inverse_fits() && match self.nodes[i].selection_before {
                    Some(g) => g.wf(),
                    None => true,
                }
    }

    /// Recording at time `now` coalesces into the current node.
    pub open spec fn merges_at(self, now: int) -> bool {
        let cur = self.nodes[self.current];
        &&& cur.edits@.len() > 0
        &&& cur.children@.len() == 0
        &&& elapsed_ms(now, cur.timestamp as int) < self.threshold
    }
}

/// What recording `edits`, with the texts they `replaced` and the selection
/// before them, at time `now` does to the tree: coalescing into the current
/// node, which keeps its id, or a fresh child node with the next id.
pub open spec fn recorded_at(
    before: HistoryView,
    after: HistoryView,
    edits: Seq<Edit>,
    replaced: Seq<String>,
    selection_before: SelectionGroup,
    now: int,
    id: int,
) -> bool {
    let c = before.current;
    let n = before.nodes.len() as int;
    let cur_before = before.nodes[c];
    let cur_after = after.nodes[c];
    &&& before.merges_at(now) ==> {
        &&& id == c
        &&& after.nodes.len() == n
        &&& cur_after.edits@ == cur_before.edits@ + edits
        &&& cur_after.replaced@ == cur_before.replaced@ + replaced
        &&& cur_after.timestamp == now
        &&& cur_after.selection_before == cur_before.selection_before
        &&& cur_after.parent == cur_before.parent
        &&& cur_after.children == cur_before.children
        &&& forall|j: int| 0 <= j < n && j != c ==> after.nodes[j] == before.nodes[j]
    }
    &&& !before.merges_at(now) ==> {
        let fresh = after.nodes[n];
        &&& id == n
        &&& after.nodes.len() == n + 1
        &&& fresh.edits@ == edits
        &&& fresh.replaced@ == replaced
        &&& fresh.selection_before == Some(selection_before)
        &&& fresh.timestamp == now
        &&& fresh.parent == Some(c as usize)
        &&& fresh.children@.len() == 0
        &&& cur_after.children@ == cur_before.children@.push(id as usize)
        &&& cur_after.edits == cur_before.edits
        &&& cur_after.replaced == cur_before.replaced
        &&& cur_after.selection_before == cur_before.selection_before
        &&& cur_after.timestamp == cur_before.timestamp
        &&& cur_after.parent == cur_before.parent
        &&& forall|j: int| 0 <= j < n && j != c ==> after.nodes[j] == before.nodes[j]
    }
}

/// `s` ends with `tail`.
pub open spec fn ends_with<T>(s: Seq<T>, tail: Seq<T>) -> bool {
    tail.len() <= s.len() && s.subrange(s.len() - tail.len(), s.len() as int) == tail
}

/// The id reached from `id` by following `k` parent links, if any.
pub open spec fn nth_ancestor(nodes: Seq<HistoryNode>, id: int, k: nat) -> Option<int>
    decreases k,
{
    if k == 0 {
        Some(id)
    } else {
        match nth_ancestor(nodes, id, (k - 1) as nat) {
            Some(x) => if 0 <= x < nodes.len() {
                match nodes[x].parent {
                    Some(p) => Some(p as int),
                    None => None,
                }
            } else {
                None
            },
            None => None,
        }
    }
}

proof fn lemma_ancestor_decreases(v: HistoryView, id: int, k: nat)
    requires
        v.wf(),
        0 <= id < v.nodes.len(),
    ensures
        match nth_ancestor(v.nodes, id, k) {
            Some(x) => 0 <= x <= id - k,
            None => true,
        },
    decreases k,
{
    if k > 0 {
        lemma_ancestor_decreases(v, id, (k - 1) as nat);
    }
}

/// The history is acyclic: following one or more parent links never leads
/// back to the node it started from.
pub proof fn lemma_history_acyclic(v: HistoryView, id: int, k: nat)
    requires
        v.wf(),
        0 <= id < v.nodes.len(),
        k > 0,
    ensures
        nth_ancestor(v.nodes, id, k) != Some(id),
{
    lemma_ancestor_decreases(v, id, k);
}

/// A tree of edit groups: undo walks to the parent, redo to the first child,
/// and recording after an undo starts a new branch.
pub struct HistoryTree {
    nodes: Vec<HistoryNode>,
    current: NodeId,
    merge_threshold: u64,
    epoch: Instant,
}

impl View for HistoryTree {
    type V = HistoryView;

    closed spec fn view(&self) -> HistoryView {
        HistoryView {
            nodes: self.nodes@,
            current: self.current as int,
            threshold: self.merge_threshold as int,
        }
    }
}

/// A copy of a list of edits.
fn clone_edits(v: &Vec<Edit>) -> (r: Vec<Edit>)
    ensures
        edit_views(r@) == edit_views(v@),
{
    let mut out: Vec<Edit> = Vec::new();
    let mut i: usize = 0;
    while i < v.len()
        invariant
            i <= v@.len(),
            out@.len() == i,
            forall|k: int| 0 <= k < i ==> (#[trigger] out@[k])@ == v@[k]@,
        decreases v@.len() - i,
    {
        out.push(v[i].clone());
        i = i + 1;
    }
    proof {
        assert(edit_views(out@) =~= edit_views(v@));
    }
    out
}

impl HistoryTree {
    pub open spec fn wf(&self) -> bool {
        self@.wf()
    }

    /// A tree holding only the root, coalescing edits recorded less than
    /// `merge_threshold_ms` milliseconds apart.
    pub fn new(merge_threshold_ms: u64) -> (r: Self)
        ensures
            r.wf(),
            r@.nodes.len() == 1,
            r@.current == 0,
            r@.threshold == merge_threshold_ms,
            r@.nodes[0].children@.len() == 0,
            r@.nodes[0].selection_before is None,
    {
        let root = HistoryNode::new(Vec::new(), Vec::new(), None);
        let mut nodes: Vec<HistoryNode> = Vec::new();
        nodes.push(root);
        HistoryTree { nodes, current: 0, merge_threshold: merge_threshold_ms, epoch: clock_now() }
    }

    /// Number of nodes, the root included.
    pub fn len(&self) -> (r: usize)
        ensures
            r == self@.nodes.len(),
    {
        self.nodes.len()
    }

    pub fn current(&self) -> (r: NodeId)
        ensures
            r == self@.current,
    {
        self.current
    }

    pub fn node(&self, id: NodeId) -> (r: &HistoryNode)
        requires
            id < self@.nodes.len(),
        ensures
            *r == self@.nodes[id as int],
    {
        &self.nodes[id]
    }

    pub fn edits(&self, id: NodeId) -> (r: &[Edit])
        requires
            id < self@.nodes.len(),
        ensures
            r@ == self@.nodes[id as int].edits@,
    {
        self.nodes[id].edits.as_slice()
    }

    /// Milliseconds since the tree was created, saturating.
    fn now_ms(&self) -> u64 {
        let d = clock_elapsed(&self.epoch);
        let ms = duration_millis(&d);
        if ms > u64::MAX as u128 {
            u64::MAX
        } else {
            ms as u64
        }
    }

    /// Record a group of applied edits, with the texts they replaced and the
    /// selection before them, at the current time. Returns the id of the
    /// node that now holds them; see [`HistoryTree::record_at`].
    pub fn record(
        &mut self,
        edits: Vec<Edit>,
        replaced: Vec<String>,
        selection_before: SelectionGroup,
    ) -> (id: NodeId)
        requires
            old(self).wf(),
            edits@.len() == replaced@.len(),
            forall|i: int|
                0 <= i < edits@.len() ==> (#[trigger] edits@[i]).start + edits@[i].text@.len()
                    <= usize::MAX,
            old(self)@.nodes.len() < usize::MAX,
            selection_before.wf(),
        ensures
            final(self).wf(),
            final(self)@.threshold == old(self)@.threshold,
            id == final(self)@.current,
            id == old(self)@.current || id == old(self)@.nodes.len(),
            ends_with(final(self)@.nodes[id as int].edits@, edits@),
            ends_with(final(self)@.nodes[id as int].replaced@, replaced@),
            exists|now: int| recorded_at(old(self)@, final(self)@, edits@, replaced@, selection_before, now, id as int),
    {
        let now = self.now_ms();
        self.record_at(edits, replaced, selection_before, now)
    }

    /// Record at time `now` (milliseconds on the tree's clock). If the
    /// current node has edits, no children and was recorded into less than
    /// the threshold before `now`, the edits are appended to it and its id is
    /// returned; it keeps its first selection. Otherwise a new child of the
    /// current node is made current and its fresh id, one past every
    /// earlier id, is returned.
    #[verifier::rlimit(60)]
    pub fn record_at(
        &mut self,
        edits: Vec<Edit>,
        replaced: Vec<String>,
        selection_before: SelectionGroup,
        now: u64,
    ) -> (id: NodeId)
        requires
            old(self).wf(),
            edits@.len() == replaced@.len(),
            forall|i: int|
                0 <= i < edits@.len() ==> (#[trigger] edits@[i]).start + edits@[i].text@.len()
                    <= usize::MAX,
            old(self)@.nodes.len() < usize::MAX,
            selection_before.wf(),
        ensures
            final(self).wf(),
            final(self)@.threshold == old(self)@.threshold,
            id == final(self)@.current,
            ends_with(final(self)@.nodes[id as int].edits@, edits@),
            ends_with(final(self)@.nodes[id as int].replaced@, replaced@),
            recorded_at(old(self)@, final(self)@, edits@, replaced@, selection_before, now as int, id as int),
    {
        let cur = self.current;
        let merge = {
            let node = &self.nodes[cur];
            let since = if now >= node.timestamp {
                now - node.timestamp
            } else {
                0
            };
            node.edits.len() > 0 && node.children.len() == 0 && since < self.merge_threshold
        };
        let ghost edits_in = edits@;
        let ghost replaced_in = replaced@;
        if merge {
            let mut edits = edits;
            let mut replaced = replaced;
            let ghost old_nodes = self.nodes@;
            let mut node = self.nodes.remove(cur);
            node.edits.append(&mut edits);
            node.replaced.append(&mut replaced);
            node.timestamp = now;
            self.nodes.insert(cur, node);
            proof {
                assert(node.edits@.subrange(node.edits@.len() - edits_in.len(), node.edits@.len() as int) =~= edits_in);
                assert(node.replaced@.subrange(node.replaced@.len() - replaced_in.len(), node.replaced@.len() as int) =~= replaced_in);
                assert(self.nodes@ =~= old_nodes.update(cur as int, node));
                let v = self@;
                assert forall|i: int| 0 <= i < v.nodes.len() implies (#[trigger] v.nodes[i]).wf()
                    && v.nodes[i].inverse_fits() && match v.nodes[i].selection_before {
                        Some(g) => g.wf(),
                        None => true,
                    } by {
                    if i == cur {
                        assert(forall|k: int| 0 <= k < old_nodes[i].edits@.len() ==> #[trigger] node.edits@[k] == old_nodes[i].edits@[k]);
                        assert(forall|k: int| 0 <= k < edits@.len() ==> #[trigger] node.edits@[old_nodes[i].edits@.len() + k] == edits@[k]);
                    }
                }
                assert forall|i: int, j: int|
                    0 <= i < v.nodes.len() && 0 <= j < v.nodes[i].children@.len() implies {
                        let c = #[trigger] v.nodes[i].children@[j];
                        &&& i < c < v.nodes.len()
                        &&& v.nodes[c as int].parent == Some(i as usize)
                    } by {
                    assert(old_nodes[i].children@[j] == v.nodes[i].children@[j]);
                }
                assert forall|i: int| 0 < i < v.nodes.len() implies match (#[trigger] v.nodes[i]).parent {
                    Some(p) => v.nodes[p as int].children@.contains(i as usize),
                    None => true,
                } by {
                    assert(v.nodes[i].parent == old_nodes[i].parent);
                    match old_nodes[i].parent {
                        Some(p) => {
                            assert(v.nodes[p as int].children == old_nodes[p as int].children);
                        },
                        None => {},
                    }
                }
                assert forall|i: int, j: int, k: int|
                    0 <= i < v.nodes.len() && 0 <= j < k < v.nodes[i].children@.len()
                    implies (#[trigger] v.nodes[i].children@[j]) < (#[trigger] v.nodes[i].children@[k]) by {
                    assert(v.nodes[i].children == old_nodes[i].children);
                    assert(old_nodes[i].children@[j] < old_nodes[i].children@[k]);
                }
            }
            cur
        } else {
            let id = self.nodes.len();
            let mut fresh = HistoryNode::new(edits, replaced, Some(selection_before));
            fresh.parent = Some(cur);
            fresh.timestamp = now;
            let ghost old_nodes = self.nodes@;
            let mut parent = self.nodes.remove(cur);
            parent.children.push(id);
            self.nodes.insert(cur, parent);
            self.nodes.push(fresh);
            self.current = id;
            proof {
                assert(edits_in.subrange(0, edits_in.len() as int) =~= edits_in);
                assert(replaced_in.subrange(0, replaced_in.len() as int) =~= replaced_in);
                assert(self.nodes@ =~= old_nodes.update(cur as int, parent).push(fresh));
                let v = self@;
                assert forall|i: int| 0 < i < v.nodes.len() implies match (#[trigger] v.nodes[i]).parent {
                    Some(p) => p < i,
                    None => false,
                } by {
                    if i < id {
                        assert(v.nodes[i].parent == old_nodes[i].parent);
                    }
                }
                assert forall|i: int, j: int|
                    0 <= i < v.nodes.len() && 0 <= j < v.nodes[i].children@.len() implies {
                        let c = #[trigger] v.nodes[i].children@[j];
                        &&& i < c < v.nodes.len()
                        &&& v.nodes[c as int].parent == Some(i as usize)
                    } by {
                    if i == cur && j == v.nodes[i].children@.len() - 1 {
                    } else {
                        assert(old_nodes[i].children@[j] == v.nodes[i].children@[j]);
                    }
                }
                assert forall|i: int| 0 < i < v.nodes.len() implies match (#[trigger] v.nodes[i]).parent {
                    Some(p) => v.nodes[p as int].children@.contains(i as usize),
                    None => true,
                } by {
                    if i == id {
                        assert(v.nodes[cur as int].children@[v.nodes[cur as int].children@.len() - 1] == id);
                    } else {
                        assert(v.nodes[i].parent == old_nodes[i].parent);
                        match old_nodes[i].parent {
                            Some(p) => {
                                assert(old_nodes[p as int].children@.contains(i as usize));
                                let m = choose|m: int| 0 <= m < old_nodes[p as int].children@.len()
                                    && old_nodes[p as int].children@[m] == i as usize;
                                assert(v.nodes[p as int].children@[m] == i as usize);
                            },
                            None => {},
                        }
                    }
                }
                assert forall|i: int, j: int, k: int|
                    0 <= i < v.nodes.len() && 0 <= j < k < v.nodes[i].children@.len()
                    implies (#[trigger] v.nodes[i].children@[j]) < (#[trigger] v.nodes[i].children@[k]) by {
                    if i == id {
                    } else if i == cur && k == v.nodes[i].children@.len() - 1 {
                        assert(v.nodes[i].children@[j] == old_nodes[i].children@[j]);
                        assert(old_nodes[i].children@[j] < old_nodes.len());
                    } else {
                        assert(v.nodes[i].children@[j] == old_nodes[i].children@[j]);
                        assert(v.nodes[i].children@[k] == old_nodes[i].children@[k]);
                        assert(old_nodes[i].children@[j] < old_nodes[i].children@[k]);
                    }
                }
            }
            id
        }
    }

    /// Step back to the parent of the current node. Returns the inverse of
    /// the current node's edits, its selection before them, and the parent's
    /// id; `None` at the root.
    pub fn undo(&mut self) -> (r: Option<(Vec<Edit>, Option<SelectionGroup>, NodeId)>)
        requires
            old(self).wf(),
        ensures
            final(self).wf(),
            final(self)@.nodes == old(self)@.nodes,
            final(self)@.threshold == old(self)@.threshold,
            ({
                let cur = old(self)@.nodes[old(self)@.current];
                match cur.parent {
                    None => r is None && final(self)@.current == old(self)@.current,
                    Some(p) => match r {
                        Some((inv, sel, id)) => {
                            &&& id == p
                            &&& final(self)@.current == p
                            &&& edit_views(inv@) == cur.inverse_spec()
                            &&& group_opt_view(sel) == group_opt_view(cur.selection_before)
                        },
                        None => false,
                    },
                }
            }),
    {
        let cur = &self.nodes[self.current];
        match cur.parent {
            None => None,
            Some(p) => {
                let inverse = cur.inverse();
                let sel = clone_group_opt(&cur.selection_before);
                proof {
                    assert(edit_views(inverse@) =~= cur.inverse_spec());
                }
                self.current = p;
                Some((inverse, sel, p))
            },
        }
    }

    /// Step forward to the first child of the current node. Returns that
    /// child's edits, its selection before them, and its id; `None` at a
    /// leaf.
    pub fn redo(&mut self) -> (r: Option<(Vec<Edit>, Option<SelectionGroup>, NodeId)>)
        requires
            old(self).wf(),
        ensures
            final(self).wf(),
            final(self)@.nodes == old(self)@.nodes,
            final(self)@.threshold == old(self)@.threshold,
            ({
                let cur = old(self)@.nodes[old(self)@.current];
                if cur.children@.len() == 0 {
                    r is None && final(self)@.current == old(self)@.current
                } else {
                    let c = cur.children@[0];
                    let child = old(self)@.nodes[c as int];
                    match r {
                        Some((es, sel, id)) => {
                            &&& id == c
                            &&& final(self)@.current == c
                            &&& edit_views(es@) == edit_views(child.edits@)
                            &&& group_opt_view(sel) == group_opt_view(child.selection_before)
                        },
                        None => false,
                    }
                }
            }),
    {
        let cur = &self.nodes[self.current];
        if cur.children.len() == 0 {
            return None;
        }
        let child_id = cur.children[0];
        let child = &self.nodes[child_id];
        let edits = clone_edits(&child.edits);
        let sel = clone_group_opt(&child.selection_before);
        self.current = child_id;
        Some((edits, sel, child_id))
    }
}

impl Default for HistoryTree {
    fn default() -> (r: Self)
        ensures
            r.wf(),
            r@.nodes.len() == 1,
            r@.current == 0,
            r@.threshold == 500,
    {
        HistoryTree::new(500)
    }
}

} // verus!
