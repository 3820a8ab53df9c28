//! Operational transformation of concurrent edits.
//!
//! `transform(a, b)` rewrites `a`, issued against the same document as `b`,
//! so that applying it after `b` keeps `a`'s intent.

use vstd::prelude::*;

use super::{apply_edit, Edit, EditView};

verus! {

/// `x` is at most `y` in lexicographic order of code points.
pub open spec fn lex_le(x: Seq<char>, y: Seq<char>) -> bool
    decreases x.len(),
{
    if x.len() == 0 {
        true
    } else if y.len() == 0 {
        false
    } else if x[0] != y[0] {
        (x[0] as int) < (y[0] as int)
    } else {
        lex_le(x.drop_first(), y.drop_first())
    }
}

pub open spec fn clamp0(x: int) -> int {
    if x < 0 {
        0
    } else {
        x
    }
}

/// `a` rewritten to apply after `b`, both issued against the same document.
pub open spec fn transform_spec(a: EditView, b: EditView) -> EditView {
    let ins = b.text.len() as int;
    if a.end < b.start {
        a
    } else if a.start == b.start && a.is_insert() && b.is_insert() {
        if lex_le(a.text, b.text) {
            a
        } else {
            EditView { start: a.start + ins, end: a.end + ins, text: a.text }
        }
    } else if a.end == b.start {
        a
    } else if a.start >= b.end {
        EditView {
            start: clamp0(a.start + b.delta()),
            end: clamp0(a.end + b.delta()),
            text: a.text,
        }
    } else if a.start < b.start {
        if a.end <= b.end {
            EditView { start: a.start, end: b.start, text: a.text }
        } else {
            EditView { start: a.start, end: b.start + ins + (a.end - b.end), text: a.text }
        }
    } else if a.end <= b.end {
        EditView { start: b.start + ins, end: b.start + ins, text: a.text }
    } else {
        EditView { start: b.start + ins, end: b.start + ins + (a.end - b.end), text: a.text }
    }
}

/// A position carried across an edit that has been applied.
pub open spec fn transform_pos_spec(pos: int, e: EditView) -> int {
    if pos <= e.start {
        pos
    } else if pos >= e.end {
        clamp0(pos + e.delta())
    } else {
        e.start + e.text.len()
    }
}

/// `a` transformed successively against each edit of `bs`, in order.
pub open spec fn transform_seq(a: EditView, bs: Seq<EditView>) -> EditView
    decreases bs.len(),
{
    if bs.len() == 0 {
        a
    } else {
        transform_spec(transform_seq(a, bs.drop_last()), bs.last())
    }
}

/// Sum of the replacement-text lengths of `bs`.
pub open spec fn total_text_len(bs: Seq<EditView>) -> int
    decreases bs.len(),
{
    if bs.len() == 0 {
        0
    } else {
        total_text_len(bs.drop_last()) + bs.last().text.len()
    }
}

pub open spec fn edit_views(s: Seq<Edit>) -> Seq<EditView> {
    s.map_values(|e: Edit| e@)
}

/// Transforming keeps the range well formed and the text, and moves the end
/// by at most the length of the other edit's text.
pub proof fn lemma_transform_bounds(a: EditView, b: EditView)
    requires
        a.wf(),
        b.wf(),
    ensures
        transform_spec(a, b).wf(),
        transform_spec(a, b).text == a.text,
        transform_spec(a, b).end <= a.end + b.text.len(),
        transform_spec(a, b).end - transform_spec(a, b).start <= a.end - a.start + b.text.len(),
{
}

proof fn lemma_transform_seq_bounds(a: EditView, bs: Seq<EditView>)
    requires
        a.wf(),
        forall|j: int| 0 <= j < bs.len() ==> (#[trigger] bs[j]).wf(),
    ensures
        transform_seq(a, bs).wf(),
        transform_seq(a, bs).text == a.text,
        transform_seq(a, bs).end <= a.end + total_text_len(bs),
    decreases bs.len(),
{
    if bs.len() > 0 {
        let init = bs.drop_last();
        assert forall|j: int| 0 <= j < init.len() implies (#[trigger] init[j]).wf() by {
            assert(init[j] == bs[j]);
        }
        lemma_transform_seq_bounds(a, init);
        lemma_transform_bounds(transform_seq(a, init), bs.last());
    }
}

proof fn lemma_lex_le_step(x: Seq<char>, y: Seq<char>, i: int)
    requires
        0 <= i < x.len(),
        i < y.len(),
        x[i] == y[i],
    ensures
        lex_le(x.subrange(i, x.len() as int), y.subrange(i, y.len() as int)) == lex_le(
            x.subrange(i + 1, x.len() as int),
            y.subrange(i + 1, y.len() as int),
        ),
{
    let xs = x.subrange(i, x.len() as int);
    let ys = y.subrange(i, y.len() as int);
    assert(xs.drop_first() =~= x.subrange(i + 1, x.len() as int));
    assert(ys.drop_first() =~= y.subrange(i + 1, y.len() as int));
}

/// Lexicographic comparison of the code points of `x` and `y`.
fn text_le(x: &str, y: &str) -> (r: bool)
    ensures
        r == lex_le(x@, y@),
{
    let xl = x.unicode_len();
    let yl = y.unicode_len();
    let mut i: usize = 0;
    assert(x@.subrange(0, xl as int) =~= x@);
    assert(y@.subrange(0, yl as int) =~= y@);
    while i < xl && i < yl
        invariant
            i <= xl,
            i <= yl,
            xl == x@.len(),
            yl == y@.len(),
            lex_le(x@, y@) == lex_le(
                x@.subrange(i as int, xl as int),
                y@.subrange(i as int, yl as int),
            ),
        decreases xl - i,
    {
        let cx = x.get_char(i);
        let cy = y.get_char(i);
        if cx != cy {
            return (cx as u32) < (cy as u32);
        }
        proof {
            lemma_lex_le_step(x@, y@, i as int);
        }
        i = i + 1;
    }
    i == xl
}

/// Transform edit `a` against edit `b`, which has already been applied.
/// The result achieves `a`'s intent on the document after `b`.
pub fn transform(a: &Edit, b: &Edit) -> (r: Edit)
    requires
        a@.wf(),
        b@.wf(),
        a.end + b.text@.len() <= usize::MAX,
    ensures
        r@ == transform_spec(a@, b@),
{
    let ins = b.text_len();
    if a.end < b.start {
        return a.clone();
    }
    if a.start == b.start && a.is_insert() && b.is_insert() {
        if text_le(a.text.as_str(), b.text.as_str()) {
            return a.clone();
        } else {
            return Edit::new(a.start + ins, a.end + ins, a.text.clone());
        }
    }
    if a.end == b.start {
        return a.clone();
    }
    if a.start >= b.end {
        let removed = b.end - b.start;
        return Edit::new(a.start - removed + ins, a.end - removed + ins, a.text.clone());
    }
    if a.start < b.start {
        if a.end <= b.end {
            Edit::new(a.start, b.start, a.text.clone())
        } else {
            let tail = a.end - b.end;
            Edit::new(a.start, b.start + ins + tail, a.text.clone())
        }
    } else if a.end <= b.end {
        Edit::new(b.start + ins, b.start + ins, a.text.clone())
    } else {
        let tail = a.end - b.end;
        Edit::new(b.start + ins, b.start + ins + tail, a.text.clone())
    }
}

/// Transform each edit of `a` against all edits of `b`, in the order in
/// which `b`'s edits were applied.
pub fn transform_list(a: &[Edit], b: &[Edit]) -> (r: Vec<Edit>)
    requires
        forall|i: int| 0 <= i < a@.len() ==> (#[trigger] a@[i])@.wf(),
        forall|j: int| 0 <= j < b@.len() ==> (#[trigger] b@[j])@.wf(),
        forall|i: int|
            0 <= i < a@.len() ==> (#[trigger] a@[i]).end + total_text_len(edit_views(b@))
                <= usize::MAX,
    ensures
        r@.len() == a@.len(),
        forall|i: int|
            0 <= i < a@.len() ==> (#[trigger] r@[i])@ == transform_seq(a@[i]@, edit_views(b@)),
{
    let mut out: Vec<Edit> = Vec::new();
    let mut i: usize = 0;
    while i < a.len()
        invariant
            i <= a@.len(),
            out@.len() == i,
            forall|k: int| 0 <= k < a@.len() ==> (#[trigger] a@[k])@.wf(),
            forall|j: int| 0 <= j < b@.len() ==> (#[trigger] b@[j])@.wf(),
            forall|k: int|
                0 <= k < a@.len() ==> (#[trigger] a@[k]).end + total_text_len(edit_views(b@))
                    <= usize::MAX,
            forall|k: int|
                0 <= k < i ==> (#[trigger] out@[k])@ == transform_seq(a@[k]@, edit_views(b@)),
        decreases a@.len() - i,
    {
        let mut t = a[i].clone();
        let mut j: usize = 0;
        while j < b.len()
            invariant
                i < a@.len(),
                j <= b@.len(),
                forall|k: int| 0 <= k < b@.len() ==> (#[trigger] b@[k])@.wf(),
                a@[i as int].end + total_text_len(edit_views(b@)) <= usize::MAX,
                a@[i as int]@.wf(),
                t@ == transform_seq(a@[i as int]@, edit_views(b@).subrange(0, j as int)),
            decreases b@.len() - j,
        {
            let ghost vs = edit_views(b@);
            proof {
                assert(vs.subrange(0, j as int + 1).drop_last() =~= vs.subrange(0, j as int));
                assert forall|k: int| 0 <= k < j implies (#[trigger] vs.subrange(
                    0,
                    j as int,
                )[k]).wf() by {
                    assert(vs[k] == b@[k]@);
                }
                lemma_transform_seq_bounds(a@[i as int]@, vs.subrange(0, j as int));
                lemma_total_text_len_prefix(vs, j as int + 1);
                lemma_total_text_len_prefix(vs, j as int);
            }
            t = transform(&t, &b[j]);
            j = j + 1;
        }
        proof {
            assert(edit_views(b@).subrange(0, b@.len() as int) =~= edit_views(b@));
        }
        out.push(t);
        i = i + 1;
    }
    out
}

proof fn lemma_total_text_len_prefix(vs: Seq<EditView>, n: int)
    requires
        0 <= n <= vs.len(),
    ensures
        total_text_len(vs.subrange(0, n)) <= total_text_len(vs),
        n > 0 ==> total_text_len(vs.subrange(0, n)) == total_text_len(vs.subrange(0, n - 1))
            + vs[n - 1].text.len(),
    decreases vs.len(),
{
    if n > 0 {
        assert(vs.subrange(0, n).drop_last() =~= vs.subrange(0, n - 1));
    }
    if n < vs.len() {
        assert(vs.drop_last().subrange(0, n) =~= vs.subrange(0, n));
        lemma_total_text_len_prefix(vs.drop_last(), n);
    } else {
        assert(vs.subrange(0, n) =~= vs);
    }
}

/// Carry a cursor or anchor position across an edit that has been applied.
pub fn transform_pos(pos: usize, edit: &Edit) -> (r: usize)
    requires
        edit@.wf(),
        transform_pos_spec(pos as int, edit@) <= usize::MAX,
    ensures
        r == transform_pos_spec(pos as int, edit@),
{
    if pos <= edit.start {
        pos
    } else if pos >= edit.end {
        pos - (edit.end - edit.start) + edit.text_len()
    } else {
        edit.start + edit.text_len()
    }
}

/// A position carried across each edit of `es`, in order.
pub open spec fn transform_pos_seq(pos: int, es: Seq<EditView>) -> int
    decreases es.len(),
{
    if es.len() == 0 {
        pos
    } else {
        transform_pos_spec(transform_pos_seq(pos, es.drop_last()), es.last())
    }
}

/// Every intermediate position of carrying `pos` across `es` fits in `usize`.
pub open spec fn pos_seq_fits(pos: int, es: Seq<EditView>) -> bool {
    forall|k: int| 0 <= k <= es.len() ==> #[trigger] transform_pos_seq(pos, es.take(k)) <= usize::MAX
}

pub proof fn lemma_transform_pos_seq_step(pos: int, es: Seq<EditView>, k: int)
    requires
        0 <= k < es.len(),
    ensures
        transform_pos_seq(pos, es.take(k + 1)) == transform_pos_spec(transform_pos_seq(pos, es.take(k)), es[k]),
{
    assert(es.take(k + 1).drop_last() =~= es.take(k));
}

/// Carry a position across each edit of `edits` in order.
pub fn transform_pos_list(pos: usize, edits: &[Edit]) -> (r: usize)
    requires
        forall|j: int| 0 <= j < edits@.len() ==> (#[trigger] edits@[j])@.wf(),
        pos_seq_fits(pos as int, edit_views(edits@)),
    ensures
        r == transform_pos_seq(pos as int, edit_views(edits@)),
{
    let ghost vs = edit_views(edits@);
    let mut p = pos;
    let mut i: usize = 0;
    proof {
        assert(vs.take(0) =~= Seq::<EditView>::empty());
    }
    while i < edits.len()
        invariant
            i <= edits@.len(),
            vs == edit_views(edits@),
            forall|j: int| 0 <= j < edits@.len() ==> (#[trigger] edits@[j])@.wf(),
            pos_seq_fits(pos as int, vs),
            p == transform_pos_seq(pos as int, vs.take(i as int)),
        decreases edits@.len() - i,
    {
        proof {
            lemma_transform_pos_seq_step(pos as int, vs, i as int);
            assert(transform_pos_seq(pos as int, vs.take(i + 1)) <= usize::MAX);
        }
        p = transform_pos(p, &edits[i]);
        i = i + 1;
    }
    proof {
        assert(vs.take(edits@.len() as int) =~= vs);
    }
    p
}

/// A transformed position lies within the document produced by the edit.
pub proof fn lemma_transform_pos_in_bounds(doc: Seq<char>, pos: int, e: EditView)
    requires
        e.fits(doc),
        0 <= pos <= doc.len(),
    ensures
        0 <= transform_pos_spec(pos, e) <= apply_edit(doc, e).len(),
{
}

proof fn lemma_lex_total(x: Seq<char>, y: Seq<char>)
    ensures
        lex_le(x, y) || lex_le(y, x),
    decreases x.len(),
{
    if x.len() > 0 && y.len() > 0 {
        if x[0] == y[0] {
            lemma_lex_total(x.drop_first(), y.drop_first());
        } else {
            assert((x[0] as int) != (y[0] as int));
        }
    }
}

proof fn lemma_lex_antisymmetric(x: Seq<char>, y: Seq<char>)
    requires
        lex_le(x, y),
        lex_le(y, x),
    ensures
        x == y,
    decreases x.len(),
{
    if x.len() > 0 && y.len() > 0 {
        lemma_lex_antisymmetric(x.drop_first(), y.drop_first());
        assert(x =~= seq![x[0]] + x.drop_first());
        assert(y =~= seq![y[0]] + y.drop_first());
    }
}

/// `e2` applied after `e1`, where `e2` ends at or before `e1`'s start.
proof fn lemma_apply_before(doc: Seq<char>, e1: EditView, e2: EditView)
    requires
        e1.fits(doc),
        e2.wf(),
        e2.end <= e1.start,
    ensures
        apply_edit(apply_edit(doc, e1), e2) == doc.subrange(0, e2.start) + e2.text
            + doc.subrange(e2.end, e1.start) + e1.text + doc.subrange(e1.end, doc.len() as int),
{
    let d1 = apply_edit(doc, e1);
    assert(d1.subrange(0, e2.start) =~= doc.subrange(0, e2.start));
    assert(d1.subrange(e2.end, d1.len() as int) =~= doc.subrange(e2.end, e1.start) + e1.text
        + doc.subrange(e1.end, doc.len() as int));
    assert(apply_edit(d1, e2) =~= doc.subrange(0, e2.start) + e2.text + doc.subrange(
        e2.end,
        e1.start,
    ) + e1.text + doc.subrange(e1.end, doc.len() as int));
}

/// `e2` applied after `e1`, where `e2` starts at or after the end of the
/// text that `e1` inserted.
proof fn lemma_apply_after(doc: Seq<char>, e1: EditView, e2: EditView)
    requires
        e1.fits(doc),
        e2.fits(apply_edit(doc, e1)),
        e2.start >= e1.start + e1.text.len(),
    ensures
        apply_edit(apply_edit(doc, e1), e2) == doc.subrange(0, e1.start) + e1.text
            + doc.subrange(e1.end, e2.start - e1.delta()) + e2.text + doc.subrange(
            e2.end - e1.delta(),
            doc.len() as int,
        ),
{
    let d1 = apply_edit(doc, e1);
    let k = e1.delta();
    assert(d1.subrange(0, e2.start) =~= doc.subrange(0, e1.start) + e1.text + doc.subrange(
        e1.end,
        e2.start - k,
    ));
    assert(d1.subrange(e2.end, d1.len() as int) =~= doc.subrange(e2.end - k, doc.len() as int));
    assert(apply_edit(d1, e2) =~= doc.subrange(0, e1.start) + e1.text + doc.subrange(
        e1.end,
        e2.start - k,
    ) + e2.text + doc.subrange(e2.end - k, doc.len() as int));
}

/// `e2` applied after `e1`, where `e2`'s range covers all the text that `e1`
/// inserted.
proof fn lemma_apply_covering(doc: Seq<char>, e1: EditView, e2: EditView)
    requires
        e1.fits(doc),
        e2.fits(apply_edit(doc, e1)),
        e2.start <= e1.start,
        e2.end >= e1.start + e1.text.len(),
    ensures
        apply_edit(apply_edit(doc, e1), e2) == doc.subrange(0, e2.start) + e2.text
            + doc.subrange(e2.end - e1.delta(), doc.len() as int),
{
    let d1 = apply_edit(doc, e1);
    let k = e1.delta();
    assert(d1.subrange(0, e2.start) =~= doc.subrange(0, e2.start));
    assert(d1.subrange(e2.end, d1.len() as int) =~= doc.subrange(e2.end - k, doc.len() as int));
    assert(apply_edit(d1, e2) =~= doc.subrange(0, e2.start) + e2.text + doc.subrange(
        e2.end - k,
        doc.len() as int,
    ));
}

/// The pairs of concurrent edits on which transformation converges: neither
/// edit lies strictly inside the other while the inner one carries text, and
/// two non-empty ranges that start together carry texts that commute.
pub open spec fn converging_pair(a: EditView, b: EditView) -> bool {
    &&& !(a.start < b.start && b.end < a.end && b.text.len() > 0)
    &&& !(b.start < a.start && a.end < b.end && a.text.len() > 0)
    &&& !(a.start == b.start && a.start < a.end && b.start < b.end && a.text + b.text
        != b.text + a.text)
}

proof fn lemma_convergence_ordered(doc: Seq<char>, a: EditView, b: EditView)
    requires
        a.fits(doc),
        b.fits(doc),
        converging_pair(a, b),
        a.start <= b.start,
    ensures
        apply_edit(apply_edit(doc, a), transform_spec(b, a)) == apply_edit(
            apply_edit(doc, b),
            transform_spec(a, b),
        ),
{
    let a2 = transform_spec(a, b);
    let b2 = transform_spec(b, a);
    let pa = apply_edit(apply_edit(doc, a), b2);
    let pb = apply_edit(apply_edit(doc, b), a2);
    let n = doc.len() as int;
    if a.start == b.start && a.is_insert() && b.is_insert() {
        lemma_lex_total(a.text, b.text);
        if lex_le(a.text, b.text) && lex_le(b.text, a.text) {
            lemma_lex_antisymmetric(a.text, b.text);
            lemma_apply_before(doc, a, b2);
            lemma_apply_before(doc, b, a2);
            assert(pa =~= pb);
        } else if lex_le(a.text, b.text) {
            lemma_apply_after(doc, a, b2);
            lemma_apply_before(doc, b, a2);
            assert(pa =~= pb);
        } else {
            lemma_apply_before(doc, a, b2);
            lemma_apply_after(doc, b, a2);
            assert(pa =~= pb);
        }
    } else if a.end <= b.start {
        lemma_apply_after(doc, a, b2);
        lemma_apply_before(doc, b, a2);
        assert(pa =~= pb);
    } else if a.start == b.start && b.is_insert() {
        lemma_apply_before(doc, a, b2);
        lemma_apply_after(doc, b, a2);
        assert(pa =~= pb);
    } else if a.start < b.start {
        if a.end <= b.end {
            lemma_apply_after(doc, a, b2);
            lemma_apply_before(doc, b, a2);
            assert(pa =~= pb);
        } else {
            lemma_apply_after(doc, a, b2);
            lemma_apply_covering(doc, b, a2);
            assert(pa =~= pb);
        }
    } else {
        lemma_apply_after(doc, a, b2);
        lemma_apply_after(doc, b, a2);
        assert(doc.subrange(0, a.start) + a.text + b.text =~= doc.subrange(0, a.start) + (a.text
            + b.text));
        assert(doc.subrange(0, a.start) + b.text + a.text =~= doc.subrange(0, a.start) + (b.text
            + a.text));
        assert(pa =~= pb);
    }
}

/// Convergence of concurrent edits: applying `a` then `b` transformed
/// against `a` gives the same document as applying `b` then `a` transformed
/// against `b`, for every admissible pair of edits that fit the document.
pub proof fn lemma_convergence(doc: Seq<char>, a: EditView, b: EditView)
    requires
        a.fits(doc),
        b.fits(doc),
        converging_pair(a, b),
    ensures
        apply_edit(apply_edit(doc, a), transform_spec(b, a)) == apply_edit(
            apply_edit(doc, b),
            transform_spec(a, b),
        ),
{
    if a.start <= b.start {
        lemma_convergence_ordered(doc, a, b);
    } else {
        lemma_convergence_ordered(doc, b, a);
    }
}

} // verus!
