use gauchito_core::buffer::selection::Selection as Cursor;
use gauchito_core::ot::{transform, transform_list, transform_pos};
use gauchito_core::{Buffer, Context, Edit, HistoryNode, HistoryTree, Selection, SelectionGroup};

fn run(doc: &str, edits: &[&Edit]) -> String {
    let mut b = Buffer::from_str(doc);
    for e in edits {
        b.apply(e);
    }
    b.text()
}

#[test]
fn convergence_on_overlapping_replaces() {
    let a = Edit::new(1, 3, "xy".into());
    let b = Edit::new(2, 4, "z".into());
    let pa = run("abcdef", &[&a, &transform(&b, &a)]);
    let pb = run("abcdef", &[&b, &transform(&a, &b)]);
    assert_eq!(pa, "axyzef");
    assert_eq!(pb, "axyzef");
}

#[test]
fn convergence_fails_for_text_inside_straddling_edit() {
    // `b` lies strictly inside `a` and carries text: the pair is excluded
    // from the convergence law.
    let a = Edit::new(1, 5, "X".into());
    let b = Edit::new(2, 3, "Y".into());
    let pa = run("abcdef", &[&a, &transform(&b, &a)]);
    let pb = run("abcdef", &[&b, &transform(&a, &b)]);
    assert_eq!(pa, "aXYf");
    assert_eq!(pb, "aXf");
}

#[test]
fn transform_list_applies_edits_in_order() {
    let a = vec![Edit::new(3, 3, "X".into())];
    let b = vec![Edit::new(0, 0, "ab".into()), Edit::new(1, 2, "".into())];
    let r = transform_list(&a, &b);
    assert_eq!(r, vec![Edit::new(4, 4, "X".into())]);
}

#[test]
fn transformed_positions_stay_in_document() {
    let e = Edit::new(1, 4, "".into());
    let after_len = run("hello", &[&e]).chars().count();
    assert_eq!(after_len, 2);
    assert_eq!(transform_pos(5, &e), 2);
    assert_eq!(transform_pos(3, &e), 1);
    assert_eq!(transform_pos(0, &e), 0);
    for pos in 0..=5 {
        assert!(transform_pos(pos, &e) <= after_len);
    }
}

#[test]
fn delta_counts_characters() {
    assert_eq!(Edit::new(0, 0, "é".into()).delta(), 1);
    assert_eq!(Edit::new(2, 5, "ab".into()).delta(), -1);
    assert_eq!(Edit::new(3, 3, "".into()).delta(), 0);
}

#[test]
fn edit_kinds() {
    assert!(Edit::new(1, 1, "x".into()).is_insert());
    assert!(Edit::new(1, 3, "".into()).is_delete());
    assert!(Edit::new(1, 3, "x".into()).is_replace());
    assert!(Edit::new(1, 1, "".into()).is_noop());
    assert!(!Edit::new(1, 3, "x".into()).is_delete());
}

#[test]
fn inverse_restores_text() {
    let mut buf = Buffer::from_str("hello world");
    let edits = vec![Edit::new(0, 5, "HI".into()), Edit::new(2, 2, "!".into())];
    let mut replaced = Vec::new();
    for e in &edits {
        replaced.push(buf.apply(e));
    }
    assert_eq!(buf.text(), "HI! world");
    assert_eq!(replaced, vec!["hello".to_string(), "".to_string()]);
    let node = HistoryNode::new(edits, replaced, None);
    let inv = node.inverse();
    assert_eq!(inv, vec![Edit::new(2, 3, "".into()), Edit::new(0, 2, "hello".into())]);
    for e in &inv {
        buf.apply(e);
    }
    assert_eq!(buf.text(), "hello world");
}

#[test]
fn inverse_pairs_only_matched_edits() {
    let node = HistoryNode::new(
        vec![Edit::new(0, 1, "ab".into()), Edit::new(4, 4, "c".into())],
        vec!["x".into()],
        None,
    );
    assert_eq!(node.inverse(), vec![Edit::new(0, 2, "x".into())]);
}

#[test]
fn selections_stay_in_text_after_edits() {
    let mut ctx = Context::from_text("abc def");
    ctx.selection_mut().sels = vec![Selection::new(7), Selection::range(4, 6)];
    ctx.apply_edit(Edit::new(0, 4, "".into())).unwrap();
    assert_eq!(ctx.buffer().text(), "def");
    assert_eq!(ctx.selection().sels, vec![Selection::new(0), Selection::range(0, 2)]);
    let len = ctx.buffer().len_chars();
    for s in &ctx.selection().sels {
        assert!(s.anchor <= len && s.head <= len);
    }
}

#[test]
fn grapheme_motion_brackets_position() {
    let buf = Buffer::from_str("e\u{301}x");
    assert_eq!(buf.len_chars(), 3);
    assert_eq!(buf.next_grapheme(0), 2);
    assert_eq!(buf.next_grapheme(1), 2);
    assert_eq!(buf.next_grapheme(2), 3);
    assert_eq!(buf.next_grapheme(3), 3);
    assert_eq!(buf.prev_grapheme(3), 2);
    assert_eq!(buf.prev_grapheme(2), 0);
    assert_eq!(buf.prev_grapheme(1), 0);
    assert_eq!(buf.prev_grapheme(0), 0);
    assert!(!buf.is_grapheme_boundary(1));
    assert!(buf.is_grapheme_boundary(2));
    assert!(buf.is_grapheme_boundary(0));
    assert!(buf.is_grapheme_boundary(3));
    for pos in 0..=3 {
        assert!(buf.prev_grapheme(pos) <= pos && pos <= buf.next_grapheme(pos));
        assert!(buf.next_grapheme(buf.prev_grapheme(pos)) >= pos);
    }
}

#[test]
fn crlf_is_one_grapheme() {
    let buf = Buffer::from_str("a\r\nb");
    assert_eq!(buf.next_grapheme(1), 3);
    assert_eq!(buf.prev_grapheme(3), 1);
}

#[test]
fn history_ids_are_current_or_fresh() {
    let mut h = HistoryTree::new(500);
    let g = SelectionGroup::single(0);
    assert_eq!(h.current(), 0);
    let a = h.record_at(vec![Edit::new(0, 0, "a".into())], vec!["".into()], g.clone(), 0);
    assert_eq!(a, 1);
    let b = h.record_at(vec![Edit::new(1, 1, "b".into())], vec!["".into()], g.clone(), 499);
    assert_eq!(b, a);
    assert_eq!(h.node(a).timestamp, 499);
    let c = h.record_at(vec![Edit::new(2, 2, "c".into())], vec!["".into()], g.clone(), 999);
    assert_eq!(c, 2);
    assert_eq!(h.len(), 3);
    assert_eq!(h.edits(a).len(), 2);
}

#[test]
fn undo_then_record_makes_a_sibling_branch() {
    let mut h = HistoryTree::new(500);
    let g = SelectionGroup::single(3);
    assert!(h.undo().is_none());
    assert!(h.redo().is_none());
    let a = h.record_at(vec![Edit::new(0, 0, "a".into())], vec!["".into()], g.clone(), 0);
    let (inv, sel, parent) = h.undo().unwrap();
    assert_eq!(inv, vec![Edit::new(0, 1, "".into())]);
    assert_eq!(sel, Some(SelectionGroup::single(3)));
    assert_eq!(parent, 0);
    let b = h.record_at(vec![Edit::new(0, 0, "b".into())], vec!["".into()], g, 10);
    assert_eq!(b, 2);
    assert_eq!(h.node(0).children, vec![a, b]);
    assert_eq!(h.node(b).parent, Some(0));
    h.undo().unwrap();
    let (edits, _, id) = h.redo().unwrap();
    assert_eq!(id, a);
    assert_eq!(edits, vec![Edit::new(0, 0, "a".into())]);
    assert!(h.redo().is_none());
}

#[test]
fn noop_edit_leaves_group_equal() {
    let g = SelectionGroup {
        sels: vec![Selection::range(1, 4), Selection::new(2)],
        primary: 1,
    };
    assert_eq!(g.transform(&Edit::new(2, 2, "".into())), g);
    let moved = g.transform(&Edit::new(0, 0, "ab".into()));
    assert_eq!(moved.sels, vec![Selection::range(3, 6), Selection::new(4)]);
    assert_eq!(moved.primary, 1);
}

#[test]
fn selection_orders_and_directions() {
    let s = Selection::range(5, 2);
    assert_eq!(s.ordered(), (2, 5));
    assert!(!s.is_forward());
    assert!(Selection::new(3).is_forward());
    assert_eq!(SelectionGroup::default(), SelectionGroup::single(0));
}

#[test]
fn cursor_after_own_edits() {
    let c = Cursor::new(1, 7);
    assert_eq!(c.cursor_after_edit(&Edit::new(2, 2, "abc".into())), 5);
    assert_eq!(c.cursor_after_edit(&Edit::new(2, 4, "".into())), 2);
    assert_eq!(c.cursor_after_edit(&Edit::new(2, 4, "xy".into())), 4);
    assert_eq!(c.cursor_after_edit(&Edit::new(2, 2, "".into())), 7);
    assert_eq!(c.cursor_after_edits(&[]), 7);
    assert_eq!(
        c.cursor_after_edits(&[Edit::new(0, 0, "q".into()), Edit::new(3, 5, "".into())]),
        3
    );
}

#[test]
fn cursor_keeps_relative_place() {
    let mut c = Cursor::new(2, 6);
    c.update_after_edits(&[Edit::new(0, 1, "".into()), Edit::new(3, 3, "zz".into())]);
    assert_eq!((c.anchor, c.head), (1, 7));
    assert_eq!(c.range(), (1, 7));
    let mut d = Cursor::cursor(4);
    assert!(d.is_cursor());
    d.set_range(6, 1);
    assert_eq!(d.range(), (1, 6));
    d.cursor_to(0);
    assert_eq!((d.anchor, d.head), (0, 0));
}
