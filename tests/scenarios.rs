use gauchito_core::buffer::text_objects::plain::{DelimiterMatcher, WordMatcher};
use gauchito_core::buffer::text_objects::{SelectionMode, TextObjectMatcher};
use gauchito_core::ot::transform;
use gauchito_core::{Buffer, Context, Edit, HistoryTree, Selection, SelectionGroup};

fn both_paths(doc: &str, a: &Edit, b: &Edit) -> (String, String) {
    let mut pa = Buffer::from_str(doc);
    pa.apply(a);
    pa.apply(&transform(b, a));
    let mut pb = Buffer::from_str(doc);
    pb.apply(b);
    pb.apply(&transform(a, b));
    (pa.text(), pb.text())
}

#[test]
fn ot_non_overlapping_inserts_converge() {
    let (pa, pb) = both_paths(
        "hello world",
        &Edit::new(0, 0, "A".into()),
        &Edit::new(11, 11, "B".into()),
    );
    assert_eq!(pa, "Ahello worldB");
    assert_eq!(pb, "Ahello worldB");
}

#[test]
fn ot_same_position_inserts_tie_break() {
    let (pa, pb) = both_paths(
        "hello",
        &Edit::new(2, 2, "A".into()),
        &Edit::new(2, 2, "B".into()),
    );
    assert_eq!(pa, "heABllo");
    assert_eq!(pb, "heABllo");
}

#[test]
fn ot_overlapping_deletes_converge() {
    let (pa, pb) = both_paths(
        "hello world",
        &Edit::new(3, 8, "".into()),
        &Edit::new(5, 10, "".into()),
    );
    assert_eq!(pa, "held");
    assert_eq!(pb, "held");
}

#[test]
fn undo_redo_restores_selection() {
    let mut ctx = Context::from_text("abc");
    ctx.selection_mut().sels[0] = Selection::new(1);
    ctx.apply_edit(Edit::new(1, 1, "X".into())).unwrap();
    assert_eq!(ctx.buffer().text(), "aXbc");
    assert_eq!(*ctx.selection().primary(), Selection::new(2));
    assert_eq!(ctx.undo(), Ok(Some(0)));
    assert_eq!(ctx.buffer().text(), "abc");
    assert_eq!(*ctx.selection().primary(), Selection::new(1));
    assert_eq!(ctx.redo(), Ok(Some(1)));
    assert_eq!(ctx.buffer().text(), "aXbc");
    assert_eq!(*ctx.selection().primary(), Selection::new(2));
}

#[test]
fn word_object_around_and_inside() {
    let buf = Buffer::from_str("foo bar baz");
    assert_eq!(WordMatcher.find_at(&buf, 5, SelectionMode::Around), Some(4..8));
    assert_eq!(WordMatcher.find_at(&buf, 5, SelectionMode::Inside), Some(4..7));
}

#[test]
fn delimiter_inside_with_nesting() {
    let buf = Buffer::from_str("f((x))");
    let parens = DelimiterMatcher::parentheses();
    assert_eq!(parens.find_at(&buf, 3, SelectionMode::Inside), Some(3..4));
    assert_eq!(parens.find_at(&buf, 3, SelectionMode::Around), Some(2..5));
    // the outer pair is reached by expanding from the inner one
    assert_eq!(parens.find_at(&buf, 2 - 1, SelectionMode::Around), Some(1..6));
}

#[test]
fn history_coalescing() {
    let mut h = HistoryTree::new(500);
    let g = SelectionGroup::single(0);
    let first = h.record_at(vec![Edit::new(0, 0, "a".into())], vec!["".into()], g.clone(), 0);
    let again = h.record_at(vec![Edit::new(1, 1, "b".into())], vec!["".into()], g.clone(), 10);
    assert_eq!(first, again);
    assert_eq!(h.node(first).edits.len(), 2);
    let third = h.record_at(vec![Edit::new(2, 2, "c".into())], vec!["".into()], g, 610);
    assert_ne!(third, first);
    assert_eq!(h.node(third).parent, Some(first));
    assert_eq!(h.node(first).children, vec![third]);
}
