use gauchito_core::buffer::text_objects::treesitter::{
    first_after, last_before, select_captures, smallest_containing, TreeSitterEngine,
    TreeSitterMatcher,
};
use gauchito_core::buffer::text_objects::{SelectionMode, TextObjectMatcher};
use gauchito_core::operations::{
    MoveBigWordBackward, MoveBigWordForward, MoveLeft, MoveMatchingBracket, MoveParagraphBackward,
    MoveParagraphForward, MoveRight, MoveWordBackward, MoveWordForward, Operation, SelectLeft,
    SelectRight, SelectWord,
};
use gauchito_core::{Buffer, Context, Selection};
use std::path::PathBuf;
use std::sync::{Arc, RwLock};

fn head(ctx: &Context) -> usize {
    ctx.selection().primary().head
}

#[test]
fn cursor_moves() {
    let mut ctx = Context::from_text("foo bar-baz\n\nnext para");
    MoveWordForward.execute(&mut ctx);
    assert_eq!(head(&ctx), 4);
    MoveRight.execute(&mut ctx);
    assert_eq!(head(&ctx), 5);
    MoveLeft.execute(&mut ctx);
    assert_eq!(head(&ctx), 4);
    MoveBigWordForward.execute(&mut ctx);
    assert_eq!(head(&ctx), 13);
    MoveBigWordBackward.execute(&mut ctx);
    assert_eq!(head(&ctx), 4);
    MoveWordBackward.execute(&mut ctx);
    assert_eq!(head(&ctx), 0);
    MoveParagraphForward.execute(&mut ctx);
    assert_eq!(head(&ctx), 13);
    MoveParagraphBackward.execute(&mut ctx);
    assert_eq!(head(&ctx), 13);
    assert_eq!(MoveLeft.name(), "move_left");
    assert_eq!(SelectWord.name(), "select_word");
}

#[test]
fn selection_commands() {
    let mut ctx = Context::from_text("foo bar");
    ctx.selection_mut().sels[0] = Selection::new(5);
    SelectWord.execute(&mut ctx);
    assert_eq!(*ctx.selection().primary(), Selection::range(4, 7));
    SelectLeft.execute(&mut ctx);
    assert_eq!(*ctx.selection().primary(), Selection::range(4, 6));
    SelectRight.execute(&mut ctx);
    assert_eq!(*ctx.selection().primary(), Selection::range(4, 7));
}

#[test]
fn matching_bracket_jumps() {
    let mut ctx = Context::from_text("(a[b])");
    MoveMatchingBracket.execute(&mut ctx);
    assert_eq!(head(&ctx), 5);
    MoveMatchingBracket.execute(&mut ctx);
    assert_eq!(head(&ctx), 0);
    ctx.selection_mut().sels[0] = Selection::new(2);
    MoveMatchingBracket.execute(&mut ctx);
    assert_eq!(head(&ctx), 4);
}

#[test]
fn node_selection_rules() {
    let rs = vec![0..10, 2..5, 3..5, 6..8];
    assert_eq!(smallest_containing(&rs, 4), Some(3..5));
    assert_eq!(smallest_containing(&vec![2..4, 3..5], 3), Some(2..4));
    assert_eq!(smallest_containing(&rs, 9), Some(0..10));
    assert_eq!(smallest_containing(&rs, 10), None);
    assert_eq!(first_after(&rs, 2), Some(3..5));
    assert_eq!(first_after(&rs, 6), None);
    assert_eq!(last_before(&rs, 7), Some(3..5));
    assert_eq!(last_before(&rs, 5), None);
}

#[test]
fn captures_selected_by_name() {
    let caps = vec![vec![(0, 0, 9), (1, 3, 6)], vec![(1, 10, 12)], vec![(7, 1, 2)]];
    let names = vec!["function.outer".to_string(), "function.inner".to_string()];
    assert_eq!(select_captures(&caps, &names, "function.inner"), vec![3..6, 10..12]);
    assert_eq!(select_captures(&caps, &names, "function.outer"), vec![0..9]);
    assert!(select_captures(&caps, &names, "class.outer").is_empty());
}

#[test]
fn syntax_matcher_capture_names() {
    let engine = Arc::new(RwLock::new(TreeSitterEngine::new(PathBuf::from("queries"))));
    let f = TreeSitterMatcher::function(engine.clone());
    assert_eq!(f.capture_for_find_at(SelectionMode::Inside), "function.inner");
    assert_eq!(f.capture_for_find_at(SelectionMode::Around), "function.outer");
    assert_eq!(f.capture_for_find_near(SelectionMode::Inside), "function.inner");
    let c = TreeSitterMatcher::class_inner(engine.clone());
    assert_eq!(c.capture_for_find_at(SelectionMode::Around), "class.outer");
    assert_eq!(c.capture_for_find_near(SelectionMode::Around), "class.inner");
    let s = TreeSitterMatcher::new(engine.clone(), "string".to_string());
    assert_eq!(s.capture_for_find_at(SelectionMode::Inside), "string.inner");
    assert_eq!(s.capture_for_find_near(SelectionMode::Inside), "string");
    let buf = Buffer::from_str("fn main() {}");
    assert_eq!(f.find_at(&buf, 3, SelectionMode::Inside), None);
    assert_eq!(f.find_next(&buf, 0, SelectionMode::Around), None);
}

#[test]
fn engine_without_language() {
    let mut engine = TreeSitterEngine::new(PathBuf::from("queries"));
    assert!(engine.parse("fn main() {}").is_err());
    assert!(engine.add_query("textobjects", "(identifier) @x").is_err());
    assert!(engine.find_nodes("x", None).is_empty());
    assert_eq!(engine.node_at(0, "x"), None);
    assert_eq!(engine.query_dir(), &PathBuf::from("queries"));
}

#[test]
fn capture_names_replace_every_occurrence() {
    let engine = Arc::new(RwLock::new(TreeSitterEngine::new(PathBuf::from("queries"))));
    let m = TreeSitterMatcher::new(engine.clone(), "a.outer.outer".to_string());
    assert_eq!(m.capture_for_find_at(SelectionMode::Inside), "a.inner.inner");
    assert_eq!(m.capture_for_find_near(SelectionMode::Inside), "a.inner.inner");
    let busy = engine.write().unwrap();
    let buf = Buffer::from_str("x");
    assert_eq!(m.find_at(&buf, 0, SelectionMode::Inside), None);
    drop(busy);
}
