use gauchito_core::buffer::text_objects::kinds::TextObjectKind;
use gauchito_core::buffer::text_objects::plain::{
    is_word_char, BigWordMatcher, DelimiterMatcher, ParagraphMatcher, QuoteMatcher, WordMatcher,
};
use gauchito_core::buffer::text_objects::regex_matcher::RegexMatcher;
use gauchito_core::buffer::text_objects::{SelectionMode, TextObjectMatcher, TextSource};
use gauchito_core::{Buffer, Context, Edit, EditError};

#[test]
fn buffer_lines_and_slices() {
    let buf = Buffer::from_str("ab\ncd\n");
    assert_eq!(buf.len_chars(), 6);
    assert_eq!(buf.len_lines(), 3);
    assert_eq!(buf.line(1), "cd\n");
    assert_eq!(buf.line(2), "");
    assert_eq!(buf.line_len(1), 3);
    assert_eq!(buf.char_to_line(3), 1);
    assert_eq!(buf.char_to_line(6), 2);
    assert_eq!(buf.line_to_char(1), 3);
    assert_eq!(buf.line_to_char(3), 6);
    assert_eq!(buf.char_at(4), Some('d'));
    assert_eq!(buf.char_at(6), None);
    assert_eq!(buf.slice_to_string(1, 4), "b\nc");
    assert_eq!(buf.line_chars(0), vec!['a', 'b', '\n']);
    assert_eq!(Buffer::new().len_lines(), 1);
}

#[test]
fn buffer_apply_returns_replaced_text() {
    let mut buf = Buffer::from_str("hello");
    assert_eq!(buf.apply(&Edit::new(1, 3, "EY".into())), "el");
    assert_eq!(buf.text(), "hEYlo");
    assert_eq!(buf.apply(&Edit::new(5, 5, "!".into())), "");
    assert_eq!(buf.text(), "hEYlo!");
    assert_eq!(buf.apply(&Edit::new(0, 1, "".into())), "h");
    assert_eq!(buf.text(), "EYlo!");
}

#[test]
fn byte_and_char_offsets() {
    let buf = Buffer::from_str("héllo");
    assert_eq!(buf.char_to_byte(2), 3);
    assert_eq!(buf.byte_to_char(3), 2);
    assert_eq!(buf.byte_to_char(2), 1);
    assert_eq!(buf.byte_to_char(6), 5);
}

#[test]
fn word_and_big_word_objects() {
    let buf = Buffer::from_str("foo.bar baz");
    assert_eq!(WordMatcher.find_at(&buf, 1, SelectionMode::Inside), Some(0..3));
    assert_eq!(BigWordMatcher.find_at(&buf, 1, SelectionMode::Inside), Some(0..7));
    assert_eq!(BigWordMatcher.find_at(&buf, 1, SelectionMode::Around), Some(0..8));
    assert_eq!(WordMatcher.find_at(&buf, 3, SelectionMode::Inside), None);
    assert_eq!(WordMatcher.find_at(&buf, 7, SelectionMode::Inside), None);
    assert_eq!(WordMatcher.find_next(&buf, 1, SelectionMode::Inside), Some(0..3));
    assert_eq!(WordMatcher.find_next(&buf, 3, SelectionMode::Inside), Some(4..7));
    assert_eq!(BigWordMatcher.find_next(&buf, 7, SelectionMode::Inside), Some(8..11));
    assert_eq!(WordMatcher.find_prev(&buf, 8, SelectionMode::Inside), Some(4..7));
    assert_eq!(WordMatcher.find_prev(&buf, 0, SelectionMode::Inside), None);
    assert_eq!(WordMatcher.find_next(&buf, 10, SelectionMode::Inside), None);
}

#[test]
fn words_of_non_ascii_letters() {
    let buf = Buffer::from_str("héllo wörld");
    assert_eq!(WordMatcher.find_at(&buf, 1, SelectionMode::Inside), Some(0..5));
    assert_eq!(WordMatcher.find_at(&buf, 1, SelectionMode::Around), Some(0..6));
    assert!(is_word_char('_'));
    assert!(is_word_char('ö'));
    assert!(!is_word_char('-'));
}

#[test]
fn paragraph_objects() {
    let buf = Buffer::from_str("a\nb\n\nc\nd\n");
    assert_eq!(ParagraphMatcher.find_at(&buf, 0, SelectionMode::Inside), Some(0..4));
    assert_eq!(ParagraphMatcher.find_at(&buf, 2, SelectionMode::Around), Some(0..4));
    assert_eq!(ParagraphMatcher.find_at(&buf, 4, SelectionMode::Inside), None);
    assert_eq!(ParagraphMatcher.find_next(&buf, 0, SelectionMode::Inside), Some(5..9));
    assert_eq!(ParagraphMatcher.find_next(&buf, 5, SelectionMode::Inside), None);
    assert_eq!(ParagraphMatcher.find_prev(&buf, 7, SelectionMode::Inside), Some(5..9));
    assert_eq!(ParagraphMatcher.find_prev(&buf, 5, SelectionMode::Inside), None);
}

#[test]
fn bracket_objects() {
    let buf = Buffer::from_str("a[b[c]d]e");
    let m = DelimiterMatcher::brackets();
    assert_eq!(m.find_at(&buf, 4, SelectionMode::Inside), Some(4..5));
    assert_eq!(m.find_at(&buf, 4, SelectionMode::Around), Some(3..6));
    assert_eq!(m.find_at(&buf, 2, SelectionMode::Inside), Some(2..7));
    assert_eq!(m.find_at(&buf, 0, SelectionMode::Inside), None);
    assert_eq!(m.find_next(&buf, 0, SelectionMode::Inside), Some(2..7));
    assert_eq!(m.find_prev(&buf, 8, SelectionMode::Inside), Some(4..5));
    let braces = DelimiterMatcher::braces();
    assert_eq!((braces.open, braces.close), ('{', '}'));
    let angles = DelimiterMatcher::angle_brackets();
    assert_eq!((angles.open, angles.close), ('<', '>'));
}

#[test]
fn quote_objects_skip_escaped_quotes() {
    let buf = Buffer::from_str("a\"b\\\"c\"d");
    let q = QuoteMatcher::double();
    assert_eq!(q.find_at(&buf, 2, SelectionMode::Inside), Some(2..6));
    assert_eq!(q.find_at(&buf, 2, SelectionMode::Around), Some(1..7));
    assert_eq!(q.find_at(&buf, 0, SelectionMode::Inside), None);
    assert_eq!(QuoteMatcher::single().quote, '\'');
    assert_eq!(QuoteMatcher::backtick().quote, '`');
    let two = Buffer::from_str("x 'a' y 'b' z");
    let s = QuoteMatcher::single();
    assert_eq!(s.find_next(&two, 0, SelectionMode::Inside), Some(3..4));
    assert_eq!(s.find_prev(&two, 10, SelectionMode::Around), Some(8..11));
}

#[test]
fn regex_objects_use_character_offsets() {
    let buf = Buffer::from_str("see https://x.io now");
    assert_eq!(RegexMatcher::url().find_at(&buf, 6, SelectionMode::Inside), Some(4..16));
    assert_eq!(RegexMatcher::url().find_at(&buf, 1, SelectionMode::Inside), None);
    let mail = Buffer::from_str("mail a.b@ex.com!");
    assert_eq!(RegexMatcher::email().find_at(&mail, 7, SelectionMode::Inside), Some(5..15));
    let num = Buffer::from_str("x = -12.5;");
    assert_eq!(RegexMatcher::number().find_next(&num, 0, SelectionMode::Inside), Some(4..9));
    let hex = Buffer::from_str("color: #ff0000;");
    assert_eq!(RegexMatcher::hex_color().find_at(&hex, 9, SelectionMode::Inside), Some(7..14));
    let two = Buffer::from_str("1 and 22");
    assert_eq!(RegexMatcher::number().find_prev(&two, 8, SelectionMode::Inside), Some(6..8));
    let wide = Buffer::from_str("é 42\nz 7");
    assert_eq!(RegexMatcher::number().find_at(&wide, 2, SelectionMode::Inside), Some(2..4));
    assert_eq!(RegexMatcher::number().find_next(&wide, 3, SelectionMode::Inside), Some(7..8));
}

#[test]
fn kinds_that_need_a_syntax_tree() {
    assert!(TextObjectKind::Function.requires_treesitter());
    assert!(TextObjectKind::Assignment.requires_treesitter());
    assert!(!TextObjectKind::Word.requires_treesitter());
    assert!(!TextObjectKind::HexColor.requires_treesitter());
}

#[test]
fn out_of_bounds_edits_are_refused() {
    let mut ctx = Context::from_text("abc");
    assert_eq!(
        ctx.apply_edit(Edit::new(5, 7, "".into())),
        Err(EditError::OutOfBounds { pos: 7, len: 3 })
    );
    assert_eq!(
        ctx.apply_edit(Edit::new(2, 1, "".into())),
        Err(EditError::OutOfBounds { pos: 2, len: 3 })
    );
    assert_eq!(
        ctx.apply_edits(vec![Edit::new(0, 0, "xy".into()), Edit::new(6, 6, "z".into())]),
        Err(EditError::OutOfBounds { pos: 6, len: 5 })
    );
    assert_eq!(ctx.buffer().text(), "abc");
    assert_eq!(ctx.apply_edits(vec![]), Ok(()));
    assert_eq!(ctx.history().len(), 1);
    assert_eq!(ctx.undo(), Ok(None));
    assert_eq!(ctx.redo(), Ok(None));
}

#[test]
fn batch_moves_cursor_to_end_of_last_change() {
    let mut ctx = Context::new();
    ctx.apply_edits(vec![Edit::new(0, 0, "hello".into()), Edit::new(5, 5, " you".into())])
        .unwrap();
    assert_eq!(ctx.buffer().text(), "hello you");
    assert_eq!(ctx.selection().primary().head, 9);
    ctx.apply_edit(Edit::new(0, 6, "".into())).unwrap();
    assert_eq!(ctx.selection().primary().head, 0);
    assert_eq!(ctx.history().len(), 2);
    assert_eq!(ctx.history().node(1).edits.len(), 3);
    ctx.undo().unwrap();
    assert_eq!(ctx.buffer().text(), "");
    assert_eq!(ctx.buffer().len_chars(), TextSource::len_chars(ctx.buffer()));
}

#[test]
fn white_space_matches_std() {
    for v in 0u32..0x3100 {
        if let Some(c) = char::from_u32(v) {
            let buf = Buffer::from_str(&c.to_string());
            let found = BigWordMatcher.find_at(&buf, 0, SelectionMode::Inside);
            assert_eq!(found.is_none(), c.is_whitespace(), "{:?}", c);
        }
    }
}

#[test]
fn applied_batch_is_recorded_with_its_selection() {
    let mut ctx = Context::from_text("abc");
    ctx.selection_mut().sels[0] = gauchito_core::Selection::new(1);
    ctx.apply_edits(vec![Edit::new(1, 1, "X".into())]).unwrap();
    let h = ctx.history();
    assert_eq!(h.len(), 2);
    assert_eq!(h.current(), 1);
    let node = h.node(1);
    assert_eq!(node.edits, vec![Edit::new(1, 1, "X".into())]);
    assert_eq!(node.replaced, vec![String::new()]);
    assert_eq!(node.selection_before, Some(gauchito_core::SelectionGroup::single(1)));
    assert_eq!(node.parent, Some(0));
}
