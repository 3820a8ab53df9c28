//! Editor commands that move or extend the primary selection.

use vstd::prelude::*;

use crate::buffer::grapheme::{next_grapheme_spec, prev_grapheme_spec};
use crate::buffer::text_objects::plain::{
    paragraph_next, paragraph_prev, paragraph_at, word_at, word_next, word_prev, BigWordMatcher,
    DelimiterMatcher, ParagraphMatcher, WordMatcher,
};
use crate::buffer::text_objects::{range_view, SelectionMode, TextObjectMatcher};
use crate::context::{Context, ContextView};
use crate::selection::{Selection, SelectionGroupView};

verus! {

/// What the host does after a command.
#[derive(Debug, Clone)]
pub enum OperationResult {
    Continue,
    SwitchMode(String),
    Exit,
}

/// Head of the primary selection.
pub open spec fn head_of(v: ContextView) -> int {
    v.selection.sels[v.selection.primary].head as int
}

/// `after` keeps the text and history of `before`; its primary selection
/// becomes `anchor..head` if both lie within the text, and nothing changes
/// otherwise.
pub open spec fn primary_set(before: ContextView, after: ContextView, anchor: int, head: int) -> bool {
    let p = before.selection.primary;
    &&& after.text == before.text
    &&& after.history == before.history
    &&& if 0 <= anchor <= before.text.len() && 0 <= head <= before.text.len() {
        after.selection == SelectionGroupView {
            sels: before.selection.sels.update(p, Selection { anchor: anchor as usize, head: head as usize }),
            primary: p,
        }
    } else {
        after.selection == before.selection
    }
}

/// The cursor collapses to the start of `found`, or stays without it.
pub open spec fn moved_to_start(before: ContextView, after: ContextView, found: Option<(int, int)>) -> bool {
    match found {
        Some((s, e)) => primary_set(before, after, s, s),
        None => after == before,
    }
}

/// Where a forward search starts: the last character of the object under
/// `head`, if it ends past `head`.
pub open spec fn search_from(under: Option<(int, int)>, head: int) -> int {
    match under {
        Some((s, e)) => if e > head { e - 1 } else { head },
        None => head,
    }
}

/// A command run against a context.
pub trait Operation {
    /// `after` is what running the command on `before` may leave.
    spec fn outcome(&self, before: ContextView, after: ContextView) -> bool;

    fn execute(&self, ctx: &mut Context) -> (r: OperationResult)
        requires
            old(ctx).wf(),
        ensures
            final(ctx).wf(),
            final(ctx)@.text == old(ctx)@.text,
            final(ctx)@.history == old(ctx)@.history,
            self.outcome(old(ctx)@, final(ctx)@),
    ;

    fn name(&self) -> &'static str;
}

/// Collapse the primary selection to `pos` when it lies within the text.
fn move_to(ctx: &mut Context, pos: usize)
    requires
        old(ctx).wf(),
    ensures
        final(ctx).wf(),
        final(ctx)@.text == old(ctx)@.text,
        final(ctx)@.history == old(ctx)@.history,
        primary_set(old(ctx)@, final(ctx)@, pos as int, pos as int),
{
    if pos <= ctx.buffer().len_chars() {
        ctx.set_primary(pos, pos);
    }
}

/// Move the head of the primary selection to `head`, keeping its anchor,
/// when `head` lies within the text.
fn extend_to(ctx: &mut Context, head: usize)
    requires
        old(ctx).wf(),
    ensures
        final(ctx).wf(),
        final(ctx)@.text == old(ctx)@.text,
        final(ctx)@.history == old(ctx)@.history,
        primary_set(
            old(ctx)@,
            final(ctx)@,
            old(ctx)@.selection.sels[old(ctx)@.selection.primary].anchor as int,
            head as int,
        ),
{
    if head <= ctx.buffer().len_chars() {
        let anchor = ctx.selection().primary().anchor;
        ctx.set_primary(anchor, head);
    }
}

/// Move to the start of the object `m` finds after (`forward`, searching
/// past the end of any object under the head) or before the primary head.
fn move_by<M: TextObjectMatcher>(ctx: &mut Context, m: &M, forward: bool)
    requires
        old(ctx).wf(),
    ensures
        final(ctx).wf(),
        final(ctx)@.text == old(ctx)@.text,
        final(ctx)@.history == old(ctx)@.history,
        forward ==> exists|under: Option<(int, int)>, found: Option<(int, int)>|
            m.at_result(old(ctx)@.text, head_of(old(ctx)@), SelectionMode::Inside, under)
                && m.next_result(old(ctx)@.text, search_from(under, head_of(old(ctx)@)), SelectionMode::Inside, found)
                && moved_to_start(old(ctx)@, final(ctx)@, found),
        !forward ==> exists|found: Option<(int, int)>|
            m.prev_result(old(ctx)@.text, head_of(old(ctx)@), SelectionMode::Inside, found)
                && moved_to_start(old(ctx)@, final(ctx)@, found),
{
    let head = ctx.primary_head();
    let ghost before = ctx@;
    if forward {
        let under = m.find_at(ctx.buffer(), head, SelectionMode::Inside);
        let from = match &under {
            Some(r) => if r.end > head {
                r.end - 1
            } else {
                head
            },
            None => head,
        };
        let found = m.find_next(ctx.buffer(), from, SelectionMode::Inside);
        match &found {
            Some(r) => move_to(ctx, r.start),
            None => {},
        }
        proof {
            assert(search_from(range_view(under), head as int) == from);
            assert(m.at_result(before.text, head_of(before), SelectionMode::Inside, range_view(under)));
            assert(m.next_result(before.text, search_from(range_view(under), head_of(before)), SelectionMode::Inside, range_view(found)));
            assert(moved_to_start(before, ctx@, range_view(found)));
        }
    } else {
        let found = m.find_prev(ctx.buffer(), head, SelectionMode::Inside);
        match &found {
            Some(r) => move_to(ctx, r.start),
            None => {},
        }
        proof {
            assert(moved_to_start(before, ctx@, range_view(found)));
        }
    }
}

#[derive(Debug, Clone)]
pub struct MoveLeft;

impl Operation for MoveLeft {
    open spec fn outcome(&self, before: ContextView, after: ContextView) -> bool {
        primary_set(before, after, prev_grapheme_spec(before.text, head_of(before)), prev_grapheme_spec(before.text, head_of(before)))
    }

    fn execute(&self, ctx: &mut Context) -> (r: OperationResult) {
        let head = ctx.primary_head();
        let pos = ctx.buffer().prev_grapheme(head);
        move_to(ctx, pos);
        OperationResult::Continue
    }

    fn name(&self) -> &'static str {
        "move_left"
    }
}

#[derive(Debug, Clone)]
pub struct MoveRight;

impl Operation for MoveRight {
    open spec fn outcome(&self, before: ContextView, after: ContextView) -> bool {
        primary_set(before, after, next_grapheme_spec(before.text, head_of(before)), next_grapheme_spec(before.text, head_of(before)))
    }

    fn execute(&self, ctx: &mut Context) -> (r: OperationResult) {
        let head = ctx.primary_head();
        let pos = ctx.buffer().next_grapheme(head);
        move_to(ctx, pos);
        OperationResult::Continue
    }

    fn name(&self) -> &'static str {
        "move_right"
    }
}

#[derive(Debug, Clone)]
pub struct MoveWordForward;

impl Operation for MoveWordForward {
    open spec fn outcome(&self, before: ContextView, after: ContextView) -> bool {
        moved_to_start(before, after, word_next(before.text, search_from(word_at(before.text, head_of(before), SelectionMode::Inside, false), head_of(before)), SelectionMode::Inside, false))
    }

    fn execute(&self, ctx: &mut Context) -> (r: OperationResult) {
        move_by(ctx, &WordMatcher, true);
        OperationResult::Continue
    }

    fn name(&self) -> &'static str {
        "move_word_forward"
    }
}

#[derive(Debug, Clone)]
pub struct MoveWordBackward;

impl Operation for MoveWordBackward {
    open spec fn outcome(&self, before: ContextView, after: ContextView) -> bool {
        moved_to_start(before, after, word_prev(before.text, head_of(before), SelectionMode::Inside, false))
    }

    fn execute(&self, ctx: &mut Context) -> (r: OperationResult) {
        move_by(ctx, &WordMatcher, false);
        OperationResult::Continue
    }

    fn name(&self) -> &'static str {
        "move_word_backward"
    }
}

#[derive(Debug, Clone)]
pub struct MoveBigWordForward;

impl Operation for MoveBigWordForward {
    open spec fn outcome(&self, before: ContextView, after: ContextView) -> bool {
        moved_to_start(before, after, word_next(before.text, search_from(word_at(before.text, head_of(before), SelectionMode::Inside, true), head_of(before)), SelectionMode::Inside, true))
    }

    fn execute(&self, ctx: &mut Context) -> (r: OperationResult) {
        move_by(ctx, &BigWordMatcher, true);
        OperationResult::Continue
    }

    fn name(&self) -> &'static str {
        "move_big_word_forward"
    }
}

#[derive(Debug, Clone)]
pub struct MoveBigWordBackward;

impl Operation for MoveBigWordBackward {
    open spec fn outcome(&self, before: ContextView, after: ContextView) -> bool {
        moved_to_start(before, after, word_prev(before.text, head_of(before), SelectionMode::Inside, true))
    }

    fn execute(&self, ctx: &mut Context) -> (r: OperationResult) {
        move_by(ctx, &BigWordMatcher, false);
        OperationResult::Continue
    }

    fn name(&self) -> &'static str {
        "move_big_word_backward"
    }
}

/// Jumps between the two brackets of a `()`, `[]` or `{}` pair when the
/// primary head is on one of them.
#[derive(Debug, Clone)]
pub struct MoveMatchingBracket;

impl Operation for MoveMatchingBracket {
    open spec fn outcome(&self, before: ContextView, after: ContextView) -> bool {
        after.text == before.text && after.history == before.history
    }

    fn execute(&self, ctx: &mut Context) -> (r: OperationResult) {
        let head = ctx.primary_head();
        let here = ctx.buffer().char_at(head);
        let pairs = [
            DelimiterMatcher::parentheses(),
            DelimiterMatcher::brackets(),
            DelimiterMatcher::braces(),
        ];
        let mut i: usize = 0;
        while i < 3
            invariant
                ctx.wf(),
                ctx@.text == old(ctx)@.text,
                ctx@.history == old(ctx)@.history,
                head <= ctx@.text.len(),
            decreases 3 - i,
        {
            let m = &pairs[i];
            if here == Some(m.open) {
                match m.find_at(ctx.buffer(), head, SelectionMode::Around) {
                    Some(r) => {
                        if r.start == head && r.end > 0 {
                            move_to(ctx, r.end - 1);
                            return OperationResult::Continue;
                        }
                    },
                    None => {},
                }
            } else if here == Some(m.close) && head > 0 {
                match m.find_at(ctx.buffer(), head - 1, SelectionMode::Around) {
                    Some(r) => {
                        if r.end > 0 && r.end - 1 == head {
                            move_to(ctx, r.start);
                            return OperationResult::Continue;
                        }
                    },
                    None => {},
                }
            }
            i = i + 1;
        }
        OperationResult::Continue
    }

    fn name(&self) -> &'static str {
        "move_matching_bracket"
    }
}

#[derive(Debug, Clone)]
pub struct MoveParagraphForward;

impl Operation for MoveParagraphForward {
    open spec fn outcome(&self, before: ContextView, after: ContextView) -> bool {
        moved_to_start(before, after, paragraph_next(before.text, search_from(paragraph_at(before.text, head_of(before)), head_of(before))))
    }

    fn execute(&self, ctx: &mut Context) -> (r: OperationResult) {
        move_by(ctx, &ParagraphMatcher, true);
        OperationResult::Continue
    }

    fn name(&self) -> &'static str {
        "move_paragraph_forward"
    }
}

#[derive(Debug, Clone)]
pub struct MoveParagraphBackward;

impl Operation for MoveParagraphBackward {
    open spec fn outcome(&self, before: ContextView, after: ContextView) -> bool {
        moved_to_start(before, after, paragraph_prev(before.text, head_of(before)))
    }

    fn execute(&self, ctx: &mut Context) -> (r: OperationResult) {
        move_by(ctx, &ParagraphMatcher, false);
        OperationResult::Continue
    }

    fn name(&self) -> &'static str {
        "move_paragraph_backward"
    }
}

#[derive(Debug, Clone)]
pub struct SelectLeft;

impl Operation for SelectLeft {
    open spec fn outcome(&self, before: ContextView, after: ContextView) -> bool {
        primary_set(before, after, before.selection.sels[before.selection.primary].anchor as int, prev_grapheme_spec(before.text, head_of(before)))
    }

    fn execute(&self, ctx: &mut Context) -> (r: OperationResult) {
        let head = ctx.primary_head();
        let new_head = ctx.buffer().prev_grapheme(head);
        extend_to(ctx, new_head);
        OperationResult::Continue
    }

    fn name(&self) -> &'static str {
        "select_left"
    }
}

#[derive(Debug, Clone)]
pub struct SelectRight;

impl Operation for SelectRight {
    open spec fn outcome(&self, before: ContextView, after: ContextView) -> bool {
        primary_set(before, after, before.selection.sels[before.selection.primary].anchor as int, next_grapheme_spec(before.text, head_of(before)))
    }

    fn execute(&self, ctx: &mut Context) -> (r: OperationResult) {
        let head = ctx.primary_head();
        let new_head = ctx.buffer().next_grapheme(head);
        extend_to(ctx, new_head);
        OperationResult::Continue
    }

    fn name(&self) -> &'static str {
        "select_right"
    }
}

/// Selects the word under the primary head with its trailing white space.
#[derive(Debug, Clone)]
pub struct SelectWord;

impl Operation for SelectWord {
    open spec fn outcome(&self, before: ContextView, after: ContextView) -> bool {
        match word_at(before.text, head_of(before), SelectionMode::Around, false) {
            Some((s, e)) => primary_set(before, after, s, e),
            None => after == before,
        }
    }

    fn execute(&self, ctx: &mut Context) -> (r: OperationResult) {
        let head = ctx.primary_head();
        match WordMatcher.find_at(ctx.buffer(), head, SelectionMode::Around) {
            Some(r) => {
                let len = ctx.buffer().len_chars();
                if r.start <= len && r.end <= len {
                    ctx.set_primary(r.start, r.end);
                }
            },
            None => {},
        }
        OperationResult::Continue
    }

    fn name(&self) -> &'static str {
        "select_word"
    }
}

} // verus!
