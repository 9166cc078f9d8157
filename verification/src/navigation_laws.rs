//! Laws of moving: cursors stay in the text, Shift extends selections, and motions take each other
//! back.
use vstd::prelude::*;

use crate::cursor_laws::{law_a_single_cursor_stays, law_merging_invents_no_extent};
use crate::cursor_set::{Cursor, Cursors};
use crate::editor::Editor;
use crate::message::{ArrowDirection, Message};
use crate::navigation::{arrow_target, line_target, target, Motion};
use crate::position::Position;
use crate::search_laws::countable;
use crate::selection_laws::all_in_text;
use crate::text_buffer::{spot, valid};

verus! {

/// Every motion takes a caret of the text to a place of the text.
pub proof fn law_motions_stay_in_the_text(lines: Seq<Seq<char>>, pos: Position, motion: Motion)
    requires
        countable(lines),
        valid(lines, spot(pos)),
    ensures
        valid(lines, spot(target(lines, pos, motion))),
{
    assert(lines[pos.0 as int].len() <= usize::MAX);
    if pos.0 > 0 {
        assert(lines[pos.0 - 1].len() <= usize::MAX);
    }
    if pos.0 + 1 < lines.len() {
        assert(lines[pos.0 + 1].len() <= usize::MAX);
    }
}

/// Going to a line and a column leads into the text, wherever they are.
pub proof fn law_every_position_leads_into_the_text(
    lines: Seq<Seq<char>>,
    line: usize,
    col: usize,
)
    requires
        countable(lines),
        lines.len() > 0,
    ensures
        valid(lines, spot(line_target(lines, line as int, col))),
{
    let l = if line >= lines.len() {
        lines.len() - 1
    } else {
        line as int
    };
    assert(lines[l].len() <= usize::MAX);
}

/// An end of a cursor is its caret or its anchor.
proof fn lemma_ends(lines: Seq<Seq<char>>, c: Cursor)
    ensures
        (valid(lines, spot(c.lo())) && valid(lines, spot(c.hi()))) == (valid(
            lines,
            spot(c.position),
        ) && (c.anchor matches Some(a) ==> valid(lines, spot(a)))),
{
}

proof fn lemma_merged_in_text(lines: Seq<Seq<char>>, c: Cursors)
    requires
        c.list.len() <= usize::MAX,
        all_in_text(lines, c.list),
    ensures
        all_in_text(lines, c.sorted_merged().list),
{
    let m = c.sorted_merged();
    assert forall|k: int| 0 <= k < m.list.len() implies valid(
        lines,
        spot((#[trigger] m.list[k]).lo()),
    ) && valid(lines, spot(m.list[k].hi())) by {
        law_merging_invents_no_extent(c, k);
        let i = choose|i: int|
            0 <= i < c.list.len() && (#[trigger] c.list[i]).lo() == m.list[k].lo();
        let j = choose|j: int|
            0 <= j < c.list.len() && (#[trigger] c.list[j]).hi() == m.list[k].hi();
        assert(valid(lines, spot(c.list[i].lo())));
        assert(valid(lines, spot(c.list[j].hi())));
    }
}

proof fn lemma_moved_in_text(lines: Seq<Seq<char>>, c: Cursors, motion: Motion)
    requires
        countable(lines),
        all_in_text(lines, c.list),
    ensures
        all_in_text(lines, c.each_moved(lines, motion).list),
{
    let m = c.each_moved(lines, motion);
    assert forall|k: int| 0 <= k < m.list.len() implies valid(
        lines,
        spot((#[trigger] m.list[k]).lo()),
    ) && valid(lines, spot(m.list[k].hi())) by {
        let old_cursor = c.list[k];
        assert(valid(lines, spot(old_cursor.lo())));
        lemma_ends(lines, old_cursor);
        law_motions_stay_in_the_text(lines, old_cursor.position, motion);
        lemma_ends(lines, m.list[k]);
    }
}

proof fn lemma_anchors_in_text(lines: Seq<Seq<char>>, c: Cursors)
    requires
        all_in_text(lines, c.list),
    ensures
        all_in_text(lines, c.anchored().list),
        all_in_text(lines, c.unanchored().list),
{
    assert forall|k: int| 0 <= k < c.list.len() implies valid(
        lines,
        spot((#[trigger] c.anchored().list[k]).lo()),
    ) && valid(lines, spot(c.anchored().list[k].hi())) by {
        lemma_ends(lines, c.list[k]);
    }
    assert forall|k: int| 0 <= k < c.list.len() implies valid(
        lines,
        spot((#[trigger] c.unanchored().list[k]).lo()),
    ) && valid(lines, spot(c.unanchored().list[k].hi())) by {
        lemma_ends(lines, c.list[k]);
    }
}

proof fn lemma_navigated_in_text(e: Editor, motion: Motion)
    requires
        countable(e.buffer),
        all_in_text(e.buffer, e.cursors.list),
        e.cursors.list.len() <= usize::MAX,
    ensures
        all_in_text(e.buffer, e.cursors.navigated(e.buffer, motion, true).list),
        all_in_text(e.buffer, e.cursors.navigated(e.buffer, motion, false).list),
        all_in_text(e.buffer, e.cursors.each_moved(e.buffer, motion).sorted_merged().list),
{
    let lines = e.buffer;
    lemma_anchors_in_text(lines, e.cursors);
    lemma_moved_in_text(lines, e.cursors.anchored(), motion);
    lemma_moved_in_text(lines, e.cursors.unanchored(), motion);
    lemma_moved_in_text(lines, e.cursors, motion);
    lemma_merged_in_text(lines, e.cursors.anchored().each_moved(lines, motion));
    lemma_merged_in_text(lines, e.cursors.unanchored().each_moved(lines, motion));
    lemma_merged_in_text(lines, e.cursors.each_moved(lines, motion));
}

/// What the messages that move the cursors make of them.
pub(crate) proof fn lemma_navigation_cursors(e: Editor, m: Message)
    ensures
        m matches Message::ArrowKey(direction, shift) ==> e.step(m).cursors
            == e.cursors.navigated(e.buffer, Motion::Arrow(direction), shift),
        m matches Message::Home(shift) ==> e.step(m).cursors == e.cursors.navigated(
            e.buffer,
            Motion::LineStart,
            shift,
        ),
        m matches Message::End(shift) ==> e.step(m).cursors == e.cursors.navigated(
            e.buffer,
            Motion::LineEnd,
            shift,
        ),
        m is PageUp ==> e.step(m).cursors == e.cursors.each_moved(
            e.buffer,
            Motion::Up(e.layout.page_lines),
        ).sorted_merged(),
        m is PageDown ==> e.step(m).cursors == e.cursors.each_moved(
            e.buffer,
            Motion::Down(e.layout.page_lines),
        ).sorted_merged(),
        m is CtrlHome ==> e.step(m).cursors == Cursors::single((0, 0)),
        m is CtrlEnd ==> e.step(m).cursors == Cursors::single(e.text_end()),
        m matches Message::GotoPosition(line, col) ==> e.step(m).cursors == Cursors::single(
            line_target(e.buffer, line as int, col),
        ),
{
    reveal(Editor::navigation_step);
}

/// Moving cursors that are in the text keeps them in the text.
pub proof fn law_moving_keeps_cursors_in_the_text(e: Editor, m: Message)
    requires
        m.navigates(),
        e.buffer.len() > 0,
        countable(e.buffer),
        all_in_text(e.buffer, e.cursors.list),
        e.cursors.list.len() <= usize::MAX,
    ensures
        all_in_text(e.buffer, e.step(m).cursors.list),
{
    lemma_navigation_cursors(e, m);
    match m {
        Message::ArrowKey(direction, shift) => lemma_navigated_in_text(
            e,
            Motion::Arrow(direction),
        ),
        Message::Home(shift) => lemma_navigated_in_text(e, Motion::LineStart),
        Message::End(shift) => lemma_navigated_in_text(e, Motion::LineEnd),
        Message::PageUp => lemma_navigated_in_text(e, Motion::Up(e.layout.page_lines)),
        Message::PageDown => lemma_navigated_in_text(e, Motion::Down(e.layout.page_lines)),
        Message::GotoPosition(line, col) => law_every_position_leads_into_the_text(
            e.buffer,
            line,
            col,
        ),
        Message::CtrlEnd => {
            assert(e.buffer[e.buffer.len() - 1].len() <= usize::MAX);
        },
        _ => {},
    }
}

/// With Shift, an arrow key, Home or End moves a single caret and keeps the other end of its
/// selection, which starts where the caret stood; without Shift the selection is dropped.
pub proof fn law_shift_extends_the_selection(e: Editor, direction: ArrowDirection, shift: bool)
    requires
        e.cursors.list.len() == 1,
        e.cursors.primary == 0,
    ensures
        ({
            let c = e.cursors.list[0];
            let anchor = if shift {
                c.anchored().anchor
            } else {
                None
            };
            &&& e.step(Message::ArrowKey(direction, shift)).cursors.list == seq![
                Cursor { position: arrow_target(e.buffer, c.position, direction), anchor },
            ]
            &&& e.step(Message::Home(shift)).cursors.list == seq![
                Cursor { position: (c.position.0, 0), anchor },
            ]
            &&& e.step(Message::End(shift)).cursors.list == seq![
                Cursor { position: target(e.buffer, c.position, Motion::LineEnd), anchor },
            ]
        }),
{
    lemma_navigation_cursors(e, Message::ArrowKey(direction, shift));
    lemma_navigation_cursors(e, Message::Home(shift));
    lemma_navigation_cursors(e, Message::End(shift));
    lemma_single_navigated(e, Motion::Arrow(direction), shift);
    lemma_single_navigated(e, Motion::LineStart, shift);
    lemma_single_navigated(e, Motion::LineEnd, shift);
}

proof fn lemma_single_navigated(e: Editor, motion: Motion, shift: bool)
    requires
        e.cursors.list.len() == 1,
        e.cursors.primary == 0,
    ensures
        e.cursors.navigated(e.buffer, motion, shift).list == seq![
            Cursor {
                position: target(e.buffer, e.cursors.list[0].position, motion),
                anchor: if shift {
                    e.cursors.list[0].anchored().anchor
                } else {
                    None
                },
            },
        ],
{
    let c = if shift {
        e.cursors.anchored()
    } else {
        e.cursors.unanchored()
    };
    let moved = c.each_moved(e.buffer, motion);
    law_a_single_cursor_stays(moved);
    assert(moved.list =~= seq![
        Cursor {
            position: target(e.buffer, e.cursors.list[0].position, motion),
            anchor: if shift {
                e.cursors.list[0].anchored().anchor
            } else {
                None
            },
        },
    ]);
}

/// Left and Right take each other back, but at the ends of the text.
pub proof fn law_left_and_right_take_each_other_back(lines: Seq<Seq<char>>, pos: Position)
    requires
        countable(lines),
        valid(lines, spot(pos)),
    ensures
        pos != (0usize, 0usize) ==> arrow_target(
            lines,
            arrow_target(lines, pos, ArrowDirection::Left),
            ArrowDirection::Right,
        ) == pos,
        spot(pos) != (lines.len() - 1, lines.last().len() as int) ==> arrow_target(
            lines,
            arrow_target(lines, pos, ArrowDirection::Right),
            ArrowDirection::Left,
        ) == pos,
{
    assert(lines[pos.0 as int].len() <= usize::MAX);
    if pos.0 > 0 {
        assert(lines[pos.0 - 1].len() <= usize::MAX);
    }
}

} // verus!
