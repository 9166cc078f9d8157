//! Laws of moving with the keyboard: where every key takes every cursor, and what becomes of its
//! selection.
use vstd::prelude::*;

use crate::caret_laws::{lemma_line_offset, lemma_offset_order, offset};
use crate::cursor_laws::{all_apart, gathers, law_cursors_apart_stay, law_merging_gathers};
use crate::cursor_set::{Cursor, Cursors};
use crate::editor::Editor;
use crate::message::{ArrowDirection, Message};
use crate::navigation::{target, Motion};
use crate::navigation_laws::lemma_navigation_cursors;
use crate::position::Position;
use crate::search_laws::countable;
use crate::text_buffer::{spot, valid};

verus! {

/// A caret that left column `col` for the line of `to` keeps its column, or stands at the end of
/// the line if the line is shorter.
pub open spec fn keeps_column(lines: Seq<Seq<char>>, col: usize, to: Position) -> bool {
    &&& to.0 < lines.len()
    &&& to.1 <= lines[to.0 as int].len()
    &&& to.1 == col || (to.1 < col && to.1 == lines[to.0 as int].len())
}

/// A key that moves the cursors takes a caret from one place of the text to another. Left and
/// right are one character away, a line break being one; up and down are one line away, pages as
/// many lines as a page has. At an end of the text there is no further to go.
pub open spec fn moves(e: Editor, m: Message, from: Position, to: Position) -> bool {
    let lines = e.buffer;
    let last = lines.len() - 1;
    match m {
        Message::ArrowKey(ArrowDirection::Left, _) => valid(lines, spot(to)) && offset(
            lines,
            spot(to),
        ) == (if offset(lines, spot(from)) > 0 {
            offset(lines, spot(from)) - 1
        } else {
            0
        }),
        Message::ArrowKey(ArrowDirection::Right, _) => valid(lines, spot(to)) && offset(
            lines,
            spot(to),
        ) == (if spot(from) == (last, lines[last].len() as int) {
            offset(lines, spot(from))
        } else {
            offset(lines, spot(from)) + 1
        }),
        Message::ArrowKey(ArrowDirection::Up, _) => if from.0 == 0 {
            to == from
        } else {
            to.0 == from.0 - 1 && keeps_column(lines, from.1, to)
        },
        Message::ArrowKey(ArrowDirection::Down, _) => if from.0 == last {
            to == from
        } else {
            to.0 == from.0 + 1 && keeps_column(lines, from.1, to)
        },
        Message::Home(_) => to == (from.0, 0usize),
        Message::End(_) => spot(to) == (from.0 as int, lines[from.0 as int].len() as int),
        Message::PageUp => {
            &&& keeps_column(lines, from.1, to)
            &&& to.0 == from.0 - e.layout.page_lines || (to.0 == 0 && from.0
                < e.layout.page_lines)
        },
        Message::PageDown => {
            &&& keeps_column(lines, from.1, to)
            &&& to.0 == from.0 + e.layout.page_lines || (to.0 == last && from.0
                + e.layout.page_lines > last)
        },
        _ => false,
    }
}

/// What becomes of the fixed end of a selection: Shift keeps it, or makes one where the caret
/// stood; without Shift it is dropped, but for pages, which leave it alone.
pub open spec fn anchor_after(m: Message, c: Cursor) -> Option<Position> {
    let extend = match m {
        Message::ArrowKey(_, shift) => shift,
        Message::Home(shift) => shift,
        Message::End(shift) => shift,
        _ => false,
    };
    if m is PageUp || m is PageDown {
        c.anchor
    } else if !extend {
        None
    } else {
        match c.anchor {
            Some(a) => Some(a),
            None => Some(c.position),
        }
    }
}

/// The motion of a key.
spec fn motion_of(e: Editor, m: Message) -> Motion {
    match m {
        Message::ArrowKey(direction, _) => Motion::Arrow(direction),
        Message::Home(_) => Motion::LineStart,
        Message::End(_) => Motion::LineEnd,
        Message::PageUp => Motion::Up(e.layout.page_lines),
        _ => Motion::Down(e.layout.page_lines),
    }
}

/// The cursors before they are merged.
spec fn moved_by(e: Editor, m: Message) -> Cursors {
    let c = e.cursors;
    let d = match m {
        Message::ArrowKey(_, shift) => if shift {
            c.anchored()
        } else {
            c.unanchored()
        },
        Message::Home(shift) => if shift {
            c.anchored()
        } else {
            c.unanchored()
        },
        Message::End(shift) => if shift {
            c.anchored()
        } else {
            c.unanchored()
        },
        _ => c,
    };
    d.each_moved(e.buffer, motion_of(e, m))
}

/// Where a key takes a caret is the only place where it can take it.
proof fn lemma_moves(e: Editor, m: Message, from: Position, to: Position)
    requires
        e.buffer.len() > 0,
        countable(e.buffer),
        valid(e.buffer, spot(from)),
        moves(e, m, from, to),
    ensures
        to == target(e.buffer, from, motion_of(e, m)),
{
    let lines = e.buffer;
    let last = lines.len() - 1;
    let goal = target(lines, from, motion_of(e, m));
    assert(lines[from.0 as int].len() <= usize::MAX);
    assert(lines[last].len() <= usize::MAX);
    match m {
        Message::ArrowKey(ArrowDirection::Left, _) => {
            if from.0 > 0 {
                assert(lines[from.0 - 1].len() <= usize::MAX);
                lemma_line_offset(lines, from.0 as int, from.0 as int);
            }
            lemma_same_place(lines, goal, to);
        },
        Message::ArrowKey(ArrowDirection::Right, _) => {
            if from.1 == lines[from.0 as int].len() && from.0 < last {
                let next: Position = ((from.0 + 1) as usize, 0);
                assert(goal == next);
            }
            lemma_same_place(lines, goal, to);
        },
        Message::ArrowKey(ArrowDirection::Up, _) => {
            if from.0 > 0 {
                assert(lines[from.0 - 1].len() <= usize::MAX);
            }
        },
        Message::ArrowKey(ArrowDirection::Down, _) => {
            if from.0 < last {
                assert(lines[from.0 + 1].len() <= usize::MAX);
            }
        },
        Message::PageUp => {
            assert(lines[to.0 as int].len() <= usize::MAX);
        },
        Message::PageDown => {
            assert(lines[to.0 as int].len() <= usize::MAX);
        },
        _ => {},
    }
}

/// Places with the same offset are the same.
proof fn lemma_same_place(lines: Seq<Seq<char>>, a: Position, b: Position)
    requires
        valid(lines, spot(a)),
        valid(lines, spot(b)),
        offset(lines, spot(a)) == offset(lines, spot(b)),
    ensures
        a == b,
{
    lemma_offset_order(lines, spot(a), spot(b));
    lemma_offset_order(lines, spot(b), spot(a));
}

/// The cursors where a key takes them.
proof fn lemma_next_cursors(e: Editor, m: Message, next: Seq<Cursor>)
    requires
        e.wf(),
        countable(e.buffer),
        e.cursors.list.len() <= usize::MAX,
        forall|i: int|
            0 <= i < e.cursors.list.len() ==> valid(
                e.buffer,
                spot((#[trigger] e.cursors.list[i]).position),
            ),
        next.len() == e.cursors.list.len(),
        forall|i: int|
            0 <= i < next.len() ==> moves(
                e,
                m,
                e.cursors.list[i].position,
                (#[trigger] next[i]).position,
            ) && next[i].anchor == anchor_after(m, e.cursors.list[i]),
    ensures
        e.step(m).cursors == (Cursors { list: next, primary: e.cursors.primary }).sorted_merged(),
{
    let list = e.cursors.list;
    let c = moved_by(e, m);
    assert(moves(e, m, list[0].position, next[0].position));
    lemma_navigation_cursors(e, m);
    assert(e.step(m).cursors == c.sorted_merged());
    assert forall|i: int| 0 <= i < next.len() implies #[trigger] next[i] == c.list[i] by {
        assert(valid(e.buffer, spot(list[i].position)));
        lemma_moves(e, m, list[i].position, next[i].position);
    }
    assert(next =~= c.list);
}

/// Every key that moves the cursors moves every one of them, and does to every selection what it
/// should. If `next` lists where the key takes the cursors, and they do not run into each other
/// there, `next` is what the editor has. A single cursor has nothing to run into.
pub proof fn law_keys_move_every_cursor(e: Editor, m: Message, next: Seq<Cursor>)
    requires
        e.wf(),
        countable(e.buffer),
        e.cursors.list.len() <= usize::MAX,
        forall|i: int|
            0 <= i < e.cursors.list.len() ==> valid(
                e.buffer,
                spot((#[trigger] e.cursors.list[i]).position),
            ),
        next.len() == e.cursors.list.len(),
        forall|i: int|
            0 <= i < next.len() ==> moves(
                e,
                m,
                e.cursors.list[i].position,
                (#[trigger] next[i]).position,
            ) && next[i].anchor == anchor_after(m, e.cursors.list[i]),
        all_apart(next),
    ensures
        e.step(m).cursors.list == next,
        e.step(m).cursors.primary == e.cursors.primary,
{
    let c = Cursors { list: next, primary: e.cursors.primary };
    lemma_next_cursors(e, m, next);
    let order = Seq::new(next.len(), |i: int| i as usize);
    law_cursors_apart_stay(c, next, order);
}

/// Cursors that run into each other where a key takes them are one: the cursors that are left
/// are in document order and apart, each of those in `next` lies in one of them, none reaches
/// further than those in `next`, and the primary one still is the primary one.
pub proof fn law_keys_lose_no_cursor(e: Editor, m: Message, next: Seq<Cursor>)
    requires
        e.wf(),
        countable(e.buffer),
        e.cursors.list.len() <= usize::MAX,
        forall|i: int|
            0 <= i < e.cursors.list.len() ==> valid(
                e.buffer,
                spot((#[trigger] e.cursors.list[i]).position),
            ),
        next.len() == e.cursors.list.len(),
        forall|i: int|
            0 <= i < next.len() ==> moves(
                e,
                m,
                e.cursors.list[i].position,
                (#[trigger] next[i]).position,
            ) && next[i].anchor == anchor_after(m, e.cursors.list[i]),
    ensures
        gathers(e.step(m).cursors, (Cursors { list: next, primary: e.cursors.primary })),
{
    lemma_next_cursors(e, m, next);
    law_merging_gathers(Cursors { list: next, primary: e.cursors.primary });
}

/// There always is a place where a key takes a caret, so that the law above speaks of every
/// caret of the text.
pub proof fn law_every_key_leads_somewhere(e: Editor, m: Message, from: Position) -> (to: Position)
    requires
        e.buffer.len() > 0,
        countable(e.buffer),
        valid(e.buffer, spot(from)),
        m is ArrowKey || m is Home || m is End || m is PageUp || m is PageDown,
    ensures
        moves(e, m, from, to),
        valid(e.buffer, spot(to)),
{
    let lines = e.buffer;
    let last = lines.len() - 1;
    let goal = target(lines, from, motion_of(e, m));
    assert(lines[from.0 as int].len() <= usize::MAX);
    assert(lines[last].len() <= usize::MAX);
    lemma_line_offset(lines, from.0 as int, from.0 as int);
    assert(lines[goal.0 as int].len() <= usize::MAX);
    match m {
        Message::ArrowKey(ArrowDirection::Left, _) => {
            if from.0 > 0 {
                assert(lines[from.0 - 1].len() <= usize::MAX);
                lemma_line_offset(lines, from.0 - 1, from.0 as int);
            }
        },
        _ => {},
    }
    goal
}

/// Ctrl+Home and Ctrl+End leave a single bare caret at the start and at the end of the text, and
/// going to a position leaves one there: on the line that was asked for, or on the last one if
/// there are fewer, in the column that was asked for, or at the end of the line if it is shorter.
pub proof fn law_jumps_lead_where_they_say(e: Editor, line: usize, col: usize)
    requires
        e.buffer.len() > 0,
        countable(e.buffer),
    ensures
        ({
            let f = e.step(Message::CtrlHome);
            f.cursors.list == seq![Cursor { position: (0, 0), anchor: None }] && f.cursors.primary
                == 0
        }),
        ({
            let f = e.step(Message::CtrlEnd);
            let c = f.cursors.list[0];
            &&& f.cursors.list.len() == 1
            &&& f.cursors.primary == 0
            &&& c.anchor is None
            &&& c.position.0 + 1 == e.buffer.len()
            &&& c.position.1 == e.buffer[e.buffer.len() - 1].len()
        }),
        ({
            let f = e.step(Message::GotoPosition(line, col));
            let c = f.cursors.list[0];
            &&& f.cursors.list.len() == 1
            &&& f.cursors.primary == 0
            &&& c.anchor is None
            &&& c.position.0 == line || (line >= e.buffer.len() && c.position.0 + 1
                == e.buffer.len())
            &&& keeps_column(e.buffer, col, c.position)
        }),
{
    lemma_navigation_cursors(e, Message::CtrlHome);
    lemma_navigation_cursors(e, Message::CtrlEnd);
    lemma_navigation_cursors(e, Message::GotoPosition(line, col));
    let l = if line >= e.buffer.len() {
        e.buffer.len() - 1
    } else {
        line as int
    };
    assert(e.buffer[l].len() <= usize::MAX);
    assert(e.buffer[e.buffer.len() - 1].len() <= usize::MAX);
}

} // verus!
