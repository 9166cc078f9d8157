//! Moving the cursors with the keyboard.
use vstd::prelude::*;

use crate::command::line_length;
use crate::cursor_set::{Cursor, CursorSet, Cursors};
use crate::editor::{CodeEditor, Editor};
use crate::message::{Action, ArrowDirection, Reply};
use crate::position::Position;
use crate::text_buffer::TextBuffer;

verus! {

/// The smaller of a column and the length of a line.
pub open spec fn fitted(lines: Seq<Seq<char>>, line: int, col: usize) -> usize {
    if col <= line_length(lines, line) {
        col
    } else {
        line_length(lines, line) as usize
    }
}

/// Where an arrow key takes a caret. Left and right cross the ends of lines; up and down keep
/// the column as far as the line reaches. At the ends of the text it stays.
pub open spec fn arrow_target(
    lines: Seq<Seq<char>>,
    pos: Position,
    direction: ArrowDirection,
) -> Position {
    match direction {
        ArrowDirection::Left => if pos.1 > 0 {
            (pos.0, (pos.1 - 1) as usize)
        } else if pos.0 > 0 {
            ((pos.0 - 1) as usize, line_length(lines, pos.0 - 1) as usize)
        } else {
            pos
        },
        ArrowDirection::Right => if pos.1 < line_length(lines, pos.0 as int) {
            (pos.0, (pos.1 + 1) as usize)
        } else if pos.0 + 1 < lines.len() {
            ((pos.0 + 1) as usize, 0)
        } else {
            pos
        },
        ArrowDirection::Up => if pos.0 > 0 {
            ((pos.0 - 1) as usize, fitted(lines, pos.0 - 1, pos.1))
        } else {
            pos
        },
        ArrowDirection::Down => if pos.0 + 1 < lines.len() {
            ((pos.0 + 1) as usize, fitted(lines, pos.0 + 1, pos.1))
        } else {
            pos
        },
    }
}

/// Where a caret goes on another line: the given one, or the last one if there are fewer, in the
/// same column as far as the line reaches.
pub open spec fn line_target(lines: Seq<Seq<char>>, line: int, col: usize) -> Position {
    let target = if line < 0 {
        0
    } else if line >= lines.len() {
        lines.len() - 1
    } else {
        line
    };
    (target as usize, fitted(lines, target, col))
}

/// What moves the cursors.
pub enum Motion {
    Arrow(ArrowDirection),
    /// To the start of the line.
    LineStart,
    /// To the end of the line.
    LineEnd,
    /// A number of lines up.
    Up(usize),
    /// A number of lines down.
    Down(usize),
}

/// Where a motion takes a caret.
pub open spec fn target(lines: Seq<Seq<char>>, pos: Position, motion: Motion) -> Position {
    match motion {
        Motion::Arrow(direction) => arrow_target(lines, pos, direction),
        Motion::LineStart => (pos.0, 0),
        Motion::LineEnd => (pos.0, line_length(lines, pos.0 as int) as usize),
        Motion::Up(n) => line_target(lines, pos.0 - n, pos.1),
        Motion::Down(n) => line_target(lines, pos.0 + n, pos.1),
    }
}

impl Cursors {
    /// Every caret moved; the anchors stay.
    pub open spec fn each_moved(self, lines: Seq<Seq<char>>, motion: Motion) -> Cursors {
        Cursors {
            list: self.list.map_values(
                |c: Cursor|
                    Cursor { position: target(lines, c.position, motion), anchor: c.anchor },
            ),
            primary: self.primary,
        }
    }

    /// Every caret moved, with its selection extended or dropped.
    pub open spec fn navigated(
        self,
        lines: Seq<Seq<char>>,
        motion: Motion,
        extend: bool,
    ) -> Cursors {
        let c = if extend {
            self.anchored()
        } else {
            self.unanchored()
        };
        c.each_moved(lines, motion).sorted_merged()
    }
}

impl Editor {
    /// The cursors moved.
    pub open spec fn navigated(self, motion: Motion, extend: bool) -> Editor {
        Editor {
            cursors: self.cursors.navigated(self.buffer, motion, extend),
            ..self
        }.navigation_finished()
    }

    /// The cursors moved by a page; selections stay anchored where they are.
    pub open spec fn paged(self, motion: Motion) -> Editor {
        Editor {
            cursors: self.cursors.each_moved(self.buffer, motion).sorted_merged(),
            ..self
        }.navigation_finished()
    }

    /// A single caret at a position.
    pub open spec fn gone_to(self, position: Position) -> Editor {
        Editor { cursors: Cursors::single(position), ..self }.navigation_finished()
    }

    /// The end of the text.
    pub open spec fn text_end(self) -> Position {
        ((self.buffer.len() - 1) as usize, self.buffer.last().len() as usize)
    }
}

fn fit(buffer: &TextBuffer, line: usize, col: usize) -> (r: usize)
    ensures
        r == fitted(buffer@, line as int, col),
{
    let len = buffer.line_len(line);
    if col <= len {
        col
    } else {
        len
    }
}

fn find_target(buffer: &TextBuffer, pos: Position, motion: &Motion) -> (r: Position)
    requires
        buffer.wf(),
    ensures
        r == target(buffer@, pos, *motion),
{
    let count = buffer.line_count();
    let last = count - 1;
    match motion {
        Motion::Arrow(ArrowDirection::Left) => if pos.1 > 0 {
            (pos.0, pos.1 - 1)
        } else if pos.0 > 0 {
            (pos.0 - 1, buffer.line_len(pos.0 - 1))
        } else {
            pos
        },
        Motion::Arrow(ArrowDirection::Right) => if pos.1 < buffer.line_len(pos.0) {
            (pos.0, pos.1 + 1)
        } else if pos.0 < last {
            (pos.0 + 1, 0)
        } else {
            pos
        },
        Motion::Arrow(ArrowDirection::Up) => if pos.0 > 0 {
            (pos.0 - 1, fit(buffer, pos.0 - 1, pos.1))
        } else {
            pos
        },
        Motion::Arrow(ArrowDirection::Down) => if pos.0 < last {
            (pos.0 + 1, fit(buffer, pos.0 + 1, pos.1))
        } else {
            pos
        },
        Motion::LineStart => (pos.0, 0),
        Motion::LineEnd => (pos.0, buffer.line_len(pos.0)),
        Motion::Up(n) => {
            let line = pos.0.saturating_sub(*n);
            let line = if line > last {
                last
            } else {
                line
            };
            (line, fit(buffer, line, pos.1))
        },
        Motion::Down(n) => {
            let line = pos.0.saturating_add(*n);
            let line = if line > last {
                last
            } else {
                line
            };
            (line, fit(buffer, line, pos.1))
        },
    }
}

fn move_each(cursors: &mut CursorSet, buffer: &TextBuffer, motion: &Motion)
    requires
        buffer.wf(),
    ensures
        final(cursors)@ == old(cursors)@.each_moved(buffer@, *motion),
{
    let ghost start = cursors@;
    let ghost goal = start.each_moved(buffer@, *motion);
    let mut i: usize = 0;
    while i < cursors.len()
        invariant
            buffer.wf(),
            i <= cursors@.list.len(),
            cursors@.list.len() == start.list.len(),
            cursors@.primary == start.primary,
            goal == start.each_moved(buffer@, *motion),
            forall|k: int| i <= k < start.list.len() ==> cursors@.list[k] == start.list[k],
            forall|k: int| 0 <= k < i ==> #[trigger] cursors@.list[k] == goal.list[k],
        decreases cursors@.list.len() - i,
    {
        let c = cursors.get(i);
        let position = find_target(buffer, c.position, motion);
        cursors.set(i, Cursor { position, anchor: c.anchor });
        i += 1;
    }
    assert(cursors@ =~= goal);
}

impl CodeEditor {
    /// Moves all cursors in a direction.
    pub fn move_cursor(&mut self, direction: ArrowDirection)
        requires
            old(self).wf(),
        ensures
            final(self)@ == (Editor {
                cursors: old(self)@.cursors.each_moved(
                    old(self)@.buffer,
                    Motion::Arrow(direction),
                ).sorted_merged(),
                ..old(self)@
            }),
            final(self).wf(),
    {
        move_each(&mut self.cursors, &self.buffer, &Motion::Arrow(direction));
        self.cursors.sort_and_merge();
    }

    /// Handles arrow key navigation. With Shift the selections are extended, else dropped.
    pub fn handle_arrow_key(&mut self, direction: ArrowDirection, shift_pressed: bool) -> (r:
        Action)
        requires
            old(self).wf(),
        ensures
            final(self)@ == old(self)@.grouping_ended().navigated(
                Motion::Arrow(direction),
                shift_pressed,
            ),
            final(self).wf(),
            r@ == Reply::ScrollToCursor,
    {
        self.end_grouping_if_active();
        if shift_pressed {
            self.cursors.set_anchors();
            self.move_cursor(direction);
        } else {
            self.clear_selection();
            self.move_cursor(direction);
        }
        self.finish_navigation_operation();
        Action::ScrollToCursor
    }

    /// Handles Home key press: moves the cursors to the start of their lines.
    pub fn handle_home(&mut self, shift_pressed: bool) -> (r: Action)
        requires
            old(self).wf(),
        ensures
            final(self)@ == old(self)@.navigated(Motion::LineStart, shift_pressed),
            final(self).wf(),
            r@ == Reply::ScrollToCursor,
    {
        if shift_pressed {
            self.cursors.set_anchors();
        } else {
            self.clear_selection();
        }
        move_each(&mut self.cursors, &self.buffer, &Motion::LineStart);
        self.cursors.sort_and_merge();
        self.finish_navigation_operation();
        Action::ScrollToCursor
    }

    /// Handles End key press: moves the cursors to the end of their lines.
    pub fn handle_end(&mut self, shift_pressed: bool) -> (r: Action)
        requires
            old(self).wf(),
        ensures
            final(self)@ == old(self)@.navigated(Motion::LineEnd, shift_pressed),
            final(self).wf(),
            r@ == Reply::ScrollToCursor,
    {
        if shift_pressed {
            self.cursors.set_anchors();
        } else {
            self.clear_selection();
        }
        move_each(&mut self.cursors, &self.buffer, &Motion::LineEnd);
        self.cursors.sort_and_merge();
        self.finish_navigation_operation();
        Action::ScrollToCursor
    }

    /// Handles Ctrl+Home key press: a single cursor goes to the beginning of the document.
    pub fn handle_ctrl_home(&mut self) -> (r: Action)
        requires
            old(self).wf(),
        ensures
            final(self)@ == old(self)@.gone_to((0, 0)),
            final(self).wf(),
            r@ == Reply::ScrollToCursor,
    {
        self.clear_selection();
        self.cursors.set_single((0, 0));
        self.finish_navigation_operation();
        Action::ScrollToCursor
    }

    /// Handles Ctrl+End key press: a single cursor goes to the end of the document.
    pub fn handle_ctrl_end(&mut self) -> (r: Action)
        requires
            old(self).wf(),
        ensures
            final(self)@ == old(self)@.gone_to(old(self)@.text_end()),
            final(self).wf(),
            r@ == Reply::ScrollToCursor,
    {
        self.clear_selection();
        let last_line = self.buffer.line_count().saturating_sub(1);
        let last_col = self.buffer.line_len(last_line);
        self.cursors.set_single((last_line, last_col));
        self.finish_navigation_operation();
        Action::ScrollToCursor
    }

    /// Handles Page Up key press: moves the cursors up by one page.
    pub fn handle_page_up(&mut self) -> (r: Action)
        requires
            old(self).wf(),
        ensures
            final(self)@ == old(self)@.paged(Motion::Up(old(self)@.layout.page_lines)),
            final(self).wf(),
            r@ == Reply::ScrollToCursor,
    {
        let motion = Motion::Up(self.layout.page_lines);
        move_each(&mut self.cursors, &self.buffer, &motion);
        self.cursors.sort_and_merge();
        self.finish_navigation_operation();
        Action::ScrollToCursor
    }

    /// Handles Page Down key press: moves the cursors down by one page.
    pub fn handle_page_down(&mut self) -> (r: Action)
        requires
            old(self).wf(),
        ensures
            final(self)@ == old(self)@.paged(Motion::Down(old(self)@.layout.page_lines)),
            final(self).wf(),
            r@ == Reply::ScrollToCursor,
    {
        let motion = Motion::Down(self.layout.page_lines);
        move_each(&mut self.cursors, &self.buffer, &motion);
        self.cursors.sort_and_merge();
        self.finish_navigation_operation();
        Action::ScrollToCursor
    }

    /// Puts a single cursor at a line and a column, or as near to them as the text reaches.
    pub fn set_cursor(&mut self, line: usize, col: usize) -> (r: Action)
        requires
            old(self).wf(),
        ensures
            final(self)@ == old(self)@.gone_to(line_target(old(self)@.buffer, line as int, col)),
            final(self).wf(),
            r@ == Reply::ScrollToCursor,
    {
        let last = self.buffer.line_count() - 1;
        let target = if line > last {
            last
        } else {
            line
        };
        let column = fit(&self.buffer, target, col);
        self.cursors.set_single((target, column));
        self.finish_navigation_operation();
        Action::ScrollToCursor
    }

    /// Handles direct navigation to an explicit logical position.
    pub fn handle_goto_position(&mut self, line: usize, col: usize) -> (r: Action)
        requires
            old(self).wf(),
        ensures
            final(self)@ == old(self)@.grouping_ended().gone_to(
                line_target(old(self)@.buffer, line as int, col),
            ),
            final(self).wf(),
            r@ == Reply::ScrollToCursor,
    {
        self.end_grouping_if_active();
        self.set_cursor(line, col)
    }
}

} // verus!
