//! Undo and redo.
use vstd::prelude::*;

use crate::command::{caret_undone, run_all, undo_all};
use crate::editor::{CodeEditor, Editor};
use crate::message::{Action, Reply};

verus! {

impl Editor {
    /// There is something to undo.
    pub open spec fn can_undo(self) -> bool {
        self.history.ended().undo.len() > 0
    }

    /// There is something to redo.
    pub open spec fn can_redo(self) -> bool {
        self.history.redo.len() > 0
    }

    /// The latest entry of the history undone. The primary caret goes back with it.
    pub open spec fn undone(self) -> Editor {
        let e = self.grouping_ended();
        let past = e.history.ended();
        if past.undo.len() == 0 {
            Editor { history: past, ..e }
        } else {
            let edits = past.undo.last().edits;
            let caret = caret_undone(edits, e.cursors.primary_cursor().position);
            Editor {
                buffer: undo_all(edits, e.buffer),
                history: past.undone(),
                ..e
            }.caret_placed(caret).edit_finished()
        }
    }

    /// The entry that was undone last redone. The primary caret goes along with it.
    pub open spec fn redone(self) -> Editor {
        if self.history.redo.len() == 0 {
            self
        } else {
            let out = run_all(
                self.history.redo.last().edits,
                self.buffer,
                self.cursors.primary_cursor().position,
            );
            Editor {
                buffer: out.lines,
                history: self.history.redone(self.buffer),
                ..self
            }.caret_placed(out.caret).edit_finished()
        }
    }
}

/// Scrolls if something was done.
pub open spec fn scroll_if(done: bool) -> Reply {
    if done {
        Reply::ScrollToCursor
    } else {
        Reply::Nothing
    }
}

impl CodeEditor {
    /// Handles undo operations.
    pub fn handle_undo_msg(&mut self) -> (r: Action)
        requires
            old(self).wf(),
        ensures
            final(self)@ == old(self)@.undone(),
            final(self).wf(),
            r@ == scroll_if(old(self)@.can_undo()),
    {
        self.end_grouping_if_active();
        let mut cursor_pos = self.cursors.primary_position();
        if self.history.undo(&mut self.buffer, &mut cursor_pos) {
            self.place_caret(cursor_pos);
            self.finish_edit_operation();
            Action::ScrollToCursor
        } else {
            Action::Nothing
        }
    }

    /// Handles redo operations.
    pub fn handle_redo_msg(&mut self) -> (r: Action)
        requires
            old(self).wf(),
        ensures
            final(self)@ == old(self)@.redone(),
            final(self).wf(),
            r@ == scroll_if(old(self)@.can_redo()),
    {
        let mut cursor_pos = self.cursors.primary_position();
        if self.history.redo(&mut self.buffer, &mut cursor_pos) {
            self.place_caret(cursor_pos);
            self.finish_edit_operation();
            Action::ScrollToCursor
        } else {
            Action::Nothing
        }
    }
}

} // verus!
