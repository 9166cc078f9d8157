//! Backspace, Delete, and deleting what is selected.
use vstd::prelude::*;

use crate::command::CompositeCommand;
use crate::editor::{CodeEditor, Editor};
use crate::message::{Action, Reply};
use crate::multi_edit::{cut_everywhere, delete_everywhere, erase_everywhere};

verus! {

impl Editor {
    /// The selections of all cursors deleted, as one entry of the history.
    pub open spec fn cut(self) -> Editor {
        self.with_group(self.batch().cut(self.descending()), "Delete selection"@)
    }

    /// The selections of all cursors deleted, if there are any.
    pub open spec fn cut_if_selected(self) -> Editor {
        if self.cursors.any_selected() {
            self.cut().edit_finished()
        } else {
            self
        }
    }

    /// Backspace pressed.
    pub open spec fn erased(self) -> Editor {
        let e = self.grouping_ended();
        if e.cursors.any_selected() {
            e.cut_if_selected()
        } else {
            e.with_batch(e.batch().erased(e.descending())).edit_finished()
        }
    }

    /// Delete pressed.
    pub open spec fn deleted(self) -> Editor {
        let e = self.grouping_ended();
        if e.cursors.any_selected() {
            e.cut_if_selected()
        } else {
            e.with_batch(e.batch().deleted(e.descending())).edit_finished()
        }
    }

    /// What deleting a selection asks for.
    pub open spec fn cut_reply(self) -> Reply {
        if self.cursors.any_selected() {
            Reply::ScrollToCursor
        } else {
            Reply::Nothing
        }
    }
}

impl CodeEditor {
    /// Deletes the selection of every cursor.
    pub fn delete_selection(&mut self)
        requires
            old(self).wf(),
        ensures
            final(self)@ == old(self)@.cut(),
            final(self).wf(),
    {
        let mut composite = CompositeCommand::new("Delete selection".to_owned());
        cut_everywhere(&mut self.buffer, &mut self.cursors, &mut composite);
        if !composite.is_empty() {
            self.history.push_composite(composite);
        }
    }

    /// Deletes all active selections across every cursor and performs cleanup. Returns `true`
    /// if at least one selection was deleted, `false` if no cursor had a selection.
    pub fn delete_selection_if_present(&mut self) -> (r: bool)
        requires
            old(self).wf(),
        ensures
            r == old(self)@.cursors.any_selected(),
            final(self)@ == old(self)@.cut_if_selected(),
            final(self).wf(),
    {
        if self.cursors.any_selection() {
            self.delete_selection();
            self.finish_edit_operation();
            true
        } else {
            false
        }
    }

    /// Handles Backspace key press. If there is a selection, deletes the selection. Otherwise,
    /// deletes the character before every cursor.
    pub fn handle_backspace(&mut self) -> (r: Action)
        requires
            old(self).wf(),
        ensures
            final(self)@ == old(self)@.erased(),
            final(self).wf(),
            r@ == Reply::ScrollToCursor,
    {
        self.end_grouping_if_active();
        if self.delete_selection_if_present() {
            return Action::ScrollToCursor;
        }
        erase_everywhere(&mut self.buffer, &mut self.cursors, &mut self.history);
        self.finish_edit_operation();
        Action::ScrollToCursor
    }

    /// Handles Delete key press. If there is a selection, deletes the selection. Otherwise,
    /// deletes the character after every cursor.
    pub fn handle_delete(&mut self) -> (r: Action)
        requires
            old(self).wf(),
        ensures
            final(self)@ == old(self)@.deleted(),
            final(self).wf(),
            r@ == old(self)@.cut_reply(),
    {
        self.end_grouping_if_active();
        if self.delete_selection_if_present() {
            return Action::ScrollToCursor;
        }
        delete_everywhere(&mut self.buffer, &mut self.cursors, &mut self.history);
        self.finish_edit_operation();
        Action::Nothing
    }

    /// Handles explicit selection deletion (Shift+Delete): deletes the selected text if a
    /// selection exists.
    pub fn handle_delete_selection(&mut self) -> (r: Action)
        requires
            old(self).wf(),
        ensures
            final(self)@ == old(self)@.grouping_ended().cut_if_selected(),
            final(self).wf(),
            r@ == old(self)@.cut_reply(),
    {
        self.end_grouping_if_active();
        if self.cursors.any_selection() {
            self.delete_selection();
            self.finish_edit_operation();
            Action::ScrollToCursor
        } else {
            Action::Nothing
        }
    }
}

} // verus!
