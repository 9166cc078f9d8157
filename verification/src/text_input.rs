//! Typing, Tab and Enter.
use vstd::prelude::*;

use crate::chars::alphanumeric;
use crate::editor::{CodeEditor, Editor, FocusState, LspOutbox};
use crate::message::{Action, Reply};
use crate::multi_edit::{break_everywhere, tab_everywhere, type_everywhere};

verus! {

/// After these characters completions are asked for: those of identifiers, and the dot.
pub open spec fn asks_for_completion(ch: char) -> bool {
    alphanumeric(ch) || ch == '_' || ch == '.'
}

impl Editor {
    /// A character typed at every cursor.
    pub open spec fn typed(self, ch: char) -> Editor {
        if !self.focused() {
            self
        } else {
            let e = self.grouping_started("Typing"@);
            let f = e.with_batch(e.batch().typed(e.descending(), ch)).edit_finished();
            if asks_for_completion(ch) {
                Editor { lsp: LspOutbox { flush: true, completion: true, ..f.lsp }, ..f }
            } else {
                f
            }
        }
    }

    /// What typing asks for.
    pub open spec fn typed_reply(self) -> Reply {
        if self.focused() {
            Reply::ScrollToCursor
        } else {
            Reply::Nothing
        }
    }

    /// Tab pressed.
    pub open spec fn tabbed(self) -> Editor {
        let e = self.grouping_started("Tab"@);
        e.with_batch(e.batch().tabbed(e.descending(), e.indenting.style)).edit_finished()
    }

    /// Enter pressed.
    pub open spec fn broken(self) -> Editor {
        let e = self.grouping_ended();
        let indent = e.indenting.auto_indent_enabled;
        e.with_batch(e.batch().broken(e.descending(), indent)).edit_finished()
    }

    /// Tab or Shift+Tab pressed to leave the editor; an open search dialog keeps the focus.
    pub open spec fn left(self) -> Editor {
        if self.search.is_open {
            self
        } else {
            Editor {
                focus: FocusState { has_canvas_focus: false, show_cursor: false, ..self.focus },
                ..self
            }
        }
    }
}

impl CodeEditor {
    /// Handles character input: inserts a character at every cursor, at the start of its
    /// selection if it has one. Characters are grouped together for undo. Only processes input
    /// when the editor has active focus and is not locked.
    pub fn handle_character_input_msg(&mut self, ch: char) -> (r: Action)
        requires
            old(self).wf(),
        ensures
            final(self)@ == old(self)@.typed(ch),
            final(self).wf(),
            r@ == old(self)@.typed_reply(),
    {
        if !self.has_focus() {
            return Action::Nothing;
        }
        self.ensure_grouping_started("Typing");
        type_everywhere(&mut self.buffer, &mut self.cursors, &mut self.history, ch);
        self.finish_edit_operation();
        if ch.is_alphanumeric() || ch == '_' || ch == '.' {
            self.lsp_flush_pending_changes();
            self.lsp_request_completion();
        }
        Action::ScrollToCursor
    }

    /// Asks for pending changes to be sent to a language server at once.
    pub fn lsp_flush_pending_changes(&mut self)
        ensures
            final(self)@ == (Editor {
                lsp: LspOutbox { flush: true, ..old(self)@.lsp },
                ..old(self)@
            }),
    {
        self.lsp.flush = true;
    }

    /// Asks for completions.
    pub fn lsp_request_completion(&mut self)
        ensures
            final(self)@ == (Editor {
                lsp: LspOutbox { completion: true, ..old(self)@.lsp },
                ..old(self)@
            }),
    {
        self.lsp.completion = true;
    }

    /// Handles Tab key press: inserts spaces or a tab at every cursor.
    pub fn handle_tab(&mut self) -> (r: Action)
        requires
            old(self).wf(),
        ensures
            final(self)@ == old(self)@.tabbed(),
            final(self).wf(),
            r@ == Reply::ScrollToCursor,
    {
        self.ensure_grouping_started("Tab");
        tab_everywhere(
            &mut self.buffer,
            &mut self.cursors,
            &mut self.history,
            self.indenting.style,
        );
        self.finish_edit_operation();
        Action::ScrollToCursor
    }

    /// Handles Tab key press for focus navigation (when the search dialog is not open).
    pub fn handle_focus_navigation_tab(&mut self) -> (r: Action)
        ensures
            final(self)@ == old(self)@.left(),
            r@ == Reply::Nothing,
    {
        if !self.search_state.is_open {
            self.focus.has_canvas_focus = false;
            self.focus.show_cursor = false;
        }
        Action::Nothing
    }

    /// Handles Shift+Tab key press for focus navigation (when the search dialog is not open).
    pub fn handle_focus_navigation_shift_tab(&mut self) -> (r: Action)
        ensures
            final(self)@ == old(self)@.left(),
            r@ == Reply::Nothing,
    {
        if !self.search_state.is_open {
            self.focus.has_canvas_focus = false;
            self.focus.show_cursor = false;
        }
        Action::Nothing
    }

    /// Handles Enter key press: breaks the line at every cursor. The new line starts with the
    /// leading white space of the broken one, if enabled.
    pub fn handle_enter(&mut self) -> (r: Action)
        requires
            old(self).wf(),
        ensures
            final(self)@ == old(self)@.broken(),
            final(self).wf(),
            r@ == Reply::ScrollToCursor,
    {
        self.end_grouping_if_active();
        break_everywhere(
            &mut self.buffer,
            &mut self.cursors,
            &mut self.history,
            self.indenting.auto_indent_enabled,
        );
        self.finish_edit_operation();
        Action::ScrollToCursor
    }
}

} // verus!
