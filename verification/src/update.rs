//! Handling of messages: what every message does to an editor, and what it asks for.
use vstd::prelude::*;

use crate::editor::{CodeEditor, Editor};
use crate::find_replace::focus_reply;
use crate::message::{Action, Message, Reply};
use crate::navigation::{line_target, Motion};
use crate::search::other_field;
use crate::undo_redo::scroll_if;

verus! {

impl Editor {
    /// The editor after a message that edits the text at the cursors.
    #[verifier::opaque]
    pub open spec fn edit_step(self, message: Message) -> Editor {
        match message {
            Message::CharacterInput(ch) => self.typed(ch),
            Message::Tab => self.tabbed(),
            Message::Enter => self.broken(),
            Message::Backspace => self.erased(),
            Message::Delete => self.deleted(),
            Message::DeleteSelection => self.grouping_ended().cut_if_selected(),
            Message::Paste(text) => self.paste_handled(text@),
            Message::ImeCommit(text) => self.committed(text@),
            Message::Undo => self.undone(),
            Message::Redo => self.redone(),
            _ => self,
        }
    }

    /// The editor after a message that moves the cursors.
    #[verifier::opaque]
    pub open spec fn navigation_step(self, message: Message) -> Editor {
        match message {
            Message::ArrowKey(direction, shift) => self.grouping_ended().navigated(
                Motion::Arrow(direction),
                shift,
            ),
            Message::Home(shift) => self.navigated(Motion::LineStart, shift),
            Message::End(shift) => self.navigated(Motion::LineEnd, shift),
            Message::CtrlHome => self.gone_to((0, 0)),
            Message::CtrlEnd => self.gone_to(self.text_end()),
            Message::GotoPosition(line, col) => self.grouping_ended().gone_to(
                line_target(self.buffer, line as int, col),
            ),
            Message::PageUp => self.paged(Motion::Up(self.layout.page_lines)),
            Message::PageDown => self.paged(Motion::Down(self.layout.page_lines)),
            _ => self,
        }
    }

    /// The editor after a message that selects, or that adds cursors.
    #[verifier::opaque]
    pub open spec fn selection_step(self, message: Message) -> Editor {
        match message {
            Message::MouseClick(hit) => self.clicked(hit),
            Message::MouseDrag(hit) => self.dragged(hit),
            Message::MouseHover(hit) => self.dragged(hit),
            Message::MouseRelease => self.released(),
            Message::AltClick(hit) => self.alt_clicked(hit),
            Message::AddCursorAbove => self.added_above(),
            Message::AddCursorBelow => self.added_below(),
            Message::SelectNextOccurrence => self.next_selected(),
            _ => self,
        }
    }

    /// The editor after a message of the search dialog.
    #[verifier::opaque]
    pub open spec fn search_step(self, message: Message) -> Editor {
        match message {
            Message::OpenSearch => self.search_opened(false),
            Message::OpenSearchReplace => self.search_opened(true),
            Message::CloseSearch => self.search_closed(),
            Message::SearchQueryChanged(query) => self.query_changed(query@),
            Message::ReplaceQueryChanged(text) => self.replacement_changed(text@),
            Message::ToggleCaseSensitive => self.case_toggled(),
            Message::FindNext => self.next_found(),
            Message::FindPrevious => self.previous_found(),
            Message::ReplaceNext => self.next_replaced(),
            Message::ReplaceAll => self.all_replaced(),
            Message::SearchDialogTab => self.field_switched(),
            Message::SearchDialogShiftTab => self.field_switched(),
            _ => self,
        }
    }

    /// The editor after a message about the focus, an input method or the view.
    #[verifier::opaque]
    pub open spec fn view_step(self, message: Message) -> Editor {
        match message {
            Message::FocusNavigationTab => self.left(),
            Message::FocusNavigationShiftTab => self.left(),
            Message::CanvasFocusGained => self.focus_gained(),
            Message::CanvasFocusLost => self.focus_lost(),
            Message::ImeOpened => self.preedit_cleared(),
            Message::ImePreedit(content, selection) => self.preedit_shown(content@, selection),
            Message::ImeClosed => self.preedit_cleared(),
            Message::Tick => self.ticked(),
            Message::Scrolled(viewport) => self.scrolled(viewport),
            Message::HorizontalScrolled(viewport) => self.scrolled_sideways(viewport),
            _ => self,
        }
    }

    /// The editor after a message. The groups that it is made of are opaque: a proof about a
    /// message reveals the group that the message belongs to.
    pub open spec fn step(self, message: Message) -> Editor {
        if message.edits() {
            self.edit_step(message)
        } else if message.navigates() {
            self.navigation_step(message)
        } else if message.selects() {
            self.selection_step(message)
        } else if message.searches() {
            self.search_step(message)
        } else {
            self.view_step(message)
        }
    }

    /// What a message that edits the text asks for.
    #[verifier::opaque]
    pub open spec fn edit_reply(self, message: Message) -> Reply {
        match message {
            Message::CharacterInput(_) => self.typed_reply(),
            Message::Delete => self.cut_reply(),
            Message::DeleteSelection => self.cut_reply(),
            Message::Paste(text) => self.paste_reply(text@),
            Message::ImeCommit(text) => self.commit_reply(text@),
            Message::Undo => scroll_if(self.can_undo()),
            Message::Redo => scroll_if(self.can_redo()),
            _ => Reply::ScrollToCursor,
        }
    }

    /// What a message of the search dialog asks for.
    #[verifier::opaque]
    pub open spec fn search_reply(self, message: Message) -> Reply {
        match message {
            Message::OpenSearch => Reply::FocusAndSelectSearchInput,
            Message::OpenSearchReplace => Reply::FocusAndSelectSearchInput,
            Message::SearchQueryChanged(query) => scroll_if(
                self.search.queried(query@, self.buffer).current is Some,
            ),
            Message::ToggleCaseSensitive => scroll_if(
                self.search.toggled(self.buffer).current is Some,
            ),
            Message::FindNext => scroll_if(self.search.matches.len() > 0),
            Message::FindPrevious => scroll_if(self.search.matches.len() > 0),
            Message::ReplaceNext => scroll_if(self.search.current is Some),
            Message::ReplaceAll => scroll_if(self.all_matches().len() > 0),
            Message::SearchDialogTab => focus_reply(other_field(self.search.focused)),
            Message::SearchDialogShiftTab => focus_reply(other_field(self.search.focused)),
            _ => Reply::Nothing,
        }
    }

    /// What a message asks for.
    pub open spec fn reply(self, message: Message) -> Reply {
        if message.edits() {
            self.edit_reply(message)
        } else if message.navigates() {
            Reply::ScrollToCursor
        } else if message.searches() {
            self.search_reply(message)
        } else if message is Copy {
            self.copy_reply()
        } else {
            Reply::Nothing
        }
    }
}

impl Message {
    /// The message edits the text at the cursors.
    pub open spec fn edits(self) -> bool {
        self is CharacterInput || self is Tab || self is Enter || self is Backspace
            || self is Delete || self is DeleteSelection || self is Paste || self is ImeCommit
            || self is Undo || self is Redo
    }

    /// The message moves the cursors.
    pub open spec fn navigates(self) -> bool {
        self is ArrowKey || self is Home || self is End || self is CtrlHome || self is CtrlEnd
            || self is GotoPosition || self is PageUp || self is PageDown
    }

    /// The message selects, or adds cursors.
    pub open spec fn selects(self) -> bool {
        self is MouseClick || self is MouseDrag || self is MouseHover || self is MouseRelease
            || self is AltClick || self is AddCursorAbove || self is AddCursorBelow
            || self is SelectNextOccurrence
    }

    /// The message is one of the search dialog.
    pub open spec fn searches(self) -> bool {
        self is OpenSearch || self is OpenSearchReplace || self is CloseSearch
            || self is SearchQueryChanged || self is ReplaceQueryChanged
            || self is ToggleCaseSensitive || self is FindNext || self is FindPrevious
            || self is ReplaceNext || self is ReplaceAll || self is SearchDialogTab
            || self is SearchDialogShiftTab
    }
}

impl CodeEditor {
    /// Handles messages that edit the text at the cursors.
    fn update_text(&mut self, message: &Message) -> (r: Action)
        requires
            old(self).wf(),
            message.edits(),
        ensures
            final(self)@ == old(self)@.edit_step(*message),
            final(self).wf(),
            r@ == old(self)@.edit_reply(*message),
    {
        reveal(Editor::edit_step);
        reveal(Editor::edit_reply);
        match message {
            Message::CharacterInput(ch) => self.handle_character_input_msg(*ch),
            Message::Tab => self.handle_tab(),
            Message::Enter => self.handle_enter(),
            Message::Backspace => self.handle_backspace(),
            Message::Delete => self.handle_delete(),
            Message::DeleteSelection => self.handle_delete_selection(),
            Message::Paste(text) => self.handle_paste_msg(text.as_str()),
            Message::ImeCommit(text) => self.handle_ime_commit_msg(text.as_str()),
            Message::Undo => self.handle_undo_msg(),
            Message::Redo => self.handle_redo_msg(),
            _ => Action::Nothing,
        }
    }

    /// Handles messages that move the cursors.
    fn update_navigation(&mut self, message: &Message) -> (r: Action)
        requires
            old(self).wf(),
            message.navigates(),
        ensures
            final(self)@ == old(self)@.navigation_step(*message),
            final(self).wf(),
            r@ == Reply::ScrollToCursor,
    {
        reveal(Editor::navigation_step);
        match message {
            Message::ArrowKey(direction, shift) => self.handle_arrow_key(*direction, *shift),
            Message::Home(shift) => self.handle_home(*shift),
            Message::End(shift) => self.handle_end(*shift),
            Message::CtrlHome => self.handle_ctrl_home(),
            Message::CtrlEnd => self.handle_ctrl_end(),
            Message::GotoPosition(line, col) => self.handle_goto_position(*line, *col),
            Message::PageUp => self.handle_page_up(),
            Message::PageDown => self.handle_page_down(),
            _ => Action::Nothing,
        }
    }

    /// Handles messages that select, or that add cursors.
    fn update_selection(&mut self, message: &Message) -> (r: Action)
        requires
            old(self).wf(),
            message.selects(),
        ensures
            final(self)@ == old(self)@.selection_step(*message),
            final(self).wf(),
            r@ == Reply::Nothing,
    {
        reveal(Editor::selection_step);
        match message {
            Message::MouseClick(hit) => self.handle_mouse_click_msg(*hit),
            Message::MouseDrag(hit) => self.handle_mouse_drag_msg(*hit),
            Message::MouseHover(hit) => self.handle_mouse_drag_msg(*hit),
            Message::MouseRelease => self.handle_mouse_release_msg(),
            Message::AltClick(hit) => self.handle_alt_click_msg(*hit),
            Message::AddCursorAbove => self.handle_add_cursor_above_msg(),
            Message::AddCursorBelow => self.handle_add_cursor_below_msg(),
            Message::SelectNextOccurrence => self.handle_select_next_occurrence_msg(),
            _ => Action::Nothing,
        }
    }

    /// Handles messages of the search dialog.
    fn update_search(&mut self, message: &Message) -> (r: Action)
        requires
            old(self).wf(),
            message.searches(),
        ensures
            final(self)@ == old(self)@.search_step(*message),
            final(self).wf(),
            r@ == old(self)@.search_reply(*message),
    {
        reveal(Editor::search_step);
        reveal(Editor::search_reply);
        match message {
            Message::OpenSearch => self.handle_open_search_msg(),
            Message::OpenSearchReplace => self.handle_open_search_replace_msg(),
            Message::CloseSearch => self.handle_close_search_msg(),
            Message::SearchQueryChanged(query) => self.handle_search_query_changed_msg(
                query.as_str(),
            ),
            Message::ReplaceQueryChanged(text) => self.handle_replace_query_changed_msg(
                text.as_str(),
            ),
            Message::ToggleCaseSensitive => self.handle_toggle_case_sensitive_msg(),
            Message::FindNext => self.handle_find_next_msg(),
            Message::FindPrevious => self.handle_find_previous_msg(),
            Message::ReplaceNext => self.handle_replace_next_msg(),
            Message::ReplaceAll => self.handle_replace_all_msg(),
            Message::SearchDialogTab => self.handle_search_dialog_tab_msg(),
            Message::SearchDialogShiftTab => self.handle_search_dialog_shift_tab_msg(),
            _ => Action::Nothing,
        }
    }

    /// Handles messages about the focus, an input method or the view.
    fn update_view(&mut self, message: &Message) -> (r: Action)
        requires
            old(self).wf(),
            !message.edits(),
            !message.navigates(),
            !message.selects(),
            !message.searches(),
        ensures
            final(self)@ == old(self)@.view_step(*message),
            final(self).wf(),
            r@ == (if message is Copy {
                old(self)@.copy_reply()
            } else {
                Reply::Nothing
            }),
    {
        reveal(Editor::view_step);
        match message {
            Message::Copy => self.copy_selection(),
            Message::FocusNavigationTab => self.handle_focus_navigation_tab(),
            Message::FocusNavigationShiftTab => self.handle_focus_navigation_shift_tab(),
            Message::CanvasFocusGained => self.handle_canvas_focus_gained_msg(),
            Message::CanvasFocusLost => self.handle_canvas_focus_lost_msg(),
            Message::ImeOpened => self.handle_ime_opened_msg(),
            Message::ImePreedit(content, selection) => self.handle_ime_preedit_msg(
                content.as_str(),
                selection,
            ),
            Message::ImeClosed => self.handle_ime_closed_msg(),
            Message::Tick => self.handle_tick_msg(),
            Message::Scrolled(viewport) => self.handle_scrolled_msg(*viewport),
            Message::HorizontalScrolled(viewport) => self.handle_horizontal_scrolled_msg(
                *viewport,
            ),
            // Ctrl+Click: the jump itself is made outside the editor.
            _ => Action::Nothing,
        }
    }

    /// Updates the editor after a message. Returns what is to be done outside the editor, such
    /// as scrolling to keep the cursor visible.
    pub fn update(&mut self, message: &Message) -> (r: Action)
        requires
            old(self).wf(),
        ensures
            final(self)@ == old(self)@.step(*message),
            final(self).wf(),
            r@ == old(self)@.reply(*message),
    {
        match message {
            Message::CharacterInput(_)
            | Message::Tab
            | Message::Enter
            | Message::Backspace
            | Message::Delete
            | Message::DeleteSelection
            | Message::Paste(_)
            | Message::ImeCommit(_)
            | Message::Undo
            | Message::Redo => self.update_text(message),
            Message::ArrowKey(_, _)
            | Message::Home(_)
            | Message::End(_)
            | Message::CtrlHome
            | Message::CtrlEnd
            | Message::GotoPosition(_, _)
            | Message::PageUp
            | Message::PageDown => self.update_navigation(message),
            Message::MouseClick(_)
            | Message::MouseDrag(_)
            | Message::MouseHover(_)
            | Message::MouseRelease
            | Message::AltClick(_)
            | Message::AddCursorAbove
            | Message::AddCursorBelow
            | Message::SelectNextOccurrence => self.update_selection(message),
            Message::OpenSearch
            | Message::OpenSearchReplace
            | Message::CloseSearch
            | Message::SearchQueryChanged(_)
            | Message::ReplaceQueryChanged(_)
            | Message::ToggleCaseSensitive
            | Message::FindNext
            | Message::FindPrevious
            | Message::ReplaceNext
            | Message::ReplaceAll
            | Message::SearchDialogTab
            | Message::SearchDialogShiftTab => self.update_search(message),
            _ => self.update_view(message),
        }
    }
}

} // verus!
