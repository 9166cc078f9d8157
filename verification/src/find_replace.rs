//! The search dialog: finding and replacing.
use vstd::prelude::*;

use crate::command::{run_all, Command, CompositeCommand, Edit, Group};
use crate::editor::{CodeEditor, Editor};
use crate::history::CommandHistory;
use crate::message::{Action, Reply};
use crate::multi_edit::run_command;
use crate::position::{capped, Position};
use crate::search::{find_matches, found, other_field, Search, SearchFocusedField, SearchMatch};
use crate::text_buffer::{split_lines, spot, TextBuffer};
use crate::undo_redo::scroll_if;

verus! {

/// The command that replaces a match of `query`.
pub open spec fn replacement(
    m: SearchMatch,
    query: Seq<char>,
    text: Seq<char>,
    caret: Position,
) -> Edit {
    Edit::replace(
        spot((m.line, m.col)),
        spot((m.line, capped(m.col + query.len()))),
        split_lines(text),
        caret,
    )
}

/// The commands that replace matches of `query`, from the last of them to the first.
pub open spec fn replacements(
    matches: Seq<SearchMatch>,
    query: Seq<char>,
    text: Seq<char>,
    caret: Position,
) -> Seq<Edit> {
    Seq::new(
        matches.len(),
        |i: int| replacement(matches[matches.len() - 1 - i], query, text, caret),
    )
}

impl Editor {
    /// The primary caret at the current match, with nothing selected; unchanged without a match.
    pub open spec fn caret_at_match(self) -> Editor {
        match self.search.current_match() {
            Some(m) => self.caret_placed((m.line, m.col)),
            None => self,
        }
    }

    /// The search dialog opened.
    pub open spec fn search_opened(self, is_replace_mode: bool) -> Editor {
        Editor { search: self.search.opened(is_replace_mode), ..self }.overlay_cleared()
    }

    /// Several cursors collapsed to the primary one if the search dialog is closed, else the
    /// dialog closed.
    pub open spec fn search_closed(self) -> Editor {
        if self.cursors.list.len() > 1 && !self.search.is_open {
            Editor { cursors: self.cursors.only_primary(), ..self }.overlay_cleared()
        } else {
            Editor {
                search: Search { is_open: false, ..self.search },
                ..self
            }.overlay_cleared()
        }
    }

    /// Another query searched for.
    pub open spec fn query_changed(self, query: Seq<char>) -> Editor {
        Editor {
            search: self.search.queried(query, self.buffer),
            ..self
        }.overlay_cleared().caret_at_match()
    }

    /// Another replacement.
    pub open spec fn replacement_changed(self, text: Seq<char>) -> Editor {
        Editor { search: Search { replace_with: text, ..self.search }, ..self }
    }

    /// The query searched for again, with case mattering or not: the first match is the current
    /// one.
    pub open spec fn case_toggled(self) -> Editor {
        Editor {
            search: self.search.toggled(self.buffer),
            ..self
        }.overlay_cleared().caret_at_match()
    }

    /// The next match made the current one.
    pub open spec fn next_found(self) -> Editor {
        if self.search.matches.len() == 0 {
            self
        } else {
            Editor { search: self.search.next(), ..self }.caret_at_match().overlay_cleared()
        }
    }

    /// The previous match made the current one.
    pub open spec fn previous_found(self) -> Editor {
        if self.search.matches.len() == 0 {
            self
        } else {
            Editor { search: self.search.previous(), ..self }.caret_at_match().overlay_cleared()
        }
    }

    /// The current match replaced, and the next one made the current one. Without a match left
    /// the caret stands behind the replacement.
    pub open spec fn next_replaced(self) -> Editor {
        match self.search.current_match() {
            Some(m) => {
                let edit = replacement(
                    m,
                    self.search.query,
                    self.search.replace_with,
                    self.cursors.primary_cursor().position,
                );
                let e = Editor {
                    search: self.search.updated(edit.result(self.buffer)),
                    ..self.ran(edit)
                };
                e.caret_placed(
                    match e.search.current_match() {
                        Some(next) => (next.line, next.col),
                        None => edit.caret_after(self.buffer),
                    },
                ).edit_finished()
            },
            None => self,
        }
    }

    /// All matches of the query, however many.
    pub open spec fn all_matches(self) -> Seq<SearchMatch> {
        found(self.buffer, self.search.query, self.search.case_sensitive)
    }

    /// All matches replaced, as one entry of the history.
    pub open spec fn all_replaced(self) -> Editor {
        let matches = self.all_matches();
        if matches.len() == 0 {
            self
        } else {
            let caret = self.cursors.primary_cursor().position;
            let out = run_all(
                replacements(matches, self.search.query, self.search.replace_with, caret),
                self.buffer,
                caret,
            );
            Editor {
                buffer: out.lines,
                history: self.history.recorded(
                    Group { label: "Replace All"@, edits: out.edits },
                ),
                search: self.search.updated(out.lines),
                ..self
            }.caret_placed(out.caret).edit_finished()
        }
    }

    /// The other input field of the dialog focused.
    pub open spec fn field_switched(self) -> Editor {
        Editor {
            search: Search { focused: other_field(self.search.focused), ..self.search },
            ..self
        }
    }
}

/// What focuses an input field of the dialog.
pub open spec fn focus_reply(field: SearchFocusedField) -> Reply {
    match field {
        SearchFocusedField::Search => Reply::FocusSearchInput,
        SearchFocusedField::Replace => Reply::FocusReplaceInput,
    }
}

/// Replaces one match and records it. Returns where that leaves the caret.
fn replace_match(
    buffer: &mut TextBuffer,
    history: &mut CommandHistory,
    m: SearchMatch,
    query: &str,
    text: &str,
    caret: Position,
) -> (r: Position)
    requires
        old(buffer).wf(),
        old(history).wf(),
    ensures
        final(buffer)@ == replacement(m, query@, text@, caret).result(old(buffer)@),
        final(buffer).wf(),
        final(history)@ == old(history)@.recorded_edit(
            replacement(m, query@, text@, caret).on(old(buffer)@),
        ),
        final(history).wf(),
        r == replacement(m, query@, text@, caret).caret_after(old(buffer)@),
{
    let command = Command::replace_text((m.line, m.col), query.unicode_len(), text, caret);
    run_command(buffer, history, command)
}

/// The commands that replace matches, from the last of them to the first.
fn replace_commands(
    matches: &Vec<SearchMatch>,
    query: &str,
    text: &str,
    caret: Position,
) -> (r: CompositeCommand)
    ensures
        r@ == (Group {
            label: "Replace All"@,
            edits: replacements(matches@, query@, text@, caret),
        }),
        r.wf(),
{
    let query_len = query.unicode_len();
    let mut composite = CompositeCommand::new("Replace All".to_owned());
    let ghost edits = replacements(matches@, query@, text@, caret);
    let mut i: usize = matches.len();
    assert(edits.take(0) =~= Seq::empty());
    while i > 0
        invariant
            i <= matches@.len(),
            query_len == query@.len(),
            edits == replacements(matches@, query@, text@, caret),
            composite.wf(),
            composite@ == (Group {
                label: "Replace All"@,
                edits: edits.take(matches@.len() - i),
            }),
        decreases i,
    {
        i -= 1;
        let m = matches[i];
        let command = Command::replace_text((m.line, m.col), query_len, text, caret);
        assert(command@ == edits[matches@.len() - 1 - i]);
        assert(edits.take(matches@.len() - i) =~= edits.take(matches@.len() - 1 - i).push(
            command@,
        ));
        composite.add(command);
    }
    assert(edits.take(matches@.len() as int) =~= edits);
    composite
}

/// Replaces all given matches and records that as one entry. Returns where it leaves the caret.
fn replace_matches(
    buffer: &mut TextBuffer,
    history: &mut CommandHistory,
    matches: &Vec<SearchMatch>,
    query: &str,
    text: &str,
    caret: Position,
) -> (r: Position)
    requires
        old(buffer).wf(),
        old(history).wf(),
    ensures
        ({
            let out = run_all(replacements(matches@, query@, text@, caret), old(buffer)@, caret);
            &&& final(buffer)@ == out.lines
            &&& final(history)@ == old(history)@.recorded(
                Group { label: "Replace All"@, edits: out.edits },
            )
            &&& r == out.caret
        }),
        final(buffer).wf(),
        final(history).wf(),
{
    let mut composite = replace_commands(matches, query, text, caret);
    let mut cursor_pos = caret;
    composite.execute(buffer, &mut cursor_pos);
    history.push_composite(composite);
    cursor_pos
}

impl CodeEditor {
    /// Puts the primary caret at the current match. Scrolls there if there is one.
    fn go_to_match(&mut self) -> (r: Action)
        requires
            old(self).wf(),
        ensures
            final(self)@ == old(self)@.caret_at_match(),
            final(self).wf(),
            r@ == scroll_if(old(self)@.search.current_match() is Some),
    {
        if let Some(m) = self.search_state.current_match() {
            self.place_caret((m.line, m.col));
            Action::ScrollToCursor
        } else {
            Action::Nothing
        }
    }

    /// Handles opening the search dialog.
    pub fn handle_open_search_msg(&mut self) -> (r: Action)
        requires
            old(self).wf(),
        ensures
            final(self)@ == old(self)@.search_opened(false),
            final(self).wf(),
            r@ == Reply::FocusAndSelectSearchInput,
    {
        self.search_state.open_search();
        self.clear_overlay();
        Action::FocusAndSelectSearchInput
    }

    /// Handles opening the search and replace dialog.
    pub fn handle_open_search_replace_msg(&mut self) -> (r: Action)
        requires
            old(self).wf(),
        ensures
            final(self)@ == old(self)@.search_opened(true),
            final(self).wf(),
            r@ == Reply::FocusAndSelectSearchInput,
    {
        self.search_state.open_replace();
        self.clear_overlay();
        Action::FocusAndSelectSearchInput
    }

    /// Handles closing the search dialog. With several cursors and no open dialog, collapses
    /// the cursors to the primary one.
    pub fn handle_close_search_msg(&mut self) -> (r: Action)
        requires
            old(self).wf(),
        ensures
            final(self)@ == old(self)@.search_closed(),
            final(self).wf(),
            r@ == Reply::Nothing,
    {
        if self.cursors.is_multi() && !self.search_state.is_open {
            self.cursors.remove_all_but_primary();
        } else {
            self.search_state.close();
        }
        self.clear_overlay();
        Action::Nothing
    }

    /// Handles search query text changes: goes to the first match if any.
    pub fn handle_search_query_changed_msg(&mut self, query: &str) -> (r: Action)
        requires
            old(self).wf(),
        ensures
            final(self)@ == old(self)@.query_changed(query@),
            final(self).wf(),
            r@ == scroll_if(final(self)@.search.current_match() is Some),
    {
        self.search_state.set_query(query.to_owned(), &self.buffer);
        self.clear_overlay();
        self.go_to_match()
    }

    /// Handles replace query text changes.
    pub fn handle_replace_query_changed_msg(&mut self, replace_text: &str) -> (r: Action)
        requires
            old(self).wf(),
        ensures
            final(self)@ == old(self)@.replacement_changed(replace_text@),
            final(self).wf(),
            r@ == Reply::Nothing,
    {
        self.search_state.set_replace_with(replace_text.to_owned());
        Action::Nothing
    }

    /// Handles toggling case-sensitive search: goes to the first match if any.
    pub fn handle_toggle_case_sensitive_msg(&mut self) -> (r: Action)
        requires
            old(self).wf(),
        ensures
            final(self)@ == old(self)@.case_toggled(),
            final(self).wf(),
            r@ == scroll_if(final(self)@.search.current_match() is Some),
    {
        self.search_state.toggle_case_sensitive(&self.buffer);
        self.clear_overlay();
        self.go_to_match()
    }

    /// Handles finding the next match.
    pub fn handle_find_next_msg(&mut self) -> (r: Action)
        requires
            old(self).wf(),
        ensures
            final(self)@ == old(self)@.next_found(),
            final(self).wf(),
            r@ == scroll_if(old(self)@.search.matches.len() > 0),
    {
        if self.search_state.matches.len() > 0 {
            self.search_state.next_match();
            let action = self.go_to_match();
            self.clear_overlay();
            action
        } else {
            Action::Nothing
        }
    }

    /// Handles finding the previous match.
    pub fn handle_find_previous_msg(&mut self) -> (r: Action)
        requires
            old(self).wf(),
        ensures
            final(self)@ == old(self)@.previous_found(),
            final(self).wf(),
            r@ == scroll_if(old(self)@.search.matches.len() > 0),
    {
        if self.search_state.matches.len() > 0 {
            self.search_state.previous_match();
            let action = self.go_to_match();
            self.clear_overlay();
            action
        } else {
            Action::Nothing
        }
    }

    /// Handles replacing the current match and moving to the next.
    pub fn handle_replace_next_msg(&mut self) -> (r: Action)
        requires
            old(self).wf(),
        ensures
            final(self)@ == old(self)@.next_replaced(),
            final(self).wf(),
            r@ == scroll_if(old(self)@.search.current_match() is Some),
    {
        if let Some(m) = self.search_state.current_match() {
            let pos = self.cursors.primary_position();
            let after = replace_match(
                &mut self.buffer,
                &mut self.history,
                m,
                self.search_state.query.as_str(),
                self.search_state.replace_with.as_str(),
                pos,
            );
            self.search_state.update_matches(&self.buffer);
            let caret = match self.search_state.current_match() {
                Some(next) => (next.line, next.col),
                None => after,
            };
            self.place_caret(caret);
            self.finish_edit_operation();
            Action::ScrollToCursor
        } else {
            Action::Nothing
        }
    }

    /// Handles replacing all matches, also those beyond the limit of the dialog.
    pub fn handle_replace_all_msg(&mut self) -> (r: Action)
        requires
            old(self).wf(),
        ensures
            final(self)@ == old(self)@.all_replaced(),
            final(self).wf(),
            r@ == scroll_if(old(self)@.all_matches().len() > 0),
    {
        let matches = find_matches(
            &self.buffer,
            self.search_state.query.as_str(),
            self.search_state.case_sensitive,
            None,
        );
        if matches.len() > 0 {
            let pos = self.cursors.primary_position();
            let after = replace_matches(
                &mut self.buffer,
                &mut self.history,
                &matches,
                self.search_state.query.as_str(),
                self.search_state.replace_with.as_str(),
                pos,
            );
            self.search_state.update_matches(&self.buffer);
            self.place_caret(after);
            self.finish_edit_operation();
            Action::ScrollToCursor
        } else {
            Action::Nothing
        }
    }

    /// Asks for the focused input field of the dialog to be focused.
    fn focus_field(&self) -> (r: Action)
        ensures
            r@ == focus_reply(self@.search.focused),
    {
        match self.search_state.focused_field {
            SearchFocusedField::Search => Action::FocusSearchInput,
            SearchFocusedField::Replace => Action::FocusReplaceInput,
        }
    }

    /// Handles Tab key in search dialog (cycle forward).
    pub fn handle_search_dialog_tab_msg(&mut self) -> (r: Action)
        requires
            old(self).wf(),
        ensures
            final(self)@ == old(self)@.field_switched(),
            final(self).wf(),
            r@ == focus_reply(final(self)@.search.focused),
    {
        self.search_state.focus_next_field();
        self.focus_field()
    }

    /// Handles Shift+Tab key in search dialog (cycle backward).
    pub fn handle_search_dialog_shift_tab_msg(&mut self) -> (r: Action)
        requires
            old(self).wf(),
        ensures
            final(self)@ == old(self)@.field_switched(),
            final(self).wf(),
            r@ == focus_reply(final(self)@.search.focused),
    {
        self.search_state.focus_previous_field();
        self.focus_field()
    }
}

} // verus!
