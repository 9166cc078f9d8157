//! Laws of what messages leave alone: which of them change the text, and what is noted when one
//! does.
use vstd::prelude::*;

use crate::editor::{Caches, Editor, RenderCache};
use crate::message::Message;

verus! {

impl Message {
    /// The message may change the text.
    pub open spec fn may_change_text(self) -> bool {
        self.edits() || self is ReplaceNext || self is ReplaceAll
    }
}

impl Editor {
    /// Nothing that was laid out or drawn for a former text is shown, and the change was noted
    /// for a language server.
    pub open spec fn notes_change_since(self, e: Editor) -> bool {
        &&& self.caches == (Caches {
            buffer_revision: e.caches.buffer_revision.wrapping_add(1),
            visual_lines_cache: None,
            content_cache: RenderCache { valid: false },
            overlay_cache: RenderCache { valid: false },
        })
        &&& self.lsp.change_pending
    }

    /// Wrapped lines that are kept were laid out for the present text.
    pub open spec fn lines_fresh(self) -> bool {
        self.caches.visual_lines_cache matches Some(key) ==> key.buffer_revision
            == self.caches.buffer_revision
    }
}

proof fn lemma_navigation_frame(e: Editor, m: Message)
    ensures
        e.navigation_step(m).buffer == e.buffer,
        e.navigation_step(m).history == e.history || e.navigation_step(m).history
            == e.grouping_ended().history,
        e.navigation_step(m).caches == e.caches || e.navigation_step(m).caches
            == e.overlay_cleared().caches,
        e.navigation_step(m).search == e.search,
        e.navigation_step(m).layout == e.layout,
        e.navigation_step(m).lsp == e.lsp,
{
    reveal(Editor::navigation_step);
}

proof fn lemma_selection_frame(e: Editor, m: Message)
    ensures
        e.selection_step(m).buffer == e.buffer,
        e.selection_step(m).history == e.history || e.selection_step(m).history
            == e.grouping_ended().history,
        e.selection_step(m).caches == e.caches || e.selection_step(m).caches
            == e.overlay_cleared().caches,
        e.selection_step(m).search == e.search,
        e.selection_step(m).layout == e.layout,
        e.selection_step(m).lsp == e.lsp,
{
    reveal(Editor::selection_step);
}

proof fn lemma_search_frame(e: Editor, m: Message)
    requires
        !(m is ReplaceNext),
        !(m is ReplaceAll),
    ensures
        e.search_step(m).buffer == e.buffer,
        e.search_step(m).history == e.history,
        e.search_step(m).caches == e.caches || e.search_step(m).caches
            == e.overlay_cleared().caches,
        e.search_step(m).layout == e.layout,
        e.search_step(m).lsp == e.lsp,
{
    reveal(Editor::search_step);
}

proof fn lemma_view_frame(e: Editor, m: Message)
    ensures
        e.view_step(m).buffer == e.buffer,
        e.view_step(m).cursors == e.cursors,
        e.view_step(m).history == e.history,
        e.view_step(m).search == e.search,
        e.view_step(m).lsp == e.lsp,
        e.view_step(m).caches.buffer_revision == e.caches.buffer_revision,
        e.view_step(m).caches.visual_lines_cache == e.caches.visual_lines_cache,
{
    reveal(Editor::view_step);
}

/// Only the messages that edit the text or replace matches change it. All others also leave the
/// revision, the wrapped lines and what a language server is told alone, and add nothing to the
/// history but the group of commands that they close.
pub proof fn law_only_edits_change_the_text(e: Editor, m: Message)
    requires
        !m.may_change_text(),
    ensures
        e.step(m).buffer == e.buffer,
        e.step(m).history == e.history || e.step(m).history == e.grouping_ended().history,
        e.step(m).caches.buffer_revision == e.caches.buffer_revision,
        e.step(m).caches.visual_lines_cache == e.caches.visual_lines_cache,
        e.step(m).lsp == e.lsp,
{
    if m.navigates() {
        lemma_navigation_frame(e, m);
    } else if m.selects() {
        lemma_selection_frame(e, m);
    } else if m.searches() {
        lemma_search_frame(e, m);
    } else {
        lemma_view_frame(e, m);
    }
}

/// Moving the cursors, selecting and adding cursors leaves the drawing of the text as it is: only
/// the cursors are drawn again.
pub proof fn law_moving_cursors_keeps_the_drawn_text(e: Editor, m: Message)
    requires
        m.navigates() || m.selects(),
    ensures
        e.step(m).caches.content_cache == e.caches.content_cache,
        e.step(m).search == e.search,
        e.step(m).layout == e.layout,
        m.navigates() ==> !e.step(m).caches.overlay_cache.valid,
{
    if m.navigates() {
        lemma_navigation_frame(e, m);
        lemma_navigation_drawn(e, m);
    } else {
        lemma_selection_frame(e, m);
    }
}

proof fn lemma_navigation_drawn(e: Editor, m: Message)
    requires
        m.navigates(),
    ensures
        !e.navigation_step(m).caches.overlay_cache.valid,
{
    reveal(Editor::navigation_step);
}

/// Closing or opening a group leaves everything else alone.
proof fn lemma_grouping_frame(e: Editor, label: Seq<char>)
    ensures
        e.grouping_started(label).caches == e.caches,
        e.grouping_started(label).buffer == e.buffer,
        e.grouping_ended().caches == e.caches,
        e.grouping_ended().buffer == e.buffer,
        e.grouping_ended().cursors == e.cursors,
{
}

proof fn lemma_typing_notes(e: Editor, ch: char)
    ensures
        e.typed(ch) == e || e.typed(ch).notes_change_since(e),
        e.tabbed().notes_change_since(e),
{
    lemma_grouping_frame(e, "Typing"@);
    lemma_grouping_frame(e, "Tab"@);
}

proof fn lemma_keys_note(e: Editor)
    ensures
        e.broken().notes_change_since(e),
        e.erased().notes_change_since(e),
        e.deleted().notes_change_since(e),
        e.grouping_ended().cut_if_selected().buffer == e.buffer
            || e.grouping_ended().cut_if_selected().notes_change_since(e),
        e.grouping_ended().cut_if_selected().notes_change_since(e)
            || e.grouping_ended().cut_if_selected().caches == e.caches,
{
    lemma_grouping_frame(e, Seq::empty());
}

proof fn lemma_pasting_notes(e: Editor, text: Seq<char>)
    ensures
        text.len() > 0 ==> e.paste_handled(text).notes_change_since(e),
        text.len() == 0 ==> e.paste_handled(text).buffer == e.buffer
            && e.paste_handled(text).caches == e.caches,
        text.len() > 0 ==> e.committed(text).notes_change_since(e),
        text.len() == 0 ==> e.committed(text).buffer == e.buffer && e.committed(text).caches
            == e.overlay_cleared().caches,
{
    lemma_grouping_frame(e, Seq::empty());
    let f = Editor { ime_preedit: None, ..e };
    lemma_grouping_frame(f, "Typing"@);
}

proof fn lemma_history_notes(e: Editor)
    ensures
        e.undone().notes_change_since(e) || (e.undone().buffer == e.buffer && e.undone().caches
            == e.caches),
        e.redone().notes_change_since(e) || e.redone() == e,
{
    lemma_grouping_frame(e, Seq::empty());
}

proof fn lemma_replacing_notes(e: Editor)
    ensures
        e.next_replaced().notes_change_since(e) || e.next_replaced() == e,
        e.all_replaced().notes_change_since(e) || e.all_replaced() == e,
{
}

/// What an editing message does to the text and the caches.
proof fn lemma_edit_step_notes(e: Editor, m: Message)
    ensures
        e.edit_step(m).notes_change_since(e) || (e.edit_step(m).buffer == e.buffer && (e.edit_step(
            m,
        ).caches == e.caches || e.edit_step(m).caches == e.overlay_cleared().caches)),
{
    reveal(Editor::edit_step);
    match m {
        Message::CharacterInput(ch) => lemma_typing_notes(e, ch),
        Message::Tab => lemma_typing_notes(e, ' '),
        Message::Enter => lemma_keys_note(e),
        Message::Backspace => lemma_keys_note(e),
        Message::Delete => lemma_keys_note(e),
        Message::DeleteSelection => lemma_keys_note(e),
        Message::Paste(text) => lemma_pasting_notes(e, text@),
        Message::ImeCommit(text) => lemma_pasting_notes(e, text@),
        Message::Undo => lemma_history_notes(e),
        Message::Redo => lemma_history_notes(e),
        _ => {},
    }
}

proof fn lemma_search_step_notes(e: Editor, m: Message)
    requires
        m is ReplaceNext || m is ReplaceAll,
    ensures
        e.search_step(m).notes_change_since(e) || e.search_step(m) == e,
{
    reveal(Editor::search_step);
    lemma_replacing_notes(e);
}

/// Whenever a message changes the text, the revision goes up, nothing that was laid out or drawn
/// for the former text stays, and the change is noted for a language server.
pub proof fn law_every_change_is_noted(e: Editor, m: Message)
    ensures
        e.step(m).buffer == e.buffer || e.step(m).notes_change_since(e),
{
    if m.edits() {
        lemma_edit_step_notes(e, m);
    } else if m is ReplaceNext || m is ReplaceAll {
        lemma_search_step_notes(e, m);
    } else {
        law_only_edits_change_the_text(e, m);
    }
}

/// Wrapped lines that are kept are never those of a former text.
pub proof fn law_wrapped_lines_are_never_stale(e: Editor, m: Message)
    requires
        e.lines_fresh(),
    ensures
        e.step(m).lines_fresh(),
        e.step(m).caches.visual_lines_cache is Some ==> e.step(m).buffer == e.buffer,
{
    if m.edits() {
        lemma_edit_step_notes(e, m);
    } else if m is ReplaceNext || m is ReplaceAll {
        lemma_search_step_notes(e, m);
    } else {
        law_only_edits_change_the_text(e, m);
    }
}

} // verus!
