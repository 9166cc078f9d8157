//! Laws of what a message asks for, and of what is noted for others: for the view, for the
//! clipboard and for a language server.
use vstd::prelude::*;

use crate::chars::alphanumeric;
use crate::edit_laws::lemma_edit_steps;
use crate::editor::Editor;
use crate::find_laws::{lemma_found_somewhere, reads};
use crate::message::{Message, Reply};
use crate::position::Position;
use crate::search_laws::countable;
use crate::text_buffer::spot;

verus! {

/// The view scrolls to the caret if something was done for it to follow.
pub open spec fn follows(done: bool, r: Reply) -> bool {
    &&& done ==> r == Reply::ScrollToCursor
    &&& !done ==> r == Reply::Nothing
}

/// Some cursor selects something.
pub open spec fn selects_something(e: Editor) -> bool {
    exists|i: int|
        0 <= i < e.cursors.list.len() && (#[trigger] e.cursors.list[i]).anchor is Some
            && e.cursors.list[i].anchor->0 != e.cursors.list[i].position
}

/// There is an entry to undo, or something typed that will be one.
pub open spec fn something_to_undo(e: Editor) -> bool {
    e.history.undo.len() > 0 || (e.history.open matches Some(g) && g.edits.len() > 0)
}

/// After a key that moves or edits the view follows the caret. Typing needs the focus for it,
/// deleting a selection needs one, Undo and Redo need something to undo or to redo. Pasting
/// nothing asks for the clipboard. The mouse, and what is added to the cursors, ask for nothing.
pub proof fn law_the_view_follows_the_caret(e: Editor, m: Message)
    requires
        e.history.max_size > 0,
    ensures
        m.navigates() ==> e.reply(m) == Reply::ScrollToCursor,
        m is Tab || m is Enter || m is Backspace ==> e.reply(m) == Reply::ScrollToCursor,
        m is CharacterInput ==> follows(
            e.focus.is_focused && e.focus.has_canvas_focus && !e.focus.focus_locked,
            e.reply(m),
        ),
        m is Delete || m is DeleteSelection ==> follows(selects_something(e), e.reply(m)),
        m matches Message::Paste(text) ==> e.reply(m) == (if text@.len() == 0 {
            Reply::ReadClipboard
        } else {
            Reply::ScrollToCursor
        }),
        m matches Message::ImeCommit(text) ==> follows(text@.len() > 0, e.reply(m)),
        m is Undo ==> follows(something_to_undo(e), e.reply(m)),
        m is Redo ==> follows(e.history.redo.len() > 0, e.reply(m)),
        m.selects() ==> e.reply(m) == Reply::Nothing,
{
    reveal(Editor::edit_reply);
    if selects_something(e) {
        let i = choose|i: int|
            0 <= i < e.cursors.list.len() && (#[trigger] e.cursors.list[i]).anchor is Some
                && e.cursors.list[i].anchor->0 != e.cursors.list[i].position;
        assert(e.cursors.list[i].selected());
    }
    if e.cursors.any_selected() {
        let i = choose|i: int|
            0 <= i < e.cursors.list.len() && (#[trigger] e.cursors.list[i]).selected();
        assert(e.cursors.list[i].anchor is Some);
    }
}

/// In the dialog the view follows the caret whenever it goes to a match: after a search that found
/// one, to the next and the previous one if there are any, after replacing the current one, and
/// after replacing all if the text reads the query anywhere.
pub proof fn law_the_view_follows_the_search(e: Editor, m: Message)
    requires
        e.search.query.len() > 0,
        countable(e.buffer),
    ensures
        m is SearchQueryChanged || m is ToggleCaseSensitive ==> follows(
            e.step(m).search.matches.len() > 0,
            e.reply(m),
        ),
        m is FindNext || m is FindPrevious ==> follows(e.search.matches.len() > 0, e.reply(m)),
        m is ReplaceNext ==> follows(e.search.current is Some, e.reply(m)),
        m is ReplaceAll ==> follows(
            exists|p: Position| #[trigger]
                reads(e.buffer, spot(p), e.search.query, e.search.case_sensitive),
            e.reply(m),
        ),
        m is ReplaceQueryChanged || m is CloseSearch ==> e.reply(m) == Reply::Nothing,
{
    reveal(Editor::search_reply);
    reveal(Editor::search_step);
    lemma_found_somewhere(e.buffer, e.search.query, e.search.case_sensitive);
}

/// Messages about the focus, an input method and the view ask for nothing.
pub proof fn law_the_view_asks_for_nothing(e: Editor, m: Message)
    requires
        !m.edits(),
        !m.navigates(),
        !m.selects(),
        !m.searches(),
        !(m is Copy),
    ensures
        e.reply(m) == Reply::Nothing,
{
}

/// Typing a letter, a digit, an underscore or a dot asks a language server for completions, and
/// for pending changes to be sent at once; other characters ask for neither.
pub proof fn law_completions_are_asked_for_while_typing(e: Editor, ch: char)
    requires
        e.focused(),
    ensures
        ({
            let f = e.step(Message::CharacterInput(ch));
            if alphanumeric(ch) || ch == '_' || ch == '.' {
                f.lsp.completion && f.lsp.flush
            } else {
                f.lsp.completion == e.lsp.completion && f.lsp.flush == e.lsp.flush
            }
        }),
        e.step(Message::CharacterInput(ch)).lsp.change_pending,
{
    lemma_edit_steps(e, Message::CharacterInput(ch));
}

/// After every key that moves, and every change of the text, the caret is shown and blinks anew,
/// and the cursors are drawn again.
pub proof fn law_the_caret_is_shown_where_it_went(e: Editor, m: Message)
    requires
        m.navigates() || (m.may_change_text() && e.step(m).buffer != e.buffer),
    ensures
        e.step(m).focus.cursor_visible,
        e.step(m).focus.last_blink == e.focus.clock,
        e.step(m).focus.is_focused == e.focus.is_focused,
        e.step(m).focus.has_canvas_focus == e.focus.has_canvas_focus,
        e.step(m).focus.focus_locked == e.focus.focus_locked,
        !e.step(m).caches.overlay_cache.valid,
{
    if m.navigates() {
        reveal(Editor::navigation_step);
    } else if m.edits() {
        lemma_edits_show(e, m);
    } else {
        reveal(Editor::search_step);
    }
}

proof fn lemma_edits_show(e: Editor, m: Message)
    requires
        m.edits(),
        e.step(m).buffer != e.buffer,
    ensures
        e.step(m).focus.cursor_visible,
        e.step(m).focus.last_blink == e.focus.clock,
        e.step(m).focus.is_focused == e.focus.is_focused,
        e.step(m).focus.has_canvas_focus == e.focus.has_canvas_focus,
        e.step(m).focus.focus_locked == e.focus.focus_locked,
        !e.step(m).caches.overlay_cache.valid,
{
    lemma_edit_steps(e, m);
}

} // verus!
