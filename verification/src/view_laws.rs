//! Laws of the view: the visible lines are always drawn, and typing goes where the focus is.
use vstd::prelude::*;

use crate::clipboard_laws::{law_cut_lines_hold_no_breaks, no_breaks};
use crate::cursor_set::Cursor;
use crate::editor::{Editor, FocusState, Layout, Preedit, CURSOR_BLINK_INTERVAL};
use crate::flat_laws::{flat, law_lines_hold_their_text};
use crate::message::{HorizontalViewport, Message, Reply, ScrollViewport};
use crate::viewport::CACHE_WINDOW_MARGIN_MULTIPLIER;

verus! {

impl ScrollViewport {
    /// The lines of the window round the visible part can be counted.
    pub open spec fn countable(self) -> bool {
        self.first_visible_line + (self.lines_in_view + 2) * (1 + CACHE_WINDOW_MARGIN_MULTIPLIER)
            <= usize::MAX
    }
}

impl Editor {
    /// The lines that `v` shows lie in the window that is kept drawn.
    pub open spec fn window_covers(self, v: ScrollViewport) -> bool {
        self.layout.cache_window_start_line <= v.first_visible_line && v.last_visible_line()
            <= self.layout.cache_window_end_line
    }
}

proof fn lemma_step_scrolled(e: Editor, v: ScrollViewport)
    ensures
        e.step(Message::Scrolled(v)) == e.scrolled(v),
{
    reveal(Editor::view_step);
}

/// After a scroll, or a change of size, the visible lines lie in the window that is kept drawn.
pub proof fn law_visible_lines_are_kept_drawn(e: Editor, v: ScrollViewport)
    requires
        v.scroll_changed || v.size_changed,
        v.countable(),
    ensures
        e.step(Message::Scrolled(v)).window_covers(v),
{
    lemma_step_scrolled(e, v);
}

/// As long as the window need not be placed anew, a scroll has nothing drawn again.
pub proof fn law_a_scroll_within_the_window_draws_nothing(e: Editor, v: ScrollViewport)
    requires
        !e.rewindows(v),
    ensures
        e.step(Message::Scrolled(v)).caches == e.caches,
        e.step(Message::Scrolled(v)).layout.cache_window_start_line
            == e.layout.cache_window_start_line,
        e.step(Message::Scrolled(v)).layout.cache_window_end_line
            == e.layout.cache_window_end_line,
{
    lemma_step_scrolled(e, v);
}

/// Once the window was placed, scrolling by a screen up or down does not place it anew.
pub proof fn law_scrolling_by_a_screen_keeps_the_window(
    e: Editor,
    v: ScrollViewport,
    w: ScrollViewport,
)
    requires
        e.rewindows(v),
        v.countable(),
        w.countable(),
        !w.size_changed,
        w.lines_in_view == v.lines_in_view,
        v.first_visible_line - v.visible_lines_count() <= w.first_visible_line
            <= v.first_visible_line + v.visible_lines_count(),
    ensures
        !e.step(Message::Scrolled(v)).rewindows(w),
{
    lemma_step_scrolled(e, v);
}

proof fn lemma_step_typed(e: Editor, ch: char)
    requires
        !e.focused(),
    ensures
        e.step(Message::CharacterInput(ch)) == e,
        e.reply(Message::CharacterInput(ch)) == Reply::Nothing,
{
    reveal(Editor::edit_step);
    reveal(Editor::edit_reply);
}

proof fn lemma_step_focus(e: Editor)
    ensures
        e.step(Message::CanvasFocusLost) == e.focus_lost(),
        e.step(Message::CanvasFocusGained) == e.focus_gained(),
        e.step(Message::Tick) == e.ticked(),
{
    reveal(Editor::view_step);
}

/// Without the focus, typing changes nothing and asks for nothing.
pub proof fn law_typing_needs_the_focus(e: Editor, ch: char)
    requires
        !e.focused(),
    ensures
        e.step(Message::CharacterInput(ch)) == e,
        e.reply(Message::CharacterInput(ch)) == Reply::Nothing,
{
    lemma_step_typed(e, ch);
}

/// Once the canvas lost the focus, typing changes nothing.
pub proof fn law_a_lost_focus_blocks_typing(e: Editor, ch: char)
    ensures
        !e.step(Message::CanvasFocusLost).focused(),
        e.step(Message::CanvasFocusLost).ime_preedit is None,
        e.step(Message::CanvasFocusLost).step(Message::CharacterInput(ch)) == e.step(
            Message::CanvasFocusLost,
        ),
{
    lemma_step_focus(e);
    lemma_step_typed(e.focus_lost(), ch);
}

/// When the canvas gains the focus the lock is gone: the editor that was asked to take the focus
/// last can be typed in.
pub proof fn law_a_gained_focus_unlocks_typing(e: Editor)
    ensures
        !e.step(Message::CanvasFocusGained).focus.focus_locked,
        e.step(Message::CanvasFocusGained).focus.show_cursor,
        e.step(Message::CanvasFocusGained).focused() == e.focus.is_focused,
{
    lemma_step_focus(e);
}

/// However often the clock ticks at one time, the caret changes at most once.
pub proof fn law_the_caret_blinks_once_at_a_time(e: Editor)
    ensures
        e.step(Message::Tick).step(Message::Tick) == e.step(Message::Tick),
        !e.focused() ==> !e.step(Message::Tick).focus.show_cursor,
{
    lemma_step_focus(e);
    lemma_step_focus(e.ticked());
}

/// Typing goes to the editor that was asked to take the focus last, as long as its canvas has the
/// focus and has not been locked out of it.
pub proof fn law_the_focus_decides_where_typing_goes(e: Editor)
    ensures
        e.focused() <==> e.focus.is_focused && e.focus.has_canvas_focus && !e.focus.focus_locked,
{
}

/// Gaining the focus shows the caret, which blinks anew, and unlocks the editor; losing it hides
/// the caret, locks the editor, and drops what an input method shows. Whether the editor was asked
/// to take the focus stays, and so do the text and the cursors.
pub proof fn law_the_canvas_gains_and_loses_the_focus(e: Editor)
    ensures
        ({
            let f = e.step(Message::CanvasFocusGained);
            &&& f.focus == (FocusState {
                has_canvas_focus: true,
                focus_locked: false,
                show_cursor: true,
                cursor_visible: true,
                last_blink: e.focus.clock,
                ..e.focus
            })
            &&& f.ime_preedit == e.ime_preedit
            &&& !f.caches.overlay_cache.valid
        }),
        ({
            let f = e.step(Message::CanvasFocusLost);
            &&& f.focus == (FocusState {
                has_canvas_focus: false,
                focus_locked: true,
                show_cursor: false,
                ..e.focus
            })
            &&& f.ime_preedit is None
            &&& !f.caches.overlay_cache.valid
        }),
{
    lemma_step_focus(e);
}

/// Tab and Shift+Tab give the focus away and hide the caret, unless the dialog is open.
pub proof fn law_tab_gives_the_focus_away(e: Editor)
    ensures
        e.search.is_open ==> e.step(Message::FocusNavigationTab) == e,
        !e.search.is_open ==> e.step(Message::FocusNavigationTab).focus == (FocusState {
            has_canvas_focus: false,
            show_cursor: false,
            ..e.focus
        }),
        e.step(Message::FocusNavigationShiftTab) == e.step(Message::FocusNavigationTab),
{
    reveal(Editor::view_step);
}

/// The caret changes between visible and hidden once its interval has passed, and not before, as
/// long as the editor has the focus. Without the focus no caret is drawn.
pub proof fn law_the_caret_blinks_at_its_interval(e: Editor)
    ensures
        ({
            let f = e.step(Message::Tick);
            let due = e.focus.clock >= e.focus.last_blink + CURSOR_BLINK_INTERVAL;
            &&& e.focused() && due ==> {
                &&& f.focus.cursor_visible != e.focus.cursor_visible
                &&& f.focus.last_blink == e.focus.clock
                &&& f.focus.show_cursor == e.focus.show_cursor
                &&& !f.caches.overlay_cache.valid
            }
            &&& e.focused() && !due ==> f == e
            &&& !e.focused() ==> {
                &&& !f.focus.show_cursor
                &&& f.focus.cursor_visible == e.focus.cursor_visible
            }
        }),
{
    lemma_step_focus(e);
}

/// An input method shows its text as long as there is one; opening and closing it shows none.
pub proof fn law_an_input_method_shows_its_text(
    e: Editor,
    content: String,
    selection: Option<std::ops::Range<usize>>,
)
    ensures
        ({
            let f = e.step(Message::ImePreedit(content, selection));
            &&& content@.len() == 0 ==> f.ime_preedit is None
            &&& content@.len() > 0 ==> f.ime_preedit == Some(
                Preedit { content: content@, selection },
            )
            &&& f.buffer == e.buffer
            &&& !f.caches.overlay_cache.valid
        }),
        e.step(Message::ImeOpened).ime_preedit is None,
        e.step(Message::ImeClosed).ime_preedit is None,
        !e.step(Message::ImeOpened).caches.overlay_cache.valid,
        !e.step(Message::ImeClosed).caches.overlay_cache.valid,
{
    reveal(Editor::view_step);
}

/// A commit ends what an input method shows.
pub proof fn law_a_commit_ends_what_is_shown(e: Editor, text: String)
    ensures
        e.step(Message::ImeCommit(text)).ime_preedit is None,
        text@.len() == 0 ==> e.step(Message::ImeCommit(text)).buffer == e.buffer
            && e.step(Message::ImeCommit(text)).cursors == e.cursors,
{
    reveal(Editor::edit_step);
}

/// A scroll is remembered as it is. When the visible part comes nearer than half a screen to an
/// end of the window, but for the start of the text, or when the size changes, the window is
/// placed anew, reaching two screens above and below, and everything is drawn again; else the
/// window and the drawings stay. (The lines must be countable.)
pub proof fn law_the_window_follows_the_scroll(e: Editor, v: ScrollViewport)
    requires
        v.countable(),
        e.layout.cache_window_start_line + v.lines_in_view < usize::MAX,
    ensures
        ({
            let f = e.step(Message::Scrolled(v));
            let screen = v.lines_in_view + 2;
            let (first, last) = (v.first_visible_line, v.first_visible_line + screen);
            let (start, end) = (e.layout.cache_window_start_line, e.layout.cache_window_end_line);
            let inside = start < end && (start == 0 || start + screen / 2 <= first) && last
                + screen / 2 <= end;
            let placed = v.size_changed || (v.scroll_changed && !inside);
            &&& f.layout.viewport_scroll == v.scroll
            &&& f.layout.viewport_height == v.height
            &&& f.layout.viewport_width == v.width
            &&& f.layout.page_lines == e.layout.page_lines
            &&& f.layout.horizontal_scroll_offset == e.layout.horizontal_scroll_offset
            &&& placed ==> {
                &&& f.layout.cache_window_start_line == (if first >= 2 * screen {
                    first - 2 * screen
                } else {
                    0
                })
                &&& f.layout.cache_window_end_line == last + 2 * screen
                &&& f.layout.last_first_visible_line == first
                &&& !f.caches.content_cache.valid
                &&& !f.caches.overlay_cache.valid
            }
            &&& !placed ==> {
                &&& f.layout.cache_window_start_line == start
                &&& f.layout.cache_window_end_line == end
                &&& f.layout.last_first_visible_line == e.layout.last_first_visible_line
                &&& f.caches == e.caches
            }
        }),
{
    lemma_step_scrolled(e, v);
}

/// A noticeable scroll sideways is remembered, and everything is drawn again; any other changes
/// nothing.
pub proof fn law_a_scroll_sideways_is_remembered(e: Editor, v: HorizontalViewport)
    ensures
        ({
            let f = e.step(Message::HorizontalScrolled(v));
            &&& v.changed ==> {
                &&& f.layout == (Layout { horizontal_scroll_offset: v.offset, ..e.layout })
                &&& !f.caches.content_cache.valid
                &&& !f.caches.overlay_cache.valid
            }
            &&& !v.changed ==> f == e
        }),
{
    reveal(Editor::view_step);
}

/// A new editor holds the text that it was given, with a single bare caret at its start, nothing
/// to undo or to redo, and nothing modified; its dialog is closed and empty, and it has no focus.
pub proof fn law_a_new_editor_holds_its_text(content: Seq<char>, syntax: Seq<char>)
    ensures
        ({
            let e = Editor::fresh(content, syntax);
            &&& flat(e.buffer) == content
            &&& no_breaks(e.buffer)
            &&& e.cursors.list == seq![Cursor { position: (0, 0), anchor: None }]
            &&& e.cursors.primary == 0
            &&& e.history.undo.len() == 0 && e.history.redo.len() == 0
            &&& e.history.open is None
            &&& e.history.saved == Some(0int)
            &&& !e.history.modified()
            &&& e.history.max_size > 0
            &&& !e.search.is_open && e.search.query.len() == 0 && e.search.matches.len() == 0
            &&& !e.focus.is_focused && !e.focus.has_canvas_focus
            &&& !e.is_dragging && !e.is_grouping
            &&& e.ime_preedit is None
            &&& e.syntax == syntax
        }),
{
    law_lines_hold_their_text(Seq::empty(), content);
    law_cut_lines_hold_no_breaks(content);
}

} // verus!
