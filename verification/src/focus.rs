//! Gaining and losing the focus, input methods, and the blinking caret.
use vstd::prelude::*;

use crate::editor::{CURSOR_BLINK_INTERVAL, CodeEditor, Editor, FocusState, ImePreedit, Preedit};
use crate::message::{Action, Reply};

verus! {

impl Editor {
    /// The canvas gained the focus.
    pub open spec fn focus_gained(self) -> Editor {
        Editor {
            focus: FocusState {
                has_canvas_focus: true,
                focus_locked: false,
                show_cursor: true,
                ..self.focus
            },
            ..self
        }.blink_reset().overlay_cleared()
    }

    /// The canvas lost the focus.
    pub open spec fn focus_lost(self) -> Editor {
        Editor {
            focus: FocusState {
                has_canvas_focus: false,
                focus_locked: true,
                show_cursor: false,
                ..self.focus
            },
            ime_preedit: None,
            ..self
        }.overlay_cleared()
    }

    /// An input method shows nothing.
    pub open spec fn preedit_cleared(self) -> Editor {
        Editor { ime_preedit: None, ..self }.overlay_cleared()
    }

    /// An input method shows a text; an empty one is none.
    pub open spec fn preedit_shown(
        self,
        content: Seq<char>,
        selection: Option<std::ops::Range<usize>>,
    ) -> Editor {
        Editor {
            ime_preedit: if content.len() == 0 {
                None
            } else {
                Some(Preedit { content, selection })
            },
            ..self
        }.overlay_cleared()
    }

    /// An input method committed a text: it is pasted as part of what is being typed.
    pub open spec fn committed(self, text: Seq<char>) -> Editor {
        let e = Editor { ime_preedit: None, ..self };
        if text.len() == 0 {
            e.overlay_cleared()
        } else {
            e.grouping_started("Typing"@).pasted(text).edit_finished()
        }
    }

    /// What a commit asks for.
    pub open spec fn commit_reply(self, text: Seq<char>) -> Reply {
        if text.len() == 0 {
            Reply::Nothing
        } else {
            Reply::ScrollToCursor
        }
    }

    /// It is time for the caret to change between visible and hidden.
    pub open spec fn blink_due(self) -> bool {
        self.focused() && self.focus.clock - self.focus.last_blink >= CURSOR_BLINK_INTERVAL
    }

    /// A tick of the clock: the caret blinks if it is time to, and is hidden without focus.
    pub open spec fn ticked(self) -> Editor {
        let e = if self.blink_due() {
            Editor {
                focus: FocusState {
                    cursor_visible: !self.focus.cursor_visible,
                    last_blink: self.focus.clock,
                    ..self.focus
                },
                ..self
            }.overlay_cleared()
        } else {
            self
        };
        if e.focused() {
            e
        } else {
            Editor { focus: FocusState { show_cursor: false, ..e.focus }, ..e }
        }
    }
}

impl CodeEditor {
    /// Handles canvas focus gained event.
    pub fn handle_canvas_focus_gained_msg(&mut self) -> (r: Action)
        ensures
            final(self)@ == old(self)@.focus_gained(),
            r@ == Reply::Nothing,
    {
        self.focus.has_canvas_focus = true;
        self.focus.focus_locked = false;
        self.focus.show_cursor = true;
        self.reset_cursor_blink();
        self.caches.overlay_cache.clear();
        Action::Nothing
    }

    /// Handles canvas focus lost event. The focus is locked so that it is not taken back.
    pub fn handle_canvas_focus_lost_msg(&mut self) -> (r: Action)
        ensures
            final(self)@ == old(self)@.focus_lost(),
            r@ == Reply::Nothing,
    {
        self.focus.has_canvas_focus = false;
        self.focus.focus_locked = true;
        self.focus.show_cursor = false;
        self.ime_preedit = None;
        self.caches.overlay_cache.clear();
        Action::Nothing
    }

    /// Handles input method opened event: clears current preedit content to accept new input.
    pub fn handle_ime_opened_msg(&mut self) -> (r: Action)
        ensures
            final(self)@ == old(self)@.preedit_cleared(),
            r@ == Reply::Nothing,
    {
        self.ime_preedit = None;
        self.caches.overlay_cache.clear();
        Action::Nothing
    }

    /// Handles input method preedit event: updates the preedit text and selection while the
    /// user is composing.
    pub fn handle_ime_preedit_msg(
        &mut self,
        content: &str,
        selection: &Option<std::ops::Range<usize>>,
    ) -> (r: Action)
        ensures
            final(self)@ == old(self)@.preedit_shown(content@, *selection),
            r@ == Reply::Nothing,
    {
        if content.unicode_len() == 0 {
            self.ime_preedit = None;
        } else {
            let selection = match selection {
                Some(range) => Some(std::ops::Range { start: range.start, end: range.end }),
                None => None,
            };
            self.ime_preedit = Some(ImePreedit { content: content.to_owned(), selection });
        }
        self.caches.overlay_cache.clear();
        Action::Nothing
    }

    /// Handles input method commit event: inserts the committed text at every cursor.
    pub fn handle_ime_commit_msg(&mut self, text: &str) -> (r: Action)
        requires
            old(self).wf(),
        ensures
            final(self)@ == old(self)@.committed(text@),
            final(self).wf(),
            r@ == old(self)@.commit_reply(text@),
    {
        self.ime_preedit = None;
        if text.unicode_len() == 0 {
            self.caches.overlay_cache.clear();
            return Action::Nothing;
        }
        self.ensure_grouping_started("Typing");
        self.paste_text(text);
        self.finish_edit_operation();
        Action::ScrollToCursor
    }

    /// Handles input method closed event: clears preedit state to return to normal input mode.
    pub fn handle_ime_closed_msg(&mut self) -> (r: Action)
        ensures
            final(self)@ == old(self)@.preedit_cleared(),
            r@ == Reply::Nothing,
    {
        self.ime_preedit = None;
        self.caches.overlay_cache.clear();
        Action::Nothing
    }

    /// Handles cursor blink tick event: updates cursor visibility for the blinking animation.
    pub fn handle_tick_msg(&mut self) -> (r: Action)
        ensures
            final(self)@ == old(self)@.ticked(),
            r@ == Reply::Nothing,
    {
        if self.has_focus() && self.focus.clock.saturating_sub(self.focus.last_blink)
            >= CURSOR_BLINK_INTERVAL {
            self.focus.cursor_visible = !self.focus.cursor_visible;
            self.focus.last_blink = self.focus.clock;
            self.caches.overlay_cache.clear();
        }
        if !self.has_focus() {
            self.focus.show_cursor = false;
        }
        Action::Nothing
    }
}

} // verus!
