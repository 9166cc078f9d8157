//! The mouse: placing the caret and selecting.
use vstd::prelude::*;

use crate::cursor_set::{Cursor, Cursors};
use crate::editor::{CodeEditor, Editor, FocusState};
use crate::message::{Action, Reply};
use crate::position::{same_position, Position};

verus! {

impl Cursors {
    /// Anchors that stand at their caret dropped.
    pub open spec fn settled(self) -> Cursors {
        Cursors {
            list: self.list.map_values(
                |c: Cursor|
                    if c.anchor == Some(c.position) {
                        c.unanchored()
                    } else {
                        c
                    },
            ),
            primary: self.primary,
        }
    }
}

impl Editor {
    /// The primary caret under the pointer, if there is text under it.
    pub open spec fn pointed(self, hit: Option<Position>) -> Editor {
        match hit {
            Some(position) => Editor {
                cursors: self.cursors.primary_moved(position),
                ..self
            }.overlay_cleared(),
            None => self,
        }
    }

    /// The mouse clicked: the editor takes the focus, and a single cursor stands where the
    /// selection may start.
    pub open spec fn clicked(self, hit: Option<Position>) -> Editor {
        let e = Editor {
            focus: FocusState { is_focused: true, has_canvas_focus: true, ..self.focus },
            ..self
        }.grouping_ended();
        Editor { cursors: e.cursors.only_primary(), ..e }.pointed(
            hit,
        ).blink_reset().selection_cleared().selection_started()
    }

    /// The caret is shown, and a selection starts at the primary caret.
    pub open spec fn selection_started(self) -> Editor {
        let position = self.cursors.primary_cursor().position;
        Editor {
            cursors: self.cursors.with_primary(Cursor { position, anchor: Some(position) }),
            is_dragging: true,
            focus: FocusState { show_cursor: true, ..self.focus },
            ..self
        }
    }

    /// The mouse moved: the selection follows it while it is being made.
    pub open spec fn dragged(self, hit: Option<Position>) -> Editor {
        match hit {
            Some(position) if self.is_dragging && position
                != self.cursors.primary_cursor().position => self.pointed(hit),
            _ => self,
        }
    }

    /// The mouse button released: a click that selected nothing leaves a bare caret.
    pub open spec fn released(self) -> Editor {
        Editor { is_dragging: false, cursors: self.cursors.settled(), ..self }
    }
}

impl CodeEditor {
    /// Puts the primary caret under the pointer.
    pub fn handle_mouse_click(&mut self, hit: Option<Position>)
        requires
            old(self).wf(),
        ensures
            final(self)@ == old(self)@.pointed(hit),
            final(self).wf(),
    {
        if let Some(position) = hit {
            self.cursors.move_primary(position);
            self.caches.overlay_cache.clear();
        }
    }

    /// Moves the primary caret under the pointer while its anchor stays.
    pub fn handle_mouse_drag(&mut self, hit: Option<Position>)
        requires
            old(self).wf(),
        ensures
            final(self)@ == (match hit {
                Some(position) => Editor {
                    cursors: old(self)@.cursors.primary_moved(position),
                    ..old(self)@
                },
                None => old(self)@,
            }),
            final(self).wf(),
    {
        if let Some(position) = hit {
            self.cursors.move_primary(position);
        }
    }

    /// Shows the caret and starts a selection at the primary caret.
    pub fn start_selection(&mut self)
        requires
            old(self).wf(),
        ensures
            final(self)@ == old(self)@.selection_started(),
            final(self).wf(),
    {
        self.is_dragging = true;
        self.cursors.primary_mut().set_anchor();
        self.focus.show_cursor = true;
    }

    /// Handles mouse click: sets focus, ends command grouping, collapses the cursors to one,
    /// positions it, and starts selection tracking.
    pub fn handle_mouse_click_msg(&mut self, hit: Option<Position>) -> (r: Action)
        requires
            old(self).wf(),
        ensures
            final(self)@ == old(self)@.clicked(hit),
            final(self).wf(),
            r@ == Reply::Nothing,
    {
        self.request_focus();
        self.focus.has_canvas_focus = true;
        self.end_grouping_if_active();
        self.cursors.remove_all_but_primary();
        self.handle_mouse_click(hit);
        self.reset_cursor_blink();
        self.clear_selection();
        self.start_selection();
        Action::Nothing
    }

    /// Handles mouse drag for selection. The cursors are drawn again only if the selection
    /// changed.
    pub fn handle_mouse_drag_msg(&mut self, hit: Option<Position>) -> (r: Action)
        requires
            old(self).wf(),
        ensures
            final(self)@ == old(self)@.dragged(hit),
            final(self).wf(),
            r@ == Reply::Nothing,
    {
        if self.is_dragging {
            let before_pos = self.cursors.primary_position();
            self.handle_mouse_drag(hit);
            if !same_position(self.cursors.primary_position(), before_pos) {
                self.caches.overlay_cache.clear();
            }
            assert(old(self)@.cursors.primary_moved(before_pos) =~= old(self)@.cursors);
        }
        Action::Nothing
    }

    /// Handles mouse release: ends selection tracking, and drops every anchor that equals the
    /// position of its cursor.
    pub fn handle_mouse_release_msg(&mut self) -> (r: Action)
        requires
            old(self).wf(),
        ensures
            final(self)@ == old(self)@.released(),
            final(self).wf(),
            r@ == Reply::Nothing,
    {
        self.is_dragging = false;
        let ghost start = self.cursors@;
        let ghost rest = self@;
        let mut i: usize = 0;
        while i < self.cursors.len()
            invariant
                i <= self.cursors@.list.len(),
                start.wf(),
                self.cursors@.list.len() == start.list.len(),
                self.cursors@.primary == start.primary,
                self@ == (Editor { cursors: self.cursors@, ..rest }),
                forall|k: int| i <= k < start.list.len() ==> self.cursors@.list[k] == start.list[k],
                forall|k: int|
                    0 <= k < i ==> #[trigger] self.cursors@.list[k] == start.settled().list[k],
            decreases self.cursors@.list.len() - i,
        {
            let mut cursor = self.cursors.get(i);
            if let Some(a) = cursor.anchor {
                if same_position(a, cursor.position) {
                    cursor.clear_anchor();
                }
            }
            self.cursors.set(i, cursor);
            i += 1;
        }
        assert(self.cursors@ =~= start.settled());
        Action::Nothing
    }
}

} // verus!
