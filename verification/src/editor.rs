//! The state of an editor, and the steps that its message handlers share.
use vstd::prelude::*;

use crate::command::Edit;
use crate::cursor_set::{CursorSet, Cursors};
use crate::history::{CommandHistory, Past};
use crate::message::{IndentStyle, Pixels};
use crate::position::Position;
use crate::search::{Search, SearchState};
use crate::text_buffer::{split_lines, TextBuffer};

verus! {

/// How long a caret stays visible or hidden while it blinks, in milliseconds.
pub const CURSOR_BLINK_INTERVAL: u64 = 530;

/// Entries that the history of a new editor keeps at most.
pub const HISTORY_SIZE: usize = 100;

/// Lines that Page Up and Page Down move by in a new editor.
pub const PAGE_LINES: usize = 30;

/// The bits of 20.0: the line height of a new editor, in pixels.
pub const LINE_HEIGHT_BITS: u32 = 0x41a0_0000;

/// The bits of 600.0: the viewport height of a new editor, in pixels.
pub const VIEWPORT_HEIGHT_BITS: u32 = 0x4416_0000;

/// The bits of 800.0: the viewport width of a new editor, in pixels.
pub const VIEWPORT_WIDTH_BITS: u32 = 0x4448_0000;

/// Whether a drawing that the canvas keeps can still be shown.
#[derive(Clone, Copy, Debug, PartialEq, Eq)]
pub struct RenderCache {
    pub valid: bool,
}

impl RenderCache {
    /// The drawing must be made again.
    pub fn clear(&mut self)
        ensures
            *final(self) == (RenderCache { valid: false }),
    {
        self.valid = false;
    }

    /// The drawing was made.
    pub fn fill(&mut self)
        ensures
            *final(self) == (RenderCache { valid: true }),
    {
        self.valid = true;
    }
}

/// For which text the wrapped lines that the canvas keeps were laid out.
#[derive(Clone, Copy, Debug, PartialEq, Eq)]
pub struct VisualLinesKey {
    pub buffer_revision: u64,
}

/// What is to be sent to a language server.
#[derive(Clone, Copy, Debug, PartialEq, Eq)]
pub struct LspOutbox {
    /// The text was changed.
    pub change_pending: bool,
    /// Changes are to be sent at once.
    pub flush: bool,
    /// Completions are to be asked for.
    pub completion: bool,
}

/// A text that an input method shows before it is committed.
#[derive(Debug)]
pub struct ImePreedit {
    pub content: String,
    /// Selected range, in bytes.
    pub selection: Option<std::ops::Range<usize>>,
}

/// What an input method shows: the text, and the range of bytes that is selected in it.
pub struct Preedit {
    pub content: Seq<char>,
    pub selection: Option<std::ops::Range<usize>>,
}

/// Who has the focus, and how the caret blinks.
#[derive(Clone, Copy, Debug, PartialEq, Eq)]
pub struct FocusState {
    /// Of all editors, this one was asked to take the focus last.
    pub is_focused: bool,
    /// The canvas has the focus.
    pub has_canvas_focus: bool,
    /// The focus was lost and may not be taken back unasked.
    pub focus_locked: bool,
    /// A caret is drawn at all.
    pub show_cursor: bool,
    /// The caret is drawn at this moment of its blinking.
    pub cursor_visible: bool,
    /// What the clock showed when it was read last, in milliseconds.
    pub clock: u64,
    /// What the clock showed when the caret last changed between visible and hidden.
    pub last_blink: u64,
}

/// What was laid out and drawn, and for which state of the text.
#[derive(Clone, Copy, Debug, PartialEq, Eq)]
pub struct Caches {
    /// Changes with every change of the text.
    pub buffer_revision: u64,
    /// Set while wrapped lines are kept.
    pub visual_lines_cache: Option<VisualLinesKey>,
    /// The drawing of the text.
    pub content_cache: RenderCache,
    /// The drawing of the cursors and selections.
    pub overlay_cache: RenderCache,
}

/// Which part of the text is visible.
#[derive(Clone, Copy, Debug, PartialEq, Eq)]
pub struct Layout {
    /// Long lines are wrapped.
    pub wrap_enabled: bool,
    /// First line of the drawing of the text.
    pub cache_window_start_line: usize,
    /// Line after the last one of the drawing of the text.
    pub cache_window_end_line: usize,
    /// First visible line when the drawing was placed.
    pub last_first_visible_line: usize,
    /// Lines that Page Up and Page Down move by.
    pub page_lines: usize,
    pub viewport_scroll: Pixels,
    pub viewport_height: Pixels,
    pub viewport_width: Pixels,
    pub horizontal_scroll_offset: Pixels,
    pub line_height: Pixels,
}

/// How lines are indented.
#[derive(Clone, Copy, Debug, PartialEq, Eq)]
pub struct Indenting {
    /// What the Tab key inserts.
    pub style: IndentStyle,
    /// Enter repeats the indentation of its line.
    pub auto_indent_enabled: bool,
}

/// What an editor holds.
pub struct Editor {
    pub buffer: Seq<Seq<char>>,
    pub cursors: Cursors,
    pub history: Past,
    pub search: Search,
    pub is_grouping: bool,
    pub is_dragging: bool,
    pub ime_preedit: Option<Preedit>,
    pub focus: FocusState,
    pub caches: Caches,
    pub layout: Layout,
    pub indenting: Indenting,
    pub lsp: LspOutbox,
    pub syntax: Seq<char>,
}

impl Editor {
    /// There is a line and a primary cursor, the commands of the history are well-formed, and
    /// the current match is one of the matches.
    pub open spec fn wf(self) -> bool {
        &&& self.buffer.len() > 0
        &&& self.cursors.wf()
        &&& self.history.wf()
        &&& self.search.wf()
    }

    /// Typing goes to this editor.
    pub open spec fn focused(self) -> bool {
        self.focus.is_focused && self.focus.has_canvas_focus && !self.focus.focus_locked
    }

    /// The history belongs to the text.
    pub open spec fn coherent(self) -> bool {
        self.history.coherent(self.buffer)
    }

    /// The caret is shown, and blinks anew.
    pub open spec fn blink_reset(self) -> Editor {
        Editor {
            focus: FocusState {
                last_blink: self.focus.clock,
                cursor_visible: true,
                ..self.focus
            },
            ..self
        }
    }

    /// The cursors and what lies over the text are drawn again.
    pub open spec fn overlay_cleared(self) -> Editor {
        Editor {
            caches: Caches { overlay_cache: RenderCache { valid: false }, ..self.caches },
            ..self
        }
    }

    /// The matches are found again while a query is being searched for.
    pub open spec fn search_refreshed(self) -> Editor {
        if self.search.is_open && self.search.query.len() > 0 {
            Editor { search: self.search.updated(self.buffer), ..self }
        } else {
            self
        }
    }

    /// What follows every change of the text.
    pub open spec fn edit_finished(self) -> Editor {
        let e = self.blink_reset().search_refreshed();
        Editor {
            caches: Caches {
                buffer_revision: e.caches.buffer_revision.wrapping_add(1),
                visual_lines_cache: None,
                content_cache: RenderCache { valid: false },
                overlay_cache: RenderCache { valid: false },
            },
            lsp: LspOutbox { change_pending: true, ..e.lsp },
            ..e
        }
    }

    /// What follows every movement of the cursors.
    pub open spec fn navigation_finished(self) -> Editor {
        self.blink_reset().overlay_cleared()
    }

    /// A group of commands is open.
    pub open spec fn grouping_started(self, label: Seq<char>) -> Editor {
        if self.is_grouping {
            self
        } else {
            Editor { history: self.history.begun(label), is_grouping: true, ..self }
        }
    }

    /// The group of commands that the editor opened is closed.
    pub open spec fn grouping_ended(self) -> Editor {
        if self.is_grouping {
            Editor { history: self.history.ended(), is_grouping: false, ..self }
        } else {
            self
        }
    }

    /// No cursor selects anything.
    pub open spec fn selection_cleared(self) -> Editor {
        Editor { cursors: self.cursors.unanchored(), ..self }
    }

    /// The primary caret elsewhere, and no cursor selects anything.
    pub open spec fn caret_placed(self, position: Position) -> Editor {
        Editor { cursors: self.cursors.primary_moved(position).unanchored(), ..self }
    }

    /// A command executed and recorded.
    pub open spec fn ran(self, edit: Edit) -> Editor {
        Editor {
            buffer: edit.result(self.buffer),
            history: self.history.recorded_edit(edit.on(self.buffer)),
            ..self
        }
    }

    /// An editor as it is made.
    pub open spec fn fresh(content: Seq<char>, syntax: Seq<char>) -> Editor {
        Editor {
            buffer: split_lines(content),
            cursors: Cursors::single((0, 0)),
            history: Past::empty(HISTORY_SIZE as int),
            search: Search::closed_dialog(),
            is_grouping: false,
            is_dragging: false,
            ime_preedit: None,
            focus: FocusState {
                is_focused: false,
                has_canvas_focus: false,
                focus_locked: false,
                show_cursor: false,
                cursor_visible: true,
                clock: 0,
                last_blink: 0,
            },
            caches: Caches {
                buffer_revision: 0,
                visual_lines_cache: None,
                content_cache: RenderCache { valid: false },
                overlay_cache: RenderCache { valid: false },
            },
            layout: Layout {
                wrap_enabled: true,
                cache_window_start_line: 0,
                cache_window_end_line: 0,
                last_first_visible_line: 0,
                page_lines: PAGE_LINES,
                viewport_scroll: Pixels { bits: 0 },
                viewport_height: Pixels { bits: VIEWPORT_HEIGHT_BITS },
                viewport_width: Pixels { bits: VIEWPORT_WIDTH_BITS },
                horizontal_scroll_offset: Pixels { bits: 0 },
                line_height: Pixels { bits: LINE_HEIGHT_BITS },
            },
            indenting: Indenting { style: IndentStyle::Spaces(4), auto_indent_enabled: true },
            lsp: LspOutbox { change_pending: false, flush: false, completion: false },
            syntax,
        }
    }
}

/// A code editor: its text, cursors, history and search, and what its view needs to know.
pub struct CodeEditor {
    pub buffer: TextBuffer,
    pub cursors: CursorSet,
    pub history: CommandHistory,
    pub search_state: SearchState,
    /// Commands are being grouped for undo.
    pub is_grouping: bool,
    /// A selection is being made with the mouse.
    pub is_dragging: bool,
    /// What an input method shows.
    pub ime_preedit: Option<ImePreedit>,
    pub focus: FocusState,
    pub caches: Caches,
    pub layout: Layout,
    pub indenting: Indenting,
    /// What is to be sent to a language server.
    pub lsp: LspOutbox,
    /// Extension or name of the language.
    pub syntax: String,
}

impl View for CodeEditor {
    type V = Editor;

    open spec fn view(&self) -> Editor {
        Editor {
            buffer: self.buffer@,
            cursors: self.cursors@,
            history: self.history@,
            search: self.search_state@,
            is_grouping: self.is_grouping,
            is_dragging: self.is_dragging,
            ime_preedit: match self.ime_preedit {
                Some(p) => Some(Preedit { content: p.content@, selection: p.selection }),
                None => None,
            },
            focus: self.focus,
            caches: self.caches,
            layout: self.layout,
            indenting: self.indenting,
            lsp: self.lsp,
            syntax: self.syntax@,
        }
    }
}

impl CodeEditor {
    /// There is a line and a primary cursor, the commands of the history are well-formed, and
    /// the current match is one of the matches.
    pub open spec fn wf(self) -> bool {
        self@.wf()
    }

    /// Creates an editor with a text and the extension or name of its language.
    pub fn new(content: &str, syntax: &str) -> (r: Self)
        ensures
            r@ == Editor::fresh(content@, syntax@),
            r.wf(),
    {
        let r = CodeEditor {
            buffer: TextBuffer::new(content),
            cursors: CursorSet::new((0, 0)),
            history: CommandHistory::new(HISTORY_SIZE),
            search_state: SearchState::new(),
            is_grouping: false,
            is_dragging: false,
            ime_preedit: None,
            focus: FocusState {
                is_focused: false,
                has_canvas_focus: false,
                focus_locked: false,
                show_cursor: false,
                cursor_visible: true,
                clock: 0,
                last_blink: 0,
            },
            caches: Caches {
                buffer_revision: 0,
                visual_lines_cache: None,
                content_cache: RenderCache { valid: false },
                overlay_cache: RenderCache { valid: false },
            },
            layout: Layout {
                wrap_enabled: true,
                cache_window_start_line: 0,
                cache_window_end_line: 0,
                last_first_visible_line: 0,
                page_lines: PAGE_LINES,
                viewport_scroll: Pixels { bits: 0 },
                viewport_height: Pixels { bits: VIEWPORT_HEIGHT_BITS },
                viewport_width: Pixels { bits: VIEWPORT_WIDTH_BITS },
                horizontal_scroll_offset: Pixels { bits: 0 },
                line_height: Pixels { bits: LINE_HEIGHT_BITS },
            },
            indenting: Indenting { style: IndentStyle::Spaces(4), auto_indent_enabled: true },
            lsp: LspOutbox { change_pending: false, flush: false, completion: false },
            syntax: syntax.to_owned(),
        };
        r
    }

    /// Tells whether typing goes to this editor.
    pub fn has_focus(&self) -> (r: bool)
        ensures
            r == self@.focused(),
    {
        self.focus.is_focused && self.focus.has_canvas_focus && !self.focus.focus_locked
    }

    /// Takes the focus from all other editors.
    pub fn request_focus(&mut self)
        ensures
            final(self)@ == (Editor {
                focus: FocusState { is_focused: true, ..old(self)@.focus },
                ..old(self)@
            }),
    {
        self.focus.is_focused = true;
    }

    /// Another editor took the focus.
    pub fn release_focus(&mut self)
        ensures
            final(self)@ == (Editor {
                focus: FocusState { is_focused: false, ..old(self)@.focus },
                ..old(self)@
            }),
    {
        self.focus.is_focused = false;
    }

    /// Allows the focus to be taken again.
    pub fn reset_focus_lock(&mut self)
        ensures
            final(self)@ == (Editor {
                focus: FocusState { focus_locked: false, ..old(self)@.focus },
                ..old(self)@
            }),
    {
        self.focus.focus_locked = false;
    }

    /// Takes over what the clock shows, in milliseconds.
    pub fn set_clock(&mut self, clock: u64)
        ensures
            final(self)@ == (Editor {
                focus: FocusState { clock, ..old(self)@.focus },
                ..old(self)@
            }),
    {
        self.focus.clock = clock;
    }

    /// Takes over how many lines make a page.
    pub fn set_page_lines(&mut self, page_lines: usize)
        ensures
            final(self)@ == (Editor {
                layout: Layout { page_lines, ..old(self)@.layout },
                ..old(self)@
            }),
    {
        self.layout.page_lines = page_lines;
    }

    /// Turns wrapping of long lines on or off. Wrapped lines are not scrolled sideways.
    pub fn set_wrap_enabled(&mut self, enabled: bool)
        ensures
            final(self)@ == (if old(self)@.layout.wrap_enabled == enabled {
                old(self)@
            } else {
                Editor {
                    layout: Layout {
                        wrap_enabled: enabled,
                        horizontal_scroll_offset: if enabled {
                            Pixels { bits: 0 }
                        } else {
                            old(self)@.layout.horizontal_scroll_offset
                        },
                        ..old(self)@.layout
                    },
                    caches: Caches {
                        buffer_revision: old(self)@.caches.buffer_revision,
                        visual_lines_cache: None,
                        content_cache: RenderCache { valid: false },
                        overlay_cache: RenderCache { valid: false },
                    },
                    ..old(self)@
                }
            }),
    {
        if self.layout.wrap_enabled != enabled {
            self.layout.wrap_enabled = enabled;
            if enabled {
                self.layout.horizontal_scroll_offset = Pixels { bits: 0 };
            }
            self.caches.visual_lines_cache = None;
            self.caches.content_cache.clear();
            self.caches.overlay_cache.clear();
        }
    }

    /// Notes that wrapped lines were laid out for the present text.
    pub fn visual_lines_cached(&mut self)
        ensures
            final(self)@ == (Editor {
                caches: Caches {
                    visual_lines_cache: Some(
                        VisualLinesKey { buffer_revision: old(self)@.caches.buffer_revision },
                    ),
                    ..old(self)@.caches
                },
                ..old(self)@
            }),
    {
        let buffer_revision = self.caches.buffer_revision;
        self.caches.visual_lines_cache = Some(VisualLinesKey { buffer_revision });
    }

    /// Hands out what is to be sent to a language server, and keeps nothing of it.
    pub fn take_lsp_requests(&mut self) -> (r: LspOutbox)
        ensures
            r == old(self)@.lsp,
            final(self)@ == (Editor {
                lsp: LspOutbox { change_pending: false, flush: false, completion: false },
                ..old(self)@
            }),
    {
        let r = self.lsp;
        self.lsp = LspOutbox { change_pending: false, flush: false, completion: false };
        r
    }

    /// Shows the caret and lets it blink anew.
    pub fn reset_cursor_blink(&mut self)
        ensures
            final(self)@ == old(self)@.blink_reset(),
    {
        self.focus.last_blink = self.focus.clock;
        self.focus.cursor_visible = true;
    }

    /// Finds the matches again while a query is being searched for.
    pub fn refresh_search_matches_if_needed(&mut self)
        requires
            old(self).wf(),
        ensures
            final(self)@ == old(self)@.search_refreshed(),
            final(self).wf(),
    {
        if self.search_state.is_open && self.search_state.query.as_str().unicode_len() > 0 {
            self.search_state.update_matches(&self.buffer);
        }
    }

    /// Notes that the text was changed, for a language server.
    pub fn enqueue_lsp_change(&mut self)
        ensures
            final(self)@ == (Editor {
                lsp: LspOutbox { change_pending: true, ..old(self)@.lsp },
                ..old(self)@
            }),
    {
        self.lsp.change_pending = true;
    }

    /// Performs common cleanup after the text was changed: the caret blinks anew, the matches
    /// of an active search are found again, the revision changes, and everything that was laid
    /// out or drawn for the former text is given up.
    pub fn finish_edit_operation(&mut self)
        requires
            old(self).wf(),
        ensures
            final(self)@ == old(self)@.edit_finished(),
            final(self).wf(),
    {
        self.reset_cursor_blink();
        self.refresh_search_matches_if_needed();
        self.caches.buffer_revision = self.caches.buffer_revision.wrapping_add(1);
        self.caches.visual_lines_cache = None;
        self.caches.content_cache.clear();
        self.caches.overlay_cache.clear();
        self.enqueue_lsp_change();
    }

    /// Performs common cleanup after the cursors were moved: the caret blinks anew, and the
    /// cursors are drawn again. The drawing of the text stays.
    pub fn finish_navigation_operation(&mut self)
        ensures
            final(self)@ == old(self)@.navigation_finished(),
    {
        self.reset_cursor_blink();
        self.caches.overlay_cache.clear();
    }

    /// Starts command grouping with the given label if not already grouping.
    pub fn ensure_grouping_started(&mut self, label: &str)
        requires
            old(self).wf(),
        ensures
            final(self)@ == old(self)@.grouping_started(label@),
            final(self).wf(),
    {
        if !self.is_grouping {
            self.history.begin_group(label);
            self.is_grouping = true;
        }
    }

    /// Ends command grouping if currently active.
    pub fn end_grouping_if_active(&mut self)
        requires
            old(self).wf(),
        ensures
            final(self)@ == old(self)@.grouping_ended(),
            final(self).wf(),
    {
        if self.is_grouping {
            self.history.end_group();
            self.is_grouping = false;
        }
    }

    /// Has the cursors drawn again.
    pub fn clear_overlay(&mut self)
        ensures
            final(self)@ == old(self)@.overlay_cleared(),
    {
        self.caches.overlay_cache.clear();
    }

    /// Puts the primary caret elsewhere and drops every selection.
    pub fn place_caret(&mut self, position: Position)
        requires
            old(self).wf(),
        ensures
            final(self)@ == old(self)@.caret_placed(position),
            final(self).wf(),
    {
        self.cursors.move_primary(position);
        self.cursors.clear_anchors();
    }

    /// Drops every selection.
    pub fn clear_selection(&mut self)
        requires
            old(self).wf(),
        ensures
            final(self)@ == old(self)@.selection_cleared(),
            final(self).wf(),
    {
        self.cursors.clear_anchors();
    }
}

} // verus!
