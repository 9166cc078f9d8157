//! Scrolling, and the window of lines that is kept drawn.
use vstd::prelude::*;

use crate::editor::{Caches, CodeEditor, Editor, Layout, RenderCache};
use crate::message::{Action, HorizontalViewport, Reply, ScrollViewport};
use crate::position::capped;

verus! {

/// How many screens of lines are kept drawn above and below the visible part.
pub const CACHE_WINDOW_MARGIN_MULTIPLIER: usize = 2;

/// The larger of a difference and zero.
pub open spec fn at_least_zero(n: int) -> int {
    if n < 0 {
        0
    } else {
        n
    }
}

impl ScrollViewport {
    /// Lines that count as visible: those in view, and the two that its edges cut.
    pub open spec fn visible_lines_count(self) -> usize {
        capped(self.lines_in_view + 2)
    }

    /// Line after the last visible one.
    pub open spec fn last_visible_line(self) -> usize {
        capped(self.first_visible_line + self.visible_lines_count())
    }

    /// Lines kept drawn above and below the visible part.
    pub open spec fn margin(self) -> usize {
        capped(self.visible_lines_count() * CACHE_WINDOW_MARGIN_MULTIPLIER)
    }

    /// First line of the window round the visible part.
    pub open spec fn window_start(self) -> usize {
        at_least_zero(self.first_visible_line - self.margin()) as usize
    }

    /// Line after the last one of the window round the visible part.
    pub open spec fn window_end(self) -> usize {
        capped(self.last_visible_line() + self.margin())
    }
}

impl Editor {
    /// The visible part comes nearer than half a screen to an end of the window; at the start of
    /// the text the window cannot reach further. Without a window there is always need of one.
    pub open spec fn needs_rewindow(self, v: ScrollViewport) -> bool {
        let half = v.visible_lines_count() / 2;
        if self.layout.cache_window_end_line > self.layout.cache_window_start_line {
            ||| self.layout.cache_window_start_line > 0 && v.first_visible_line < capped(
                self.layout.cache_window_start_line + half,
            )
            ||| v.last_visible_line() > at_least_zero(self.layout.cache_window_end_line - half)
        } else {
            true
        }
    }

    /// The window is placed anew: after a change of size, and when a scroll needs it.
    pub open spec fn rewindows(self, v: ScrollViewport) -> bool {
        v.size_changed || (v.scroll_changed && self.needs_rewindow(v))
    }

    /// Text and cursors are drawn again.
    pub open spec fn drawings_cleared(self) -> Editor {
        Editor {
            caches: Caches {
                content_cache: RenderCache { valid: false },
                overlay_cache: RenderCache { valid: false },
                ..self.caches
            },
            ..self
        }
    }

    /// The text scrolled.
    pub open spec fn scrolled(self, v: ScrollViewport) -> Editor {
        let e = if self.rewindows(v) {
            Editor {
                layout: Layout {
                    cache_window_start_line: v.window_start(),
                    cache_window_end_line: v.window_end(),
                    last_first_visible_line: v.first_visible_line,
                    ..self.layout
                },
                ..self.drawings_cleared()
            }
        } else {
            self
        };
        Editor {
            layout: Layout {
                viewport_scroll: v.scroll,
                viewport_height: v.height,
                viewport_width: v.width,
                ..e.layout
            },
            ..e
        }
    }

    /// The text scrolled sideways.
    pub open spec fn scrolled_sideways(self, v: HorizontalViewport) -> Editor {
        if v.changed {
            Editor {
                layout: Layout { horizontal_scroll_offset: v.offset, ..self.layout },
                ..self.drawings_cleared()
            }
        } else {
            self
        }
    }
}

impl CodeEditor {
    /// Handles viewport scrolled event. Manages the window of lines that is kept drawn: it is
    /// placed anew, and drawn again, only when scrolling crosses its boundary or when the
    /// dimensions change.
    pub fn handle_scrolled_msg(&mut self, viewport: ScrollViewport) -> (r: Action)
        ensures
            final(self)@ == old(self)@.scrolled(viewport),
            r@ == Reply::Nothing,
    {
        let visible_lines_count = viewport.lines_in_view.saturating_add(2);
        let first_visible_line = viewport.first_visible_line;
        let last_visible_line = first_visible_line.saturating_add(visible_lines_count);
        let margin = match visible_lines_count.checked_mul(CACHE_WINDOW_MARGIN_MULTIPLIER) {
            Some(lines) => lines,
            None => usize::MAX,
        };
        let window_start = first_visible_line.saturating_sub(margin);
        let window_end = last_visible_line.saturating_add(margin);
        let half = visible_lines_count / 2;
        let start = self.layout.cache_window_start_line;
        let end = self.layout.cache_window_end_line;
        let need_rewindow = if end > start {
            let lower_boundary_trigger = start > 0 && first_visible_line < start.saturating_add(
                half,
            );
            let upper_boundary_trigger = last_visible_line > end.saturating_sub(half);
            lower_boundary_trigger || upper_boundary_trigger
        } else {
            true
        };
        if viewport.size_changed || (viewport.scroll_changed && need_rewindow) {
            self.layout.cache_window_start_line = window_start;
            self.layout.cache_window_end_line = window_end;
            self.layout.last_first_visible_line = first_visible_line;
            self.caches.content_cache.clear();
            self.caches.overlay_cache.clear();
        }
        self.layout.viewport_scroll = viewport.scroll;
        self.layout.viewport_height = viewport.height;
        self.layout.viewport_width = viewport.width;
        Action::Nothing
    }

    /// Handles horizontal scrollbar scrolled event (only active when wrap is disabled). The text
    /// is drawn again only if the offset changed noticeably.
    pub fn handle_horizontal_scrolled_msg(&mut self, viewport: HorizontalViewport) -> (r: Action)
        ensures
            final(self)@ == old(self)@.scrolled_sideways(viewport),
            r@ == Reply::Nothing,
    {
        if viewport.changed {
            self.layout.horizontal_scroll_offset = viewport.offset;
            self.caches.content_cache.clear();
            self.caches.overlay_cache.clear();
        }
        Action::Nothing
    }
}

} // verus!
