//! Editing, moving, the mouse, the clipboard and the view, at their edges.

use iced_code_editor::cursor_set::Cursor;
use iced_code_editor::editor::CodeEditor;
use iced_code_editor::message::{
    Action, ArrowDirection, HorizontalViewport, IndentStyle, Message, Pixels, ScrollViewport,
};
use iced_code_editor::syntax::{set_syntax_set, SyntaxSlot};
use iced_code_editor::text_buffer::TextBuffer;
use syntect::parsing::{SyntaxSet, SyntaxSetBuilder};

fn focused(content: &str) -> CodeEditor {
    let mut editor = CodeEditor::new(content, "rs");
    editor.request_focus();
    editor.focus.has_canvas_focus = true;
    editor
}

fn text(editor: &CodeEditor) -> Vec<String> {
    (0..editor.buffer.line_count()).map(|line| editor.buffer.line(line)).collect()
}

fn positions(editor: &CodeEditor) -> Vec<(usize, usize)> {
    editor.cursors.as_slice().iter().map(|c| c.position).collect()
}

#[test]
fn a_text_is_cut_at_its_line_breaks() {
    let buffer = TextBuffer::new("a\n\nbc\n");
    assert_eq!(buffer.line_count(), 4);
    assert_eq!(buffer.line(0), "a");
    assert_eq!(buffer.line(1), "");
    assert_eq!(buffer.line(2), "bc");
    assert_eq!(buffer.line(3), "");
    assert_eq!(buffer.line(4), "");
    assert_eq!(buffer.line_len(2), 2);
    assert_eq!(buffer.line_len(9), 0);
    assert_eq!(buffer.clamp((0, 9)), (0, 1));
    assert_eq!(buffer.clamp((9, 9)), (3, 0));
    assert_eq!(TextBuffer::new("").line_count(), 1);
}

#[test]
fn typing_without_focus_changes_nothing() {
    let mut editor = CodeEditor::new("abc", "rs");
    assert_eq!(editor.update(&Message::CharacterInput('x')), Action::Nothing);
    assert_eq!(text(&editor), vec!["abc"]);
    assert_eq!(editor.caches.buffer_revision, 0);
    let mut editor = focused("abc");
    let _ = editor.update(&Message::CanvasFocusLost);
    assert_eq!(editor.update(&Message::CharacterInput('x')), Action::Nothing);
    assert_eq!(text(&editor), vec!["abc"]);
    let _ = editor.update(&Message::CanvasFocusGained);
    assert_eq!(editor.update(&Message::CharacterInput('x')), Action::ScrollToCursor);
    assert_eq!(text(&editor), vec!["xabc"]);
    editor.release_focus();
    assert_eq!(editor.update(&Message::CharacterInput('y')), Action::Nothing);
}

#[test]
fn every_caret_ends_behind_its_character() {
    let mut editor = focused("abcd\nef");
    editor.cursors.primary_mut().position = (0, 1);
    editor.cursors.add_cursor((0, 3));
    editor.cursors.add_cursor((0, 4));
    editor.cursors.add_cursor((1, 0));
    let _ = editor.update(&Message::CharacterInput('X'));
    assert_eq!(text(&editor), vec!["aXbcXdX", "Xef"]);
    assert_eq!(positions(&editor), vec![(0, 2), (0, 5), (0, 7), (1, 1)]);
}

#[test]
fn backspace_takes_back_a_typed_character() {
    let mut editor = focused("ab\ncd");
    editor.cursors.primary_mut().position = (1, 1);
    let _ = editor.update(&Message::CharacterInput('x'));
    assert_eq!(text(&editor), vec!["ab", "cxd"]);
    let _ = editor.update(&Message::Backspace);
    assert_eq!(text(&editor), vec!["ab", "cd"]);
    assert_eq!(positions(&editor), vec![(1, 1)]);
}

#[test]
fn completions_are_asked_for_after_identifiers() {
    let mut editor = focused("");
    for (ch, asked) in [('a', true), ('_', true), ('.', true), ('\u{e9}', true), (' ', false)] {
        let _ = editor.update(&Message::CharacterInput(ch));
        let requests = editor.take_lsp_requests();
        assert!(requests.change_pending);
        assert_eq!(requests.flush, asked);
        assert_eq!(requests.completion, asked);
        assert!(!editor.lsp.change_pending);
    }
}

#[test]
fn tab_inserts_the_indentation() {
    let mut editor = focused("ab");
    editor.cursors.primary_mut().position = (0, 1);
    assert_eq!(editor.update(&Message::Tab), Action::ScrollToCursor);
    assert_eq!(text(&editor), vec!["a    b"]);
    assert_eq!(editor.cursors.primary_position(), (0, 5));
    editor.indenting.style = IndentStyle::Tab;
    let _ = editor.update(&Message::Tab);
    assert_eq!(text(&editor), vec!["a    \tb"]);
    editor.indenting.style = IndentStyle::Spaces(0);
    let _ = editor.update(&Message::Tab);
    assert_eq!(text(&editor), vec!["a    \tb"]);
}

#[test]
fn enter_repeats_the_indentation_if_enabled() {
    let mut editor = focused(" \tx");
    editor.cursors.primary_mut().position = (0, 3);
    editor.indenting.auto_indent_enabled = false;
    let _ = editor.update(&Message::Enter);
    assert_eq!(text(&editor), vec![" \tx", ""]);
    let mut editor = focused(" \u{a0}\u{3000}x");
    editor.cursors.primary_mut().position = (0, 4);
    let _ = editor.update(&Message::Enter);
    assert_eq!(text(&editor), vec![" \u{a0}\u{3000}x", " \u{a0}\u{3000}"]);
    assert_eq!(editor.cursors.primary_position(), (1, 3));
}

#[test]
fn backspace_at_the_start_of_a_line_merges() {
    let mut editor = focused("ab\ncd");
    editor.cursors.primary_mut().position = (1, 0);
    editor.cursors.add_cursor((1, 2));
    let _ = editor.update(&Message::Backspace);
    assert_eq!(text(&editor), vec!["abc"]);
    assert_eq!(positions(&editor), vec![(0, 2), (0, 3)]);
    let mut editor = focused("ab");
    assert_eq!(editor.update(&Message::Backspace), Action::ScrollToCursor);
    assert_eq!(text(&editor), vec!["ab"]);
    assert_eq!(editor.caches.buffer_revision, 1);
}

#[test]
fn delete_at_the_end_of_a_line_merges() {
    let mut editor = focused("ab\ncd");
    editor.cursors.primary_mut().position = (0, 2);
    assert_eq!(editor.update(&Message::Delete), Action::Nothing);
    assert_eq!(text(&editor), vec!["abcd"]);
    assert_eq!(editor.cursors.primary_position(), (0, 2));
    editor.cursors.primary_mut().position = (0, 4);
    let _ = editor.update(&Message::Delete);
    assert_eq!(text(&editor), vec!["abcd"]);
    *editor.cursors.primary_mut() = Cursor { position: (0, 1), anchor: Some((0, 3)) };
    assert_eq!(editor.update(&Message::Delete), Action::ScrollToCursor);
    assert_eq!(text(&editor), vec!["ad"]);
}

#[test]
fn selections_of_all_cursors_are_deleted() {
    let mut editor = focused("abcdef\nghi");
    *editor.cursors.primary_mut() = Cursor { position: (0, 2), anchor: Some((0, 1)) };
    editor.cursors.add_cursor_with_selection(Cursor { position: (1, 1), anchor: Some((0, 4)) });
    assert_eq!(editor.update(&Message::DeleteSelection), Action::ScrollToCursor);
    assert_eq!(text(&editor), vec!["acdhi"]);
    assert_eq!(positions(&editor), vec![(0, 1), (0, 3)]);
    assert_eq!(editor.history.undo_count(), 1);
    assert_eq!(editor.update(&Message::DeleteSelection), Action::Nothing);
    let _ = editor.update(&Message::Undo);
    assert_eq!(text(&editor), vec!["abcdef", "ghi"]);
}

#[test]
fn arrows_cross_the_ends_of_lines() {
    let mut editor = focused("abc\nd");
    for (direction, position) in [
        (ArrowDirection::Left, (0, 0)),
        (ArrowDirection::Up, (0, 0)),
        (ArrowDirection::Right, (0, 1)),
        (ArrowDirection::Right, (0, 2)),
        (ArrowDirection::Right, (0, 3)),
        (ArrowDirection::Down, (1, 1)),
        (ArrowDirection::Right, (1, 1)),
        (ArrowDirection::Down, (1, 1)),
        (ArrowDirection::Left, (1, 0)),
        (ArrowDirection::Left, (0, 3)),
    ] {
        assert_eq!(editor.update(&Message::ArrowKey(direction, false)), Action::ScrollToCursor);
        assert_eq!(editor.cursors.primary_position(), position);
    }
}

#[test]
fn cursors_that_meet_are_one() {
    let mut editor = focused("abc");
    editor.cursors.primary_mut().position = (0, 0);
    editor.cursors.add_cursor((0, 1));
    let _ = editor.update(&Message::ArrowKey(ArrowDirection::Left, false));
    assert_eq!(positions(&editor), vec![(0, 0)]);
    editor.cursors.add_cursor((0, 2));
    let _ = editor.update(&Message::End(true));
    assert_eq!(editor.cursors.len(), 1);
    assert_eq!(editor.cursors.primary().selection_range(), Some(((0, 0), (0, 3))));
}

#[test]
fn pages_move_by_their_lines() {
    let content = vec!["abc"; 10].join("\n");
    let mut editor = focused(&content);
    editor.set_page_lines(4);
    editor.cursors.primary_mut().position = (1, 2);
    for (message, position) in [
        (Message::PageDown, (5, 2)),
        (Message::PageDown, (9, 2)),
        (Message::PageDown, (9, 2)),
        (Message::PageUp, (5, 2)),
        (Message::PageUp, (1, 2)),
        (Message::PageUp, (0, 2)),
    ] {
        assert_eq!(editor.update(&message), Action::ScrollToCursor);
        assert_eq!(editor.cursors.primary_position(), position);
    }
}

#[test]
fn moving_keeps_the_drawn_text() {
    let mut editor = focused("abc");
    editor.caches.content_cache.fill();
    editor.caches.overlay_cache.fill();
    editor.visual_lines_cached();
    let _ = editor.update(&Message::End(false));
    assert!(editor.caches.content_cache.valid);
    assert!(!editor.caches.overlay_cache.valid);
    assert!(editor.caches.visual_lines_cache.is_some());
    assert_eq!(editor.caches.buffer_revision, 0);
    let _ = editor.update(&Message::Backspace);
    assert!(!editor.caches.content_cache.valid);
    assert!(editor.caches.visual_lines_cache.is_none());
    assert_eq!(editor.caches.buffer_revision, 1);
}

#[test]
fn a_click_places_the_caret_and_a_drag_selects() {
    let mut editor = focused("hello\nworld");
    editor.cursors.add_cursor((1, 1));
    let _ = editor.update(&Message::MouseClick(Some((1, 2))));
    assert!(editor.is_dragging);
    assert_eq!(editor.cursors.as_slice(), &[Cursor { position: (1, 2), anchor: Some((1, 2)) }]);
    let _ = editor.update(&Message::MouseRelease);
    assert_eq!(editor.cursors.as_slice(), &[Cursor::new((1, 2))]);
    // Without the button held the mouse selects nothing.
    let _ = editor.update(&Message::MouseHover(Some((0, 0))));
    assert_eq!(editor.cursors.as_slice(), &[Cursor::new((1, 2))]);
    let _ = editor.update(&Message::MouseClick(Some((0, 1))));
    editor.caches.overlay_cache.fill();
    let _ = editor.update(&Message::MouseDrag(Some((0, 1))));
    assert!(editor.caches.overlay_cache.valid);
    let _ = editor.update(&Message::MouseDrag(None));
    let _ = editor.update(&Message::MouseHover(Some((1, 3))));
    assert!(!editor.caches.overlay_cache.valid);
    let _ = editor.update(&Message::MouseRelease);
    assert_eq!(editor.cursors.as_slice(), &[Cursor { position: (1, 3), anchor: Some((0, 1)) }]);
    assert_eq!(editor.update(&Message::JumpClick(Some((0, 0)))), Action::Nothing);
    assert_eq!(editor.cursors.primary_position(), (1, 3));
}

#[test]
fn a_click_beside_the_text_keeps_the_caret() {
    let mut editor = CodeEditor::new("abc", "rs");
    editor.cursors.primary_mut().position = (0, 2);
    let _ = editor.update(&Message::MouseClick(None));
    assert_eq!(editor.cursors.primary_position(), (0, 2));
    assert!(editor.focus.is_focused && editor.focus.has_canvas_focus);
}

#[test]
fn cursors_are_added_beside_others() {
    let mut editor = focused("abcdef\nab\nabcdef");
    editor.cursors.primary_mut().position = (0, 5);
    let _ = editor.update(&Message::AddCursorAbove);
    assert_eq!(editor.cursors.len(), 1);
    let _ = editor.update(&Message::AddCursorBelow);
    assert_eq!(positions(&editor), vec![(0, 5), (1, 2)]);
    let _ = editor.update(&Message::AltClick(Some((2, 1))));
    assert_eq!(positions(&editor), vec![(0, 5), (1, 2), (2, 1)]);
    let _ = editor.update(&Message::AltClick(None));
    assert_eq!(editor.cursors.len(), 3);
    editor.cursors.set_single((2, 0));
    let _ = editor.update(&Message::AddCursorBelow);
    assert_eq!(editor.cursors.len(), 1);
}

#[test]
fn copying_and_pasting_give_the_text_back() {
    let mut editor = focused("one\ntwo\nthree");
    assert_eq!(editor.update(&Message::Copy), Action::Nothing);
    *editor.cursors.primary_mut() = Cursor { position: (0, 1), anchor: Some((2, 2)) };
    let action = editor.update(&Message::Copy);
    assert_eq!(action, Action::WriteClipboard("ne\ntwo\nth".to_string()));
    assert_eq!(editor.update(&Message::Paste(String::new())), Action::ReadClipboard);
    let action = editor.update(&Message::Paste("ne\ntwo\nth".to_string()));
    assert_eq!(action, Action::ScrollToCursor);
    assert_eq!(text(&editor), vec!["one", "two", "three"]);
    assert_eq!(editor.cursors.as_slice(), &[Cursor::new((2, 2))]);
}

#[test]
fn pasting_reaches_every_cursor() {
    let mut editor = focused("ab\ncd");
    *editor.cursors.primary_mut() = Cursor { position: (0, 1), anchor: Some((0, 0)) };
    editor.cursors.add_cursor((1, 2));
    let _ = editor.update(&Message::Paste("x\ny".to_string()));
    assert_eq!(text(&editor), vec!["x", "yb", "cdx", "y"]);
    assert_eq!(positions(&editor), vec![(1, 1), (3, 1)]);
    assert_eq!(editor.history.undo_count(), 1);
    let _ = editor.update(&Message::Undo);
    assert_eq!(text(&editor), vec!["ab", "cd"]);
}

#[test]
fn input_methods_show_and_commit() {
    let mut editor = focused("");
    let _ = editor.update(&Message::ImePreedit(String::new(), None));
    assert!(editor.ime_preedit.is_none());
    let _ = editor.update(&Message::ImePreedit("a".to_string(), None));
    assert!(editor.ime_preedit.is_some());
    assert_eq!(editor.update(&Message::ImeCommit(String::new())), Action::Nothing);
    assert!(editor.ime_preedit.is_none());
    assert_eq!(text(&editor), vec![""]);
    let _ = editor.update(&Message::ImePreedit("b".to_string(), Some(0..1)));
    let _ = editor.update(&Message::ImeClosed);
    assert!(editor.ime_preedit.is_none());
    let _ = editor.update(&Message::ImePreedit("b".to_string(), Some(0..1)));
    let _ = editor.update(&Message::CanvasFocusLost);
    assert!(editor.ime_preedit.is_none());
}

#[test]
fn the_caret_blinks_while_focused() {
    let mut editor = focused("a");
    editor.focus.show_cursor = true;
    editor.set_clock(529);
    let _ = editor.update(&Message::Tick);
    assert!(editor.focus.cursor_visible);
    editor.set_clock(530);
    let _ = editor.update(&Message::Tick);
    assert!(!editor.focus.cursor_visible);
    let _ = editor.update(&Message::Tick);
    assert!(!editor.focus.cursor_visible);
    editor.set_clock(600);
    let _ = editor.update(&Message::End(false));
    assert!(editor.focus.cursor_visible);
    assert_eq!(editor.focus.last_blink, 600);
    assert!(editor.focus.show_cursor);
    editor.release_focus();
    let _ = editor.update(&Message::Tick);
    assert!(!editor.focus.show_cursor);
}

#[test]
fn tab_leaves_the_editor_unless_the_dialog_is_open() {
    let mut editor = focused("a");
    editor.focus.show_cursor = true;
    let _ = editor.update(&Message::OpenSearch);
    let _ = editor.update(&Message::FocusNavigationTab);
    let _ = editor.update(&Message::FocusNavigationShiftTab);
    assert!(editor.focus.has_canvas_focus);
    let _ = editor.update(&Message::CloseSearch);
    let _ = editor.update(&Message::FocusNavigationShiftTab);
    assert!(!editor.focus.has_canvas_focus);
    assert!(!editor.focus.show_cursor);
}

#[test]
fn a_change_of_size_places_the_window_anew() {
    let mut editor = focused("a");
    let viewport = ScrollViewport {
        scroll: Pixels { bits: 0 },
        height: Pixels { bits: 1 },
        width: Pixels { bits: 2 },
        first_visible_line: 100,
        lines_in_view: 8,
        scroll_changed: false,
        size_changed: true,
    };
    editor.caches.content_cache.fill();
    let _ = editor.update(&Message::Scrolled(viewport));
    assert_eq!(editor.layout.cache_window_start_line, 80);
    assert_eq!(editor.layout.cache_window_end_line, 130);
    assert_eq!(editor.layout.last_first_visible_line, 100);
    assert_eq!(editor.layout.viewport_width, Pixels { bits: 2 });
    assert!(!editor.caches.content_cache.valid);
    // A screen up or down lies within the window; half a screen from its end does not.
    for (line, redrawn) in [(110, false), (90, false), (115, false), (116, true)] {
        editor.caches.content_cache.fill();
        let next = ScrollViewport {
            first_visible_line: line,
            scroll_changed: true,
            size_changed: false,
            ..viewport
        };
        let _ = editor.update(&Message::Scrolled(next));
        assert_eq!(editor.caches.content_cache.valid, !redrawn);
    }
}

#[test]
fn scrolling_sideways_draws_again_if_it_is_noticeable() {
    let mut editor = focused("a");
    editor.caches.content_cache.fill();
    let still = HorizontalViewport { offset: Pixels { bits: 7 }, changed: false };
    let _ = editor.update(&Message::HorizontalScrolled(still));
    assert!(editor.caches.content_cache.valid);
    assert_eq!(editor.layout.horizontal_scroll_offset, Pixels { bits: 0 });
    let moved = HorizontalViewport { offset: Pixels { bits: 7 }, changed: true };
    let _ = editor.update(&Message::HorizontalScrolled(moved));
    assert!(!editor.caches.content_cache.valid);
    assert_eq!(editor.layout.horizontal_scroll_offset, Pixels { bits: 7 });
}

#[test]
fn syntax_definitions_are_set_once() {
    let mut slot = SyntaxSlot::new();
    assert!(!slot.is_set());
    assert!(set_syntax_set(&mut slot, SyntaxSetBuilder::new().build()));
    assert_eq!(slot.get_or_default().syntaxes().len(), 0);
    assert!(!set_syntax_set(&mut slot, SyntaxSet::load_defaults_newlines()));
    assert_eq!(slot.get_or_default().syntaxes().len(), 0);
}

#[test]
fn drawing_sets_the_default_definitions() {
    let mut slot = SyntaxSlot::new();
    assert!(slot.get_or_default().find_syntax_by_extension("rs").is_some());
    assert!(slot.is_set());
    assert!(!set_syntax_set(&mut slot, SyntaxSetBuilder::new().build()));
    assert!(slot.get_or_default().find_syntax_by_extension("rs").is_some());
}
