//! What an editor does with the messages that it is given.

use iced_code_editor::editor::CodeEditor;
use iced_code_editor::message::{ArrowDirection, Message, Pixels, ScrollViewport};

/// The viewport that the editor is told of after a scroll to `scroll`.
fn viewport(editor: &CodeEditor, scroll: f32, height: f32, width: f32) -> ScrollViewport {
    let line_height = f32::from_bits(editor.layout.line_height.bits);
    let former_scroll = f32::from_bits(editor.layout.viewport_scroll.bits);
    let former_height = f32::from_bits(editor.layout.viewport_height.bits);
    let former_width = f32::from_bits(editor.layout.viewport_width.bits);
    ScrollViewport {
        scroll: Pixels { bits: scroll.to_bits() },
        height: Pixels { bits: height.to_bits() },
        width: Pixels { bits: width.to_bits() },
        first_visible_line: (scroll / line_height).floor() as usize,
        lines_in_view: (height / line_height).ceil() as usize,
        scroll_changed: (former_scroll - scroll).abs() > 0.1,
        size_changed: (former_height - height).abs() > 1.0 || (former_width - width).abs() > 1.0,
    }
}

#[test]
fn test_horizontal_scroll_initial_state() {
    let editor = CodeEditor::new("short line", "rs");
    assert!(
        (f32::from_bits(editor.layout.horizontal_scroll_offset.bits) - 0.0).abs() < f32::EPSILON,
        "Initial horizontal scroll offset should be 0"
    );
}

#[test]
fn test_set_wrap_enabled_resets_horizontal_offset() {
    let mut editor = CodeEditor::new("long line", "rs");
    editor.layout.wrap_enabled = false;
    // Simulate a non-zero horizontal scroll
    editor.layout.horizontal_scroll_offset = Pixels { bits: 100.0f32.to_bits() };

    // Re-enabling wrap should reset horizontal offset
    editor.set_wrap_enabled(true);
    assert!(
        (f32::from_bits(editor.layout.horizontal_scroll_offset.bits) - 0.0).abs() < f32::EPSILON,
        "Horizontal scroll offset should be reset when wrap is re-enabled"
    );
}

#[test]
fn test_scroll_sets_initial_cache_window() {
    let content = (0..200).map(|i| format!("line{}\n", i)).collect::<String>();
    let mut editor = CodeEditor::new(&content, "py");

    // Simulate initial viewport
    let height: f32 = 400.0;
    let width: f32 = 800.0;
    let scroll: f32 = 0.0;

    // Expected derived ranges
    let line_height = f32::from_bits(editor.layout.line_height.bits);
    let visible_lines_count = (height / line_height).ceil() as usize + 2;
    let first_visible_line = (scroll / line_height).floor() as usize;
    let last_visible_line = first_visible_line + visible_lines_count;
    let margin = visible_lines_count * 2;
    let window_start = first_visible_line.saturating_sub(margin);
    let window_end = last_visible_line + margin;

    editor.layout.viewport_height = Pixels { bits: height.to_bits() };
    editor.layout.viewport_width = Pixels { bits: width.to_bits() };
    editor.layout.viewport_scroll = Pixels { bits: (-1.0f32).to_bits() };
    let scrolled = viewport(&editor, scroll, height, width);
    let _ = editor.update(&Message::Scrolled(scrolled));

    assert_eq!(editor.layout.viewport_scroll, Pixels { bits: scroll.to_bits() });
    assert_eq!(editor.layout.last_first_visible_line, first_visible_line);
    assert!(editor.layout.cache_window_end_line > editor.layout.cache_window_start_line);
    assert_eq!(editor.layout.cache_window_start_line, window_start);
    assert_eq!(editor.layout.cache_window_end_line, window_end);
}

#[test]
fn test_small_scroll_keeps_window() {
    let content = (0..200).map(|i| format!("line{}\n", i)).collect::<String>();
    let mut editor = CodeEditor::new(&content, "py");
    let height: f32 = 400.0;
    let width: f32 = 800.0;
    let initial_scroll: f32 = 0.0;
    let line_height = f32::from_bits(editor.layout.line_height.bits);
    let visible_lines_count = (height / line_height).ceil() as usize + 2;
    let first_visible_line = (initial_scroll / line_height).floor() as usize;
    let last_visible_line = first_visible_line + visible_lines_count;
    let margin = visible_lines_count * 2;
    let window_start = first_visible_line.saturating_sub(margin);
    let window_end = last_visible_line + margin;
    editor.layout.cache_window_start_line = window_start;
    editor.layout.cache_window_end_line = window_end;
    editor.layout.viewport_height = Pixels { bits: height.to_bits() };
    editor.layout.viewport_width = Pixels { bits: width.to_bits() };
    editor.layout.viewport_scroll = Pixels { bits: initial_scroll.to_bits() };
    editor.caches.content_cache.fill();

    // Small scroll inside window
    let small_scroll = line_height * (visible_lines_count as f32 / 4.0);
    let scrolled = viewport(&editor, small_scroll, height, width);
    assert!(scrolled.scroll_changed && !scrolled.size_changed);
    let _ = editor.update(&Message::Scrolled(scrolled));

    assert!(editor.caches.content_cache.valid, "Small scroll should be inside the window");
    // Window remains unchanged
    assert_eq!(editor.layout.cache_window_start_line, window_start);
    assert_eq!(editor.layout.cache_window_end_line, window_end);
}

#[test]
fn test_large_scroll_rewindows() {
    let content = (0..1000).map(|i| format!("line{}\n", i)).collect::<String>();
    let mut editor = CodeEditor::new(&content, "py");
    let height: f32 = 400.0;
    let width: f32 = 800.0;
    let initial_scroll: f32 = 0.0;
    let line_height = f32::from_bits(editor.layout.line_height.bits);
    let visible_lines_count = (height / line_height).ceil() as usize + 2;
    let first_visible_line = (initial_scroll / line_height).floor() as usize;
    let last_visible_line = first_visible_line + visible_lines_count;
    let margin = visible_lines_count * 2;
    editor.layout.cache_window_start_line = first_visible_line.saturating_sub(margin);
    editor.layout.cache_window_end_line = last_visible_line + margin;
    editor.layout.viewport_height = Pixels { bits: height.to_bits() };
    editor.layout.viewport_width = Pixels { bits: width.to_bits() };
    editor.layout.viewport_scroll = Pixels { bits: initial_scroll.to_bits() };
    editor.caches.content_cache.fill();

    // Large scroll beyond window boundary
    let large_scroll = line_height * ((visible_lines_count * 4) as f32);
    let first_visible_line2 = (large_scroll / line_height).floor() as usize;
    let last_visible_line2 = first_visible_line2 + visible_lines_count;
    let window_start2 = first_visible_line2.saturating_sub(margin);
    let window_end2 = last_visible_line2 + margin;
    let scrolled = viewport(&editor, large_scroll, height, width);
    let _ = editor.update(&Message::Scrolled(scrolled));

    assert!(!editor.caches.content_cache.valid, "Large scroll should trigger window update");
    assert_eq!(editor.layout.cache_window_start_line, window_start2);
    assert_eq!(editor.layout.cache_window_end_line, window_end2);
    assert_eq!(editor.layout.last_first_visible_line, first_visible_line2);
}

#[test]
fn test_edit_increments_revision_and_clears_visual_lines_cache() {
    let mut editor = CodeEditor::new("hello", "rs");
    editor.request_focus();
    editor.focus.has_canvas_focus = true;
    editor.focus.focus_locked = false;
    editor.cursors.primary_mut().position = (0, 5);

    editor.visual_lines_cached();
    assert!(
        editor.caches.visual_lines_cache.is_some(),
        "visual_lines_cached should populate the cache"
    );

    let previous_revision = editor.caches.buffer_revision;

    let _ = editor.update(&Message::CharacterInput('!'));
    assert_eq!(
        editor.caches.buffer_revision,
        previous_revision.wrapping_add(1),
        "buffer_revision should change on buffer edits"
    );
    // What must never happen is that stale data (an old revision) survives an edit.
    assert!(
        editor
            .caches
            .visual_lines_cache
            .is_none_or(|key| key.buffer_revision == editor.caches.buffer_revision),
        "buffer edits should not leave stale data in the visual lines cache"
    );
}

#[test]
fn test_mouse_click_gains_focus() {
    let mut editor = CodeEditor::new("hello world", "py");
    editor.focus.has_canvas_focus = false;
    editor.focus.show_cursor = false;

    let _ = editor.update(&Message::MouseClick(Some((0, 5))));

    assert!(editor.focus.has_canvas_focus);
    assert!(editor.focus.show_cursor);
}

#[test]
fn test_canvas_focus_lost() {
    let mut editor = CodeEditor::new("test", "rs");
    editor.focus.has_canvas_focus = true;

    let _ = editor.update(&Message::CanvasFocusLost);

    assert!(!editor.focus.has_canvas_focus);
    assert!(!editor.focus.show_cursor);
    assert!(editor.focus.focus_locked, "Focus should be locked when lost");
}

#[test]
fn test_canvas_focus_gained_resets_lock() {
    let mut editor = CodeEditor::new("test", "rs");
    editor.focus.has_canvas_focus = false;
    editor.focus.focus_locked = true;

    let _ = editor.update(&Message::CanvasFocusGained);

    assert!(editor.focus.has_canvas_focus);
    assert!(
        !editor.focus.focus_locked,
        "Focus lock should be reset when focus is gained"
    );
}

#[test]
fn test_focus_lock_state() {
    let mut editor = CodeEditor::new("test", "rs");

    // Initially, focus should not be locked
    assert!(!editor.focus.focus_locked);

    // When focus is lost, it should be locked
    let _ = editor.update(&Message::CanvasFocusLost);
    assert!(editor.focus.focus_locked, "Focus should be locked when lost");

    // When focus is regained, it should be unlocked
    editor.request_focus();
    let _ = editor.update(&Message::CanvasFocusGained);
    assert!(!editor.focus.focus_locked, "Focus should be unlocked when regained");

    // Can manually reset focus lock
    editor.focus.focus_locked = true;
    editor.reset_focus_lock();
    assert!(!editor.focus.focus_locked, "Focus lock should be resetable");
}

#[test]
fn test_reset_focus_lock() {
    let mut editor = CodeEditor::new("test", "rs");
    editor.focus.focus_locked = true;

    editor.reset_focus_lock();

    assert!(!editor.focus.focus_locked);
}

#[test]
fn test_home_key() {
    let mut editor = CodeEditor::new("hello world", "py");
    editor.cursors.primary_mut().position = (0, 5); // Move to middle of line
    let _ = editor.update(&Message::Home(false));
    assert_eq!(editor.cursors.primary_position(), (0, 0));
}

#[test]
fn test_end_key() {
    let mut editor = CodeEditor::new("hello world", "py");
    editor.cursors.primary_mut().position = (0, 0);
    let _ = editor.update(&Message::End(false));
    assert_eq!(editor.cursors.primary_position(), (0, 11)); // Length of "hello world"
}

#[test]
fn test_arrow_key_with_shift_creates_selection() {
    let mut editor = CodeEditor::new("hello world", "py");
    editor.cursors.primary_mut().position = (0, 0);

    // Shift+Right should start selection
    let _ = editor.update(&Message::ArrowKey(ArrowDirection::Right, true));
    assert!(editor.cursors.primary().anchor.is_some());
    assert!(editor.cursors.primary().has_selection());
}

#[test]
fn test_arrow_key_without_shift_clears_selection() {
    let mut editor = CodeEditor::new("hello world", "py");
    editor.cursors.primary_mut().anchor = Some((0, 0));
    editor.cursors.primary_mut().position = (0, 5);

    // Regular arrow key should clear selection
    let _ = editor.update(&Message::ArrowKey(ArrowDirection::Right, false));
    assert!(editor.cursors.primary().anchor.is_none());
    assert!(!editor.cursors.primary().has_selection());
}

#[test]
fn test_typing_with_selection() {
    let mut editor = CodeEditor::new("hello world", "py");
    // Ensure editor has focus for character input
    editor.request_focus();
    editor.focus.has_canvas_focus = true;
    editor.focus.focus_locked = false;

    editor.cursors.primary_mut().anchor = Some((0, 0));
    editor.cursors.primary_mut().position = (0, 5);

    let _ = editor.update(&Message::CharacterInput('X'));
    // Current behavior: character is inserted at cursor, selection is NOT automatically deleted
    // This is expected behavior - user must delete selection first (Backspace/Delete) or use Paste
    assert_eq!(editor.buffer.line(0), "Xhello world");
}

#[test]
fn test_ctrl_home() {
    let mut editor = CodeEditor::new("line1\nline2\nline3", "py");
    editor.cursors.primary_mut().position = (2, 5); // Start at line 3, column 5
    let _ = editor.update(&Message::CtrlHome);
    assert_eq!(editor.cursors.primary_position(), (0, 0)); // Should move to beginning of document
}

#[test]
fn test_ctrl_end() {
    let mut editor = CodeEditor::new("line1\nline2\nline3", "py");
    editor.cursors.primary_mut().position = (0, 0); // Start at beginning
    let _ = editor.update(&Message::CtrlEnd);
    assert_eq!(editor.cursors.primary_position(), (2, 5)); // Should move to end of last line (line3 has 5 chars)
}

#[test]
fn test_ctrl_home_clears_selection() {
    let mut editor = CodeEditor::new("line1\nline2\nline3", "py");
    editor.cursors.primary_mut().position = (2, 5);
    editor.cursors.primary_mut().anchor = Some((0, 0));
    editor.cursors.primary_mut().position = (2, 5);

    let _ = editor.update(&Message::CtrlHome);
    assert_eq!(editor.cursors.primary_position(), (0, 0));
    assert!(editor.cursors.primary().anchor.is_none());
    assert!(!editor.cursors.primary().has_selection());
}

#[test]
fn test_ctrl_end_clears_selection() {
    let mut editor = CodeEditor::new("line1\nline2\nline3", "py");
    editor.cursors.primary_mut().position = (0, 0);
    editor.cursors.primary_mut().anchor = Some((0, 0));
    editor.cursors.primary_mut().position = (1, 3);

    let _ = editor.update(&Message::CtrlEnd);
    assert_eq!(editor.cursors.primary_position(), (2, 5));
    assert!(editor.cursors.primary().anchor.is_none());
    assert!(!editor.cursors.primary().has_selection());
}

#[test]
fn test_goto_position_sets_cursor_and_clears_selection() {
    let mut editor = CodeEditor::new("line1\nline2\nline3", "py");
    editor.cursors.primary_mut().anchor = Some((0, 0));
    editor.cursors.primary_mut().position = (1, 2);

    let _ = editor.update(&Message::GotoPosition(1, 3));

    assert_eq!(editor.cursors.primary_position(), (1, 3));
    assert!(editor.cursors.primary().anchor.is_none());
    assert!(!editor.cursors.primary().has_selection());
}

#[test]
fn test_goto_position_clamps_out_of_range() {
    let mut editor = CodeEditor::new("a\nbb", "py");

    let _ = editor.update(&Message::GotoPosition(99, 99));

    // Clamped to last line (index 1) and end of that line (len = 2)
    assert_eq!(editor.cursors.primary_position(), (1, 2));
}

#[test]
fn test_delete_selection_message() {
    let mut editor = CodeEditor::new("hello world", "py");
    editor.cursors.primary_mut().position = (0, 0);
    editor.cursors.primary_mut().anchor = Some((0, 0));
    editor.cursors.primary_mut().position = (0, 5);

    let _ = editor.update(&Message::DeleteSelection);
    assert_eq!(editor.buffer.line(0), " world");
    assert_eq!(editor.cursors.primary_position(), (0, 0));
    assert!(editor.cursors.primary().anchor.is_none());
    assert!(!editor.cursors.primary().has_selection());
}

#[test]
fn test_delete_selection_multiline() {
    let mut editor = CodeEditor::new("line1\nline2\nline3", "py");
    editor.cursors.primary_mut().position = (0, 2);
    editor.cursors.primary_mut().anchor = Some((0, 2));
    editor.cursors.primary_mut().position = (2, 2);

    let _ = editor.update(&Message::DeleteSelection);
    assert_eq!(editor.buffer.line(0), "line3");
    assert_eq!(editor.cursors.primary_position(), (0, 2));
    assert!(editor.cursors.primary().anchor.is_none());
}

#[test]
fn test_delete_selection_no_selection() {
    let mut editor = CodeEditor::new("hello world", "py");
    editor.cursors.primary_mut().position = (0, 5);

    let _ = editor.update(&Message::DeleteSelection);
    // Should do nothing if there's no selection
    assert_eq!(editor.buffer.line(0), "hello world");
    assert_eq!(editor.cursors.primary_position(), (0, 5));
}

#[test]
fn test_ime_preedit_and_commit_chinese() {
    let mut editor = CodeEditor::new("", "py");
    // Simulate IME opened
    let _ = editor.update(&Message::ImeOpened);
    assert!(editor.ime_preedit.is_none());

    // Preedit with Chinese content and a selection range
    let content = "安全与合规".to_string();
    let selection = Some(0..3); // range aligned to UTF-8 character boundary
    let _ = editor
        .update(&Message::ImePreedit(content.clone(), selection.clone()));

    assert!(editor.ime_preedit.is_some());
    assert_eq!(
        editor.ime_preedit.as_ref().unwrap().content.clone(),
        content
    );
    assert_eq!(
        editor.ime_preedit.as_ref().unwrap().selection.clone(),
        selection
    );

    // Commit should insert the text and clear preedit
    let _ = editor.update(&Message::ImeCommit("安全与合规".to_string()));
    assert!(editor.ime_preedit.is_none());
    assert_eq!(editor.buffer.line(0), "安全与合规");
    assert_eq!(
        editor.cursors.primary_position(),
        (0, "安全与合规".chars().count())
    );
}

#[test]
fn test_undo_char_insert() {
    let mut editor = CodeEditor::new("hello", "py");
    // Ensure editor has focus for character input
    editor.request_focus();
    editor.focus.has_canvas_focus = true;
    editor.focus.focus_locked = false;

    editor.cursors.primary_mut().position = (0, 5);

    // Type a character
    let _ = editor.update(&Message::CharacterInput('!'));
    assert_eq!(editor.buffer.line(0), "hello!");
    assert_eq!(editor.cursors.primary_position(), (0, 6));

    // Undo should remove it (but first end the grouping)
    editor.history.end_group();
    let _ = editor.update(&Message::Undo);
    assert_eq!(editor.buffer.line(0), "hello");
    assert_eq!(editor.cursors.primary_position(), (0, 5));
}

#[test]
fn test_undo_redo_char_insert() {
    let mut editor = CodeEditor::new("hello", "py");
    // Ensure editor has focus for character input
    editor.request_focus();
    editor.focus.has_canvas_focus = true;
    editor.focus.focus_locked = false;

    editor.cursors.primary_mut().position = (0, 5);

    // Type a character
    let _ = editor.update(&Message::CharacterInput('!'));
    editor.history.end_group();

    // Undo
    let _ = editor.update(&Message::Undo);
    assert_eq!(editor.buffer.line(0), "hello");

    // Redo
    let _ = editor.update(&Message::Redo);
    assert_eq!(editor.buffer.line(0), "hello!");
    assert_eq!(editor.cursors.primary_position(), (0, 6));
}

#[test]
fn test_undo_backspace() {
    let mut editor = CodeEditor::new("hello", "py");
    editor.cursors.primary_mut().position = (0, 5);

    // Backspace
    let _ = editor.update(&Message::Backspace);
    assert_eq!(editor.buffer.line(0), "hell");
    assert_eq!(editor.cursors.primary_position(), (0, 4));

    // Undo
    let _ = editor.update(&Message::Undo);
    assert_eq!(editor.buffer.line(0), "hello");
    assert_eq!(editor.cursors.primary_position(), (0, 5));
}

#[test]
fn test_undo_newline() {
    let mut editor = CodeEditor::new("hello world", "py");
    editor.cursors.primary_mut().position = (0, 5);

    // Insert newline
    let _ = editor.update(&Message::Enter);
    assert_eq!(editor.buffer.line(0), "hello");
    assert_eq!(editor.buffer.line(1), " world");
    assert_eq!(editor.cursors.primary_position(), (1, 0));

    // Undo
    let _ = editor.update(&Message::Undo);
    assert_eq!(editor.buffer.line(0), "hello world");
    assert_eq!(editor.cursors.primary_position(), (0, 5));
}

#[test]
fn test_undo_grouped_typing() {
    let mut editor = CodeEditor::new("hello", "py");
    // Ensure editor has focus for character input
    editor.request_focus();
    editor.focus.has_canvas_focus = true;
    editor.focus.focus_locked = false;

    editor.cursors.primary_mut().position = (0, 5);

    // Type multiple characters (they should be grouped)
    let _ = editor.update(&Message::CharacterInput(' '));
    let _ = editor.update(&Message::CharacterInput('w'));
    let _ = editor.update(&Message::CharacterInput('o'));
    let _ = editor.update(&Message::CharacterInput('r'));
    let _ = editor.update(&Message::CharacterInput('l'));
    let _ = editor.update(&Message::CharacterInput('d'));

    assert_eq!(editor.buffer.line(0), "hello world");

    // End the group
    editor.history.end_group();

    // Single undo should remove all grouped characters
    let _ = editor.update(&Message::Undo);
    assert_eq!(editor.buffer.line(0), "hello");
    assert_eq!(editor.cursors.primary_position(), (0, 5));
}

#[test]
fn test_navigation_ends_grouping() {
    let mut editor = CodeEditor::new("hello", "py");
    // Ensure editor has focus for character input
    editor.request_focus();
    editor.focus.has_canvas_focus = true;
    editor.focus.focus_locked = false;

    editor.cursors.primary_mut().position = (0, 5);

    // Type a character (starts grouping)
    let _ = editor.update(&Message::CharacterInput('!'));
    assert!(editor.is_grouping);

    // Move cursor (ends grouping)
    let _ = editor.update(&Message::ArrowKey(ArrowDirection::Left, false));
    assert!(!editor.is_grouping);

    // Type another character (starts new group)
    let _ = editor.update(&Message::CharacterInput('?'));
    assert!(editor.is_grouping);

    editor.history.end_group();

    // Two separate undo operations
    let _ = editor.update(&Message::Undo);
    assert_eq!(editor.buffer.line(0), "hello!");

    let _ = editor.update(&Message::Undo);
    assert_eq!(editor.buffer.line(0), "hello");
}

#[test]
fn test_multiple_undo_redo() {
    let mut editor = CodeEditor::new("a", "py");
    // Ensure editor has focus for character input
    editor.request_focus();
    editor.focus.has_canvas_focus = true;
    editor.focus.focus_locked = false;

    editor.cursors.primary_mut().position = (0, 1);

    // Make several changes
    let _ = editor.update(&Message::CharacterInput('b'));
    editor.history.end_group();

    let _ = editor.update(&Message::CharacterInput('c'));
    editor.history.end_group();

    let _ = editor.update(&Message::CharacterInput('d'));
    editor.history.end_group();

    assert_eq!(editor.buffer.line(0), "abcd");

    // Undo all
    let _ = editor.update(&Message::Undo);
    assert_eq!(editor.buffer.line(0), "abc");

    let _ = editor.update(&Message::Undo);
    assert_eq!(editor.buffer.line(0), "ab");

    let _ = editor.update(&Message::Undo);
    assert_eq!(editor.buffer.line(0), "a");

    // Redo all
    let _ = editor.update(&Message::Redo);
    assert_eq!(editor.buffer.line(0), "ab");

    let _ = editor.update(&Message::Redo);
    assert_eq!(editor.buffer.line(0), "abc");

    let _ = editor.update(&Message::Redo);
    assert_eq!(editor.buffer.line(0), "abcd");
}

#[test]
fn test_delete_key_with_selection() {
    let mut editor = CodeEditor::new("hello world", "py");
    editor.cursors.primary_mut().anchor = Some((0, 0));
    editor.cursors.primary_mut().position = (0, 5);
    editor.cursors.primary_mut().position = (0, 5);

    let _ = editor.update(&Message::Delete);

    assert_eq!(editor.buffer.line(0), " world");
    assert_eq!(editor.cursors.primary_position(), (0, 0));
    assert!(editor.cursors.primary().anchor.is_none());
    assert!(!editor.cursors.primary().has_selection());
}

#[test]
fn test_delete_key_without_selection() {
    let mut editor = CodeEditor::new("hello", "py");
    editor.cursors.primary_mut().position = (0, 0);

    let _ = editor.update(&Message::Delete);

    // Should delete the 'h'
    assert_eq!(editor.buffer.line(0), "ello");
    assert_eq!(editor.cursors.primary_position(), (0, 0));
}

#[test]
fn test_backspace_with_selection() {
    let mut editor = CodeEditor::new("hello world", "py");
    editor.cursors.primary_mut().anchor = Some((0, 6));
    editor.cursors.primary_mut().position = (0, 11);
    editor.cursors.primary_mut().position = (0, 11);

    let _ = editor.update(&Message::Backspace);

    assert_eq!(editor.buffer.line(0), "hello ");
    assert_eq!(editor.cursors.primary_position(), (0, 6));
    assert!(editor.cursors.primary().anchor.is_none());
    assert!(!editor.cursors.primary().has_selection());
}

#[test]
fn test_backspace_without_selection() {
    let mut editor = CodeEditor::new("hello", "py");
    editor.cursors.primary_mut().position = (0, 5);

    let _ = editor.update(&Message::Backspace);

    // Should delete the 'o'
    assert_eq!(editor.buffer.line(0), "hell");
    assert_eq!(editor.cursors.primary_position(), (0, 4));
}

#[test]
fn test_delete_multiline_selection() {
    let mut editor = CodeEditor::new("line1\nline2\nline3", "py");
    editor.cursors.primary_mut().anchor = Some((0, 2));
    editor.cursors.primary_mut().position = (2, 2);
    editor.cursors.primary_mut().position = (2, 2);

    let _ = editor.update(&Message::Delete);

    assert_eq!(editor.buffer.line(0), "line3");
    assert_eq!(editor.cursors.primary_position(), (0, 2));
    assert!(editor.cursors.primary().anchor.is_none());
}

#[test]
fn test_canvas_focus_gained() {
    let mut editor = CodeEditor::new("hello world", "py");
    assert!(!editor.focus.has_canvas_focus);
    assert!(!editor.focus.show_cursor);

    let _ = editor.update(&Message::CanvasFocusGained);

    assert!(editor.focus.has_canvas_focus);
    assert!(editor.focus.show_cursor);
}

#[test]
fn test_enter_no_indent() {
    let mut editor = CodeEditor::new("hello", "rs");
    editor.cursors.primary_mut().position = (0, 5);
    let _ = editor.update(&Message::Enter);
    assert_eq!(editor.buffer.line(0), "hello");
    assert_eq!(editor.buffer.line(1), "");
    assert_eq!(editor.cursors.primary_position(), (1, 0));
}

#[test]
fn test_enter_auto_indent_spaces() {
    let mut editor = CodeEditor::new("    hello", "rs");
    editor.cursors.primary_mut().position = (0, 9);
    let _ = editor.update(&Message::Enter);
    assert_eq!(editor.buffer.line(0), "    hello");
    assert_eq!(editor.buffer.line(1), "    ");
    assert_eq!(editor.cursors.primary_position(), (1, 4));
}

#[test]
fn test_enter_auto_indent_tab() {
    let mut editor = CodeEditor::new("\thello", "rs");
    editor.cursors.primary_mut().position = (0, 6);
    let _ = editor.update(&Message::Enter);
    assert_eq!(editor.buffer.line(0), "\thello");
    assert_eq!(editor.buffer.line(1), "\t");
    assert_eq!(editor.cursors.primary_position(), (1, 1));
}

#[test]
fn test_enter_auto_indent_undo() {
    let mut editor = CodeEditor::new("    hello", "rs");
    editor.cursors.primary_mut().position = (0, 9);
    let _ = editor.update(&Message::Enter);
    assert_eq!(editor.buffer.line_count(), 2);

    let _ = editor.update(&Message::Undo);
    assert_eq!(editor.buffer.line_count(), 1);
    assert_eq!(editor.buffer.line(0), "    hello");
    assert_eq!(editor.cursors.primary_position(), (0, 9));
}

// =========================================================================
// Multi-cursor tests
// =========================================================================

#[test]
fn test_multi_cursor_char_input_different_lines() {
    let mut editor = CodeEditor::new("aaa\nbbb", "rs");
    editor.request_focus();
    editor.focus.has_canvas_focus = true;
    editor.focus.focus_locked = false;
    // Place cursors at (0, 1) and (1, 1)
    editor.cursors.primary_mut().position = (0, 1);
    editor.cursors.add_cursor((1, 1));

    let _ = editor.update(&Message::CharacterInput('X'));

    // Both lines should have 'X' inserted at col 1
    assert_eq!(editor.buffer.line(0), "aXaa");
    assert_eq!(editor.buffer.line(1), "bXbb");
}

#[test]
fn test_multi_cursor_char_input_same_line() {
    let mut editor = CodeEditor::new("abcd", "rs");
    editor.request_focus();
    editor.focus.has_canvas_focus = true;
    editor.focus.focus_locked = false;
    // Place cursors at col 1 and col 3 (same line)
    editor.cursors.primary_mut().position = (0, 1);
    editor.cursors.add_cursor((0, 3));

    let _ = editor.update(&Message::CharacterInput('X'));

    // Process descending: col 3 first → "abcXd"; then col 1 → "aXbcXd"
    // Col 1 cursor adjustment: insert at col 3 does not affect col 1 (col 1 < 3)
    assert_eq!(editor.buffer.line(0), "aXbcXd");
}

#[test]
fn test_add_cursor_above() {
    let mut editor = CodeEditor::new("line0\nline1\nline2", "rs");
    editor.cursors.primary_mut().position = (1, 3);

    let _ = editor.update(&Message::AddCursorAbove);

    assert!(editor.cursors.is_multi());
    // New cursor should be at line 0, col 3
    assert_eq!(editor.cursors.as_slice()[0].position, (0, 3));
}

#[test]
fn test_add_cursor_below() {
    let mut editor = CodeEditor::new("line0\nline1\nline2", "rs");
    editor.cursors.primary_mut().position = (1, 3);

    let _ = editor.update(&Message::AddCursorBelow);

    assert!(editor.cursors.is_multi());
    // New cursor should be at line 2, col 3
    assert_eq!(
        editor
            .cursors
            .as_slice()
            .iter()
            .find(|c| c.position.0 == 2)
            .map(|c| c.position),
        Some((2, 3))
    );
}

#[test]
fn test_escape_collapses_multi_cursor() {
    let mut editor = CodeEditor::new("line0\nline1", "rs");
    editor.cursors.primary_mut().position = (0, 0);
    editor.cursors.add_cursor((1, 0));
    assert!(editor.cursors.is_multi());

    let _ = editor.update(&Message::CloseSearch);

    assert!(!editor.cursors.is_multi());
}

#[test]
fn test_select_next_occurrence_selects_word() {
    let mut editor = CodeEditor::new("foo bar foo", "rs");
    editor.cursors.primary_mut().position = (0, 1); // inside "foo"

    let _ = editor.update(&Message::SelectNextOccurrence);

    // Primary cursor should now have "foo" selected
    let range = editor.cursors.primary().selection_range();
    assert_eq!(range, Some(((0, 0), (0, 3))));
}

#[test]
fn test_select_next_occurrence_adds_cursor_for_second_occurrence() {
    let mut editor = CodeEditor::new("foo bar foo", "rs");
    // Set up primary cursor with "foo" selected
    editor.cursors.primary_mut().anchor = Some((0, 0));
    editor.cursors.primary_mut().position = (0, 3);

    let _ = editor.update(&Message::SelectNextOccurrence);

    // Should now have 2 cursors: primary at "foo" (0..3) and new at "foo" (8..11)
    assert_eq!(editor.cursors.len(), 2);
}

#[test]
fn test_multi_cursor_backspace() {
    let mut editor = CodeEditor::new("abc\ndef", "rs");
    editor.cursors.primary_mut().position = (0, 2);
    editor.cursors.add_cursor((1, 2));

    let _ = editor.update(&Message::Backspace);

    assert_eq!(editor.buffer.line(0), "ac");
    assert_eq!(editor.buffer.line(1), "df");
}
