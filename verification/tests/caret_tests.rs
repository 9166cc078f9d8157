//! Where carets end up: after undo, after keys at several cursors, and on wrapped lines.

use iced_code_editor::cursor_set::Cursor;
use iced_code_editor::editor::CodeEditor;
use iced_code_editor::message::{IndentStyle, Message};
use iced_code_editor::text_buffer::TextBuffer;

fn with_carets(content: &str, carets: &[(usize, usize)]) -> CodeEditor {
    let mut editor = CodeEditor::new(content, "rs");
    editor.request_focus();
    editor.focus.has_canvas_focus = true;
    editor.cursors.primary_mut().position = carets[0];
    for caret in &carets[1..] {
        editor.cursors.add_cursor(*caret);
    }
    editor
}

fn text(editor: &CodeEditor) -> Vec<String> {
    (0..editor.buffer.line_count()).map(|line| editor.buffer.line(line)).collect()
}

fn positions(editor: &CodeEditor) -> Vec<(usize, usize)> {
    editor.cursors.as_slice().iter().map(|c| c.position).collect()
}

#[test]
fn undo_takes_the_caret_back() {
    let keys = [
        Message::Enter,
        Message::Backspace,
        Message::Delete,
        Message::Paste("x\nyz".to_string()),
    ];
    for key in &keys {
        let mut editor = with_carets("abc\nde", &[(0, 2)]);
        let _ = editor.update(key);
        assert_ne!(text(&editor), vec!["abc", "de"]);
        let _ = editor.update(&Message::End(false));
        let _ = editor.update(&Message::Undo);
        assert_eq!(text(&editor), vec!["abc", "de"]);
        assert_eq!(positions(&editor), vec![(0, 2)]);
    }
}

#[test]
fn undo_takes_the_caret_back_to_the_end_of_a_selection() {
    for key in &[Message::DeleteSelection, Message::Backspace, Message::Paste("x".to_string())] {
        let mut editor = with_carets("abc\nde", &[(0, 0)]);
        *editor.cursors.primary_mut() = Cursor { position: (1, 1), anchor: Some((0, 1)) };
        let _ = editor.update(key);
        assert_eq!(text(&editor).len(), 1);
        let _ = editor.update(&Message::Undo);
        assert_eq!(text(&editor), vec!["abc", "de"]);
        assert_eq!(editor.cursors.primary_position(), (1, 1));
    }
}

#[test]
fn undo_takes_the_caret_back_to_where_typing_began() {
    let mut editor = with_carets("abc", &[(0, 1)]);
    editor.indenting.style = IndentStyle::Spaces(0);
    let _ = editor.update(&Message::Tab);
    editor.indenting.style = IndentStyle::Spaces(3);
    let _ = editor.update(&Message::Tab);
    let _ = editor.update(&Message::CharacterInput('x'));
    let _ = editor.update(&Message::ImeCommit("yz".to_string()));
    assert_eq!(text(&editor), vec!["a   xyzbc"]);
    assert_eq!(editor.cursors.primary_position(), (0, 7));
    let _ = editor.update(&Message::Undo);
    assert_eq!(text(&editor), vec!["abc"]);
    assert_eq!(editor.cursors.primary_position(), (0, 1));
}

#[test]
fn undoing_a_replacement_takes_the_primary_caret_back() {
    for message in &[Message::ReplaceNext, Message::ReplaceAll] {
        let mut editor = with_carets("cat dog\ncat", &[(0, 5)]);
        let _ = editor.update(&Message::OpenSearchReplace);
        let _ = editor.update(&Message::SearchQueryChanged("cat".to_string()));
        let _ = editor.update(&Message::ReplaceQueryChanged("bird".to_string()));
        editor.cursors.primary_mut().position = (0, 6);
        editor.cursors.add_cursor((1, 1));
        let primary = editor.cursors.primary_position();
        let _ = editor.update(message);
        assert_ne!(text(&editor), vec!["cat dog", "cat"]);
        let _ = editor.update(&Message::Undo);
        assert_eq!(text(&editor), vec!["cat dog", "cat"]);
        assert_eq!(editor.cursors.primary_position(), primary);
    }
}

#[test]
fn tab_reaches_every_caret() {
    let mut editor = with_carets("ab\ncd", &[(0, 0), (0, 1), (1, 2)]);
    editor.indenting.style = IndentStyle::Spaces(2);
    let _ = editor.update(&Message::Tab);
    assert_eq!(text(&editor), vec!["  a  b", "cd  "]);
    assert_eq!(positions(&editor), vec![(0, 2), (0, 5), (1, 4)]);
    let mut editor = with_carets("ab\ncd", &[(0, 0), (0, 1), (1, 2)]);
    editor.indenting.style = IndentStyle::Tab;
    let _ = editor.update(&Message::Tab);
    assert_eq!(text(&editor), vec!["\ta\tb", "cd\t"]);
    assert_eq!(positions(&editor), vec![(0, 1), (0, 3), (1, 3)]);
    let mut editor = with_carets("ab\ncd", &[(0, 0), (0, 1), (1, 2)]);
    editor.indenting.style = IndentStyle::Spaces(0);
    let _ = editor.update(&Message::Tab);
    assert_eq!(text(&editor), vec!["ab", "cd"]);
    assert_eq!(positions(&editor), vec![(0, 0), (0, 1), (1, 2)]);
}

#[test]
fn enter_puts_every_caret_behind_its_indentation() {
    let mut editor = with_carets("  ab\ncd", &[(0, 2), (0, 3), (1, 1)]);
    let _ = editor.update(&Message::Enter);
    assert_eq!(text(&editor), vec!["  ", "  a", "  b", "c", "d"]);
    assert_eq!(positions(&editor), vec![(1, 2), (2, 2), (4, 0)]);
    let mut editor = with_carets("    x", &[(0, 1), (0, 2)]);
    let _ = editor.update(&Message::Enter);
    assert_eq!(text(&editor), vec![" ", "   ", "      x"]);
    assert_eq!(positions(&editor), vec![(1, 2), (2, 4)]);
    let mut editor = with_carets("  ab", &[(0, 3), (0, 4)]);
    editor.indenting.auto_indent_enabled = false;
    let _ = editor.update(&Message::Enter);
    assert_eq!(text(&editor), vec!["  a", "b", ""]);
    assert_eq!(positions(&editor), vec![(1, 0), (2, 0)]);
}

#[test]
fn backspace_takes_one_from_every_caret_behind_it() {
    let mut editor = with_carets("ab\ncd", &[(0, 0), (0, 2), (1, 0), (1, 1)]);
    let _ = editor.update(&Message::Backspace);
    assert_eq!(text(&editor), vec!["ad"]);
    assert_eq!(positions(&editor), vec![(0, 0), (0, 1), (0, 1), (0, 1)]);
    let mut editor = with_carets("ab\ncd\nef", &[(1, 0), (1, 2), (2, 1)]);
    let _ = editor.update(&Message::Backspace);
    assert_eq!(text(&editor), vec!["abc", "f"]);
    assert_eq!(positions(&editor), vec![(0, 2), (0, 3), (1, 0)]);
}

#[test]
fn delete_takes_one_from_the_carets_behind_it() {
    let mut editor = with_carets("ab\ncd", &[(0, 0), (0, 2), (1, 1), (1, 2)]);
    let _ = editor.update(&Message::Delete);
    assert_eq!(text(&editor), vec!["bc"]);
    assert_eq!(positions(&editor), vec![(0, 0), (0, 1), (0, 2), (0, 2)]);
}

#[test]
fn white_space_is_what_unicode_says() {
    let listed = |c: char| {
        let code = c as u32;
        (0x9..=0xd).contains(&code)
            || (0x2000..=0x200a).contains(&code)
            || [0x20, 0x85, 0xa0, 0x1680, 0x2028, 0x2029, 0x202f, 0x205f, 0x3000].contains(&code)
    };
    for c in '\0'..=char::MAX {
        assert_eq!(c.is_whitespace(), listed(c), "{:?}", c);
    }
    let mut editor = with_carets("\t \u{2003}\u{200b}x", &[(0, 5)]);
    let _ = editor.update(&Message::Enter);
    assert_eq!(text(&editor), vec!["\t \u{2003}\u{200b}x", "\t \u{2003}"]);
    assert_eq!(positions(&editor), vec![(1, 3)]);
}

#[test]
fn enter_repeats_spaces_and_tabs() {
    let mut editor = with_carets("a\n \t b\nc", &[(1, 1)]);
    let _ = editor.update(&Message::Enter);
    assert_eq!(text(&editor), vec!["a", " ", " \t \t b", "c"]);
    assert_eq!(positions(&editor), vec![(2, 3)]);
}

#[test]
fn places_are_found_on_wrapped_lines() {
    let buffer = TextBuffer::new("abcdef\n\nxyz");
    assert_eq!(buffer.row_of((0, 3), 4), 0);
    assert_eq!(buffer.row_of((0, 4), 4), 1);
    assert_eq!(buffer.row_of((0, 6), 4), 1);
    assert_eq!(buffer.row_of((1, 0), 4), 2);
    assert_eq!(buffer.row_of((2, 3), 4), 3);
    assert_eq!(buffer.place_on_row(0, 9, 4), (0, 4));
    assert_eq!(buffer.place_on_row(1, 1, 4), (0, 5));
    assert_eq!(buffer.place_on_row(1, 9, 4), (0, 6));
    assert_eq!(buffer.place_on_row(2, 5, 4), (1, 0));
    assert_eq!(buffer.place_on_row(3, 2, 4), (2, 2));
    assert_eq!(buffer.place_on_row(9, 0, 4), (2, 3));
    let buffer = TextBuffer::new("abcd\ne");
    assert_eq!(buffer.row_of((0, 4), 4), 0);
    assert_eq!(buffer.row_of((1, 0), 4), 1);
    assert_eq!(buffer.place_on_row(0, 4, 4), (0, 4));
}
