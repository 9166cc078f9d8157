//! Commands and the history of them.

use iced_code_editor::command::{Command, CompositeCommand};
use iced_code_editor::editor::CodeEditor;
use iced_code_editor::history::CommandHistory;
use iced_code_editor::message::{Action, ArrowDirection, Message};
use iced_code_editor::text_buffer::TextBuffer;

fn text(buffer: &TextBuffer) -> Vec<String> {
    (0..buffer.line_count()).map(|line| buffer.line(line)).collect()
}

fn focused(content: &str) -> CodeEditor {
    let mut editor = CodeEditor::new(content, "rs");
    editor.request_focus();
    editor.focus.has_canvas_focus = true;
    editor
}

fn run(history: &mut CommandHistory, buffer: &mut TextBuffer, command: Command) {
    let mut command = command;
    let mut cursor = (0, 0);
    command.execute(buffer, &mut cursor);
    history.push(command);
}

#[test]
fn every_command_is_undone() {
    let content = "fn main() {\n    body\n}";
    let commands: Vec<fn(&TextBuffer) -> Command> = vec![
        |_| Command::insert_char(1, 4, 'x', (1, 4)),
        |_| Command::insert_newline(1, 6, (1, 6), vec![' ', ' ']),
        |_| Command::insert_text(0, 2, "one\ntwo", (0, 2)),
        |b| Command::delete_char(b, 1, 3, (1, 3)),
        |b| Command::delete_char(b, 1, 0, (1, 0)),
        |b| Command::delete_char(b, 0, 0, (0, 0)),
        |b| Command::delete_forward(b, 1, 3, (1, 3)),
        |b| Command::delete_forward(b, 1, 8, (1, 8)),
        |b| Command::delete_forward(b, 2, 1, (2, 1)),
        |_| Command::delete_range((0, 3), (2, 0), (2, 0)),
        |_| Command::replace_text((1, 4), 4, "other\nwords", (1, 4)),
    ];
    for make in commands {
        let mut buffer = TextBuffer::new(content);
        let mut command = make(&buffer);
        let mut cursor = (9, 9);
        command.execute(&mut buffer, &mut cursor);
        command.undo(&mut buffer, &mut cursor);
        assert_eq!(text(&buffer), vec!["fn main() {", "    body", "}"]);
    }
}

#[test]
fn commands_do_what_they_say() {
    let mut buffer = TextBuffer::new("abc\ndef");
    let mut cursor = (0, 0);
    Command::insert_text(0, 1, "1\n2", (0, 0)).execute(&mut buffer, &mut cursor);
    assert_eq!(text(&buffer), vec!["a1", "2bc", "def"]);
    assert_eq!(cursor, (1, 1));
    Command::delete_range((0, 1), (2, 1), (0, 0)).execute(&mut buffer, &mut cursor);
    assert_eq!(text(&buffer), vec!["aef"]);
    assert_eq!(cursor, (0, 1));
    Command::replace_text((0, 1), 2, "xyz", (0, 0)).execute(&mut buffer, &mut cursor);
    assert_eq!(text(&buffer), vec!["axyz"]);
    assert_eq!(cursor, (0, 4));
}

#[test]
fn a_composite_is_undone_from_its_end() {
    let mut buffer = TextBuffer::new("abc");
    let mut composite = CompositeCommand::new("Both".to_string());
    assert!(composite.is_empty());
    composite.add(Command::insert_char(0, 1, 'x', (0, 1)));
    composite.add(Command::insert_char(0, 3, 'y', (0, 2)));
    let mut cursor = (0, 0);
    composite.execute(&mut buffer, &mut cursor);
    assert_eq!(text(&buffer), vec!["axbyc"]);
    assert_eq!(cursor, (0, 4));
    composite.undo(&mut buffer, &mut cursor);
    assert_eq!(text(&buffer), vec!["abc"]);
    assert_eq!(cursor, (0, 1));
}

#[test]
fn a_history_counts_its_entries() {
    let mut buffer = TextBuffer::new("");
    let mut history = CommandHistory::new(100);
    assert_eq!(history.undo_count(), 0);
    assert_eq!(history.redo_count(), 0);
    assert!(!history.can_undo());
    assert!(!history.can_redo());
    run(&mut history, &mut buffer, Command::insert_char(0, 0, 'a', (0, 0)));
    run(&mut history, &mut buffer, Command::insert_char(0, 1, 'b', (0, 1)));
    assert_eq!(history.undo_count(), 2);
    let mut cursor = (0, 2);
    assert!(history.undo(&mut buffer, &mut cursor));
    assert_eq!(history.undo_count(), 1);
    assert_eq!(history.redo_count(), 1);
    assert!(history.can_undo());
    assert!(history.can_redo());
    // A new command leaves nothing to redo.
    run(&mut history, &mut buffer, Command::insert_char(0, 1, 'c', (0, 1)));
    assert_eq!(history.redo_count(), 0);
    assert_eq!(text(&buffer), vec!["ac"]);
}

#[test]
fn nothing_is_undone_without_entries() {
    let mut buffer = TextBuffer::new("abc");
    let mut history = CommandHistory::new(100);
    let mut cursor = (0, 2);
    assert!(!history.undo(&mut buffer, &mut cursor));
    assert!(!history.redo(&mut buffer, &mut cursor));
    assert_eq!(cursor, (0, 2));
    assert_eq!(text(&buffer), vec!["abc"]);
}

#[test]
fn a_history_keeps_no_more_than_it_may() {
    let mut buffer = TextBuffer::new("");
    let mut history = CommandHistory::new(100);
    assert_eq!(history.max_size(), 100);
    history.set_max_size(3);
    assert_eq!(history.max_size(), 3);
    for _ in 0..5 {
        run(&mut history, &mut buffer, Command::insert_char(0, 0, 'a', (0, 0)));
    }
    assert_eq!(history.undo_count(), 3);
    history.set_max_size(1);
    assert_eq!(history.undo_count(), 1);
    let mut cursor = (0, 0);
    assert!(history.undo(&mut buffer, &mut cursor));
    assert!(!history.undo(&mut buffer, &mut cursor));
    assert_eq!(text(&buffer), vec!["aaaa"]);
}

#[test]
fn a_history_is_cleared() {
    let mut buffer = TextBuffer::new("");
    let mut history = CommandHistory::new(100);
    run(&mut history, &mut buffer, Command::insert_char(0, 0, 'a', (0, 0)));
    let mut cursor = (0, 1);
    assert!(history.undo(&mut buffer, &mut cursor));
    run(&mut history, &mut buffer, Command::insert_char(0, 0, 'b', (0, 0)));
    history.clear();
    assert_eq!(history.undo_count(), 0);
    assert_eq!(history.redo_count(), 0);
    assert!(history.is_modified());
}

#[test]
fn the_save_point_is_tracked() {
    let mut buffer = TextBuffer::new("");
    let mut history = CommandHistory::new(100);
    assert!(!history.is_modified());
    run(&mut history, &mut buffer, Command::insert_char(0, 0, 'a', (0, 0)));
    assert!(history.is_modified());
    history.mark_saved();
    assert!(!history.is_modified());
    let mut cursor = (0, 1);
    assert!(history.undo(&mut buffer, &mut cursor));
    assert!(history.is_modified());
    assert!(history.redo(&mut buffer, &mut cursor));
    assert!(!history.is_modified());
    // The saved text cannot be reached any more once another branch was taken.
    assert!(history.undo(&mut buffer, &mut cursor));
    run(&mut history, &mut buffer, Command::insert_char(0, 0, 'b', (0, 0)));
    assert!(history.is_modified());
    assert!(history.undo(&mut buffer, &mut cursor));
    assert!(history.is_modified());
}

#[test]
fn a_group_is_one_entry() {
    let mut buffer = TextBuffer::new("");
    let mut history = CommandHistory::new(100);
    history.begin_group("Typing");
    run(&mut history, &mut buffer, Command::insert_char(0, 0, 'a', (0, 0)));
    run(&mut history, &mut buffer, Command::insert_char(0, 1, 'b', (0, 1)));
    history.end_group();
    assert_eq!(history.undo_count(), 1);
    // An empty group is none.
    history.begin_group("Typing");
    history.end_group();
    assert_eq!(history.undo_count(), 1);
    let mut cursor = (0, 2);
    assert!(history.undo(&mut buffer, &mut cursor));
    assert_eq!(text(&buffer), vec![""]);
    assert_eq!(cursor, (0, 0));
}

#[test]
fn undo_and_redo_take_each_other_back() {
    let mut editor = focused("one\ntwo");
    editor.cursors.primary_mut().position = (0, 3);
    let _ = editor.update(&Message::Enter);
    let _ = editor.update(&Message::Backspace);
    let _ = editor.update(&Message::Paste("a\nb".to_string()));
    let after = text(&editor.buffer);
    assert_eq!(after, vec!["onea", "b", "two"]);
    for _ in 0..3 {
        assert_eq!(editor.update(&Message::Undo), Action::ScrollToCursor);
    }
    assert_eq!(text(&editor.buffer), vec!["one", "two"]);
    assert_eq!(editor.update(&Message::Undo), Action::Nothing);
    for _ in 0..3 {
        assert_eq!(editor.update(&Message::Redo), Action::ScrollToCursor);
    }
    assert_eq!(text(&editor.buffer), after);
    assert_eq!(editor.update(&Message::Redo), Action::Nothing);
    // Undo takes back what Redo did.
    let _ = editor.update(&Message::Undo);
    let _ = editor.update(&Message::Redo);
    let _ = editor.update(&Message::Undo);
    assert_eq!(text(&editor.buffer), vec!["one", "two"]);
}

#[test]
fn typing_at_several_cursors_is_one_entry() {
    let mut editor = focused("aa\nbb");
    editor.cursors.primary_mut().position = (0, 1);
    editor.cursors.add_cursor((1, 1));
    for ch in ['x', 'y'] {
        let _ = editor.update(&Message::CharacterInput(ch));
    }
    let _ = editor.update(&Message::Tab);
    let _ = editor.update(&Message::ImeCommit("z".to_string()));
    assert_eq!(text(&editor.buffer), vec!["axy    za", "bxy    zb"]);
    assert_eq!(editor.history.undo_count(), 0);
    let _ = editor.update(&Message::Undo);
    assert_eq!(text(&editor.buffer), vec!["aa", "bb"]);
}

#[test]
fn keys_at_several_cursors_make_an_entry_each() {
    let mut editor = focused("aa\nbb");
    editor.cursors.primary_mut().position = (0, 1);
    editor.cursors.add_cursor((1, 1));
    let _ = editor.update(&Message::Enter);
    assert_eq!(text(&editor.buffer), vec!["a", "a", "b", "b"]);
    assert_eq!(editor.history.undo_count(), 2);
    let _ = editor.update(&Message::Undo);
    let _ = editor.update(&Message::Undo);
    assert_eq!(text(&editor.buffer), vec!["aa", "bb"]);
}

#[test]
fn the_editor_knows_a_saved_text() {
    let mut editor = focused("a");
    editor.history.mark_saved();
    let _ = editor.update(&Message::CharacterInput('b'));
    assert!(editor.history.is_modified());
    let _ = editor.update(&Message::ArrowKey(ArrowDirection::Left, false));
    let _ = editor.update(&Message::Undo);
    assert!(!editor.history.is_modified());
    assert_eq!(text(&editor.buffer), vec!["a"]);
    let _ = editor.update(&Message::Redo);
    assert!(editor.history.is_modified());
}
