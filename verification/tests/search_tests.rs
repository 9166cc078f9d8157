//! Searching, replacing, and the next occurrence of a selection.

use iced_code_editor::cursor_set::Cursor;
use iced_code_editor::editor::CodeEditor;
use iced_code_editor::message::{Action, Message};
use iced_code_editor::multi_cursor::{find_next, word_in_line};
use iced_code_editor::search::{find_matches, SearchFocusedField, SearchMatch};
use iced_code_editor::text_buffer::TextBuffer;

fn text(editor: &CodeEditor) -> Vec<String> {
    (0..editor.buffer.line_count()).map(|line| editor.buffer.line(line)).collect()
}

fn searching(content: &str, query: &str) -> CodeEditor {
    let mut editor = CodeEditor::new(content, "rs");
    let _ = editor.update(&Message::OpenSearchReplace);
    let _ = editor.update(&Message::SearchQueryChanged(query.to_string()));
    editor
}

fn at(line: usize, col: usize) -> SearchMatch {
    SearchMatch { line, col }
}

#[test]
fn matches_are_found_in_order() {
    let buffer = TextBuffer::new("foo bar foo\nbar\nfoofoo");
    let matches = find_matches(&buffer, "foo", true, None);
    assert_eq!(matches, vec![at(0, 0), at(0, 8), at(2, 0), at(2, 3)]);
    assert_eq!(find_matches(&buffer, "foo", true, Some(2)), vec![at(0, 0), at(0, 8)]);
    assert_eq!(find_matches(&buffer, "foo", true, Some(0)), vec![]);
    assert_eq!(find_matches(&buffer, "", true, None), vec![]);
    assert_eq!(find_matches(&buffer, "missing", true, None), vec![]);
}

#[test]
fn matches_do_not_overlap() {
    let buffer = TextBuffer::new("aaaaa");
    assert_eq!(find_matches(&buffer, "aa", true, None), vec![at(0, 0), at(0, 2)]);
}

#[test]
fn case_matters_only_if_asked() {
    let buffer = TextBuffer::new("Foo fOO\n\u{c4}RGER \u{e4}rger");
    assert_eq!(find_matches(&buffer, "foo", true, None), vec![]);
    assert_eq!(find_matches(&buffer, "foo", false, None), vec![at(0, 0), at(0, 4)]);
    let umlaut = "\u{e4}rger";
    assert_eq!(find_matches(&buffer, umlaut, true, None), vec![at(1, 6)]);
    assert_eq!(find_matches(&buffer, umlaut, false, None), vec![at(1, 0), at(1, 6)]);
}

#[test]
fn opening_focuses_the_query() {
    let mut editor = CodeEditor::new("abc", "rs");
    editor.caches.overlay_cache.fill();
    assert_eq!(editor.update(&Message::OpenSearch), Action::FocusAndSelectSearchInput);
    assert!(editor.search_state.is_open && !editor.search_state.is_replace_mode);
    assert!(!editor.caches.overlay_cache.valid);
    assert_eq!(editor.update(&Message::OpenSearchReplace), Action::FocusAndSelectSearchInput);
    assert!(editor.search_state.is_open && editor.search_state.is_replace_mode);
    assert_eq!(editor.update(&Message::CloseSearch), Action::Nothing);
    assert!(!editor.search_state.is_open);
}

#[test]
fn an_open_dialog_is_closed_before_cursors_collapse() {
    let mut editor = CodeEditor::new("a\nb", "rs");
    editor.cursors.add_cursor((1, 0));
    let _ = editor.update(&Message::OpenSearch);
    let _ = editor.update(&Message::CloseSearch);
    assert!(!editor.search_state.is_open);
    assert!(editor.cursors.is_multi());
    let _ = editor.update(&Message::CloseSearch);
    assert!(!editor.cursors.is_multi());
}

#[test]
fn the_caret_goes_to_the_first_match() {
    let mut editor = CodeEditor::new("one two\ntwo", "rs");
    editor.cursors.primary_mut().anchor = Some((1, 1));
    let _ = editor.update(&Message::OpenSearch);
    let action = editor.update(&Message::SearchQueryChanged("two".to_string()));
    assert_eq!(action, Action::ScrollToCursor);
    assert_eq!(editor.cursors.primary_position(), (0, 4));
    assert!(editor.cursors.primary().anchor.is_none());
    let action = editor.update(&Message::SearchQueryChanged("three".to_string()));
    assert_eq!(action, Action::Nothing);
    assert_eq!(editor.cursors.primary_position(), (0, 4));
}

#[test]
fn next_and_previous_go_round() {
    let mut editor = searching("x x x", "x");
    assert_eq!(editor.cursors.primary_position(), (0, 0));
    for col in [2, 4, 0, 2] {
        assert_eq!(editor.update(&Message::FindNext), Action::ScrollToCursor);
        assert_eq!(editor.cursors.primary_position(), (0, col));
    }
    for col in [0, 4, 2] {
        assert_eq!(editor.update(&Message::FindPrevious), Action::ScrollToCursor);
        assert_eq!(editor.cursors.primary_position(), (0, col));
    }
    let _ = editor.update(&Message::SearchQueryChanged("y".to_string()));
    assert_eq!(editor.update(&Message::FindNext), Action::Nothing);
    assert_eq!(editor.update(&Message::FindPrevious), Action::Nothing);
}

#[test]
fn toggling_case_searches_again() {
    let mut editor = searching("A a", "a");
    assert_eq!(editor.search_state.matches, vec![at(0, 0), at(0, 2)]);
    assert_eq!(editor.update(&Message::ToggleCaseSensitive), Action::ScrollToCursor);
    assert_eq!(editor.search_state.matches, vec![at(0, 2)]);
    assert_eq!(editor.cursors.primary_position(), (0, 2));
}

#[test]
fn toggling_case_goes_to_the_first_match() {
    let mut editor = searching("aa", "a");
    let _ = editor.update(&Message::FindNext);
    assert_eq!(editor.cursors.primary_position(), (0, 1));
    assert_eq!(editor.update(&Message::ToggleCaseSensitive), Action::ScrollToCursor);
    assert_eq!(editor.cursors.primary_position(), (0, 0));
    assert_eq!(editor.search_state.current_match_index, Some(0));
}

#[test]
fn replacing_goes_on_to_the_next_match() {
    let mut editor = searching("cat dog cat", "cat");
    let _ = editor.update(&Message::ReplaceQueryChanged("bird".to_string()));
    assert_eq!(editor.update(&Message::ReplaceNext), Action::ScrollToCursor);
    assert_eq!(text(&editor), vec!["bird dog cat"]);
    assert_eq!(editor.cursors.primary_position(), (0, 9));
    assert_eq!(editor.update(&Message::ReplaceNext), Action::ScrollToCursor);
    assert_eq!(text(&editor), vec!["bird dog bird"]);
    assert_eq!(editor.cursors.primary_position(), (0, 13));
    assert_eq!(editor.update(&Message::ReplaceNext), Action::Nothing);
    let _ = editor.update(&Message::Undo);
    assert_eq!(text(&editor), vec!["bird dog cat"]);
}

#[test]
fn all_matches_are_replaced_as_one_entry() {
    let mut editor = searching("cat cat\nno\ncatcat", "cat");
    let _ = editor.update(&Message::ReplaceQueryChanged("a\nb".to_string()));
    assert_eq!(editor.update(&Message::ReplaceAll), Action::ScrollToCursor);
    assert_eq!(text(&editor), vec!["a", "b a", "b", "no", "a", "ba", "b"]);
    assert!(editor.search_state.matches.is_empty());
    assert_eq!(editor.update(&Message::ReplaceAll), Action::Nothing);
    let _ = editor.update(&Message::Undo);
    assert_eq!(text(&editor), vec!["cat cat", "no", "catcat"]);
}

#[test]
fn more_matches_than_shown_are_replaced() {
    let line = "x".repeat(10001);
    let mut editor = searching(&line, "x");
    assert_eq!(editor.search_state.matches.len(), 10000);
    let _ = editor.update(&Message::ReplaceAll);
    assert_eq!(text(&editor), vec![""]);
}

#[test]
fn tab_switches_the_fields_of_the_dialog() {
    let mut editor = searching("abc", "b");
    assert_eq!(editor.update(&Message::SearchDialogTab), Action::FocusReplaceInput);
    assert_eq!(editor.search_state.focused_field, SearchFocusedField::Replace);
    assert_eq!(editor.update(&Message::SearchDialogTab), Action::FocusSearchInput);
    assert_eq!(editor.update(&Message::SearchDialogShiftTab), Action::FocusReplaceInput);
    assert_eq!(editor.update(&Message::SearchDialogShiftTab), Action::FocusSearchInput);
}

#[test]
fn matches_follow_the_text() {
    let mut editor = searching("a b", "b");
    editor.request_focus();
    editor.focus.has_canvas_focus = true;
    editor.cursors.primary_mut().position = (0, 0);
    let _ = editor.update(&Message::CharacterInput('b'));
    assert_eq!(editor.search_state.matches, vec![at(0, 0), at(0, 3)]);
}

#[test]
fn words_are_found_round_a_caret() {
    let line: Vec<char> = "let a_1 = \u{e9}t\u{e9};".chars().collect();
    assert_eq!(word_in_line(&line, 5), (4, 7));
    assert_eq!(word_in_line(&line, 7), (4, 7));
    assert_eq!(word_in_line(&line, 8), (8, 8));
    assert_eq!(word_in_line(&line, 11), (10, 13));
    assert_eq!(word_in_line(&line, 99), (14, 14));
}

#[test]
fn the_next_occurrence_comes_round_the_end() {
    let buffer = TextBuffer::new("ab ab\nno\nab");
    let query = vec!['a', 'b'];
    assert_eq!(find_next(&buffer, &query, (0, 0)), Some((0, 0)));
    assert_eq!(find_next(&buffer, &query, (0, 1)), Some((0, 3)));
    assert_eq!(find_next(&buffer, &query, (0, 4)), Some((2, 0)));
    assert_eq!(find_next(&buffer, &query, (2, 1)), Some((0, 0)));
    assert_eq!(find_next(&buffer, &vec!['x'], (0, 0)), None);
    // The line of the start is searched again at last.
    let single = TextBuffer::new("ab c");
    assert_eq!(find_next(&single, &query, (0, 3)), Some((0, 0)));
}

#[test]
fn occurrences_are_selected_one_by_one() {
    let mut editor = CodeEditor::new("foo bar foo\nfoo", "rs");
    editor.cursors.primary_mut().position = (0, 1);
    assert_eq!(editor.update(&Message::SelectNextOccurrence), Action::Nothing);
    assert_eq!(editor.update(&Message::SelectNextOccurrence), Action::Nothing);
    assert_eq!(editor.update(&Message::SelectNextOccurrence), Action::Nothing);
    let ranges: Vec<_> =
        editor.cursors.as_slice().iter().map(|c| c.selection_range()).collect();
    assert_eq!(
        ranges,
        vec![Some(((0, 0), (0, 3))), Some(((0, 8), (0, 11))), Some(((1, 0), (1, 3)))]
    );
    // Case matters here, and there is no word in a gap.
    let mut editor = CodeEditor::new("Foo foo  ", "rs");
    *editor.cursors.primary_mut() = Cursor { position: (0, 7), anchor: Some((0, 4)) };
    let _ = editor.update(&Message::SelectNextOccurrence);
    assert_eq!(editor.cursors.len(), 1);
    *editor.cursors.primary_mut() = Cursor::new((0, 9));
    assert_eq!(editor.update(&Message::SelectNextOccurrence), Action::Nothing);
    assert!(editor.cursors.primary().anchor.is_none());
}
