//! Positions, cursors and the set of them.

use iced_code_editor::cursor_set::{adjust_other_cursors, Cursor, CursorSet};
use iced_code_editor::position::{adjust_pos, is_before, same_position, EditType};
use iced_code_editor::text_buffer::move_position;

fn adjusted(pos: (usize, usize), line: usize, col: usize, kind: EditType) -> (usize, usize) {
    let mut pos = pos;
    adjust_pos(&mut pos, line, col, kind);
    pos
}

#[test]
fn positions_are_in_document_order() {
    assert!(is_before((0, 9), (1, 0)));
    assert!(is_before((1, 2), (1, 3)));
    assert!(!is_before((1, 3), (1, 3)));
    assert!(same_position((1, 3), (1, 3)));
    assert!(!same_position((1, 3), (3, 1)));
}

#[test]
fn inserting_a_char_moves_what_follows_on_the_line() {
    assert_eq!(adjusted((2, 3), 2, 3, EditType::InsertChar), (2, 4));
    assert_eq!(adjusted((2, 2), 2, 3, EditType::InsertChar), (2, 2));
    assert_eq!(adjusted((3, 3), 2, 3, EditType::InsertChar), (3, 3));
}

#[test]
fn deleting_a_char_moves_what_follows_on_the_line() {
    assert_eq!(adjusted((2, 3), 2, 3, EditType::DeleteCharBack), (2, 2));
    assert_eq!(adjusted((2, 2), 2, 3, EditType::DeleteCharBack), (2, 2));
    assert_eq!(adjusted((2, 5), 2, 0, EditType::DeleteCharBack), (2, 5));
    assert_eq!(adjusted((2, 4), 2, 3, EditType::DeleteCharForward), (2, 3));
    assert_eq!(adjusted((2, 3), 2, 3, EditType::DeleteCharForward), (2, 3));
}

#[test]
fn breaking_a_line_moves_what_follows() {
    let kind = EditType::InsertNewline { indent_len: 4 };
    assert_eq!(adjusted((1, 7), 1, 5, kind), (2, 6));
    assert_eq!(adjusted((1, 4), 1, 5, kind), (1, 4));
    assert_eq!(adjusted((3, 2), 1, 5, kind), (4, 2));
}

#[test]
fn merging_lines_moves_what_follows() {
    let prev = EditType::MergePrev { prev_line_len: 6 };
    assert_eq!(adjusted((2, 1), 2, 0, prev), (1, 7));
    assert_eq!(adjusted((4, 1), 2, 0, prev), (3, 1));
    assert_eq!(adjusted((1, 1), 2, 0, prev), (1, 1));
    let next = EditType::MergeNext { edit_line_len: 6 };
    assert_eq!(adjusted((3, 1), 2, 6, next), (2, 7));
    assert_eq!(adjusted((5, 1), 2, 6, next), (4, 1));
    assert_eq!(adjusted((2, 1), 2, 6, next), (2, 1));
}

#[test]
fn all_cursors_but_one_are_adjusted() {
    let mut cursors = vec![
        Cursor { position: (0, 1), anchor: None },
        Cursor { position: (0, 4), anchor: Some((0, 6)) },
        Cursor { position: (0, 4), anchor: Some((0, 6)) },
    ];
    adjust_other_cursors(&mut cursors, 2, 0, 3, EditType::InsertChar);
    assert_eq!(cursors[0], Cursor { position: (0, 1), anchor: None });
    assert_eq!(cursors[1], Cursor { position: (0, 5), anchor: Some((0, 7)) });
    assert_eq!(cursors[2], Cursor { position: (0, 4), anchor: Some((0, 6)) });
}

#[test]
fn positions_move_with_the_replaced_text() {
    // Before the range, in it, on its last line, and below.
    assert_eq!(move_position((0, 1), (0, 2), (2, 3), (1, 5)), (0, 1));
    assert_eq!(move_position((1, 9), (0, 2), (2, 3), (1, 5)), (1, 5));
    assert_eq!(move_position((2, 4), (0, 2), (2, 3), (1, 5)), (1, 6));
    assert_eq!(move_position((7, 4), (0, 2), (2, 3), (1, 5)), (6, 4));
}

#[test]
fn selections_have_a_start_and_an_end() {
    let backward = Cursor { position: (0, 2), anchor: Some((1, 4)) };
    assert!(backward.has_selection());
    assert_eq!(backward.selection_range(), Some(((0, 2), (1, 4))));
    let forward = Cursor { position: (1, 4), anchor: Some((0, 2)) };
    assert_eq!(forward.selection_range(), Some(((0, 2), (1, 4))));
    let empty = Cursor { position: (1, 4), anchor: Some((1, 4)) };
    assert!(!empty.has_selection());
    assert_eq!(empty.selection_range(), None);
    assert_eq!(Cursor::new((3, 3)).selection_range(), None);
}

#[test]
fn carets_at_the_same_place_are_one() {
    let mut set = CursorSet::new((1, 2));
    set.add_cursor((0, 3));
    set.add_cursor((1, 2));
    assert_eq!(set.len(), 2);
    assert_eq!(set.as_slice()[0].position, (0, 3));
    assert_eq!(set.as_slice()[1].position, (1, 2));
    assert_eq!(set.primary_index(), 1);
}

#[test]
fn selections_that_overlap_are_one() {
    let mut set = CursorSet::new((0, 0));
    *set.primary_mut() = Cursor { position: (0, 4), anchor: Some((0, 0)) };
    set.add_cursor_with_selection(Cursor { position: (0, 9), anchor: Some((0, 3)) });
    assert_eq!(set.len(), 1);
    assert_eq!(set.primary().selection_range(), Some(((0, 0), (0, 9))));
    assert_eq!(set.primary_position(), (0, 9));
    // One that only meets it stays apart.
    set.add_cursor_with_selection(Cursor { position: (0, 12), anchor: Some((0, 9)) });
    assert_eq!(set.len(), 2);
    // A caret that touches a selection goes into it.
    set.add_cursor((0, 12));
    assert_eq!(set.len(), 2);
}

#[test]
fn a_set_is_collapsed() {
    let mut set = CursorSet::new((2, 2));
    set.add_cursor((0, 0));
    assert!(set.is_multi());
    set.remove_all_but_primary();
    assert!(!set.is_multi());
    assert_eq!(set.primary_position(), (2, 2));
    set.set_single((5, 5));
    assert_eq!(set.primary_position(), (5, 5));
}

#[test]
fn cursors_are_listed_from_the_end() {
    let mut set = CursorSet::new((1, 0));
    set.add_cursor((0, 4));
    set.add_cursor((2, 1));
    assert_eq!(set.descending(), vec![2, 1, 0]);
}
