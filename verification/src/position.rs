//! Caret positions and how an edit elsewhere in the text moves them.
use vstd::prelude::*;

verus! {

/// A caret position: line and column, both counted from zero, columns in characters.
pub type Position = (usize, usize);

/// Document order: `a` stands strictly before `b`.
pub open spec fn before(a: Position, b: Position) -> bool {
    a.0 < b.0 || (a.0 == b.0 && a.1 < b.1)
}

/// The earlier of two positions.
pub open spec fn earlier(a: Position, b: Position) -> Position {
    if before(b, a) {
        b
    } else {
        a
    }
}

/// The later of two positions.
pub open spec fn later(a: Position, b: Position) -> Position {
    if before(a, b) {
        b
    } else {
        a
    }
}

/// The coordinate `n`, or the largest one that a `usize` holds.
pub open spec fn capped(n: int) -> usize {
    if n > usize::MAX {
        usize::MAX
    } else {
        n as usize
    }
}

/// Tells whether `a` stands strictly before `b` in the document.
pub fn is_before(a: Position, b: Position) -> (r: bool)
    ensures
        r == before(a, b),
{
    a.0 < b.0 || (a.0 == b.0 && a.1 < b.1)
}

/// Tells whether two positions are the same.
pub fn same_position(a: Position, b: Position) -> (r: bool)
    ensures
        r == (a == b),
{
    a.0 == b.0 && a.1 == b.1
}

/// Describes the kind of edit applied at a single position.
#[derive(Clone, Copy, Debug)]
pub enum EditType {
    /// Insert one char at `(edit_line, edit_col)`.
    InsertChar,
    /// Backspace: delete the char at `(edit_line, edit_col - 1)`.
    DeleteCharBack,
    /// Delete-forward: delete the char at `(edit_line, edit_col)`.
    DeleteCharForward,
    /// Enter: split `edit_line` at `edit_col`; the new line starts with `indent_len` chars of
    /// indent.
    InsertNewline { indent_len: usize },
    /// Backspace at column 0: merge `edit_line` into the line before it, which held
    /// `prev_line_len` chars.
    MergePrev { prev_line_len: usize },
    /// Delete at the end of a line: merge `edit_line + 1` into `edit_line`, which held
    /// `edit_line_len` chars.
    MergeNext { edit_line_len: usize },
}

/// Where an edit at `(edit_line, edit_col)` moves the position `pos`, as exact integers.
pub open spec fn shifted(pos: Position, edit_line: usize, edit_col: usize, kind: EditType) -> (
    int,
    int,
) {
    let (line, col) = (pos.0 as int, pos.1 as int);
    match kind {
        EditType::InsertChar => if line == edit_line && col >= edit_col {
            (line, col + 1)
        } else {
            (line, col)
        },
        EditType::DeleteCharBack => if line == edit_line && 0 < edit_col <= col {
            (line, col - 1)
        } else {
            (line, col)
        },
        EditType::DeleteCharForward => if line == edit_line && edit_col < col {
            (line, col - 1)
        } else {
            (line, col)
        },
        EditType::InsertNewline { indent_len } => if line > edit_line {
            (line + 1, col)
        } else if line == edit_line && col >= edit_col {
            (line + 1, col - edit_col + indent_len)
        } else {
            (line, col)
        },
        EditType::MergePrev { prev_line_len } => if line == edit_line {
            (line - 1, col + prev_line_len)
        } else if line > edit_line {
            (line - 1, col)
        } else {
            (line, col)
        },
        EditType::MergeNext { edit_line_len } => if line == edit_line + 1 {
            (edit_line as int, col + edit_line_len)
        } else if line > edit_line + 1 {
            (line - 1, col)
        } else {
            (line, col)
        },
    }
}

/// `shifted` as a position; a coordinate past the largest `usize` stays at it.
pub open spec fn adjusted(
    pos: Position,
    edit_line: usize,
    edit_col: usize,
    kind: EditType,
) -> Position {
    let (line, col) = shifted(pos, edit_line, edit_col, kind);
    (capped(line), capped(col))
}

/// Whether an edit of this kind can move `pos`: nothing on the first line merges into a line
/// before it, and the largest line index has none after it.
pub open spec fn adjustable(pos: Position, edit_line: usize, kind: EditType) -> bool {
    &&& kind is MergePrev ==> edit_line > 0 || pos.0 > 0
    &&& kind is MergeNext ==> edit_line < usize::MAX
}

/// Adjusts a single `(line, col)` pair after an edit.
pub fn adjust_pos(pos: &mut Position, edit_line: usize, edit_col: usize, kind: EditType)
    requires
        adjustable(*old(pos), edit_line, kind),
    ensures
        *final(pos) == adjusted(*old(pos), edit_line, edit_col, kind),
{
    match kind {
        EditType::InsertChar => {
            if pos.0 == edit_line && pos.1 >= edit_col {
                pos.1 = pos.1.saturating_add(1);
            }
        },
        EditType::DeleteCharBack => {
            if edit_col > 0 && pos.0 == edit_line && pos.1 > edit_col - 1 {
                pos.1 = pos.1 - 1;
            }
        },
        EditType::DeleteCharForward => {
            if pos.0 == edit_line && pos.1 > edit_col {
                pos.1 = pos.1 - 1;
            }
        },
        EditType::InsertNewline { indent_len } => {
            if pos.0 > edit_line {
                pos.0 = pos.0.saturating_add(1);
            } else if pos.0 == edit_line && pos.1 >= edit_col {
                pos.0 = pos.0.saturating_add(1);
                pos.1 = (pos.1 - edit_col).saturating_add(indent_len);
            }
        },
        EditType::MergePrev { prev_line_len } => {
            if pos.0 == edit_line {
                pos.0 = pos.0 - 1;
                pos.1 = pos.1.saturating_add(prev_line_len);
            } else if pos.0 > edit_line {
                pos.0 = pos.0 - 1;
            }
        },
        EditType::MergeNext { edit_line_len } => {
            if pos.0 == edit_line + 1 {
                pos.0 = edit_line;
                pos.1 = pos.1.saturating_add(edit_line_len);
            } else if pos.0 > edit_line + 1 {
                pos.0 = pos.0 - 1;
            }
        },
    }
}

} // verus!
