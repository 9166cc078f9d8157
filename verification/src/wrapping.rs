//! Wrapped lines: on which row of the canvas a place of the text is drawn.
use vstd::prelude::*;

use crate::position::{capped, Position};
use crate::text_buffer::{spot, valid, Spot, TextBuffer};

verus! {

/// The last row of a line of `len` characters, counted from its first one, when a row holds
/// `width` characters.
pub open spec fn last_row(len: int, width: int) -> int {
    if len == 0 {
        0
    } else {
        (len - 1) / width
    }
}

/// The rows that the lines before `line` take up.
pub open spec fn rows_before(lines: Seq<Seq<char>>, line: int, width: int) -> int
    decreases line,
{
    if line <= 0 {
        0
    } else {
        rows_before(lines, line - 1, width) + last_row(lines[line - 1].len() as int, width) + 1
    }
}

/// The row on which a place of the text is drawn. The end of a line stays on its last row.
pub open spec fn row_of(lines: Seq<Seq<char>>, s: Spot, width: int) -> int {
    let last = last_row(lines[s.0].len() as int, width);
    rows_before(lines, s.0, width) + (if s.1 / width < last {
        s.1 / width
    } else {
        last
    })
}

/// The place that is drawn on a row of the canvas, `col` characters from its start, for the lines
/// from `line` on, which start on row 0: the end of the row for a column past it, and the end of
/// the text for a row past the last one.
pub open spec fn place_on_row(
    lines: Seq<Seq<char>>,
    line: int,
    row: int,
    col: int,
    width: int,
) -> Spot
    decreases lines.len() - line,
{
    if line >= lines.len() {
        (lines.len() - 1, lines.last().len() as int)
    } else {
        let len = lines[line].len() as int;
        let last = last_row(len, width);
        if row > last {
            place_on_row(lines, line + 1, row - last - 1, col, width)
        } else {
            let to = row * width + if col < width {
                col
            } else {
                width
            };
            (
                line,
                if to < len {
                    to
                } else {
                    len
                },
            )
        }
    }
}

/// The start of a row is not past the last character of its line.
proof fn lemma_row_start(len: int, width: int, row: int)
    requires
        0 <= len,
        0 < width,
        0 <= row <= last_row(len, width),
    ensures
        0 <= row * width <= len,
{
    if len > 0 {
        let last = (len - 1) / width;
        assert(last * width <= len - 1) by (nonlinear_arith)
            requires
                last == (len - 1) / width,
                0 < width,
                0 < len,
        ;
        assert(0 <= row * width <= last * width) by (nonlinear_arith)
            requires
                0 <= row <= last,
                0 < width,
        ;
    } else {
        assert(row * width == 0) by (nonlinear_arith)
            requires
                row == 0,
        ;
    }
}

/// A place of the text is found again on its row, as far from the start of the row as it is.
pub proof fn law_a_place_is_found_on_its_row(lines: Seq<Seq<char>>, s: Spot, width: int)
    requires
        valid(lines, s),
        0 < width,
    ensures
        ({
            let row = row_of(lines, s, width);
            let start = (row - rows_before(lines, s.0, width)) * width;
            place_on_row(lines, 0, row, s.1 - start, width) == s
        }),
{
    let row = row_of(lines, s, width);
    let inner = row - rows_before(lines, s.0, width);
    lemma_rows_skipped(lines, 0, s.0, row, s.1 - inner * width, width);
    let len = lines[s.0].len() as int;
    let last = last_row(len, width);
    assert(0 <= inner * width <= s.1 <= inner * width + width) by (nonlinear_arith)
        requires
            0 < width,
            0 <= s.1 <= len,
            last == (if len == 0 {
                0int
            } else {
                (len - 1) / width
            }),
            inner == (if s.1 / width < last {
                s.1 / width
            } else {
                last
            }),
    ;
}

/// Rows of earlier lines are passed over.
proof fn lemma_rows_skipped(
    lines: Seq<Seq<char>>,
    from: int,
    to: int,
    row: int,
    col: int,
    width: int,
)
    requires
        0 <= from <= to < lines.len(),
        0 < width,
        row >= rows_before(lines, to, width),
    ensures
        place_on_row(lines, from, row - rows_before(lines, from, width), col, width)
            == place_on_row(lines, to, row - rows_before(lines, to, width), col, width),
    decreases to - from,
{
    if from < to {
        lemma_rows_grow(lines, from + 1, to, width);
        lemma_rows_skipped(lines, from + 1, to, row, col, width);
    }
}

proof fn lemma_rows_grow(lines: Seq<Seq<char>>, from: int, to: int, width: int)
    requires
        0 <= from <= to <= lines.len(),
        0 < width,
    ensures
        rows_before(lines, from, width) <= rows_before(lines, to, width),
    decreases to - from,
{
    if from < to {
        lemma_rows_grow(lines, from, to - 1, width);
        let len = lines[to - 1].len() as int;
        assert(len > 0 ==> (len - 1) / width >= 0) by (nonlinear_arith)
            requires
                0 < width,
        ;
    }
}

/// The last row of a line of `len` characters.
fn last_row_of(len: usize, width: usize) -> (r: usize)
    requires
        width > 0,
    ensures
        r == last_row(len as int, width as int),
{
    if len == 0 {
        0
    } else {
        (len - 1) / width
    }
}

impl TextBuffer {
    /// The row on which a place of the text is drawn, when a row holds `width` characters.
    pub fn row_of(&self, pos: Position, width: usize) -> (r: usize)
        requires
            valid(self@, spot(pos)),
            width > 0,
        ensures
            r == capped(row_of(self@, spot(pos), width as int)),
    {
        let mut rows: usize = 0;
        let mut line: usize = 0;
        while line < pos.0
            invariant
                line <= pos.0 < self@.len(),
                width > 0,
                rows == capped(rows_before(self@, line as int, width as int)),
                rows_before(self@, line as int, width as int) >= 0,
            decreases pos.0 - line,
        {
            let last = last_row_of(self.line_len(line), width);
            rows = rows.saturating_add(last).saturating_add(1);
            line += 1;
        }
        let last = last_row_of(self.line_len(pos.0), width);
        let inner = pos.1 / width;
        rows.saturating_add(if inner < last {
            inner
        } else {
            last
        })
    }

    /// The place that is drawn on a row of the canvas, `col` characters from its start, when a row
    /// holds `width` characters.
    pub fn place_on_row(&self, row: usize, col: usize, width: usize) -> (r: Position)
        requires
            self.wf(),
            width > 0,
        ensures
            spot(r) == place_on_row(self@, 0, row as int, col as int, width as int),
            valid(self@, spot(r)),
    {
        let mut left: usize = row;
        let mut line: usize = 0;
        while line < self.line_count()
            invariant
                self.wf(),
                width > 0,
                line <= self@.len(),
                place_on_row(self@, 0, row as int, col as int, width as int) == place_on_row(
                    self@,
                    line as int,
                    left as int,
                    col as int,
                    width as int,
                ),
            decreases self@.len() - line,
        {
            let len = self.line_len(line);
            let last = last_row_of(len, width);
            if left <= last {
                proof {
                    lemma_row_start(len as int, width as int, left as int);
                }
                let start = left * width;
                let inner = if col < width {
                    col
                } else {
                    width
                };
                let to = if inner < len - start {
                    start + inner
                } else {
                    len
                };
                return (line, to);
            }
            left = left - last - 1;
            line += 1;
        }
        let end = self.line_count() - 1;
        (end, self.line_len(end))
    }
}

} // verus!
