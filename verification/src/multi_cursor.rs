//! Adding cursors: by the mouse, on neighbouring lines, and at the next occurrence of the
//! selection.
use vstd::arithmetic::div_mod::lemma_fundamental_div_mod_converse;
use vstd::prelude::*;

use crate::batch::line_of;
use crate::chars::{is_word_char, str_chars, word_char};
use crate::command::line_length;
use crate::cursor_set::{Cursor, Cursors};
use crate::editor::{CodeEditor, Editor};
use crate::message::{Action, Reply};
use crate::position::Position;
use crate::search::{line_matches, stands_at};
use crate::text_buffer::{Spot, TextBuffer};

verus! {

/// The first column of the word that ends at `col`; `col` without one.
pub open spec fn word_start(line: Seq<char>, col: int) -> int
    decreases col,
{
    if 0 < col <= line.len() && word_char(line[col - 1]) {
        word_start(line, col - 1)
    } else {
        col
    }
}

/// The column behind the word that starts at `col`; `col` without one.
pub open spec fn word_end(line: Seq<char>, col: int) -> int
    decreases line.len() - col,
{
    if 0 <= col < line.len() && word_char(line[col]) {
        word_end(line, col + 1)
    } else {
        col
    }
}

/// The columns of the word around a caret: where it starts, and the column behind it.
pub open spec fn word_at(line: Seq<char>, col: int) -> (int, int) {
    let c = if col < line.len() {
        col
    } else {
        line.len() as int
    };
    (word_start(line, c), word_end(line, c))
}

/// The first place where `text` stands, searched from `start` to the end of its line and then on
/// the lines that follow, from the `k`-th on. After the last line comes the first one; the line
/// of `start` is searched again at last, from its first column on.
pub open spec fn next_occurrence(
    lines: Seq<Seq<char>>,
    text: Seq<char>,
    start: Spot,
    k: int,
) -> Option<Spot>
    decreases lines.len() + 1 - k,
{
    if k < 0 || k > lines.len() {
        None
    } else {
        let line = (start.0 + k) % (lines.len() as int);
        let cols = line_matches(
            lines[line],
            text,
            true,
            if k == 0 {
                start.1
            } else {
                0
            },
        );
        if cols.len() > 0 {
            Some((line, cols[0]))
        } else {
            next_occurrence(lines, text, start, k + 1)
        }
    }
}

impl Cursors {
    /// Where the search for the next occurrence starts: behind the last cursor.
    pub open spec fn search_start(self) -> Spot {
        let end = self.list.last().hi();
        (end.0 as int, end.1 as int)
    }
}

impl Editor {
    /// One more caret.
    pub open spec fn caret_added(self, position: Position) -> Editor {
        Editor {
            cursors: self.cursors.with_cursor(Cursor { position, anchor: None }),
            ..self
        }.overlay_cleared().blink_reset()
    }

    /// A caret added under the pointer, if there is text under it.
    pub open spec fn alt_clicked(self, hit: Option<Position>) -> Editor {
        match hit {
            Some(position) => self.caret_added(position),
            None => self,
        }
    }

    /// A caret added on another line, at the column of the primary caret if the line is that long.
    pub open spec fn caret_added_on(self, line: int) -> Editor {
        let col = self.cursors.primary_cursor().position.1;
        let len = line_length(self.buffer, line);
        self.caret_added(
            (
                line as usize,
                if col < len {
                    col
                } else {
                    len as usize
                },
            ),
        )
    }

    /// A caret added on the line above the primary caret, if there is one.
    pub open spec fn added_above(self) -> Editor {
        let line = self.cursors.primary_cursor().position.0;
        if line == 0 {
            self
        } else {
            self.caret_added_on(line - 1)
        }
    }

    /// A caret added on the line below the primary caret, if there is one.
    pub open spec fn added_below(self) -> Editor {
        let line = self.cursors.primary_cursor().position.0;
        if line + 1 >= self.buffer.len() {
            self
        } else {
            self.caret_added_on(line + 1)
        }
    }

    /// The word around the primary caret selected; nothing without one.
    pub open spec fn word_selected(self) -> Editor {
        let pos = self.cursors.primary_cursor().position;
        let (s, e) = word_at(line_of(self.buffer, pos.0 as int), pos.1 as int);
        if s == e {
            self
        } else {
            Editor {
                cursors: self.cursors.with_primary(
                    Cursor { position: (pos.0, e as usize), anchor: Some((pos.0, s as usize)) },
                ),
                ..self
            }.overlay_cleared()
        }
    }

    /// Where the text that the primary cursor selects stands next, if it does.
    pub open spec fn next_place(self) -> Option<Spot> {
        match self.selected_text() {
            Some(text) if text.len() > 0 => next_occurrence(
                self.buffer,
                text,
                self.cursors.search_start(),
                0,
            ),
            _ => None,
        }
    }

    /// A cursor added that selects `len` characters from a place on.
    pub open spec fn range_added(self, place: Spot, len: int) -> Editor {
        Editor {
            cursors: self.cursors.with_cursor(
                Cursor {
                    position: (place.0 as usize, (place.1 + len) as usize),
                    anchor: Some((place.0 as usize, place.1 as usize)),
                },
            ),
            ..self
        }.overlay_cleared().blink_reset()
    }

    /// The next occurrence of the selected text selected by a cursor of its own; without a
    /// selection, the word around the primary caret selected.
    pub open spec fn next_selected(self) -> Editor {
        match self.selected_text() {
            Some(text) => match self.next_place() {
                Some(place) => self.range_added(place, text.len() as int),
                None => self,
            },
            None => self.word_selected(),
        }
    }
}

/// The columns of the word around a caret: where it starts, and the column behind it.
pub fn word_in_line(line: &Vec<char>, col: usize) -> (r: (usize, usize))
    ensures
        (r.0 as int, r.1 as int) == word_at(line@, col as int),
{
    let c = if col < line.len() {
        col
    } else {
        line.len()
    };
    let mut start = c;
    while start > 0 && is_word_char(line[start - 1])
        invariant
            start <= line@.len(),
            word_start(line@, start as int) == word_start(line@, c as int),
        decreases start,
    {
        start -= 1;
    }
    let mut end = c;
    while end < line.len() && is_word_char(line[end])
        invariant
            end <= line@.len(),
            word_end(line@, end as int) == word_end(line@, c as int),
        decreases line@.len() - end,
    {
        end += 1;
    }
    (start, end)
}

/// The first column from `from` on where `text` stands in a line.
pub fn first_in_line(line: &Vec<char>, text: &Vec<char>, from: usize) -> (r: Option<usize>)
    requires
        text@.len() > 0,
    ensures
        r is Some == (line_matches(line@, text@, true, from as int).len() > 0),
        r matches Some(c) ==> c + text@.len() <= usize::MAX && c == line_matches(
            line@,
            text@,
            true,
            from as int,
        )[0],
{
    let mut col = from;
    while col < line.len() && text.len() <= line.len() - col
        invariant
            text@.len() > 0,
            line_matches(line@, text@, true, col as int) == line_matches(
                line@,
                text@,
                true,
                from as int,
            ),
        decreases line@.len() - col,
    {
        if stands_at(line, text, col, true) {
            return Some(col);
        }
        col += 1;
    }
    None
}

/// The remainder of the next number.
proof fn lemma_mod_next(a: int, n: int)
    requires
        n > 0,
    ensures
        0 <= a % n < n,
        (a + 1) % n == (if a % n + 1 == n {
            0
        } else {
            a % n + 1
        }),
{
    let q = a / n;
    let r = a % n;
    assert(a == n * q + r && 0 <= r < n) by (nonlinear_arith)
        requires
            n > 0,
            q == a / n,
            r == a % n,
    ;
    if r + 1 == n {
        assert(a + 1 == (q + 1) * n + 0) by (nonlinear_arith)
            requires
                a == n * q + r,
                r + 1 == n,
        ;
        lemma_fundamental_div_mod_converse(a + 1, n, q + 1, 0);
    } else {
        assert(a + 1 == q * n + (r + 1)) by (nonlinear_arith)
            requires
                a == n * q + r,
        ;
        lemma_fundamental_div_mod_converse(a + 1, n, q, r + 1);
    }
}

/// The first place where `text` stands from `start` on, going round the text once.
pub fn find_next(buffer: &TextBuffer, text: &Vec<char>, start: Position) -> (r: Option<Position>)
    requires
        buffer.wf(),
        text@.len() > 0,
    ensures
        (match r {
            Some(p) => Some((p.0 as int, p.1 as int)),
            None => None,
        }) == next_occurrence(buffer@, text@, (start.0 as int, start.1 as int), 0),
        r matches Some(p) ==> p.1 + text@.len() <= usize::MAX,
{
    let ghost from: Spot = (start.0 as int, start.1 as int);
    let count = buffer.line_count();
    let mut line = start.0 % count;
    let line_chars = buffer.line_chars(line);
    if let Some(col) = first_in_line(&line_chars, text, start.1) {
        return Some((line, col));
    }
    let mut k: usize = 0;
    while k < count
        invariant
            k <= count,
            count == buffer@.len(),
            count > 0,
            text@.len() > 0,
            from == (start.0 as int, start.1 as int),
            line == (start.0 + k) % (count as int),
            next_occurrence(buffer@, text@, from, 0) == next_occurrence(
                buffer@,
                text@,
                from,
                k + 1,
            ),
        decreases count - k,
    {
        proof {
            lemma_mod_next(start.0 + k, count as int);
        }
        line = if line == count - 1 {
            0
        } else {
            line + 1
        };
        let line_chars = buffer.line_chars(line);
        if let Some(col) = first_in_line(&line_chars, text, 0) {
            return Some((line, col));
        }
        k += 1;
    }
    None
}

impl CodeEditor {
    /// Adds a caret.
    fn add_caret(&mut self, position: Position)
        requires
            old(self).wf(),
        ensures
            final(self)@ == old(self)@.caret_added(position),
            final(self).wf(),
    {
        self.cursors.add_cursor(position);
        self.clear_overlay();
        self.reset_cursor_blink();
    }

    /// Handles Alt+Click: adds a new cursor at the clicked position without disturbing existing
    /// cursors.
    pub fn handle_alt_click_msg(&mut self, hit: Option<Position>) -> (r: Action)
        requires
            old(self).wf(),
        ensures
            final(self)@ == old(self)@.alt_clicked(hit),
            final(self).wf(),
            r@ == Reply::Nothing,
    {
        if let Some(position) = hit {
            self.add_caret(position);
        }
        Action::Nothing
    }

    /// Adds a caret on a line, at the column of the primary caret (clamped to line length).
    fn add_caret_on(&mut self, line: usize)
        requires
            old(self).wf(),
        ensures
            final(self)@ == old(self)@.caret_added_on(line as int),
            final(self).wf(),
    {
        let col = self.cursors.primary_position().1;
        let len = self.buffer.line_len(line);
        let new_col = if col < len {
            col
        } else {
            len
        };
        self.add_caret((line, new_col));
    }

    /// Handles Ctrl+Alt+Up: adds a cursor on the line above the primary cursor, at the same
    /// column (clamped to line length).
    pub fn handle_add_cursor_above_msg(&mut self) -> (r: Action)
        requires
            old(self).wf(),
        ensures
            final(self)@ == old(self)@.added_above(),
            final(self).wf(),
            r@ == Reply::Nothing,
    {
        let line = self.cursors.primary_position().0;
        if line > 0 {
            self.add_caret_on(line - 1);
        }
        Action::Nothing
    }

    /// Handles Ctrl+Alt+Down: adds a cursor on the line below the primary cursor, at the same
    /// column (clamped to line length).
    pub fn handle_add_cursor_below_msg(&mut self) -> (r: Action)
        requires
            old(self).wf(),
        ensures
            final(self)@ == old(self)@.added_below(),
            final(self).wf(),
            r@ == Reply::Nothing,
    {
        let line = self.cursors.primary_position().0;
        let last_line = self.buffer.line_count() - 1;
        if line < last_line {
            self.add_caret_on(line + 1);
        }
        Action::Nothing
    }

    /// Selects the word around the primary caret, if there is one.
    fn select_word(&mut self)
        requires
            old(self).wf(),
        ensures
            final(self)@ == old(self)@.word_selected(),
            final(self).wf(),
    {
        let (line, col) = self.cursors.primary_position();
        let chars = self.buffer.line_chars(line);
        let (start, end) = word_in_line(&chars, col);
        if start != end {
            let cursor = self.cursors.primary_mut();
            *cursor = Cursor { position: (line, end), anchor: Some((line, start)) };
            self.clear_overlay();
        }
    }

    /// Adds a cursor that selects `len` characters.
    fn add_range(&mut self, place: Position, len: usize)
        requires
            old(self).wf(),
            place.1 + len <= usize::MAX,
        ensures
            final(self)@ == old(self)@.range_added((place.0 as int, place.1 as int), len as int),
            final(self).wf(),
    {
        self.cursors.add_cursor_with_selection(
            Cursor { position: (place.0, place.1 + len), anchor: Some(place) },
        );
        self.clear_overlay();
        self.reset_cursor_blink();
    }

    /// Handles Ctrl+D: selects the next occurrence of the text currently selected by the primary
    /// cursor with a new cursor, or selects the word under the primary cursor if there is no
    /// selection.
    pub fn handle_select_next_occurrence_msg(&mut self) -> (r: Action)
        requires
            old(self).wf(),
        ensures
            final(self)@ == old(self)@.next_selected(),
            final(self).wf(),
            r@ == Reply::Nothing,
    {
        let search_text = match self.get_selected_text() {
            Some(text) => str_chars(text.as_str()),
            None => {
                self.select_word();
                return Action::Nothing;
            },
        };
        if search_text.len() == 0 {
            return Action::Nothing;
        }
        let last = self.cursors.len() - 1;
        let search_start = self.cursors.get(last).extent().1;
        if let Some(place) = find_next(&self.buffer, &search_text, search_start) {
            self.add_range(place, search_text.len());
        }
        Action::Nothing
    }
}

} // verus!
