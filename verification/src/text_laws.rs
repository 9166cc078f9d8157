//! Laws of positions: an edit moves a caret along with the character that it stands before.
use vstd::prelude::*;

use crate::cursor_set::{adjusted_others, moved_others, Cursor};
use crate::position::{adjusted, before, shifted, EditType, Position};
use crate::text_buffer::{clamped, end_of, glued, moved, not_after, spliced, spot, valid, Spot};

verus! {

/// A character of the text stands behind `s`.
pub open spec fn has_char(lines: Seq<Seq<char>>, s: Spot) -> bool {
    valid(lines, s) && s.1 < lines[s.0].len()
}

/// When a range of the text is replaced, every character outside the range is found again where
/// its place is moved to.
pub proof fn law_a_moved_place_keeps_its_character(
    lines: Seq<Seq<char>>,
    s: Spot,
    e: Spot,
    pieces: Seq<Seq<char>>,
    p: Spot,
)
    requires
        valid(lines, s),
        valid(lines, e),
        not_after(s, e),
        pieces.len() > 0,
        has_char(lines, p),
        !not_after(s, p) || not_after(e, p),
    ensures
        ({
            let q = moved(p, s, e, end_of(s, pieces));
            let next = spliced(lines, s, e, pieces);
            has_char(next, q) && next[q.0][q.1] == lines[p.0][p.1]
        }),
{
    let next = spliced(lines, s, e, pieces);
    let t = end_of(s, pieces);
    let g = glued(lines[s.0].take(s.1), pieces, lines[e.0].skip(e.1));
    assert(next.len() == s.0 + pieces.len() + (lines.len() - e.0 - 1));
    assert(next[s.0] == g[0]);
    assert(next[t.0] == g[pieces.len() - 1]);
    if !not_after(s, p) {
        if p.0 == s.0 {
            assert(g[0][p.1] == lines[s.0].take(s.1)[p.1]);
        }
    } else if p.0 == e.0 {
        let q: Spot = (t.0, t.1 + (p.1 - e.1));
        let last = g[pieces.len() - 1];
        assert(last.len() == t.1 + (lines[e.0].len() - e.1));
        assert(last[q.1] == lines[e.0].skip(e.1)[p.1 - e.1]);
    } else {
        assert(next[p.0 - e.0 + t.0] == lines.skip(e.0 + 1)[p.0 - e.0 - 1]);
    }
}

/// The kind of edit is one that can be made at `(line, col)` of the text.
pub open spec fn applies(lines: Seq<Seq<char>>, line: usize, col: usize, kind: EditType) -> bool {
    &&& valid(lines, spot((line, col)))
    &&& match kind {
        EditType::InsertChar => true,
        EditType::InsertNewline { .. } => true,
        EditType::DeleteCharBack => col > 0,
        EditType::DeleteCharForward => col < lines[line as int].len(),
        EditType::MergePrev { prev_line_len } => col == 0 && line > 0 && prev_line_len
            == lines[line - 1].len(),
        EditType::MergeNext { edit_line_len } => line + 1 < lines.len() && edit_line_len == col
            && col == lines[line as int].len(),
    }
}

/// The range that an edit of a kind replaces, and where what it inserts ends.
pub open spec fn replaced_range(line: usize, col: usize, kind: EditType) -> (Spot, Spot, Spot) {
    let (l, c) = (line as int, col as int);
    match kind {
        EditType::InsertChar => ((l, c), (l, c), (l, c + 1)),
        EditType::DeleteCharBack => ((l, c - 1), (l, c), (l, c - 1)),
        EditType::DeleteCharForward => ((l, c), (l, c + 1), (l, c)),
        EditType::InsertNewline { indent_len } => ((l, c), (l, c), (l + 1, indent_len as int)),
        EditType::MergePrev { prev_line_len } => (
            (l - 1, prev_line_len as int),
            (l, 0),
            (l - 1, prev_line_len as int),
        ),
        EditType::MergeNext { edit_line_len } => (
            (l, edit_line_len as int),
            (l + 1, 0),
            (l, edit_line_len as int),
        ),
    }
}

/// Adjusting a position for a kind of edit is moving it along with the text that the edit
/// replaces.
pub proof fn law_adjusting_moves_with_the_text(
    lines: Seq<Seq<char>>,
    line: usize,
    col: usize,
    kind: EditType,
    pos: Position,
)
    requires
        applies(lines, line, col, kind),
        valid(lines, spot(pos)),
    ensures
        ({
            let (s, e, t) = replaced_range(line, col, kind);
            shifted(pos, line, col, kind) == moved(spot(pos), s, e, t)
        }),
{
}

/// After an edit of any kind, an adjusted caret stands before the same character as it did,
/// unless that character was deleted. (The coordinates must be ones that a `usize` can hold.)
pub proof fn law_an_adjusted_caret_keeps_its_character(
    lines: Seq<Seq<char>>,
    line: usize,
    col: usize,
    kind: EditType,
    pieces: Seq<Seq<char>>,
    pos: Position,
)
    requires
        applies(lines, line, col, kind),
        has_char(lines, spot(pos)),
        pieces.len() > 0,
        ({
            let (s, e, t) = replaced_range(line, col, kind);
            t == end_of(s, pieces) && (!not_after(s, spot(pos)) || not_after(e, spot(pos)))
        }),
        shifted(pos, line, col, kind).0 <= usize::MAX,
        shifted(pos, line, col, kind).1 <= usize::MAX,
    ensures
        ({
            let (s, e, t) = replaced_range(line, col, kind);
            let next = spliced(lines, s, e, pieces);
            let q = adjusted(pos, line, col, kind);
            has_char(next, spot(q)) && next[q.0 as int][q.1 as int]
                == lines[pos.0 as int][pos.1 as int]
        }),
{
    let (s, e, t) = replaced_range(line, col, kind);
    law_adjusting_moves_with_the_text(lines, line, col, kind, pos);
    law_a_moved_place_keeps_its_character(lines, s, e, pieces, spot(pos));
}

/// An edit leaves every caret alone that stands before the place where it is made. So edits that
/// are made from the end of the text to its start never invalidate the places of those that are
/// still to come.
pub proof fn law_an_edit_leaves_earlier_carets_alone(
    line: usize,
    col: usize,
    kind: EditType,
    pos: Position,
)
    requires
        before(pos, (line, col)),
        kind is MergePrev ==> col == 0,
    ensures
        adjusted(pos, line, col, kind) == pos,
{
}

/// Both ends of a selection are moved alike: when another cursor edits the text, the anchor of a
/// cursor goes where a caret that stands there would go. The cursor that edits is left alone.
pub proof fn law_both_ends_of_a_selection_move_alike(
    list: Seq<Cursor>,
    skip: int,
    i: int,
    line: usize,
    col: usize,
    kind: EditType,
    s: Spot,
    e: Spot,
    t: Spot,
)
    requires
        0 <= i < list.len(),
    ensures
        ({
            let next = adjusted_others(list, skip, line, col, kind);
            let bare = Cursor { position: list[i].anchor->0, anchor: None };
            &&& next.len() == list.len()
            &&& i == skip ==> next[i] == list[i]
            &&& i != skip ==> next[i].position == adjusted(list[i].position, line, col, kind)
            &&& i != skip ==> next[i].anchor is Some == list[i].anchor is Some
            &&& i != skip && list[i].anchor is Some ==> next[i].anchor->0 == adjusted_others(
                list.update(i, bare),
                skip,
                line,
                col,
                kind,
            )[i].position
        }),
        ({
            let next = moved_others(list, skip, s, e, t);
            let bare = Cursor { position: list[i].anchor->0, anchor: None };
            &&& next.len() == list.len()
            &&& i == skip ==> next[i] == list[i]
            &&& i != skip ==> next[i].anchor is Some == list[i].anchor is Some
            &&& i != skip && list[i].anchor is Some ==> next[i].anchor->0 == moved_others(
                list.update(i, bare),
                skip,
                s,
                e,
                t,
            )[i].position
        }),
{
}

/// A place outside the text is taken to the nearest one: past the end of a line to its end, past
/// the last line to the end of the text. A place of the text stays.
pub proof fn law_places_are_taken_into_the_text(lines: Seq<Seq<char>>, s: Spot)
    requires
        lines.len() > 0,
        0 <= s.0,
        0 <= s.1,
    ensures
        valid(lines, clamped(lines, s)),
        valid(lines, s) ==> clamped(lines, s) == s,
        s.0 >= lines.len() ==> clamped(lines, s) == (lines.len() - 1, lines[lines.len()
            - 1].len() as int),
        s.0 < lines.len() && s.1 > lines[s.0].len() ==> clamped(lines, s) == (
            s.0,
            lines[s.0].len() as int,
        ),
{
}

} // verus!
