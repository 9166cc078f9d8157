//! The laws of carets under keys at several cursors: where each caret ends up.
use vstd::prelude::*;

use crate::batch::{blank_end, indentation, Batch};
use crate::chars::whitespace;
use crate::command::{line_length, range_after, range_before, Edit};
use crate::cursor_set::{carets, Cursor};
use crate::editor::Editor;
use crate::key_laws::{
    carets_distinct, lemma_broken_places, lemma_deleted_places, lemma_erased_places,
    lemma_key_cursors, lemma_key_steps, lemma_later_before, places, places_from_end,
};
use crate::message::Message;
use crate::order::{is_order, lemma_order_exists, lemma_order_of_one};
use crate::position::{adjusted, EditType, Position};
use crate::text_buffer::{end_of, glued, moved, not_after, spliced, spot, valid, Spot};
use crate::text_laws::{applies, law_adjusting_moves_with_the_text, replaced_range};

verus! {

/// How many characters stand before a line, each line break counted as one.
pub open spec fn line_offset(lines: Seq<Seq<char>>, line: int) -> int
    decreases line,
{
    if line <= 0 {
        0
    } else {
        line_offset(lines, line - 1) + line_length(lines, line - 1) + 1
    }
}

/// How many characters stand before a place of the text, each line break counted as one.
pub open spec fn offset(lines: Seq<Seq<char>>, s: Spot) -> int {
    line_offset(lines, s.0) + s.1
}

/// Every caret stands in the text, no two of them at the same place, and what stands before them
/// can be counted.
pub open spec fn carets_in_text(lines: Seq<Seq<char>>, list: Seq<Cursor>) -> bool {
    &&& carets_distinct(list)
    &&& forall|i: int|
        0 <= i < list.len() ==> valid(lines, spot((#[trigger] list[i]).position)) && offset(
            lines,
            spot(list[i].position),
        ) <= usize::MAX
}

/// A line offset is at least the number of the line, and grows from line to line.
pub(crate) proof fn lemma_line_offset(lines: Seq<Seq<char>>, a: int, b: int)
    requires
        0 <= a <= b <= lines.len(),
    ensures
        a <= line_offset(lines, a),
        a < b ==> line_offset(lines, a) + lines[a].len() + 1 <= line_offset(lines, b),
    decreases b,
{
    if a < b {
        lemma_line_offset(lines, a, b - 1);
    } else if b > 0 {
        lemma_line_offset(lines, a - 1, b - 1);
    }
}

/// Places of the text are ordered as their offsets.
pub(crate) proof fn lemma_offset_order(lines: Seq<Seq<char>>, p: Spot, q: Spot)
    requires
        valid(lines, p),
        valid(lines, q),
    ensures
        not_after(p, q) <==> offset(lines, p) <= offset(lines, q),
        p.0 <= offset(lines, p),
        p.1 <= offset(lines, p),
{
    lemma_line_offset(lines, p.0, p.0);
    if p.0 < q.0 {
        lemma_line_offset(lines, p.0, q.0);
    } else if q.0 < p.0 {
        lemma_line_offset(lines, q.0, p.0);
    }
}

/// Two texts have the same in front of a place.
pub(crate) open spec fn same_before(a: Seq<Seq<char>>, b: Seq<Seq<char>>, s: Spot) -> bool {
    &&& valid(a, s)
    &&& valid(b, s)
    &&& forall|r: int| 0 <= r < s.0 ==> #[trigger] a[r] == b[r]
    &&& a[s.0].take(s.1) == b[s.0].take(s.1)
}

pub(crate) proof fn lemma_same_offset(a: Seq<Seq<char>>, b: Seq<Seq<char>>, s: Spot)
    requires
        same_before(a, b, s),
    ensures
        offset(a, s) == offset(b, s),
{
    lemma_same_line_offset(a, b, s, s.0);
}

proof fn lemma_same_line_offset(a: Seq<Seq<char>>, b: Seq<Seq<char>>, s: Spot, line: int)
    requires
        same_before(a, b, s),
        0 <= line <= s.0,
    ensures
        line_offset(a, line) == line_offset(b, line),
    decreases line,
{
    if line > 0 {
        lemma_same_line_offset(a, b, s, line - 1);
        assert(a[line - 1] == b[line - 1]);
    }
}

/// Replacing a range changes nothing in front of it.
pub(crate) proof fn lemma_front_kept(
    lines: Seq<Seq<char>>,
    s: Spot,
    e: Spot,
    pieces: Seq<Seq<char>>,
    p: Spot,
)
    requires
        valid(lines, s),
        valid(lines, e),
        not_after(s, e),
        pieces.len() > 0,
        valid(lines, p),
        not_after(p, s),
    ensures
        same_before(spliced(lines, s, e, pieces), lines, p),
{
    let next = spliced(lines, s, e, pieces);
    let g = glued(lines[s.0].take(s.1), pieces, lines[e.0].skip(e.1));
    assert(next[s.0] == g[0]);
    assert(g[0].take(s.1) =~= lines[s.0].take(s.1));
    assert forall|r: int| 0 <= r < p.0 implies #[trigger] next[r] == lines[r] by {}
    if p.0 == s.0 {
        assert(next[p.0].take(p.1) =~= g[0].take(s.1).take(p.1));
        assert(lines[p.0].take(p.1) =~= lines[s.0].take(s.1).take(p.1));
    }
}

/// What stands behind a range that is replaced keeps its distance to the end of the range.
pub(crate) proof fn lemma_back_kept(
    lines: Seq<Seq<char>>,
    s: Spot,
    e: Spot,
    pieces: Seq<Seq<char>>,
    p: Spot,
)
    requires
        valid(lines, s),
        valid(lines, e),
        not_after(s, e),
        pieces.len() > 0,
        valid(lines, p),
        not_after(e, p),
    ensures
        ({
            let next = spliced(lines, s, e, pieces);
            let t = end_of(s, pieces);
            let q = moved(p, s, e, t);
            valid(next, q) && offset(next, q) - offset(next, t) == offset(lines, p) - offset(
                lines,
                e,
            )
        }),
    decreases p.0,
{
    let next = spliced(lines, s, e, pieces);
    let t = end_of(s, pieces);
    let g = glued(lines[s.0].take(s.1), pieces, lines[e.0].skip(e.1));
    let last = g[pieces.len() - 1];
    assert(next.len() == s.0 + pieces.len() + (lines.len() - e.0 - 1));
    assert(next[t.0] == last);
    assert(last.len() == t.1 + (lines[e.0].len() - e.1));
    if p.0 > e.0 {
        let row = p.0 - e.0 + t.0;
        assert(next[row] == lines[p.0]);
        if p.0 == e.0 + 1 {
            assert(line_offset(next, row) == line_offset(next, t.0) + last.len() + 1);
        } else {
            lemma_back_kept(lines, s, e, pieces, (p.0 - 1, 0));
            assert(next[row - 1] == lines[p.0 - 1]);
        }
    }
}

/// Deleting one character, or one line break, takes one from the offset of every caret behind it.
proof fn lemma_one_deleted(
    lines: Seq<Seq<char>>,
    pos: Position,
    kind: EditType,
    s: Spot,
    e: Spot,
    q: Position,
)
    requires
        applies(lines, pos.0, pos.1, kind),
        replaced_range(pos.0, pos.1, kind) == (s, e, s),
        valid(lines, s),
        valid(lines, e),
        offset(lines, e) == offset(lines, s) + 1,
        valid(lines, spot(q)),
        not_after(e, spot(q)),
        offset(lines, spot(q)) <= usize::MAX,
    ensures
        ({
            let next = spliced(lines, s, e, seq![Seq::empty()]);
            let now = spot(adjusted(q, pos.0, pos.1, kind));
            valid(next, now) && offset(next, now) == offset(lines, spot(q)) - 1
        }),
{
    let pieces = seq![Seq::<char>::empty()];
    let next = spliced(lines, s, e, pieces);
    lemma_offset_order(lines, s, e);
    assert(end_of(s, pieces) == s);
    law_adjusting_moves_with_the_text(lines, pos.0, pos.1, kind, q);
    lemma_front_kept(lines, s, e, pieces, s);
    lemma_same_offset(next, lines, s);
    lemma_back_kept(lines, s, e, pieces, spot(q));
    let m = moved(spot(q), s, e, s);
    lemma_offset_order(next, m, m);
}

/// The text in front of the carets that are still to come is as it was.
pub(crate) open spec fn rest_untouched(
    lines: Seq<Seq<char>>,
    list: Seq<Cursor>,
    order: Seq<usize>,
    k: int,
    now: Seq<Seq<char>>,
) -> bool {
    forall|j: int|
        k <= j < order.len() ==> same_before(
            now,
            lines,
            spot(list[(#[trigger] order[j]) as int].position),
        )
}

/// A caret that stood at `was` lost `n` of the characters before it.
pub(crate) open spec fn lost(
    lines: Seq<Seq<char>>,
    was: Position,
    n: int,
    next: Seq<Seq<char>>,
    now: Position,
) -> bool {
    valid(next, spot(now)) && offset(next, spot(now)) == offset(lines, spot(was)) - n
}

/// Carets at different places are at least one character apart.
proof fn lemma_apart(lines: Seq<Seq<char>>, list: Seq<Cursor>, order: Seq<usize>, j: int, k: int)
    requires
        carets_in_text(lines, list),
        is_order(order, carets(list), true),
        0 <= j <= k < order.len(),
    ensures
        offset(lines, spot(list[order[j] as int].position)) >= offset(
            lines,
            spot(list[order[k] as int].position),
        ) + (k - j),
    decreases k - j,
{
    if j < k {
        lemma_apart(lines, list, order, j + 1, k);
        lemma_later_before(list, order, j, j + 1);
        let (p, q) = (list[order[j + 1] as int].position, list[order[j] as int].position);
        assert(valid(lines, spot(list[order[j] as int].position)));
        assert(valid(lines, spot(list[order[j + 1] as int].position)));
        lemma_offset_order(lines, spot(q), spot(p));
    }
}

/// An edit in front of which the carets that are still to come stand leaves the text before them
/// as it was.
pub(crate) proof fn lemma_rest_untouched(
    lines: Seq<Seq<char>>,
    list: Seq<Cursor>,
    order: Seq<usize>,
    k: int,
    h: Seq<Seq<char>>,
    s: Spot,
    e: Spot,
    pieces: Seq<Seq<char>>,
)
    requires
        rest_untouched(lines, list, order, k, h),
        0 <= k < order.len(),
        valid(h, s),
        valid(h, e),
        not_after(s, e),
        pieces.len() > 0,
        forall|j: int|
            k < j < order.len() ==> not_after(
                spot(list[(#[trigger] order[j]) as int].position),
                s,
            ),
    ensures
        rest_untouched(lines, list, order, k + 1, spliced(h, s, e, pieces)),
{
    let next = spliced(h, s, e, pieces);
    assert forall|j: int| k + 1 <= j < order.len() implies same_before(
        next,
        lines,
        spot(list[(#[trigger] order[j]) as int].position),
    ) by {
        let p = spot(list[order[j] as int].position);
        assert(same_before(h, lines, p));
        lemma_front_kept(h, s, e, pieces, p);
        assert forall|r: int| 0 <= r < p.0 implies #[trigger] next[r] == lines[r] by {
            assert(h[r] == lines[r]);
        }
    }
}

/// The first `k` carets of the order each lost one of the characters before it to every caret
/// that came after it in the order, and `own` to itself.
pub(crate) open spec fn carets_lost(
    lines: Seq<Seq<char>>,
    list: Seq<Cursor>,
    order: Seq<usize>,
    k: int,
    own: int,
    b: Batch,
) -> bool {
    forall|j: int|
        0 <= j < k ==> lost(
            lines,
            list[(#[trigger] order[j]) as int].position,
            k - 1 - j + own,
            b.lines,
            b.list[order[j] as int].position,
        )
}

/// One character, or one line break, was deleted at a caret; the others were adjusted.
pub(crate) open spec fn deleted_at_one(
    h: Batch,
    idx: int,
    pos: Position,
    kind: EditType,
    s: Spot,
    e: Spot,
    b: Batch,
) -> bool {
    &&& valid(h.lines, s)
    &&& valid(h.lines, e)
    &&& offset(h.lines, e) == offset(h.lines, s) + 1
    &&& applies(h.lines, pos.0, pos.1, kind)
    &&& replaced_range(pos.0, pos.1, kind) == (s, e, s)
    &&& b.lines == spliced(h.lines, s, e, seq![Seq::empty()])
    &&& b.list.len() == h.list.len()
    &&& spot(b.list[idx].position) == s
    &&& forall|i: int|
        0 <= i < h.list.len() && i != idx ==> (#[trigger] b.list[i]).position == adjusted(
            h.list[i].position,
            pos.0,
            pos.1,
            kind,
        )
}

/// Serving the next caret of the order.
proof fn lemma_one_more_deleted(
    lines: Seq<Seq<char>>,
    list: Seq<Cursor>,
    order: Seq<usize>,
    m: int,
    own: int,
    h: Batch,
    kind: EditType,
    s: Spot,
    e: Spot,
    b: Batch,
)
    requires
        carets_in_text(lines, list),
        is_order(order, carets(list), true),
        0 <= m < order.len(),
        0 <= own <= 1,
        h.list.len() == list.len(),
        rest_untouched(lines, list, order, m, h.lines),
        carets_lost(lines, list, order, m, own, h),
        deleted_at_one(h, order[m] as int, list[order[m] as int].position, kind, s, e, b),
        offset(h.lines, s) == offset(h.lines, spot(list[order[m] as int].position)) - own,
        forall|j: int|
            m < j < order.len() ==> not_after(
                spot(list[(#[trigger] order[j]) as int].position),
                s,
            ),
    ensures
        rest_untouched(lines, list, order, m + 1, b.lines),
        carets_lost(lines, list, order, m + 1, own, b),
{
    let pos = list[order[m] as int].position;
    let pieces = seq![Seq::<char>::empty()];
    assert(same_before(h.lines, lines, spot(list[order[m] as int].position)));
    lemma_same_offset(h.lines, lines, spot(pos));
    lemma_offset_order(h.lines, s, e);
    lemma_rest_untouched(lines, list, order, m, h.lines, s, e, pieces);
    lemma_front_kept(h.lines, s, e, pieces, s);
    lemma_same_offset(b.lines, h.lines, s);
    assert forall|j: int| 0 <= j < m + 1 implies lost(
        lines,
        list[(#[trigger] order[j]) as int].position,
        m - j + own,
        b.lines,
        b.list[order[j] as int].position,
    ) by {
        if j < m {
            let was = list[order[j] as int].position;
            let q = h.list[order[j] as int].position;
            lemma_later_before(list, order, j, m);
            lemma_apart(lines, list, order, j, m);
            assert(lost(lines, was, m - 1 - j + own, h.lines, q));
            assert(offset(lines, spot(list[order[j] as int].position)) <= usize::MAX);
            lemma_offset_order(h.lines, e, spot(q));
            lemma_one_deleted(h.lines, pos, kind, s, e, q);
        }
    }
}

/// Nothing deleted yet.
pub(crate) proof fn lemma_none_deleted(lines: Seq<Seq<char>>, list: Seq<Cursor>, order: Seq<usize>)
    requires
        carets_in_text(lines, list),
        is_order(order, carets(list), true),
    ensures
        rest_untouched(lines, list, order, 0, lines),
{
    assert forall|j: int| 0 <= j < order.len() implies same_before(
        lines,
        lines,
        spot(list[(#[trigger] order[j]) as int].position),
    ) by {
        assert(valid(lines, spot(list[order[j] as int].position)));
    }
}

/// What Backspace does at one caret that is not at the start of the text.
pub(crate) proof fn lemma_erased_at_one(h: Batch, idx: int) -> (r: (EditType, Spot, Spot))
    requires
        0 <= idx < h.list.len(),
        h.list[idx].position != (0usize, 0usize),
        valid(h.lines, spot(h.list[idx].position)),
        offset(h.lines, spot(h.list[idx].position)) <= usize::MAX,
    ensures
        r.1 == range_before(h.lines, h.list[idx].position).0,
        r.2 == spot(h.list[idx].position),
        deleted_at_one(h, idx, h.list[idx].position, r.0, r.1, r.2, h.erased_at(idx)),
{
    let pos = h.list[idx].position;
    let (s, e) = range_before(h.lines, pos);
    let pieces = seq![Seq::<char>::empty()];
    let edit = Edit::replace(s, e, pieces, pos);
    assert(offset(h.lines, e) == offset(h.lines, s) + 1);
    lemma_offset_order(h.lines, s, e);
    assert(edit.from(h.lines) == s && edit.to(h.lines) == e);
    assert(end_of(s, pieces) == s);
    let kind = if pos.1 > 0 {
        EditType::DeleteCharBack
    } else {
        EditType::MergePrev { prev_line_len: line_length(h.lines, pos.0 - 1) as usize }
    };
    let b = h.erased_at(idx);
    assert forall|i: int| 0 <= i < h.list.len() && i != idx implies (
    #[trigger] b.list[i]).position == adjusted(h.list[i].position, pos.0, pos.1, kind) by {}
    (kind, s, e)
}

pub(crate) proof fn lemma_erased_carets(
    lines: Seq<Seq<char>>,
    list: Seq<Cursor>,
    order: Seq<usize>,
    k: int,
)
    requires
        carets_in_text(lines, list),
        is_order(order, carets(list), true),
        0 <= k <= order.len(),
        k > 0 ==> list[order[k - 1] as int].position != (0usize, 0usize),
    ensures
        ({
            let b = Batch::start(lines, list).erased(order.take(k));
            &&& rest_untouched(lines, list, order, k, b.lines)
            &&& carets_lost(lines, list, order, k, 1, b)
        }),
    decreases k,
{
    let start = Batch::start(lines, list);
    if k == 0 {
        assert(order.take(0) =~= Seq::empty());
        lemma_none_deleted(lines, list, order);
    } else {
        let m = k - 1;
        if m > 0 {
            lemma_later_before(list, order, m - 1, m);
        }
        lemma_erased_carets(lines, list, order, m);
        lemma_erased_places(lines, list, order, m);
        assert(order.take(k).drop_last() =~= order.take(m));
        let h = start.erased(order.take(m));
        let idx = order[m] as int;
        let pos = list[idx].position;
        assert(start.erased(order.take(k)) == h.erased_at(idx));
        assert(h.list[order[m] as int].position == pos);
        assert(same_before(h.lines, lines, spot(list[order[m] as int].position)));
        lemma_same_offset(h.lines, lines, spot(pos));
        assert(offset(lines, spot(list[idx].position)) <= usize::MAX);
        let (kind, s, e) = lemma_erased_at_one(h, idx);
        assert forall|j: int| m < j < order.len() implies not_after(
            spot(list[(#[trigger] order[j]) as int].position),
            s,
        ) by {
            lemma_later_before(list, order, m, j);
            let p = list[order[j] as int].position;
            assert(valid(lines, spot(list[order[j] as int].position)));
            if pos.1 == 0 && p.0 == pos.0 - 1 {
                assert(h.lines[pos.0 - 1] == lines[pos.0 - 1]);
            }
        }
        lemma_one_more_deleted(lines, list, order, m, 1, h, kind, s, e, h.erased_at(idx));
    }
}

/// What Delete does at one caret that is not at the end of the text.
pub(crate) proof fn lemma_deleted_at_one(h: Batch, idx: int) -> (r: (EditType, Spot, Spot))
    requires
        0 <= idx < h.list.len(),
        valid(h.lines, spot(h.list[idx].position)),
        ({
            let pos = h.list[idx].position;
            pos.1 < h.lines[pos.0 as int].len() || pos.0 + 1 < h.lines.len()
        }),
    ensures
        r.1 == spot(h.list[idx].position),
        deleted_at_one(h, idx, h.list[idx].position, r.0, r.1, r.2, h.deleted_at(idx)),
{
    let pos = h.list[idx].position;
    let len = line_length(h.lines, pos.0 as int);
    let (s, e) = range_after(h.lines, pos);
    let pieces = seq![Seq::<char>::empty()];
    let edit = Edit::replace(s, e, pieces, pos);
    assert(offset(h.lines, e) == offset(h.lines, s) + 1);
    assert(edit.from(h.lines) == s && edit.to(h.lines) == e);
    assert(end_of(s, pieces) == s);
    let kind = if pos.1 < len {
        EditType::DeleteCharForward
    } else {
        EditType::MergeNext { edit_line_len: len as usize }
    };
    let b = h.deleted_at(idx);
    assert forall|i: int| 0 <= i < h.list.len() && i != idx implies (
    #[trigger] b.list[i]).position == adjusted(h.list[i].position, pos.0, pos.1, kind) by {}
    (kind, s, e)
}

pub(crate) proof fn lemma_deleted_carets(
    lines: Seq<Seq<char>>,
    list: Seq<Cursor>,
    order: Seq<usize>,
    k: int,
)
    requires
        carets_in_text(lines, list),
        is_order(order, carets(list), true),
        0 <= k <= order.len(),
    ensures
        ({
            let b = Batch::start(lines, list).deleted(order.take(k));
            &&& rest_untouched(lines, list, order, k, b.lines)
            &&& carets_lost(lines, list, order, k, 0, b)
        }),
    decreases k,
{
    let start = Batch::start(lines, list);
    if k == 0 {
        assert(order.take(0) =~= Seq::empty());
        lemma_none_deleted(lines, list, order);
    } else {
        let m = k - 1;
        lemma_deleted_carets(lines, list, order, m);
        lemma_deleted_places(lines, list, order, m);
        assert(order.take(k).drop_last() =~= order.take(m));
        let h = start.deleted(order.take(m));
        let idx = order[m] as int;
        let pos = list[idx].position;
        let b = h.deleted_at(idx);
        assert(start.deleted(order.take(k)) == b);
        assert(h.list[order[m] as int].position == pos);
        assert(same_before(h.lines, lines, spot(list[order[m] as int].position)));
        lemma_same_offset(h.lines, lines, spot(pos));
        if m > 0 {
            // A caret stands behind this one, so this one is not at the end of the text.
            let q = h.list[order[m - 1] as int].position;
            lemma_apart(lines, list, order, m - 1, m);
            assert(lost(lines, list[order[m - 1] as int].position, 0, h.lines, q));
            lemma_offset_order(h.lines, spot(q), spot(pos));
        }
        if pos.1 < h.lines[pos.0 as int].len() || pos.0 + 1 < h.lines.len() {
            let (kind, s, e) = lemma_deleted_at_one(h, idx);
            assert forall|j: int| m < j < order.len() implies not_after(
                spot(list[(#[trigger] order[j]) as int].position),
                s,
            ) by {
                lemma_later_before(list, order, m, j);
            }
            lemma_one_more_deleted(lines, list, order, m, 0, h, kind, s, e, b);
        } else {
            assert(b == h);
            assert(valid(h.lines, spot(pos)));
        }
    }
}

/// The piece of its line that Enter at the `j`-th of the places breaks: up to the next caret on
/// the line, where it was broken already.
pub open spec fn piece_broken(lines: Seq<Seq<char>>, places: Seq<Position>, j: int) -> Seq<char> {
    let line = lines[places[j].0 as int];
    if j > 0 && places[j - 1].0 == places[j].0 {
        line.take(places[j - 1].1 as int)
    } else {
        line
    }
}

/// What the new line starts with when Enter is pressed at the `j`-th of the places.
pub open spec fn lead_at(
    lines: Seq<Seq<char>>,
    places: Seq<Position>,
    indent: bool,
    j: int,
) -> Seq<char> {
    if indent {
        indentation(piece_broken(lines, places, j))
    } else {
        Seq::empty()
    }
}

/// The white space that a line starts with is not longer than the line.
pub(crate) proof fn lemma_blank_end(line: Seq<char>, from: int)
    requires
        0 <= from <= line.len(),
    ensures
        from <= blank_end(line, from) <= line.len(),
    decreases line.len() - from,
{
    if from < line.len() && whitespace(line[from]) {
        lemma_blank_end(line, from + 1);
    }
}

/// How far Enter has come after the first `k` carets of the order.
spec fn broken_so_far(
    lines: Seq<Seq<char>>,
    list: Seq<Cursor>,
    order: Seq<usize>,
    indent: bool,
    k: int,
    b: Batch,
) -> bool {
    let all = places(list, order);
    &&& rest_untouched(lines, list, order, k, b.lines)
    &&& k > 0 ==> same_before(b.lines, lines, spot(all[k - 1]))
    &&& k > 0 ==> b.lines[all[k - 1].0 as int].len() == all[k - 1].1
    &&& k == 0 ==> b.lines == lines
    &&& forall|j: int|
        0 <= j < k ==> spot(b.list[(#[trigger] order[j]) as int].position) == (
            all[j].0 + (k - j),
            lead_at(lines, all, indent, j).len() as int,
        )
}

/// What Enter does at one caret, when the new line starts with `lead`.
spec fn broken_at_one(h: Batch, idx: int, lead: Seq<char>, b: Batch) -> bool {
    let pos = h.list[idx].position;
    let kind = EditType::InsertNewline { indent_len: lead.len() as usize };
    &&& b.lines == spliced(h.lines, spot(pos), spot(pos), seq![Seq::empty(), lead])
    &&& b.lines[pos.0 as int] == h.lines[pos.0 as int].take(pos.1 as int)
    &&& spot(b.list[idx].position) == (pos.0 + 1, lead.len() as int)
    &&& forall|i: int|
        0 <= i < h.list.len() && i != idx ==> (#[trigger] b.list[i]).position == adjusted(
            h.list[i].position,
            pos.0,
            pos.1,
            kind,
        )
}

proof fn lemma_broken_at_one(h: Batch, idx: int, indent: bool)
    requires
        0 <= idx < h.list.len(),
        valid(h.lines, spot(h.list[idx].position)),
        h.list[idx].position.0 < usize::MAX,
        h.lines[h.list[idx].position.0 as int].len() <= usize::MAX,
    ensures
        ({
            let lead = if indent {
                indentation(h.lines[h.list[idx].position.0 as int])
            } else {
                Seq::empty()
            };
            lead.len() <= usize::MAX && broken_at_one(h, idx, lead, h.broken_at(idx, indent))
        }),
{
    let pos = h.list[idx].position;
    let (l, c) = (pos.0 as int, pos.1 as int);
    let line = h.lines[l];
    lemma_blank_end(line, 0);
    let lead = if indent {
        indentation(line)
    } else {
        Seq::empty()
    };
    let pieces = seq![Seq::empty(), lead];
    let edit = Edit::replace(spot(pos), spot(pos), pieces, pos);
    let b = h.broken_at(idx, indent);
    assert(edit.from(h.lines) == spot(pos) && edit.to(h.lines) == spot(pos));
    assert(end_of(spot(pos), pieces) == (l + 1, lead.len() as int));
    let g = glued(line.take(c), pieces, line.skip(c));
    assert(b.lines[l] == g[0]);
    assert(g[0] =~= line.take(c));
    let kind = EditType::InsertNewline { indent_len: lead.len() as usize };
    assert forall|i: int| 0 <= i < h.list.len() && i != idx implies (
    #[trigger] b.list[i]).position == adjusted(h.list[i].position, pos.0, pos.1, kind) by {}
}

/// The line at the next caret of the order is the piece that is left of it.
proof fn lemma_piece_left(
    lines: Seq<Seq<char>>,
    list: Seq<Cursor>,
    order: Seq<usize>,
    indent: bool,
    m: int,
    h: Batch,
)
    requires
        carets_distinct(list),
        is_order(order, carets(list), true),
        0 <= m < order.len(),
        broken_so_far(lines, list, order, indent, m, h),
    ensures
        ({
            let pos = list[order[m] as int].position;
            &&& valid(h.lines, spot(pos))
            &&& valid(lines, spot(pos))
            &&& h.lines[pos.0 as int] == piece_broken(lines, places(list, order), m)
            &&& h.lines[pos.0 as int].len() <= lines[pos.0 as int].len()
        }),
{
    let all = places(list, order);
    let pos = list[order[m] as int].position;
    let l = pos.0 as int;
    assert(same_before(h.lines, lines, spot(list[order[m] as int].position)));
    if m > 0 {
        lemma_later_before(list, order, m - 1, m);
        let q = all[m - 1];
        assert(same_before(h.lines, lines, spot(q)));
        if q.0 == pos.0 {
            assert(h.lines[l] =~= h.lines[l].take(q.1 as int));
        } else {
            assert(h.lines[l] == lines[l]);
        }
    }
}

/// Enter at the next caret of the order.
proof fn lemma_one_more_broken(
    lines: Seq<Seq<char>>,
    list: Seq<Cursor>,
    order: Seq<usize>,
    indent: bool,
    m: int,
    h: Batch,
    b: Batch,
)
    requires
        carets_in_text(lines, list),
        is_order(order, carets(list), true),
        0 <= m < order.len(),
        lines.len() + list.len() <= usize::MAX,
        h.list.len() == list.len(),
        h.list[order[m] as int].position == list[order[m] as int].position,
        broken_so_far(lines, list, order, indent, m, h),
        ({
            let lead = lead_at(lines, places(list, order), indent, m);
            lead.len() <= usize::MAX && broken_at_one(h, order[m] as int, lead, b)
        }),
    ensures
        broken_so_far(lines, list, order, indent, m + 1, b),
{
    let all = places(list, order);
    let lead = lead_at(lines, all, indent, m);
    let pos = list[order[m] as int].position;
    let here = spot(pos);
    let pieces = seq![Seq::empty(), lead];
    lemma_piece_left(lines, list, order, indent, m, h);
    assert(same_before(h.lines, lines, spot(list[order[m] as int].position)));
    assert forall|j: int| m < j < order.len() implies not_after(
        spot(list[(#[trigger] order[j]) as int].position),
        here,
    ) by {
        lemma_later_before(list, order, m, j);
    }
    lemma_rest_untouched(lines, list, order, m, h.lines, here, here, pieces);
    lemma_front_kept(h.lines, here, here, pieces, here);
    assert forall|r: int| 0 <= r < here.0 implies #[trigger] b.lines[r] == lines[r] by {
        assert(h.lines[r] == lines[r]);
    }
    assert forall|j: int| 0 <= j < m + 1 implies spot(
        b.list[(#[trigger] order[j]) as int].position,
    ) == (all[j].0 + (m + 1 - j), lead_at(lines, all, indent, j).len() as int) by {
        if j < m {
            lemma_later_before(list, order, j, m);
            let q = h.list[order[j] as int].position;
            assert(spot(q) == (
                all[j].0 + (m - j),
                lead_at(lines, all, indent, j).len() as int,
            ));
            assert(valid(lines, spot(list[order[j] as int].position)));
        }
    }
}

proof fn lemma_broken_carets(
    lines: Seq<Seq<char>>,
    list: Seq<Cursor>,
    order: Seq<usize>,
    indent: bool,
    k: int,
)
    requires
        carets_in_text(lines, list),
        is_order(order, carets(list), true),
        0 <= k <= order.len(),
        lines.len() + list.len() <= usize::MAX,
        forall|l: int| 0 <= l < lines.len() ==> (#[trigger] lines[l]).len() <= usize::MAX,
    ensures
        broken_so_far(
            lines,
            list,
            order,
            indent,
            k,
            Batch::start(lines, list).broken(order.take(k), indent),
        ),
    decreases k,
{
    let start = Batch::start(lines, list);
    if k == 0 {
        assert(order.take(0) =~= Seq::empty());
        lemma_none_deleted(lines, list, order);
    } else {
        let m = k - 1;
        lemma_broken_carets(lines, list, order, indent, m);
        lemma_broken_places(lines, list, order, indent, m);
        assert(order.take(k).drop_last() =~= order.take(m));
        let h = start.broken(order.take(m), indent);
        let idx = order[m] as int;
        let b = h.broken_at(idx, indent);
        assert(start.broken(order.take(k), indent) == b);
        assert(h.list[order[m] as int].position == list[order[m] as int].position);
        lemma_piece_left(lines, list, order, indent, m, h);
        lemma_broken_at_one(h, idx, indent);
        lemma_one_more_broken(lines, list, order, indent, m, h, b);
    }
}

/// Backspace without a selection: every caret has as many characters before it as it had, less
/// one for each caret that stands at it or before it. A caret at the start of the text deletes
/// nothing. (Carets are counted from the end of the text here: `j` of them stand behind the
/// `j`-th.)
pub proof fn law_backspace_leaves_each_caret_at_its_place(e: Editor, j: int)
    requires
        carets_in_text(e.buffer, e.cursors.list),
        e.cursors.list.len() <= usize::MAX,
        !e.cursors.any_selected(),
        0 <= j < e.cursors.list.len(),
    ensures
        ({
            let f = e.step(Message::Backspace);
            let places = places_from_end(e.cursors.list);
            let now = spot(f.cursors.list[e.descending()[j] as int].position);
            let through = e.cursors.list.len() - j - (if places.last() == (0usize, 0usize) {
                1int
            } else {
                0int
            });
            &&& valid(f.buffer, now)
            &&& offset(f.buffer, now) == offset(e.buffer, spot(places[j])) - through
        }),
{
    let (lines, list, order) = (e.buffer, e.cursors.list, e.descending());
    let n = order.len() as int;
    lemma_order_exists(carets(list), true);
    lemma_key_steps(e);
    lemma_key_cursors(e);
    assert(order.take(n) =~= order);
    let start = e.batch();
    let last = list[order[n - 1] as int].position;
    assert(list[order[j] as int].position == places_from_end(list)[j]);
    if last == (0usize, 0usize) {
        if n > 1 {
            lemma_later_before(list, order, n - 2, n - 1);
        }
        lemma_erased_carets(lines, list, order, n - 1);
        lemma_erased_places(lines, list, order, n - 1);
        let h = start.erased(order.take(n - 1));
        assert(order.drop_last() =~= order.take(n - 1));
        assert(h.list[order[n - 1] as int].position == last);
        assert(start.erased(order) == h);
        if j == n - 1 {
            assert(same_before(h.lines, lines, spot(list[order[j] as int].position)));
        } else {
            assert(lost(
                lines,
                list[order[j] as int].position,
                n - 1 - j,
                h.lines,
                h.list[order[j] as int].position,
            ));
        }
    } else {
        lemma_erased_carets(lines, list, order, n);
        assert(lost(
            lines,
            list[order[j] as int].position,
            n - j,
            start.erased(order).lines,
            start.erased(order).list[order[j] as int].position,
        ));
    }
}

/// Delete without a selection: every caret has as many characters before it as it had, less one
/// for each caret that stands before it. (Carets are counted from the end of the text here: `j`
/// of them stand behind the `j`-th.)
pub proof fn law_delete_leaves_each_caret_at_its_place(e: Editor, j: int)
    requires
        carets_in_text(e.buffer, e.cursors.list),
        e.cursors.list.len() <= usize::MAX,
        !e.cursors.any_selected(),
        0 <= j < e.cursors.list.len(),
    ensures
        ({
            let f = e.step(Message::Delete);
            let was = spot(places_from_end(e.cursors.list)[j]);
            let now = spot(f.cursors.list[e.descending()[j] as int].position);
            &&& valid(f.buffer, now)
            &&& offset(f.buffer, now) == offset(e.buffer, was) - (e.cursors.list.len() - 1 - j)
        }),
{
    let (lines, list, order) = (e.buffer, e.cursors.list, e.descending());
    let n = order.len() as int;
    lemma_order_exists(carets(list), true);
    lemma_key_steps(e);
    lemma_key_cursors(e);
    assert(order.take(n) =~= order);
    let b = e.batch().deleted(order);
    lemma_deleted_carets(lines, list, order, n);
    assert(lost(
        lines,
        list[order[j] as int].position,
        n - 1 - j,
        b.lines,
        b.list[order[j] as int].position,
    ));
}

/// Enter: every caret goes down one line for each caret that stands at it or before it, and
/// stands behind the indentation that its own line break was followed by. (Carets are counted
/// from the end of the text here: `j` of them stand behind the `j`-th. The lines and columns must
/// be ones that a `usize` can hold.)
pub proof fn law_enter_puts_each_caret_behind_its_indentation(e: Editor, j: int)
    requires
        carets_in_text(e.buffer, e.cursors.list),
        e.buffer.len() + e.cursors.list.len() <= usize::MAX,
        forall|l: int| 0 <= l < e.buffer.len() ==> (#[trigger] e.buffer[l]).len() <= usize::MAX,
        0 <= j < e.cursors.list.len(),
    ensures
        ({
            let f = e.step(Message::Enter);
            let places = places_from_end(e.cursors.list);
            let lead = lead_at(e.buffer, places, e.indenting.auto_indent_enabled, j);
            spot(f.cursors.list[e.descending()[j] as int].position) == (
                places[j].0 + (e.cursors.list.len() - j),
                lead.len() as int,
            )
        }),
{
    let (lines, list, order) = (e.buffer, e.cursors.list, e.descending());
    let (n, indent) = (order.len() as int, e.indenting.auto_indent_enabled);
    lemma_order_exists(carets(list), true);
    lemma_key_cursors(e);
    assert(order.take(n) =~= order);
    assert(places(list, order) =~= places_from_end(list));
    lemma_broken_carets(lines, list, order, indent, n);
    let b = e.batch().broken(order, indent);
    assert(spot(b.list[order[j] as int].position) == (
        places(list, order)[j].0 + (n - j),
        lead_at(lines, places(list, order), indent, j).len() as int,
    ));
}

/// The first `n` characters of a line are spaces and tabs, and no white space follows them.
pub open spec fn indented_by(line: Seq<char>, n: int) -> bool {
    &&& 0 <= n <= line.len()
    &&& forall|i: int| 0 <= i < n ==> (#[trigger] line[i]) == ' ' || line[i] == '\t'
    &&& n < line.len() ==> !whitespace(line[n])
}

/// Enter with auto-indent at a single caret, on a line that starts with spaces or tabs: the new
/// line starts with the same ones, the caret stands behind them, and what stood behind the caret
/// follows. (The lines and columns must be ones that a `usize` can hold.)
pub proof fn law_enter_repeats_spaces_and_tabs(e: Editor, n: int)
    requires
        e.cursors.list.len() == 1,
        carets_in_text(e.buffer, e.cursors.list),
        e.buffer.len() < usize::MAX,
        forall|l: int| 0 <= l < e.buffer.len() ==> (#[trigger] e.buffer[l]).len() <= usize::MAX,
        e.indenting.auto_indent_enabled,
        indented_by(e.buffer[e.cursors.list[0].position.0 as int], n),
    ensures
        ({
            let f = e.step(Message::Enter);
            let (l, c) = spot(e.cursors.list[0].position);
            let line = e.buffer[l];
            &&& f.buffer == e.buffer.take(l) + seq![line.take(c), line.take(n) + line.skip(c)]
                + e.buffer.skip(l + 1)
            &&& spot(f.cursors.list[0].position) == (l + 1, n)
        }),
{
    let pos = e.cursors.list[0].position;
    let (l, c) = spot(pos);
    let line = e.buffer[l];
    let (start, one) = (e.batch(), seq![0usize]);
    assert(valid(e.buffer, spot(e.cursors.list[0].position)));
    lemma_order_of_one(carets(e.cursors.list), true);
    lemma_key_steps(e);
    lemma_key_cursors(e);
    assert(one.drop_last() =~= Seq::empty());
    assert(start.broken(one, true) == start.broken(one.drop_last(), true).broken_at(0, true));
    lemma_indented_by(line, 0, n);
    lemma_broken_at_one(start, 0, true);
    let g = glued(line.take(c), seq![Seq::empty(), line.take(n)], line.skip(c));
    assert(g =~= seq![line.take(c), line.take(n) + line.skip(c)]) by {
        assert(g[0] =~= line.take(c));
        assert(g[1] =~= line.take(n) + line.skip(c));
    }
}

proof fn lemma_indented_by(line: Seq<char>, from: int, n: int)
    requires
        0 <= from <= n,
        indented_by(line, n),
    ensures
        blank_end(line, from) == n,
    decreases n - from,
{
    if from < n {
        assert(line[from] == ' ' || line[from] == '\t');
        lemma_indented_by(line, from + 1, n);
    }
}

} // verus!
