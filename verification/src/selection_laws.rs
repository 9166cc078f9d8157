//! Laws of deleting selections and of pasting at several cursors: each acts where its cursor stood.
use vstd::prelude::*;

use crate::batch::Batch;
use crate::command::Edit;
use crate::cursor_laws::{all_apart, apart};
use crate::cursor_set::{carets, Cursor};
use crate::editor::Editor;
use crate::key_laws::{carets_distinct, lemma_later_before, places, places_from_end};
use crate::message::Message;
use crate::order::{is_order, lemma_is_the_order, lemma_order_exists, order_of};
use crate::position::{before, Position};
use crate::text_buffer::{
    end_of, glued, lemma_join_split, moved_position, not_after, spliced, split_lines, spot, valid,
    Spot,
};

verus! {

/// Replacing a range leaves the places before it in the text, and in place.
proof fn lemma_places_before(
    lines: Seq<Seq<char>>,
    s: Spot,
    e: Spot,
    pieces: Seq<Seq<char>>,
    t: Spot,
    p: Position,
)
    requires
        valid(lines, s),
        valid(lines, e),
        not_after(s, e),
        pieces.len() > 0,
        valid(lines, spot(p)),
        !not_after(s, spot(p)) || (spot(p) == s && s != e),
    ensures
        valid(spliced(lines, s, e, pieces), spot(p)),
        moved_position(p, s, e, t) == p,
{
    let next = spliced(lines, s, e, pieces);
    let g = glued(lines[s.0].take(s.1), pieces, lines[e.0].skip(e.1));
    assert(next[s.0] == g[0]);
}

/// The text after the selections of the cursors from the `k`-th on were deleted, from the last one
/// to the first.
pub open spec fn cut_from(lines: Seq<Seq<char>>, list: Seq<Cursor>, k: int) -> Seq<Seq<char>>
    decreases list.len() - k,
{
    if k < 0 || k >= list.len() {
        lines
    } else {
        let rest = cut_from(lines, list, k + 1);
        if list[k].selected() {
            spliced(rest, spot(list[k].lo()), spot(list[k].hi()), seq![Seq::empty()])
        } else {
            rest
        }
    }
}

/// The carets stand in document order.
pub open spec fn carets_ascending(list: Seq<Cursor>) -> bool {
    forall|i: int, j: int|
        0 <= i < j < list.len() ==> before((#[trigger] list[i]).position, (
        #[trigger] list[j]).position)
}

/// Both ends of every cursor are places of the text.
pub open spec fn all_in_text(lines: Seq<Seq<char>>, list: Seq<Cursor>) -> bool {
    forall|i: int|
        0 <= i < list.len() ==> valid(lines, spot((#[trigger] list[i]).lo())) && valid(
            lines,
            spot(list[i].hi()),
        )
}

/// Cursors in document order are taken from the last one to the first.
pub(crate) proof fn lemma_reversed(list: Seq<Cursor>)
    requires
        carets_ascending(list),
        list.len() <= usize::MAX,
    ensures
        order_of(carets(list), true) == Seq::new(
            list.len(),
            |i: int| (list.len() - 1 - i) as usize,
        ),
{
    let order = Seq::new(list.len(), |i: int| (list.len() - 1 - i) as usize);
    assert(is_order(order, carets(list), true));
    lemma_is_the_order(order, carets(list), true);
}

/// How far deleting has come with the cursors from the `k`-th on.
spec fn cut_so_far(
    lines: Seq<Seq<char>>,
    list: Seq<Cursor>,
    k: int,
    b: Batch,
) -> bool {
    &&& b.lines == cut_from(lines, list, k)
    &&& b.list.len() == list.len()
    &&& forall|j: int| 0 <= j < k ==> #[trigger] b.list[j] == list[j]
    &&& forall|j: int|
        0 <= j < k ==> valid(b.lines, spot((#[trigger] list[j]).lo())) && valid(
            b.lines,
            spot(list[j].hi()),
        )
}

proof fn lemma_cut_so_far(lines: Seq<Seq<char>>, list: Seq<Cursor>, k: int)
    requires
        all_apart(list),
        carets_ascending(list),
        all_in_text(lines, list),
        list.len() <= usize::MAX,
        0 <= k <= list.len(),
    ensures
        cut_so_far(
            lines,
            list,
            k,
            Batch::start(lines, list).cut(order_of(carets(list), true).take(list.len() - k)),
        ),
    decreases list.len() - k,
{
    let n = list.len() as int;
    let order = order_of(carets(list), true);
    lemma_reversed(list);
    let start = Batch::start(lines, list);
    if k == n {
        assert(order.take(0) =~= Seq::empty());
    } else {
        lemma_cut_so_far(lines, list, k + 1);
        assert(order.take(n - k).drop_last() =~= order.take(n - k - 1));
        assert(order.take(n - k).last() == k as usize);
        let h = start.cut(order.take(n - k - 1));
        let b = h.cut_at(k);
        assert(b == start.cut(order.take(n - k)));
        let c = list[k];
        assert(h.list[k] == c);
        if c.selected() {
            let (s, e) = (spot(c.lo()), spot(c.hi()));
            let nothing: Seq<Seq<char>> = seq![Seq::empty()];
            let edit = Edit::replace(s, e, nothing, c.position);
            assert(edit.from(h.lines) == s);
            assert(edit.to(h.lines) == e);
            assert(end_of(s, nothing) == s);
            assert forall|j: int| 0 <= j < k implies #[trigger] b.list[j] == list[j] && valid(
                b.lines,
                spot(list[j].lo()),
            ) && valid(b.lines, spot(list[j].hi())) by {
                assert(h.list[j] == list[j]);
                assert(apart(list[j], list[k]));
                lemma_places_before(h.lines, s, e, nothing, s, list[j].lo());
                lemma_places_before(h.lines, s, e, nothing, s, list[j].hi());
            }
        }
    }
}

proof fn lemma_cut_step(e: Editor)
    ensures
        e.cursors.any_selected() ==> e.step(Message::DeleteSelection).buffer == e.batch().cut(
            e.descending(),
        ).lines,
        !e.cursors.any_selected() ==> e.step(Message::DeleteSelection).buffer == e.buffer,
{
    reveal(Editor::edit_step);
    let f = e.grouping_ended();
    assert(f.batch() == e.batch());
}

proof fn lemma_nothing_cut(lines: Seq<Seq<char>>, list: Seq<Cursor>, k: int)
    requires
        0 <= k <= list.len(),
        forall|i: int| 0 <= i < list.len() ==> !(#[trigger] list[i]).selected(),
    ensures
        cut_from(lines, list, k) == lines,
    decreases list.len() - k,
{
    if k < list.len() {
        lemma_nothing_cut(lines, list, k + 1);
    }
}

/// Deleting the selections of several cursors, which are apart from each other, deletes exactly
/// what each of them selected.
pub proof fn law_selections_are_deleted_where_they_stood(e: Editor)
    requires
        all_apart(e.cursors.list),
        carets_ascending(e.cursors.list),
        all_in_text(e.buffer, e.cursors.list),
        e.cursors.list.len() <= usize::MAX,
    ensures
        e.step(Message::DeleteSelection).buffer == cut_from(e.buffer, e.cursors.list, 0),
{
    let list = e.cursors.list;
    lemma_cut_step(e);
    if e.cursors.any_selected() {
        lemma_cut_so_far(e.buffer, list, 0);
        let order = order_of(carets(list), true);
        lemma_reversed(list);
        assert(order.take(list.len() as int) =~= order);
    } else {
        lemma_nothing_cut(e.buffer, list, 0);
    }
}

/// The text after `pieces` were inserted at each of the given places, one after the other.
pub open spec fn inserted_at(
    lines: Seq<Seq<char>>,
    places: Seq<Position>,
    pieces: Seq<Seq<char>>,
) -> Seq<Seq<char>>
    decreases places.len(),
{
    if places.len() == 0 {
        lines
    } else {
        let p = spot(places.last());
        spliced(inserted_at(lines, places.drop_last(), pieces), p, p, pieces)
    }
}

/// How far pasting has come after the first `k` carets of the order.
spec fn pasted_so_far(
    lines: Seq<Seq<char>>,
    list: Seq<Cursor>,
    order: Seq<usize>,
    k: int,
    pieces: Seq<Seq<char>>,
    b: Batch,
) -> bool {
    &&& b.lines == inserted_at(lines, places(list, order).take(k), pieces)
    &&& b.list.len() == list.len()
    &&& forall|j: int|
        k <= j < order.len() ==> b.list[(#[trigger] order[j]) as int].position
            == list[order[j] as int].position && valid(
            b.lines,
            spot(list[order[j] as int].position),
        )
}

proof fn lemma_pasted_so_far(
    lines: Seq<Seq<char>>,
    list: Seq<Cursor>,
    order: Seq<usize>,
    k: int,
    pieces: Seq<Seq<char>>,
)
    requires
        carets_distinct(list),
        is_order(order, carets(list), true),
        0 <= k <= order.len(),
        pieces.len() > 0,
        forall|i: int|
            0 <= i < list.len() ==> valid(lines, spot((#[trigger] list[i]).position)),
    ensures
        pasted_so_far(
            lines,
            list,
            order,
            k,
            pieces,
            Batch::start(lines, list).pasted(order.take(k), pieces),
        ),
    decreases k,
{
    let start = Batch::start(lines, list);
    if k == 0 {
        assert(order.take(0) =~= Seq::empty());
        assert(places(list, order).take(0) =~= Seq::empty());
    } else {
        lemma_pasted_so_far(lines, list, order, k - 1, pieces);
        assert(order.take(k).drop_last() =~= order.take(k - 1));
        assert(places(list, order).take(k).drop_last() =~= places(list, order).take(k - 1));
        let h = start.pasted(order.take(k - 1), pieces);
        let idx = order[k - 1] as int;
        let b = h.pasted_at(idx, pieces);
        assert(b == start.pasted(order.take(k), pieces));
        let pos = list[idx].position;
        assert(h.list[order[k - 1] as int].position == pos);
        let edit = Edit::replace(spot(pos), spot(pos), pieces, pos);
        assert(edit.from(h.lines) == spot(pos));
        assert(edit.to(h.lines) == spot(pos));
        assert forall|j: int| k <= j < order.len() implies b.list[(
        #[trigger] order[j]) as int].position == list[order[j] as int].position && valid(
            b.lines,
            spot(list[order[j] as int].position),
        ) by {
            lemma_later_before(list, order, k - 1, j);
            let q = list[order[j] as int].position;
            assert(h.list[order[j] as int].position == q);
            lemma_places_before(
                h.lines,
                spot(pos),
                spot(pos),
                pieces,
                spot(edit.caret_after(h.lines)),
                q,
            );
        }
    }
}

/// Without a selection nothing is deleted.
pub(crate) proof fn lemma_cut_nothing(b: Batch, order: Seq<usize>)
    requires
        forall|i: int| 0 <= i < b.list.len() ==> !(#[trigger] b.list[i]).selected(),
        forall|i: int| 0 <= i < order.len() ==> (#[trigger] order[i]) < b.list.len(),
    ensures
        b.cut(order) == b,
    decreases order.len(),
{
    if order.len() > 0 {
        assert forall|i: int| 0 <= i < order.drop_last().len() implies (
        #[trigger] order.drop_last()[i]) < b.list.len() by {
            assert(order[i] < b.list.len());
        }
        lemma_cut_nothing(b, order.drop_last());
        assert(order[order.len() - 1] < b.list.len());
    }
}

/// Pasting a text at several carets, no two of them at the same place, inserts it at every one of
/// them, from the last caret of the text to the first.
pub proof fn law_pasting_reaches_every_caret(e: Editor, text: Seq<char>)
    requires
        !e.cursors.any_selected(),
        carets_distinct(e.cursors.list),
        e.cursors.list.len() <= usize::MAX,
        forall|i: int|
            0 <= i < e.cursors.list.len() ==> valid(
                e.buffer,
                spot((#[trigger] e.cursors.list[i]).position),
            ),
    ensures
        e.pasted(text).buffer == inserted_at(
            e.buffer,
            places_from_end(e.cursors.list),
            split_lines(text),
        ),
{
    let list = e.cursors.list;
    let order = order_of(carets(list), true);
    let n = order.len() as int;
    lemma_order_exists(carets(list), true);
    lemma_cut_nothing(e.batch(), order);
    lemma_join_split(text);
    lemma_pasted_so_far(e.buffer, list, order, n, split_lines(text));
    assert(order.take(n) =~= order);
    assert(places(list, order).take(n) =~= places_from_end(list));
}

} // verus!
