//! Laws of editing at several cursors: which characters come and go, and how many are left before
//! every caret.
use vstd::prelude::*;

use crate::batch::Batch;
use crate::caret_laws::{
    carets_in_text, lemma_back_kept, lemma_deleted_at_one, lemma_deleted_carets,
    lemma_erased_at_one, lemma_erased_carets, lemma_front_kept, lemma_offset_order,
    lemma_none_deleted, lemma_rest_untouched, lemma_same_offset, offset, rest_untouched,
    same_before,
};
use crate::command::Edit;
use crate::cursor_laws::{all_apart, apart};
use crate::cursor_set::{carets, Cursor};
use crate::edit_laws::{first_end, last_end, lemma_edit_steps, lemma_ends_in_text, stands_in};
use crate::editor::Editor;
use crate::flat_laws::{
    flat, law_an_offset_finds_its_character, law_lines_hold_their_text,
    law_replacing_a_range_replaces_its_characters, lemma_flat_end, lemma_flat_one,
};
use crate::key_laws::{
    lemma_deleted_places, lemma_erased_places, lemma_key_steps, lemma_later_before,
};
use crate::message::Message;
use crate::order::{is_order, lemma_order_exists, lemma_order_lists_all, order_of};
use crate::position::Position;
use crate::selection_laws::{carets_ascending, lemma_cut_nothing, lemma_reversed};
use crate::text_buffer::{
    end_of, lemma_join_split, moved, not_after, spliced, split_lines, spot, valid, Spot,
};
use crate::typing_laws::{
    lemma_line_insert, lemma_line_untouched, lemma_prefix_insert, lemma_prefix_plain,
    lemma_typed_parts, typed_line, typed_prefix, with_text,
};

verus! {

/// Those of the first `n` characters of a text whose number is not in `gone`.
pub open spec fn kept_prefix(text: Seq<char>, gone: Set<int>, n: int) -> Seq<char>
    decreases n,
{
    if n <= 0 {
        Seq::empty()
    } else if gone.contains(n - 1) {
        kept_prefix(text, gone, n - 1)
    } else {
        kept_prefix(text, gone, n - 1).push(text[n - 1])
    }
}

/// The characters of a text whose number is not in `gone`.
pub open spec fn kept(text: Seq<char>, gone: Set<int>) -> Seq<char> {
    kept_prefix(text, gone, text.len() as int)
}

/// The numbers from `a` up to `b`.
spec fn numbers(a: int, b: int) -> Set<int> {
    Set::new(|i: int| a <= i < b)
}

proof fn lemma_kept_plain(text: Seq<char>, gone: Set<int>, n: int)
    requires
        0 <= n <= text.len(),
        forall|d: int| #[trigger] gone.contains(d) ==> d >= n,
    ensures
        kept_prefix(text, gone, n) == text.take(n),
    decreases n,
{
    if n > 0 {
        lemma_kept_plain(text, gone, n - 1);
        assert(text.take(n - 1).push(text[n - 1]) =~= text.take(n));
    } else {
        assert(text.take(0) =~= Seq::empty());
    }
}

proof fn lemma_kept_gap(text: Seq<char>, gone: Set<int>, a: int, b: int, n: int)
    requires
        0 <= a <= n <= b <= text.len(),
        forall|d: int| #[trigger] gone.contains(d) ==> d >= b,
    ensures
        kept_prefix(text, gone.union(numbers(a, b)), n) == text.take(a),
    decreases n,
{
    let more = gone.union(numbers(a, b));
    if n == a {
        lemma_kept_plain(text, more, a);
    } else {
        lemma_kept_gap(text, gone, a, b, n - 1);
        assert(more.contains(n - 1));
    }
}

/// One more range that goes, before all others.
proof fn lemma_kept_range(text: Seq<char>, gone: Set<int>, a: int, b: int, n: int)
    requires
        0 <= a <= b <= n <= text.len(),
        forall|d: int| #[trigger] gone.contains(d) ==> d >= b,
    ensures
        kept_prefix(text, gone, n).len() >= b,
        kept_prefix(text, gone.union(numbers(a, b)), n) == kept_prefix(text, gone, n).take(a)
            + kept_prefix(text, gone, n).skip(b),
    decreases n,
{
    let more = gone.union(numbers(a, b));
    if n == b {
        lemma_kept_gap(text, gone, a, b, b);
        lemma_kept_plain(text, gone, b);
        assert(text.take(b).take(a) + text.take(b).skip(b) =~= text.take(a));
    } else {
        lemma_kept_range(text, gone, a, b, n - 1);
        let p = kept_prefix(text, gone, n - 1);
        assert(more.contains(n - 1) == gone.contains(n - 1));
        if !gone.contains(n - 1) {
            let c = text[n - 1];
            assert((p.take(a) + p.skip(b)).push(c) =~= p.push(c).take(a) + p.push(c).skip(b));
        }
    }
}

/// A caret of the list stands behind the first `n` characters of the text.
pub open spec fn caret_stands(lines: Seq<Seq<char>>, list: Seq<Cursor>, n: int) -> bool {
    exists|i: int|
        0 <= i < list.len() && offset(lines, spot((#[trigger] list[i]).position)) == n
}

/// The offsets of the carets that come first in an order, `less` smaller.
spec fn first_offsets(
    lines: Seq<Seq<char>>,
    list: Seq<Cursor>,
    order: Seq<usize>,
    k: int,
    less: int,
) -> Set<int> {
    Set::new(
        |n: int|
            exists|j: int|
                0 <= j < k && offset(lines, spot(list[(#[trigger] order[j]) as int].position))
                    == n + less,
    )
}

/// The next caret of the order adds its offset, which is smaller than all others.
proof fn lemma_offsets_grow(
    lines: Seq<Seq<char>>,
    list: Seq<Cursor>,
    order: Seq<usize>,
    k: int,
    less: int,
)
    requires
        carets_in_text(lines, list),
        is_order(order, carets(list), true),
        0 < k <= order.len(),
    ensures
        ({
            let o = offset(lines, spot(list[order[k - 1] as int].position)) - less;
            let former = first_offsets(lines, list, order, k - 1, less);
            &&& first_offsets(lines, list, order, k, less) == former.insert(o)
            &&& forall|d: int| #[trigger] former.contains(d) ==> d > o
        }),
{
    let o = offset(lines, spot(list[order[k - 1] as int].position)) - less;
    let former = first_offsets(lines, list, order, k - 1, less);
    let more = first_offsets(lines, list, order, k, less);
    assert forall|d: int| more.contains(d) == former.insert(o).contains(d) by {
        if d == o {
            assert(offset(lines, spot(list[order[k - 1] as int].position)) == d + less);
        }
    }
    assert(more =~= former.insert(o));
    assert forall|d: int| #[trigger] former.contains(d) implies d > o by {
        let j = choose|j: int|
            0 <= j < k - 1 && offset(lines, spot(list[(#[trigger] order[j]) as int].position)) == d
                + less;
        lemma_later_before(list, order, j, k - 1);
        let (p, q) = (list[order[j] as int].position, list[order[k - 1] as int].position);
        assert(valid(lines, spot(list[order[j] as int].position)));
        assert(valid(lines, spot(list[order[k - 1] as int].position)));
        lemma_offset_order(lines, spot(p), spot(q));
    }
}

/// The offsets of all carets.
proof fn lemma_all_offsets(lines: Seq<Seq<char>>, list: Seq<Cursor>, order: Seq<usize>, less: int)
    requires
        is_order(order, carets(list), true),
        list.len() <= usize::MAX,
    ensures
        first_offsets(lines, list, order, order.len() as int, less) == Set::new(
            |n: int| caret_stands(lines, list, n + less),
        ),
{
    let listed = first_offsets(lines, list, order, order.len() as int, less);
    let all = Set::new(|n: int| caret_stands(lines, list, n + less));
    assert forall|n: int| all.contains(n) == listed.contains(n) by {
        if all.contains(n) {
            let i = choose|i: int|
                0 <= i < list.len() && offset(lines, spot((#[trigger] list[i]).position)) == n
                    + less;
            lemma_order_lists_all(order, carets(list), true, i as usize);
            let j = choose|j: int| 0 <= j < order.len() && order[j] == i as usize;
            assert(offset(lines, spot(list[order[j] as int].position)) == n + less);
        }
        if listed.contains(n) {
            let j = choose|j: int|
                0 <= j < order.len() && offset(
                    lines,
                    spot(list[(#[trigger] order[j]) as int].position),
                ) == n + less;
            assert(offset(lines, spot(list[order[j] as int].position)) == n + less);
        }
    }
    assert(all =~= listed);
}

/// One character deleted at the next caret.
proof fn lemma_flat_deleted(
    lines: Seq<Seq<char>>,
    gone: Set<int>,
    h: Seq<Seq<char>>,
    s: Spot,
    e: Spot,
    o: int,
)
    requires
        valid(h, s),
        valid(h, e),
        offset(h, s) == o,
        offset(h, e) == o + 1,
        flat(h) == kept(flat(lines), gone),
        0 <= o < flat(lines).len(),
        forall|d: int| #[trigger] gone.contains(d) ==> d > o,
    ensures
        flat(spliced(h, s, e, seq![Seq::empty()])) == kept(flat(lines), gone.insert(o)),
{
    lemma_offset_order(h, s, e);
    law_replacing_a_range_replaces_its_characters(h, s, e, seq![Seq::empty()]);
    lemma_flat_one(Seq::empty());
    lemma_kept_range(flat(lines), gone, o, o + 1, flat(lines).len() as int);
    assert(gone.union(numbers(o, o + 1)) =~= gone.insert(o));
    assert(flat(h).take(o) + Seq::empty() + flat(h).skip(o + 1) =~= flat(h).take(o) + flat(h).skip(
        o + 1,
    ));
}

proof fn lemma_flat_erased(lines: Seq<Seq<char>>, list: Seq<Cursor>, order: Seq<usize>, k: int)
    requires
        carets_in_text(lines, list),
        is_order(order, carets(list), true),
        0 <= k <= order.len(),
        k > 0 ==> list[order[k - 1] as int].position != (0usize, 0usize),
    ensures
        flat(Batch::start(lines, list).erased(order.take(k)).lines) == kept(
            flat(lines),
            first_offsets(lines, list, order, k, 1),
        ),
    decreases k,
{
    let start = Batch::start(lines, list);
    let gone = first_offsets(lines, list, order, k, 1);
    if k == 0 {
        assert(order.take(0) =~= Seq::empty());
        lemma_kept_plain(flat(lines), gone, flat(lines).len() as int);
        assert(flat(lines).take(flat(lines).len() as int) =~= flat(lines));
    } else {
        let m = k - 1;
        if m > 0 {
            lemma_later_before(list, order, m - 1, m);
        }
        lemma_flat_erased(lines, list, order, m);
        lemma_erased_carets(lines, list, order, m);
        lemma_erased_places(lines, list, order, m);
        assert(order.take(k).drop_last() =~= order.take(m));
        let h = start.erased(order.take(m));
        let idx = order[m] as int;
        let pos = list[idx].position;
        assert(start.erased(order.take(k)) == h.erased_at(idx));
        assert(h.list[order[m] as int].position == pos);
        assert(same_before(h.lines, lines, spot(list[order[m] as int].position)));
        lemma_same_offset(h.lines, lines, spot(pos));
        assert(offset(lines, spot(list[idx].position)) <= usize::MAX);
        let (kind, s, e) = lemma_erased_at_one(h, idx);
        lemma_offsets_grow(lines, list, order, k, 1);
        law_an_offset_finds_its_character(lines, spot(pos));
        law_an_offset_finds_its_character(h.lines, s);
        lemma_flat_deleted(
            lines,
            first_offsets(lines, list, order, m, 1),
            h.lines,
            s,
            e,
            offset(lines, spot(pos)) - 1,
        );
    }
}

proof fn lemma_flat_deleted_all(
    lines: Seq<Seq<char>>,
    list: Seq<Cursor>,
    order: Seq<usize>,
    k: int,
)
    requires
        carets_in_text(lines, list),
        is_order(order, carets(list), true),
        0 <= k <= order.len(),
    ensures
        flat(Batch::start(lines, list).deleted(order.take(k)).lines) == kept(
            flat(lines),
            first_offsets(lines, list, order, k, 0),
        ),
    decreases k,
{
    let start = Batch::start(lines, list);
    let gone = first_offsets(lines, list, order, k, 0);
    if k == 0 {
        assert(order.take(0) =~= Seq::empty());
        lemma_kept_plain(flat(lines), gone, flat(lines).len() as int);
        assert(flat(lines).take(flat(lines).len() as int) =~= flat(lines));
    } else {
        let m = k - 1;
        lemma_flat_deleted_all(lines, list, order, m);
        lemma_deleted_carets(lines, list, order, m);
        lemma_deleted_places(lines, list, order, m);
        assert(order.take(k).drop_last() =~= order.take(m));
        let h = start.deleted(order.take(m));
        let idx = order[m] as int;
        let pos = list[idx].position;
        assert(start.deleted(order.take(k)) == h.deleted_at(idx));
        assert(h.list[order[m] as int].position == pos);
        assert(same_before(h.lines, lines, spot(list[order[m] as int].position)));
        lemma_same_offset(h.lines, lines, spot(pos));
        let former = first_offsets(lines, list, order, m, 0);
        let o = offset(lines, spot(pos));
        lemma_offsets_grow(lines, list, order, k, 0);
        law_an_offset_finds_its_character(lines, spot(pos));
        law_an_offset_finds_its_character(h.lines, spot(pos));
        if pos.1 < h.lines[pos.0 as int].len() || pos.0 + 1 < h.lines.len() {
            let (kind, s, e) = lemma_deleted_at_one(h, idx);
            lemma_kept_len(flat(lines), former, o);
            lemma_flat_deleted(lines, former, h.lines, s, e, o);
        } else {
            assert(h.deleted_at(idx) == h);
            lemma_kept_len(flat(lines), former, o);
            lemma_kept_end(flat(lines), former);
        }
    }
}

/// If as many characters are left as stand before `o`, nothing behind it was kept.
proof fn lemma_kept_len(text: Seq<char>, gone: Set<int>, o: int)
    requires
        0 <= o <= text.len(),
        forall|d: int| #[trigger] gone.contains(d) ==> d > o,
    ensures
        o < text.len() ==> kept(text, gone).len() > o,
        o == text.len() ==> kept(text, gone).len() == o,
{
    if o < text.len() {
        lemma_kept_range(text, gone, o + 1, o + 1, text.len() as int);
    } else {
        lemma_kept_plain(text, gone, o);
    }
}

/// A number past the end of the text is that of no character.
proof fn lemma_kept_end(text: Seq<char>, gone: Set<int>)
    ensures
        kept(text, gone.insert(text.len() as int)) == kept(text, gone),
{
    lemma_kept_same(text, gone, gone.insert(text.len() as int), text.len() as int);
}

proof fn lemma_kept_same(text: Seq<char>, a: Set<int>, b: Set<int>, n: int)
    requires
        forall|d: int| 0 <= d < n ==> (#[trigger] a.contains(d)) == b.contains(d),
    ensures
        kept_prefix(text, a, n) == kept_prefix(text, b, n),
    decreases n,
{
    if n > 0 {
        assert(a.contains(n - 1) == b.contains(n - 1));
        lemma_kept_same(text, a, b, n - 1);
    }
}

/// Without a selection, Backspace deletes the character before every caret, and Delete the one
/// behind every caret, and no others. (What stands before the carets must be countable.)
pub proof fn law_backspace_and_delete_act_at_every_caret(e: Editor)
    requires
        carets_in_text(e.buffer, e.cursors.list),
        e.cursors.list.len() <= usize::MAX,
        !e.cursors.any_selected(),
    ensures
        flat(e.step(Message::Backspace).buffer) == kept(
            flat(e.buffer),
            Set::new(|i: int| caret_stands(e.buffer, e.cursors.list, i + 1)),
        ),
        flat(e.step(Message::Delete).buffer) == kept(
            flat(e.buffer),
            Set::new(|i: int| caret_stands(e.buffer, e.cursors.list, i)),
        ),
{
    let (lines, list, order) = (e.buffer, e.cursors.list, e.descending());
    let n = order.len() as int;
    lemma_order_exists(carets(list), true);
    lemma_key_steps(e);
    assert(order.take(n) =~= order);
    lemma_flat_deleted_all(lines, list, order, n);
    lemma_all_offsets(lines, list, order, 0);
    lemma_all_offsets(lines, list, order, 1);
    assert(Set::new(|i: int| caret_stands(lines, list, i)) =~= Set::new(
        |i: int| caret_stands(lines, list, i + 0),
    ));
    if n > 0 && list[order[n - 1] as int].position == (0usize, 0usize) {
        if n > 1 {
            lemma_later_before(list, order, n - 2, n - 1);
        }
        lemma_flat_erased(lines, list, order, n - 1);
        lemma_erased_places(lines, list, order, n - 1);
        let h = e.batch().erased(order.take(n - 1));
        assert(order.drop_last() =~= order.take(n - 1));
        assert(h.list[order[n - 1] as int].position == (0usize, 0usize));
        assert(e.batch().erased(order) == h);
        lemma_offsets_grow(lines, list, order, n, 1);
        lemma_kept_same(
            flat(lines),
            first_offsets(lines, list, order, n - 1, 1),
            first_offsets(lines, list, order, n, 1),
            flat(lines).len() as int,
        );
    } else {
        lemma_flat_erased(lines, list, order, n);
    }
}

/// How far pasting has come after the first `k` carets of the order.
spec fn pasted_flat(
    lines: Seq<Seq<char>>,
    list: Seq<Cursor>,
    order: Seq<usize>,
    k: int,
    text: Seq<char>,
    b: Batch,
) -> bool {
    let offs = first_offsets(lines, list, order, k, 0);
    &&& b.list.len() == list.len()
    &&& rest_untouched(lines, list, order, k, b.lines)
    &&& forall|j: int|
        k <= j < order.len() ==> b.list[(#[trigger] order[j]) as int].position
            == list[order[j] as int].position
    &&& flat(b.lines) == typed_line(flat(lines), offs, text)
    &&& flat(b.lines).len() == flat(lines).len() + k * text.len()
    &&& forall|j: int|
        0 <= j < k ==> behind_its_text(
            lines,
            offs,
            list[(#[trigger] order[j]) as int].position,
            text,
            b.lines,
            b.list[order[j] as int].position,
        )
}

/// A caret that stood at `was` stands behind the text that was inserted there: behind what stood
/// before it, with what was inserted there, and then `text`.
pub open spec fn behind_its_text(
    lines: Seq<Seq<char>>,
    offs: Set<int>,
    was: Position,
    text: Seq<char>,
    next: Seq<Seq<char>>,
    now: Position,
) -> bool {
    let o = offset(lines, spot(was));
    &&& valid(next, spot(now))
    &&& offset(next, spot(now)) == typed_prefix(flat(lines), offs, text, o).len() + text.len()
}

/// A text inserted at one caret.
proof fn lemma_pasted_at_one(h: Batch, idx: int, pieces: Seq<Seq<char>>)
    requires
        0 <= idx < h.list.len(),
        pieces.len() > 0,
        valid(h.lines, spot(h.list[idx].position)),
        flat(h.lines).len() + flat(pieces).len() <= usize::MAX,
    ensures
        ({
            let p = spot(h.list[idx].position);
            let b = h.pasted_at(idx, pieces);
            let text = flat(pieces);
            let o = offset(h.lines, p);
            &&& b.lines == spliced(h.lines, p, p, pieces)
            &&& flat(b.lines) == with_text(flat(h.lines), o, text)
            &&& b.list.len() == h.list.len()
            &&& valid(b.lines, spot(b.list[idx].position))
            &&& offset(b.lines, spot(b.list[idx].position)) == o + text.len()
            &&& forall|i: int|
                0 <= i < h.list.len() && i != idx && valid(
                    h.lines,
                    spot((#[trigger] h.list[i]).position),
                ) && not_after(p, spot(h.list[i].position)) ==> valid(
                    b.lines,
                    spot(b.list[i].position),
                ) && offset(b.lines, spot(b.list[i].position)) == offset(
                    h.lines,
                    spot(h.list[i].position),
                ) + text.len()
            &&& forall|i: int|
                0 <= i < h.list.len() && i != idx && !not_after(
                    p,
                    spot((#[trigger] h.list[i]).position),
                ) ==> b.list[i].position == h.list[i].position
        }),
{
    let pos = h.list[idx].position;
    let p = spot(pos);
    let b = h.pasted_at(idx, pieces);
    let edit = Edit::replace(p, p, pieces, pos);
    assert(edit.from(h.lines) == p && edit.to(h.lines) == p);
    law_replacing_a_range_replaces_its_characters(h.lines, p, p, pieces);
    lemma_flat_end(h.lines, p, p, pieces);
    let t = end_of(p, pieces);
    law_an_offset_finds_its_character(h.lines, p);
    lemma_offset_order(b.lines, t, t);
    assert(spot(edit.caret_after(h.lines)) == t);
    assert forall|i: int|
        0 <= i < h.list.len() && i != idx && valid(
            h.lines,
            spot((#[trigger] h.list[i]).position),
        ) && not_after(p, spot(h.list[i].position)) implies valid(
        b.lines,
        spot(b.list[i].position),
    ) && offset(b.lines, spot(b.list[i].position)) == offset(h.lines, spot(h.list[i].position))
        + flat(pieces).len() by {
        let q = spot(h.list[i].position);
        lemma_back_kept(h.lines, p, p, pieces, q);
        law_an_offset_finds_its_character(h.lines, q);
        let m = moved(q, p, p, t);
        lemma_offset_order(b.lines, m, m);
    }
}

proof fn lemma_pasted_flat(
    lines: Seq<Seq<char>>,
    list: Seq<Cursor>,
    order: Seq<usize>,
    k: int,
    pieces: Seq<Seq<char>>,
)
    requires
        carets_in_text(lines, list),
        is_order(order, carets(list), true),
        0 <= k <= order.len(),
        pieces.len() > 0,
        flat(lines).len() + list.len() * flat(pieces).len() <= usize::MAX,
    ensures
        pasted_flat(
            lines,
            list,
            order,
            k,
            flat(pieces),
            Batch::start(lines, list).pasted(order.take(k), pieces),
        ),
    decreases k,
{
    let start = Batch::start(lines, list);
    let text = flat(pieces);
    if k == 0 {
        assert(order.take(0) =~= Seq::empty());
        lemma_line_untouched(flat(lines), first_offsets(lines, list, order, 0, 0), text);
        lemma_none_deleted(lines, list, order);
        assert(0 * text.len() == 0);
    } else {
        let m = k - 1;
        lemma_pasted_flat(lines, list, order, m, pieces);
        assert(order.take(k).drop_last() =~= order.take(m));
        let h = start.pasted(order.take(m), pieces);
        let b = start.pasted(order.take(k), pieces);
        assert(b == h.pasted_at(order[m] as int, pieces));
        assert(m * text.len() + text.len() <= list.len() * text.len()) by (nonlinear_arith)
            requires
                m + 1 <= list.len(),
        ;
        assert(h.list[order[m] as int].position == list[order[m] as int].position);
        assert(same_before(h.lines, lines, spot(list[order[m] as int].position)));
        lemma_pasted_at_one(h, order[m] as int, pieces);
        lemma_one_more_pasted(lines, list, order, m, pieces, h, b);
    }
}

/// Pasting at the next caret of the order.
proof fn lemma_one_more_pasted(
    lines: Seq<Seq<char>>,
    list: Seq<Cursor>,
    order: Seq<usize>,
    m: int,
    pieces: Seq<Seq<char>>,
    h: Batch,
    b: Batch,
)
    requires
        carets_in_text(lines, list),
        is_order(order, carets(list), true),
        0 <= m < order.len(),
        pieces.len() > 0,
        pasted_flat(lines, list, order, m, flat(pieces), h),
        flat(h.lines).len() + flat(pieces).len() <= usize::MAX,
        b == h.pasted_at(order[m] as int, pieces),
    ensures
        pasted_flat(lines, list, order, m + 1, flat(pieces), b),
{
    let text = flat(pieces);
    let idx = order[m] as int;
    let pos = list[idx].position;
    let p = spot(pos);
    let o = offset(lines, p);
    let former = first_offsets(lines, list, order, m, 0);
    let offs = first_offsets(lines, list, order, m + 1, 0);
    assert(h.list[order[m] as int].position == list[order[m] as int].position);
    assert(same_before(h.lines, lines, spot(list[order[m] as int].position)));
    lemma_same_offset(h.lines, lines, p);
    lemma_pasted_at_one(h, idx, pieces);
    lemma_offsets_grow(lines, list, order, m + 1, 0);
    law_an_offset_finds_its_character(lines, p);
    lemma_line_insert(flat(lines), former, text, o);
    assert((m + 1) * text.len() == m * text.len() + text.len()) by (nonlinear_arith);
    assert forall|j: int| m < j < order.len() implies not_after(
        spot(list[(#[trigger] order[j]) as int].position),
        p,
    ) by {
        lemma_later_before(list, order, m, j);
    }
    lemma_rest_untouched(lines, list, order, m, h.lines, p, p, pieces);
    assert forall|j: int| m + 1 <= j < order.len() implies b.list[(
    #[trigger] order[j]) as int].position == list[order[j] as int].position by {
        lemma_later_before(list, order, m, j);
        assert(h.list[order[j] as int].position == list[order[j] as int].position);
    }
    assert forall|j: int| 0 <= j < m + 1 implies behind_its_text(
        lines,
        offs,
        list[(#[trigger] order[j]) as int].position,
        text,
        b.lines,
        b.list[order[j] as int].position,
    ) by {
        if j < m {
            lemma_later_before(list, order, j, m);
            let was = list[order[j] as int].position;
            let q = h.list[order[j] as int].position;
            assert(behind_its_text(lines, former, was, text, h.lines, q));
            assert(valid(lines, spot(list[order[j] as int].position)));
            let n = offset(lines, spot(was));
            lemma_offset_order(lines, spot(was), p);
            law_an_offset_finds_its_character(lines, spot(was));
            lemma_prefix_insert(flat(lines), former, text, o, n);
            lemma_offset_order(h.lines, p, spot(q));
        } else {
            lemma_prefix_plain(flat(lines), offs, text, o - 1, o);
        }
    }
}

/// The text after pasting without a selection.
proof fn lemma_pasted_parts(e: Editor, text: String)
    requires
        text@.len() > 0,
        !e.cursors.any_selected(),
        e.cursors.list.len() <= usize::MAX,
    ensures
        ({
            let b = e.batch().pasted(e.descending(), split_lines(text@));
            let (f, g) = (e.step(Message::Paste(text)), e.step(Message::ImeCommit(text)));
            &&& f.buffer == b.lines && f.cursors.list == b.list
            &&& g.buffer == b.lines && g.cursors.list == b.list
            &&& f.cursors.primary == e.cursors.primary
            &&& g.cursors.primary == e.cursors.primary
        }),
{
    lemma_edit_steps(e, Message::Paste(text));
    lemma_edit_steps(e, Message::ImeCommit(text));
    lemma_order_exists(carets(e.cursors.list), true);
    lemma_cut_nothing(e.batch(), e.descending());
    let f = e.grouping_ended();
    assert(f.batch() == e.batch());
    let g = (Editor { ime_preedit: None, ..e }).grouping_started("Typing"@);
    assert(g.batch() == e.batch());
}

/// Pasting a text at bare carets, no two of them at the same place, and committing one from an
/// input method, insert it at every caret and do nothing else to the text. Every caret ends up
/// behind its own. (The characters of the text must stay countable.)
pub proof fn law_pasting_inserts_at_every_caret(e: Editor, text: String)
    requires
        text@.len() > 0,
        carets_in_text(e.buffer, e.cursors.list),
        !e.cursors.any_selected(),
        e.cursors.list.len() <= usize::MAX,
        flat(e.buffer).len() + e.cursors.list.len() * text@.len() <= usize::MAX,
    ensures
        text_at_every_caret(e, e.step(Message::Paste(text)), text@),
        text_at_every_caret(e, e.step(Message::ImeCommit(text)), text@),
{
    let (lines, list, order) = (e.buffer, e.cursors.list, e.descending());
    let n = order.len() as int;
    let pieces = split_lines(text@);
    lemma_order_exists(carets(list), true);
    lemma_join_split(text@);
    law_lines_hold_their_text(pieces, text@);
    lemma_pasted_flat(lines, list, order, n, pieces);
    assert(order.take(n) =~= order);
    lemma_pasted_parts(e, text);
    lemma_all_offsets(lines, list, order, 0);
    let offs = Set::new(|o: int| caret_stands(lines, list, o));
    assert(offs =~= Set::new(|o: int| caret_stands(lines, list, o + 0)));
    let b = e.batch().pasted(order, pieces);
    assert forall|i: int| 0 <= i < list.len() implies behind_its_text(
        lines,
        offs,
        list[i].position,
        text@,
        b.lines,
        (#[trigger] b.list[i]).position,
    ) by {
        lemma_order_lists_all(order, carets(list), true, i as usize);
        let j = choose|j: int| 0 <= j < order.len() && order[j] == i as usize;
        assert(behind_its_text(
            lines,
            offs,
            list[order[j] as int].position,
            text@,
            b.lines,
            b.list[order[j] as int].position,
        ));
    }
}

/// `f` has the text of `e` with `text` inserted at every caret, and every caret behind its own.
pub open spec fn text_at_every_caret(e: Editor, f: Editor, text: Seq<char>) -> bool {
    let offs = Set::new(|n: int| caret_stands(e.buffer, e.cursors.list, n));
    &&& flat(f.buffer) == typed_line(flat(e.buffer), offs, text)
    &&& f.cursors.primary == e.cursors.primary
    &&& f.cursors.list.len() == e.cursors.list.len()
    &&& forall|i: int|
        0 <= i < e.cursors.list.len() ==> behind_its_text(
            e.buffer,
            offs,
            e.cursors.list[i].position,
            text,
            f.buffer,
            (#[trigger] f.cursors.list[i]).position,
        )
}

/// The characters that the cursors from the `k`-th on select.
spec fn selected_from(lines: Seq<Seq<char>>, list: Seq<Cursor>, k: int) -> Set<int> {
    Set::new(
        |n: int|
            exists|j: int|
                k <= j < list.len() && first_end(lines, #[trigger] list[j]) <= n < last_end(
                    lines,
                    list[j],
                ),
    )
}

/// A cursor of the list selects the character behind the first `n`.
pub open spec fn is_selected(lines: Seq<Seq<char>>, list: Seq<Cursor>, n: int) -> bool {
    exists|i: int|
        0 <= i < list.len() && first_end(lines, #[trigger] list[i]) <= n < last_end(lines, list[i])
}

/// Cursors that are apart select different characters.
proof fn lemma_selected_grows(lines: Seq<Seq<char>>, list: Seq<Cursor>, k: int)
    requires
        all_apart(list),
        forall|i: int| 0 <= i < list.len() ==> stands_in(lines, #[trigger] list[i]),
        0 <= k < list.len(),
    ensures
        ({
            let (a, b) = (first_end(lines, list[k]), last_end(lines, list[k]));
            let former = selected_from(lines, list, k + 1);
            &&& selected_from(lines, list, k) == former.union(numbers(a, b))
            &&& forall|d: int| #[trigger] former.contains(d) ==> d >= b
            &&& forall|j: int|
                k < j < list.len() ==> first_end(lines, #[trigger] list[j]) >= b
        }),
{
    let (a, b) = (first_end(lines, list[k]), last_end(lines, list[k]));
    let former = selected_from(lines, list, k + 1);
    assert(selected_from(lines, list, k) =~= former.union(numbers(a, b))) by {
        assert forall|n: int| selected_from(lines, list, k).contains(n) == former.union(
            numbers(a, b),
        ).contains(n) by {
            if former.contains(n) {
                let j = choose|j: int|
                    k + 1 <= j < list.len() && first_end(lines, #[trigger] list[j]) <= n
                        < last_end(lines, list[j]);
                assert(first_end(lines, list[j]) <= n);
            }
            if numbers(a, b).contains(n) {
                assert(first_end(lines, list[k]) <= n);
            }
        }
    }
    assert forall|j: int| k < j < list.len() implies first_end(lines, #[trigger] list[j]) >= b by {
        assert(apart(list[k], list[j]));
        assert(stands_in(lines, list[k]));
        lemma_ends_in_text(lines, list[k]);
        lemma_ends_in_text(lines, list[j]);
        lemma_offset_order(lines, spot(list[k].hi()), spot(list[j].lo()));
    }
    assert forall|d: int| #[trigger] former.contains(d) implies d >= b by {
        let j = choose|j: int|
            k + 1 <= j < list.len() && first_end(lines, #[trigger] list[j]) <= d < last_end(
                lines,
                list[j],
            );
        assert(first_end(lines, list[j]) >= b);
    }
}

/// How far deleting has come with the cursors from the `k`-th on.
spec fn cut_flat(lines: Seq<Seq<char>>, list: Seq<Cursor>, k: int, b: Batch) -> bool {
    let gone = selected_from(lines, list, k);
    &&& b.list.len() == list.len()
    &&& forall|j: int| 0 <= j < k ==> #[trigger] b.list[j] == list[j]
    &&& forall|j: int|
        0 <= j < k ==> same_before(b.lines, lines, spot((#[trigger] list[j]).hi()))
    &&& flat(b.lines) == kept(flat(lines), gone)
    &&& forall|j: int|
        k <= j < list.len() ==> behind_what_is_left(
            lines,
            gone,
            #[trigger] list[j],
            b.lines,
            b.list[j],
        )
}

/// A cursor whose selection was deleted stands where it started: behind what is left of the
/// characters before it. It selects nothing.
pub open spec fn behind_what_is_left(
    lines: Seq<Seq<char>>,
    gone: Set<int>,
    was: Cursor,
    next: Seq<Seq<char>>,
    now: Cursor,
) -> bool {
    &&& valid(next, spot(now.position))
    &&& offset(next, spot(now.position)) == kept_prefix(
        flat(lines),
        gone,
        first_end(lines, was),
    ).len()
    &&& was.selected() ==> now.anchor is None
}

/// Texts that have the same before a place have the same before an earlier one.
pub(crate) proof fn lemma_same_earlier(a: Seq<Seq<char>>, b: Seq<Seq<char>>, s: Spot, p: Spot)
    requires
        same_before(a, b, s),
        valid(b, p),
        not_after(p, s),
    ensures
        same_before(a, b, p),
{
    if p.0 == s.0 {
        assert(a[p.0].take(p.1) =~= a[s.0].take(s.1).take(p.1));
        assert(b[p.0].take(p.1) =~= b[s.0].take(s.1).take(p.1));
    } else {
        assert(a[p.0] == b[p.0]);
    }
}

/// Deleting the selection of the cursor before those that are done.
proof fn lemma_one_more_cut(lines: Seq<Seq<char>>, list: Seq<Cursor>, k: int, h: Batch)
    requires
        all_apart(list),
        forall|i: int| 0 <= i < list.len() ==> stands_in(lines, #[trigger] list[i]),
        0 <= k < list.len(),
        flat(lines).len() <= usize::MAX,
        cut_flat(lines, list, k + 1, h),
    ensures
        cut_flat(lines, list, k, h.cut_at(k)),
{
    let c = list[k];
    let b = h.cut_at(k);
    assert(h.list[k] == list[k]);
    assert(stands_in(lines, list[k]));
    lemma_ends_in_text(lines, c);
    let (x, y) = (first_end(lines, c), last_end(lines, c));
    let former = selected_from(lines, list, k + 1);
    let gone = selected_from(lines, list, k);
    lemma_selected_grows(lines, list, k);
    let (s, e) = (spot(c.lo()), spot(c.hi()));
    assert(same_before(h.lines, lines, spot(list[k].hi())));
    lemma_same_earlier(h.lines, lines, e, s);
    lemma_same_offset(h.lines, lines, e);
    lemma_same_offset(h.lines, lines, s);
    let n = flat(lines).len() as int;
    if c.selected() {
        let nothing = seq![Seq::<char>::empty()];
        let edit = Edit::replace(s, e, nothing, c.position);
        assert(edit.from(h.lines) == s && edit.to(h.lines) == e);
        assert(end_of(s, nothing) == s);
        law_replacing_a_range_replaces_its_characters(h.lines, s, e, nothing);
        lemma_flat_one(Seq::empty());
        lemma_kept_range(flat(lines), former, x, y, n);
        assert(flat(h.lines).take(x) + Seq::empty() + flat(h.lines).skip(y) =~= flat(
            h.lines,
        ).take(x) + flat(h.lines).skip(y));
        assert(flat(b.lines) == kept(flat(lines), gone));
        lemma_front_kept(h.lines, s, e, nothing, s);
        lemma_same_offset(b.lines, h.lines, s);
        assert forall|j: int| 0 <= j < k implies b.list[j] == #[trigger] list[j] && same_before(
            b.lines,
            lines,
            spot(list[j].hi()),
        ) by {
            assert(apart(list[j], list[k]));
            assert(h.list[j] == list[j]);
            assert(stands_in(lines, list[j]));
            lemma_ends_in_text(lines, list[j]);
            let p = spot(list[j].hi());
            assert(same_before(h.lines, lines, spot(list[j].hi())));
            lemma_front_kept(h.lines, s, e, nothing, p);
            assert forall|r: int| 0 <= r < p.0 implies #[trigger] b.lines[r] == lines[r] by {
                assert(h.lines[r] == lines[r]);
            }
        }
        assert forall|j: int| k <= j < list.len() implies behind_what_is_left(
            lines,
            gone,
            #[trigger] list[j],
            b.lines,
            b.list[j],
        ) by {
            if j > k {
                let q = spot(h.list[j].position);
                assert(behind_what_is_left(lines, former, list[j], h.lines, h.list[j]));
                let o = first_end(lines, list[j]);
                assert(stands_in(lines, list[j]));
                lemma_ends_in_text(lines, list[j]);
                lemma_kept_range(flat(lines), former, x, y, o);
                lemma_offset_order(h.lines, e, q);
                lemma_back_kept(h.lines, s, e, nothing, q);
                let m = moved(q, s, e, s);
                lemma_offset_order(b.lines, m, m);
                law_an_offset_finds_its_character(h.lines, q);
                lemma_kept_shorter(flat(lines), former, n);
            } else {
                lemma_kept_plain(flat(lines), gone, x);
            }
        }
    } else {
        assert(b == h);
        assert(gone =~= former);
        lemma_kept_plain(flat(lines), former, x);
        assert(c.position == c.lo());
        assert forall|j: int| k <= j < list.len() implies behind_what_is_left(
            lines,
            gone,
            #[trigger] list[j],
            b.lines,
            b.list[j],
        ) by {
            if j > k {
                assert(behind_what_is_left(lines, former, list[j], h.lines, h.list[j]));
            }
        }
    }
}

proof fn lemma_kept_shorter(text: Seq<char>, gone: Set<int>, n: int)
    ensures
        n >= 0 ==> kept_prefix(text, gone, n).len() <= n,
    decreases n,
{
    if n > 0 {
        lemma_kept_shorter(text, gone, n - 1);
    }
}

proof fn lemma_cut_flat(lines: Seq<Seq<char>>, list: Seq<Cursor>, k: int)
    requires
        all_apart(list),
        carets_ascending(list),
        forall|i: int| 0 <= i < list.len() ==> stands_in(lines, #[trigger] list[i]),
        list.len() <= usize::MAX,
        flat(lines).len() <= usize::MAX,
        0 <= k <= list.len(),
    ensures
        cut_flat(
            lines,
            list,
            k,
            Batch::start(lines, list).cut(order_of(carets(list), true).take(list.len() - k)),
        ),
    decreases list.len() - k,
{
    let n = list.len() as int;
    let order = order_of(carets(list), true);
    lemma_reversed(list);
    let start = Batch::start(lines, list);
    if k == n {
        assert(order.take(0) =~= Seq::empty());
        lemma_kept_plain(flat(lines), selected_from(lines, list, n), flat(lines).len() as int);
        assert(flat(lines).take(flat(lines).len() as int) =~= flat(lines));
        assert forall|j: int| 0 <= j < n implies same_before(
            lines,
            lines,
            spot((#[trigger] list[j]).hi()),
        ) by {
            lemma_ends_in_text(lines, list[j]);
        }
    } else {
        lemma_cut_flat(lines, list, k + 1);
        assert(order.take(n - k).drop_last() =~= order.take(n - k - 1));
        assert(order.take(n - k).last() == k as usize);
        let h = start.cut(order.take(n - k - 1));
        assert(h.cut_at(k) == start.cut(order.take(n - k)));
        lemma_one_more_cut(lines, list, k, h);
    }
}

/// Deleting the selections of cursors that are in document order and apart deletes the characters
/// that they select, and no others. Every caret ends up where its selection started. Backspace and
/// Delete do the same as soon as any cursor selects something.
pub proof fn law_deleting_deletes_what_is_selected(e: Editor)
    requires
        all_apart(e.cursors.list),
        carets_ascending(e.cursors.list),
        forall|i: int|
            0 <= i < e.cursors.list.len() ==> stands_in(e.buffer, #[trigger] e.cursors.list[i]),
        e.cursors.list.len() <= usize::MAX,
        flat(e.buffer).len() <= usize::MAX,
    ensures
        ({
            let f = e.step(Message::DeleteSelection);
            let gone = Set::new(|n: int| is_selected(e.buffer, e.cursors.list, n));
            &&& flat(f.buffer) == kept(flat(e.buffer), gone)
            &&& f.cursors.primary == e.cursors.primary
            &&& f.cursors.list.len() == e.cursors.list.len()
            &&& forall|i: int|
                0 <= i < e.cursors.list.len() ==> behind_what_is_left(
                    e.buffer,
                    gone,
                    #[trigger] e.cursors.list[i],
                    f.buffer,
                    f.cursors.list[i],
                )
            &&& e.cursors.any_selected() ==> e.step(Message::Backspace) == f && e.step(
                Message::Delete,
            ) == f
        }),
{
    let (lines, list) = (e.buffer, e.cursors.list);
    let gone = Set::new(|n: int| is_selected(lines, list, n));
    lemma_edit_steps(e, Message::DeleteSelection);
    lemma_edit_steps(e, Message::Backspace);
    lemma_edit_steps(e, Message::Delete);
    lemma_cut_flat(lines, list, 0);
    let order = e.descending();
    lemma_order_exists(carets(list), true);
    assert(order.take(list.len() as int) =~= order);
    assert(gone =~= selected_from(lines, list, 0));
    let b = e.batch().cut(order);
    let g = e.grouping_ended();
    assert(g.batch() == e.batch());
    if !e.cursors.any_selected() {
        lemma_cut_nothing(e.batch(), order);
    }
    let f = e.step(Message::DeleteSelection);
    assert(f.buffer == b.lines && f.cursors.list == b.list);
}

/// Pasting over selections is deleting them and pasting at the carets that are left.
pub proof fn law_pasting_replaces_selections(e: Editor, text: String)
    requires
        text@.len() > 0,
        e.cursors.list.len() <= usize::MAX,
    ensures
        ({
            let f = e.step(Message::Paste(text));
            let g = e.step(Message::DeleteSelection).step(Message::Paste(text));
            f.buffer == g.buffer && f.cursors == g.cursors
        }),
{
    let d = e.step(Message::DeleteSelection);
    lemma_edit_steps(e, Message::DeleteSelection);
    lemma_edit_steps(e, Message::Paste(text));
    lemma_edit_steps(d, Message::Paste(text));
    let g = e.grouping_ended();
    assert(g.batch() == e.batch());
    lemma_order_exists(carets(e.cursors.list), true);
    let b = e.batch().cut(e.descending());
    lemma_cut_unselected(e.batch(), e.descending());
    if !e.cursors.any_selected() {
        lemma_cut_nothing(e.batch(), e.descending());
    }
    let x = d.grouping_ended();
    assert(d.buffer == b.lines && d.cursors.list == b.list);
    lemma_order_exists(carets(d.cursors.list), true);
    assert(x.batch() =~= (Batch { edits: Seq::empty(), ..b }));
    assert forall|i: int| 0 <= i < b.list.len() implies !(#[trigger] b.list[i]).selected() by {
        lemma_order_lists_all(e.descending(), carets(e.cursors.list), true, i as usize);
        let j = choose|j: int| 0 <= j < e.descending().len() && e.descending()[j] == i as usize;
        assert(!b.list[e.descending()[j] as int].selected());
    }
    lemma_cut_nothing(x.batch(), x.descending());
    lemma_pasted_start(b, x.batch(), x.descending(), split_lines(text@));
}

/// A cursor whose selection was deleted selects nothing, whatever is deleted after it.
proof fn lemma_cut_unselected(b: Batch, order: Seq<usize>)
    requires
        forall|i: int| 0 <= i < order.len() ==> (#[trigger] order[i]) < b.list.len(),
    ensures
        b.cut(order).list.len() == b.list.len(),
        forall|j: int|
            0 <= j < order.len() ==> !b.cut(order).list[(#[trigger] order[j]) as int].selected(),
    decreases order.len(),
{
    if order.len() > 0 {
        let init = order.drop_last();
        assert forall|i: int| 0 <= i < init.len() implies (#[trigger] init[i]) < b.list.len() by {
            assert(order[i] < b.list.len());
        }
        lemma_cut_unselected(b, init);
        let h = b.cut(init);
        assert(order[order.len() - 1] < b.list.len());
        assert forall|j: int| 0 <= j < order.len() implies !b.cut(order).list[(
        #[trigger] order[j]) as int].selected() by {
            assert(order[j] < b.list.len());
            if j < init.len() {
                assert(!h.list[init[j] as int].selected());
            }
        }
    }
}

/// What pasting does to the text and the cursors does not depend on the commands before it.
proof fn lemma_pasted_start(a: Batch, b: Batch, order: Seq<usize>, pieces: Seq<Seq<char>>)
    requires
        a.lines == b.lines,
        a.list == b.list,
    ensures
        a.pasted(order, pieces).lines == b.pasted(order, pieces).lines,
        a.pasted(order, pieces).list == b.pasted(order, pieces).list,
    decreases order.len(),
{
    if order.len() > 0 {
        lemma_pasted_start(a, b, order.drop_last(), pieces);
    }
}

/// The offsets of the first ends of the cursors from the `k`-th on.
spec fn first_ends_from(lines: Seq<Seq<char>>, list: Seq<Cursor>, k: int) -> Set<int> {
    Set::new(
        |n: int|
            exists|j: int| k <= j < list.len() && first_end(lines, #[trigger] list[j]) == n,
    )
}

/// A cursor of the list starts behind the first `n` characters of the text.
pub open spec fn cursor_starts(lines: Seq<Seq<char>>, list: Seq<Cursor>, n: int) -> bool {
    exists|i: int| 0 <= i < list.len() && first_end(lines, #[trigger] list[i]) == n
}

/// How far typing has come with the cursors from the `k`-th on.
spec fn typed_flat(
    lines: Seq<Seq<char>>,
    list: Seq<Cursor>,
    k: int,
    ch: char,
    b: Batch,
) -> bool {
    &&& b.list.len() == list.len()
    &&& forall|j: int| 0 <= j < k ==> (#[trigger] b.list[j]).lo() == list[j].lo()
    &&& forall|j: int|
        0 <= j < k ==> same_before(b.lines, lines, spot((#[trigger] list[j]).lo()))
    &&& flat(b.lines) == typed_line(flat(lines), first_ends_from(lines, list, k), seq![ch])
}

/// The next cursor starts before all that are done.
proof fn lemma_first_ends_grow(lines: Seq<Seq<char>>, list: Seq<Cursor>, k: int)
    requires
        all_apart(list),
        forall|i: int| 0 <= i < list.len() ==> stands_in(lines, #[trigger] list[i]),
        0 <= k < list.len(),
    ensures
        ({
            let former = first_ends_from(lines, list, k + 1);
            let o = first_end(lines, list[k]);
            &&& first_ends_from(lines, list, k) == former.insert(o)
            &&& forall|d: int| #[trigger] former.contains(d) ==> d > o
        }),
{
    let former = first_ends_from(lines, list, k + 1);
    let o = first_end(lines, list[k]);
    assert(first_ends_from(lines, list, k) =~= former.insert(o)) by {
        assert forall|n: int| first_ends_from(lines, list, k).contains(n) == former.insert(
            o,
        ).contains(n) by {
            if former.contains(n) {
                let j = choose|j: int|
                    k + 1 <= j < list.len() && first_end(lines, #[trigger] list[j]) == n;
                assert(first_end(lines, list[j]) == n);
            }
            if n == o {
                assert(first_end(lines, list[k]) == n);
            }
        }
    }
    assert forall|d: int| #[trigger] former.contains(d) implies d > o by {
        let j = choose|j: int|
            k + 1 <= j < list.len() && first_end(lines, #[trigger] list[j]) == d;
        assert(apart(list[k], list[j]));
        assert(stands_in(lines, list[k]));
        lemma_ends_in_text(lines, list[k]);
        lemma_ends_in_text(lines, list[j]);
        lemma_offset_order(lines, spot(list[j].lo()), spot(list[k].lo()));
    }
}

/// Typing at the cursor before those that are done.
proof fn lemma_one_more_typed(
    lines: Seq<Seq<char>>,
    list: Seq<Cursor>,
    k: int,
    ch: char,
    h: Batch,
)
    requires
        all_apart(list),
        forall|i: int| 0 <= i < list.len() ==> stands_in(lines, #[trigger] list[i]),
        0 <= k < list.len(),
        typed_flat(lines, list, k + 1, ch, h),
    ensures
        typed_flat(lines, list, k, ch, h.typed_at(k, ch)),
{
    let b = h.typed_at(k, ch);
    let pos = list[k].lo();
    let p = spot(pos);
    let text = seq![ch];
    let pieces = seq![text];
    assert(h.list[k].lo() == list[k].lo());
    assert(stands_in(lines, list[k]));
    lemma_ends_in_text(lines, list[k]);
    assert(same_before(h.lines, lines, spot(list[k].lo())));
    lemma_same_offset(h.lines, lines, p);
    let o = first_end(lines, list[k]);
    let edit = Edit::replace(p, p, pieces, pos);
    assert(edit.from(h.lines) == p && edit.to(h.lines) == p);
    law_replacing_a_range_replaces_its_characters(h.lines, p, p, pieces);
    lemma_flat_one(text);
    lemma_first_ends_grow(lines, list, k);
    lemma_line_insert(flat(lines), first_ends_from(lines, list, k + 1), text, o);
    assert(b.lines == spliced(h.lines, p, p, pieces));
    assert forall|j: int| 0 <= j < k implies (#[trigger] b.list[j]).lo() == list[j].lo() by {
        assert(apart(list[j], list[k]));
        assert(h.list[j].lo() == list[j].lo());
    }
    assert forall|j: int| 0 <= j < k implies same_before(
        b.lines,
        lines,
        spot((#[trigger] list[j]).lo()),
    ) by {
        assert(apart(list[j], list[k]));
        assert(stands_in(lines, list[j]));
        lemma_ends_in_text(lines, list[j]);
        let q = spot(list[j].lo());
        assert(same_before(h.lines, lines, spot(list[j].lo())));
        lemma_front_kept(h.lines, p, p, pieces, q);
        assert forall|r: int| 0 <= r < q.0 implies #[trigger] b.lines[r] == lines[r] by {
            assert(h.lines[r] == lines[r]);
        }
    }
}

proof fn lemma_typed_flat(lines: Seq<Seq<char>>, list: Seq<Cursor>, k: int, ch: char)
    requires
        all_apart(list),
        carets_ascending(list),
        forall|i: int| 0 <= i < list.len() ==> stands_in(lines, #[trigger] list[i]),
        list.len() <= usize::MAX,
        0 <= k <= list.len(),
    ensures
        typed_flat(
            lines,
            list,
            k,
            ch,
            Batch::start(lines, list).typed(order_of(carets(list), true).take(list.len() - k), ch),
        ),
    decreases list.len() - k,
{
    let n = list.len() as int;
    let order = order_of(carets(list), true);
    lemma_reversed(list);
    let start = Batch::start(lines, list);
    if k == n {
        assert(order.take(0) =~= Seq::empty());
        lemma_line_untouched(flat(lines), first_ends_from(lines, list, n), seq![ch]);
        assert forall|j: int| 0 <= j < n implies same_before(
            lines,
            lines,
            spot((#[trigger] list[j]).lo()),
        ) by {
            lemma_ends_in_text(lines, list[j]);
        }
    } else {
        lemma_typed_flat(lines, list, k + 1, ch);
        assert(order.take(n - k).drop_last() =~= order.take(n - k - 1));
        assert(order.take(n - k).last() == k as usize);
        let h = start.typed(order.take(n - k - 1), ch);
        assert(h.typed_at(k, ch) == start.typed(order.take(n - k), ch));
        lemma_one_more_typed(lines, list, k, ch, h);
    }
}

/// A character typed at cursors that are in document order and apart is inserted at the first end
/// of every one of them, whatever they select, and nothing else happens to the text.
pub proof fn law_typing_inserts_at_every_first_end(e: Editor, ch: char)
    requires
        e.focus.is_focused,
        e.focus.has_canvas_focus,
        !e.focus.focus_locked,
        all_apart(e.cursors.list),
        carets_ascending(e.cursors.list),
        forall|i: int|
            0 <= i < e.cursors.list.len() ==> stands_in(e.buffer, #[trigger] e.cursors.list[i]),
        e.cursors.list.len() <= usize::MAX,
    ensures
        flat(e.step(Message::CharacterInput(ch)).buffer) == typed_line(
            flat(e.buffer),
            Set::new(|n: int| cursor_starts(e.buffer, e.cursors.list, n)),
            seq![ch],
        ),
{
    let (lines, list) = (e.buffer, e.cursors.list);
    lemma_typed_parts(e, ch);
    lemma_typed_flat(lines, list, 0, ch);
    lemma_order_exists(carets(list), true);
    let order = e.descending();
    assert(order.take(list.len() as int) =~= order);
    assert(first_ends_from(lines, list, 0) =~= Set::new(
        |n: int| cursor_starts(lines, list, n),
    ));
}

} // verus!
