//! The law of keys at several cursors: each caret is edited where it stood.
use vstd::prelude::*;

use crate::batch::{indentation, line_of, Batch};
use crate::command::{line_length, range_after, range_before, Edit};
use crate::cursor_set::{carets, Cursor};
use crate::editor::Editor;
use crate::message::Message;
use crate::order::{is_order, lemma_order_exists, order_of, precedes};
use crate::position::{before, Position};
use crate::text_buffer::spot;

verus! {

/// The command of a key at a place of the text; none where the key does nothing.
pub type KeyCommand = spec_fn(Seq<Seq<char>>, Position) -> Option<Edit>;

/// Backspace deletes what stands before the caret.
pub open spec fn backspace_command() -> KeyCommand {
    |lines: Seq<Seq<char>>, pos: Position|
        if pos == (0usize, 0usize) {
            None
        } else {
            let range = range_before(lines, pos);
            Some(Edit::replace(range.0, range.1, seq![Seq::empty()], pos))
        }
}

/// Delete deletes what stands behind the caret.
pub open spec fn delete_command() -> KeyCommand {
    |lines: Seq<Seq<char>>, pos: Position|
        if pos.1 >= line_length(lines, pos.0 as int) && pos.0 + 1 >= lines.len() {
            None
        } else {
            let range = range_after(lines, pos);
            Some(Edit::replace(range.0, range.1, seq![Seq::empty()], pos))
        }
}

/// Enter breaks the line at the caret; the new line starts as the broken one does if `indent` is
/// set.
pub open spec fn enter_command(indent: bool) -> KeyCommand {
    |lines: Seq<Seq<char>>, pos: Position|
        {
            let lead = if indent {
                indentation(line_of(lines, pos.0 as int))
            } else {
                Seq::empty()
            };
            Some(Edit::replace(spot(pos), spot(pos), seq![Seq::empty(), lead], pos))
        }
}

/// The text after a key was pressed at each of the given places, one after the other.
pub open spec fn pressed_at(lines: Seq<Seq<char>>, places: Seq<Position>, key: KeyCommand) -> Seq<
    Seq<char>,
>
    decreases places.len(),
{
    if places.len() == 0 {
        lines
    } else {
        let head = pressed_at(lines, places.drop_last(), key);
        match key(head, places.last()) {
            Some(edit) => edit.result(head),
            None => head,
        }
    }
}

/// The carets of a list of cursors, from the end of the text to its start.
pub open spec fn places_from_end(list: Seq<Cursor>) -> Seq<Position> {
    let order = order_of(carets(list), true);
    Seq::new(order.len(), |i: int| list[order[i] as int].position)
}

/// No two carets stand at the same place.
pub open spec fn carets_distinct(list: Seq<Cursor>) -> bool {
    forall|i: int, j: int|
        0 <= i < j < list.len() ==> (#[trigger] list[i]).position != (
        #[trigger] list[j]).position
}

/// After the first `k` carets of the order, the others still stand where they stood.
pub(crate) open spec fn others_stay(
    list: Seq<Cursor>,
    order: Seq<usize>,
    k: int,
    b: Batch,
) -> bool {
    &&& b.list.len() == list.len()
    &&& forall|j: int|
        k <= j < order.len() ==> b.list[(#[trigger] order[j]) as int].position
            == list[order[j] as int].position
}

/// The carets that are still to come stand before the one whose turn it is.
pub(crate) proof fn lemma_later_before(list: Seq<Cursor>, order: Seq<usize>, k: int, j: int)
    requires
        carets_distinct(list),
        is_order(order, carets(list), true),
        0 <= k < j < order.len(),
    ensures
        before(list[order[j] as int].position, list[order[k] as int].position),
        order[j] != order[k],
{
    let (x, y) = (order[k] as int, order[j] as int);
    assert(precedes(carets(list), true, x, y));
    if x < y {
        assert(list[x].position != list[y].position);
    } else if y < x {
        assert(list[y].position != list[x].position);
    }
}

/// The carets in the given order.
pub(crate) open spec fn places(list: Seq<Cursor>, order: Seq<usize>) -> Seq<Position> {
    Seq::new(order.len(), |i: int| list[order[i] as int].position)
}

pub(crate) proof fn lemma_erased_places(
    lines: Seq<Seq<char>>,
    list: Seq<Cursor>,
    order: Seq<usize>,
    k: int,
)
    requires
        carets_distinct(list),
        is_order(order, carets(list), true),
        0 <= k <= order.len(),
    ensures
        ({
            let b = Batch::start(lines, list).erased(order.take(k));
            &&& others_stay(list, order, k, b)
            &&& b.lines == pressed_at(
                lines,
                places(list, order).take(k),
                backspace_command(),
            )
        }),
    decreases k,
{
    let start = Batch::start(lines, list);
    if k == 0 {
        assert(order.take(0) =~= Seq::empty());
        assert(places(list, order).take(0) =~= Seq::empty());
    } else {
        lemma_erased_places(lines, list, order, k - 1);
        assert(order.take(k).drop_last() =~= order.take(k - 1));
        assert(places(list, order).take(k).drop_last() =~= places(list, order).take(k - 1));
        let h = start.erased(order.take(k - 1));
        let b = h.erased_at(order[k - 1] as int);
        let pos = list[order[k - 1] as int].position;
        assert(h.list[order[k - 1] as int].position == pos);
        assert forall|j: int| k <= j < order.len() implies b.list[(
        #[trigger] order[j]) as int].position == list[order[j] as int].position by {
            lemma_later_before(list, order, k - 1, j);
            assert(h.list[order[j] as int].position == list[order[j] as int].position);
        }
    }
}

pub(crate) proof fn lemma_deleted_places(
    lines: Seq<Seq<char>>,
    list: Seq<Cursor>,
    order: Seq<usize>,
    k: int,
)
    requires
        carets_distinct(list),
        is_order(order, carets(list), true),
        0 <= k <= order.len(),
    ensures
        ({
            let b = Batch::start(lines, list).deleted(order.take(k));
            &&& others_stay(list, order, k, b)
            &&& b.lines == pressed_at(lines, places(list, order).take(k), delete_command())
        }),
    decreases k,
{
    let start = Batch::start(lines, list);
    if k == 0 {
        assert(order.take(0) =~= Seq::empty());
        assert(places(list, order).take(0) =~= Seq::empty());
    } else {
        lemma_deleted_places(lines, list, order, k - 1);
        assert(order.take(k).drop_last() =~= order.take(k - 1));
        assert(places(list, order).take(k).drop_last() =~= places(list, order).take(k - 1));
        let h = start.deleted(order.take(k - 1));
        let b = h.deleted_at(order[k - 1] as int);
        let pos = list[order[k - 1] as int].position;
        assert(h.list[order[k - 1] as int].position == pos);
        assert forall|j: int| k <= j < order.len() implies b.list[(
        #[trigger] order[j]) as int].position == list[order[j] as int].position by {
            lemma_later_before(list, order, k - 1, j);
            assert(h.list[order[j] as int].position == list[order[j] as int].position);
        }
    }
}

pub(crate) proof fn lemma_broken_places(
    lines: Seq<Seq<char>>,
    list: Seq<Cursor>,
    order: Seq<usize>,
    indent: bool,
    k: int,
)
    requires
        carets_distinct(list),
        is_order(order, carets(list), true),
        0 <= k <= order.len(),
    ensures
        ({
            let b = Batch::start(lines, list).broken(order.take(k), indent);
            &&& others_stay(list, order, k, b)
            &&& b.lines == pressed_at(lines, places(list, order).take(k), enter_command(indent))
        }),
    decreases k,
{
    let start = Batch::start(lines, list);
    if k == 0 {
        assert(order.take(0) =~= Seq::empty());
        assert(places(list, order).take(0) =~= Seq::empty());
    } else {
        lemma_broken_places(lines, list, order, indent, k - 1);
        assert(order.take(k).drop_last() =~= order.take(k - 1));
        assert(places(list, order).take(k).drop_last() =~= places(list, order).take(k - 1));
        let h = start.broken(order.take(k - 1), indent);
        let b = h.broken_at(order[k - 1] as int, indent);
        let pos = list[order[k - 1] as int].position;
        assert(h.list[order[k - 1] as int].position == pos);
        assert forall|j: int| k <= j < order.len() implies b.list[(
        #[trigger] order[j]) as int].position == list[order[j] as int].position by {
            lemma_later_before(list, order, k - 1, j);
            assert(h.list[order[j] as int].position == list[order[j] as int].position);
        }
    }
}

/// What the keys make of the text.
pub(crate) proof fn lemma_key_steps(e: Editor)
    ensures
        e.step(Message::Enter).buffer == e.batch().broken(
            e.descending(),
            e.indenting.auto_indent_enabled,
        ).lines,
        !e.cursors.any_selected() ==> e.step(Message::Backspace).buffer == e.batch().erased(
            e.descending(),
        ).lines,
        !e.cursors.any_selected() ==> e.step(Message::Delete).buffer == e.batch().deleted(
            e.descending(),
        ).lines,
{
    reveal(Editor::edit_step);
    let f = e.grouping_ended();
    assert(f.batch() == e.batch());
}

/// What the keys make of the cursors.
pub(crate) proof fn lemma_key_cursors(e: Editor)
    ensures
        e.step(Message::Enter).cursors.list == e.batch().broken(
            e.descending(),
            e.indenting.auto_indent_enabled,
        ).list,
        !e.cursors.any_selected() ==> e.step(Message::Backspace).cursors.list
            == e.batch().erased(e.descending()).list,
        !e.cursors.any_selected() ==> e.step(Message::Delete).cursors.list == e.batch().deleted(
            e.descending(),
        ).list,
{
    reveal(Editor::edit_step);
    let f = e.grouping_ended();
    assert(f.batch() == e.batch());
}

/// Enter, and without a selection Backspace and Delete, act at every caret where it stood before
/// the key was pressed, from the last caret of the text to the first. Where each caret ends up is
/// stated in [`crate::caret_laws`].
pub proof fn law_keys_act_where_the_carets_stood(e: Editor)
    requires
        carets_distinct(e.cursors.list),
        e.cursors.list.len() <= usize::MAX,
    ensures
        e.step(Message::Enter).buffer == pressed_at(
            e.buffer,
            places_from_end(e.cursors.list),
            enter_command(e.indenting.auto_indent_enabled),
        ),
        !e.cursors.any_selected() ==> e.step(Message::Backspace).buffer == pressed_at(
            e.buffer,
            places_from_end(e.cursors.list),
            backspace_command(),
        ),
        !e.cursors.any_selected() ==> e.step(Message::Delete).buffer == pressed_at(
            e.buffer,
            places_from_end(e.cursors.list),
            delete_command(),
        ),
{
    let list = e.cursors.list;
    let order = order_of(carets(list), true);
    let n = order.len() as int;
    lemma_order_exists(carets(list), true);
    lemma_key_steps(e);
    lemma_erased_places(e.buffer, list, order, n);
    lemma_deleted_places(e.buffer, list, order, n);
    lemma_broken_places(e.buffer, list, order, e.indenting.auto_indent_enabled, n);
    assert(order.take(n) =~= order);
    assert(places(list, order).take(n) =~= places_from_end(list));
}

} // verus!
