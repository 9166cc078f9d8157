//! Laws of cursor sets: cursors are kept in document order and apart, and none is lost.
use vstd::prelude::*;

use crate::cursor_set::{
    arranged, lemma_merged_len, merged, starts, touching, united, Cursor, Cursors,
};
use crate::editor::Editor;
use crate::message::Message;
use crate::order::{
    is_order, lemma_is_the_order, lemma_order_exists, lemma_order_lists_all, lemma_order_of_one,
    order_of, precedes,
};
use crate::position::{before, Position};

verus! {

/// The first cursor ends before the second starts. Two selections may meet; a bare caret keeps
/// its distance.
pub open spec fn apart(a: Cursor, b: Cursor) -> bool {
    before(a.hi(), b.lo()) || (a.hi() == b.lo() && before(a.lo(), a.hi()) && before(
        b.lo(),
        b.hi(),
    ))
}

/// The extent of the second cursor lies in that of the first.
pub open spec fn covers(a: Cursor, b: Cursor) -> bool {
    !before(b.lo(), a.lo()) && !before(a.hi(), b.hi())
}

/// The cursors are in document order and apart from each other.
pub open spec fn all_apart(list: Seq<Cursor>) -> bool {
    forall|i: int, j: int|
        0 <= i < j < list.len() ==> apart(#[trigger] list[i], #[trigger] list[j])
}

/// Some cursor of the list covers the given one.
pub open spec fn covered(list: Seq<Cursor>, c: Cursor) -> bool {
    exists|k: int| 0 <= k < list.len() && covers(#[trigger] list[k], c)
}

/// Some cursor of the list starts where the given one does.
pub open spec fn shares_start(list: Seq<Cursor>, c: Cursor) -> bool {
    exists|k: int| 0 <= k < list.len() && (#[trigger] list[k]).lo() == c.lo()
}

/// Some cursor of the list ends where the given one does.
pub open spec fn shares_end(list: Seq<Cursor>, c: Cursor) -> bool {
    exists|k: int| 0 <= k < list.len() && (#[trigger] list[k]).hi() == c.hi()
}

/// The cursors start in document order.
spec fn ascending(list: Seq<Cursor>) -> bool {
    forall|i: int, j: int|
        0 <= i < j < list.len() ==> !before((#[trigger] list[j]).lo(), (#[trigger] list[i]).lo())
}

proof fn lemma_ascending_init(list: Seq<Cursor>)
    requires
        ascending(list),
        list.len() > 0,
    ensures
        ascending(list.drop_last()),
{
    let init = list.drop_last();
    assert forall|i: int, j: int| 0 <= i < j < init.len() implies !before(
        (#[trigger] init[j]).lo(),
        (#[trigger] init[i]).lo(),
    ) by {
        assert(!before(list[j].lo(), list[i].lo()));
    }
}

/// Uniting two cursors that touch.
proof fn lemma_united(a: Cursor, b: Cursor)
    requires
        !before(b.lo(), a.lo()),
    ensures
        united(a, b).lo() == a.lo(),
        covers(united(a, b), a),
        covers(united(a, b), b),
        united(a, b).hi() == a.hi() || united(a, b).hi() == b.hi(),
{
}

/// The last of the merged cursors covers the last cursor, and is the one that starts last.
proof fn lemma_merged_last(list: Seq<Cursor>)
    requires
        ascending(list),
        list.len() > 0,
    ensures
        merged(list).len() > 0,
        covers(merged(list).last(), list.last()),
    decreases list.len(),
{
    if list.len() > 1 {
        let init = list.drop_last();
        lemma_ascending_init(list);
        lemma_merged_last(init);
        let a = merged(init).last();
        assert(init.last() == list[list.len() - 2]);
        assert(!before(list[list.len() - 1].lo(), list[list.len() - 2].lo()));
        assert(!before(list.last().lo(), a.lo()));
        lemma_united(a, list.last());
    } else {
        assert(merged(list.drop_last()) == list.drop_last());
    }
}

/// One more cursor in document order: how the merged cursors change.
proof fn lemma_merged_step(list: Seq<Cursor>)
    requires
        ascending(list),
        list.len() > 0,
    ensures
        ({
            let head = merged(list.drop_last());
            let all = merged(list);
            let last = list.last();
            ||| all == head.push(last) && (head.len() == 0 || !touching(head.last(), last))
            ||| {
                &&& head.len() > 0
                &&& all == head.drop_last().push(united(head.last(), last))
                &&& all.last().lo() == head.last().lo()
                &&& covers(all.last(), head.last())
                &&& covers(all.last(), last)
                &&& all.last().hi() == head.last().hi() || all.last().hi() == last.hi()
            }
        }),
        merged(list.drop_last()).len() > 0 ==> !before(
            list.last().lo(),
            merged(list.drop_last()).last().lo(),
        ),
{
    let init = list.drop_last();
    lemma_ascending_init(list);
    if list.len() > 1 {
        lemma_merged_last(init);
        assert(init.last() == list[list.len() - 2]);
        assert(!before(list[list.len() - 1].lo(), list[list.len() - 2].lo()));
        lemma_united(merged(init).last(), list.last());
    }
}

proof fn lemma_merged_apart(list: Seq<Cursor>)
    requires
        ascending(list),
    ensures
        all_apart(merged(list)),
    decreases list.len(),
{
    if list.len() > 0 {
        lemma_ascending_init(list);
        lemma_merged_apart(list.drop_last());
        lemma_merged_step(list);
        let head = merged(list.drop_last());
        let all = merged(list);
        assert forall|i: int, j: int| 0 <= i < j < all.len() implies apart(
            #[trigger] all[i],
            #[trigger] all[j],
        ) by {
            assert(all[i] == head[i]);
            if j < head.len() {
                assert(apart(head[i], head[j]));
            } else if i < head.len() - 1 {
                assert(apart(head[i], head[head.len() - 1]));
            }
        }
    }
}

proof fn lemma_merged_ends(list: Seq<Cursor>, k: int)
    requires
        ascending(list),
        0 <= k < merged(list).len(),
    ensures
        shares_start(list, merged(list)[k]),
        shares_end(list, merged(list)[k]),
    decreases list.len(),
{
    if list.len() > 0 {
        let init = list.drop_last();
        lemma_ascending_init(list);
        lemma_merged_step(list);
        let head = merged(init);
        let all = merged(list);
        if k < head.len() {
            lemma_merged_ends(init, k);
            let i = choose|i: int| 0 <= i < init.len() && (#[trigger] init[i]).lo() == head[k].lo();
            assert(list[i].lo() == all[k].lo());
            if all[k].hi() == head[k].hi() {
                let i = choose|i: int|
                    0 <= i < init.len() && (#[trigger] init[i]).hi() == head[k].hi();
                assert(list[i].hi() == all[k].hi());
            } else {
                assert(list[list.len() - 1].hi() == all[k].hi());
            }
        } else {
            assert(list[list.len() - 1] == all[k]);
        }
    }
}

proof fn lemma_merged_covers(list: Seq<Cursor>, i: int)
    requires
        ascending(list),
        0 <= i < list.len(),
    ensures
        covered(merged(list), list[i]),
    decreases list.len(),
{
    let init = list.drop_last();
    lemma_ascending_init(list);
    lemma_merged_step(list);
    lemma_merged_last(list);
    let head = merged(init);
    let all = merged(list);
    if i < init.len() {
        lemma_merged_covers(init, i);
        let k = choose|k: int| 0 <= k < head.len() && covers(#[trigger] head[k], init[i]);
        assert(covers(all[k], list[i]));
    } else {
        assert(covers(all[all.len() - 1], list[i]));
    }
}

/// What was merged so far only grows at its end.
proof fn lemma_merged_grows(list: Seq<Cursor>, n: int, k: int)
    requires
        ascending(list),
        0 < n <= list.len(),
        0 <= k < merged(list.take(n)).len(),
    ensures
        k < merged(list).len(),
        covers(merged(list)[k], merged(list.take(n))[k]),
    decreases list.len(),
{
    if n < list.len() {
        let init = list.drop_last();
        assert(init.take(n) =~= list.take(n));
        lemma_ascending_init(list);
        lemma_merged_grows(init, n, k);
        lemma_merged_step(list);
    } else {
        assert(list.take(n) =~= list);
    }
}

/// The cursors in the order in which they start.
proof fn lemma_arranged(c: Cursors)
    requires
        c.list.len() <= usize::MAX,
    ensures
        ascending(arranged(c.list, order_of(starts(c.list), false))),
        is_order(order_of(starts(c.list), false), starts(c.list), false),
{
    let keys = starts(c.list);
    let order = order_of(keys, false);
    lemma_order_exists(keys, false);
    let sorted = arranged(c.list, order);
    assert forall|i: int, j: int| 0 <= i < j < sorted.len() implies !before(
        (#[trigger] sorted[j]).lo(),
        (#[trigger] sorted[i]).lo(),
    ) by {
        assert(precedes(keys, false, order[i] as int, order[j] as int));
    }
}

/// Sorting and merging leaves cursors that are in document order and apart from each other.
pub proof fn law_merging_keeps_cursors_apart(c: Cursors)
    requires
        c.list.len() <= usize::MAX,
    ensures
        all_apart(c.sorted_merged().list),
{
    lemma_arranged(c);
    lemma_merged_apart(arranged(c.list, order_of(starts(c.list), false)));
}

/// Sorting and merging loses no cursor: every former cursor lies in one of the cursors that are
/// left.
pub proof fn law_merging_loses_no_cursor(c: Cursors, i: int)
    requires
        c.list.len() <= usize::MAX,
        0 <= i < c.list.len(),
    ensures
        covered(c.sorted_merged().list, c.list[i]),
{
    let keys = starts(c.list);
    let order = order_of(keys, false);
    lemma_arranged(c);
    let sorted = arranged(c.list, order);
    lemma_order_lists_all(order, keys, false, i as usize);
    let j = choose|j: int| 0 <= j < order.len() && order[j] == i as usize;
    assert(sorted[j] == c.list[i]);
    lemma_merged_covers(sorted, j);
}

/// Sorting and merging invents no extent: each cursor that is left starts and ends where former
/// cursors did.
pub proof fn law_merging_invents_no_extent(c: Cursors, k: int)
    requires
        c.list.len() <= usize::MAX,
        0 <= k < c.sorted_merged().list.len(),
    ensures
        shares_start(c.list, c.sorted_merged().list[k]),
        shares_end(c.list, c.sorted_merged().list[k]),
{
    let order = order_of(starts(c.list), false);
    lemma_arranged(c);
    let sorted = arranged(c.list, order);
    let m = merged(sorted)[k];
    lemma_merged_ends(sorted, k);
    let j = choose|j: int| 0 <= j < sorted.len() && (#[trigger] sorted[j]).lo() == m.lo();
    assert(c.list[order[j] as int].lo() == m.lo());
    let j = choose|j: int| 0 <= j < sorted.len() && (#[trigger] sorted[j]).hi() == m.hi();
    assert(c.list[order[j] as int].hi() == m.hi());
}

/// Sorting and merging keeps the primary cursor: the former one lies in the new one.
pub proof fn law_merging_keeps_the_primary_cursor(c: Cursors)
    requires
        c.wf(),
        c.list.len() <= usize::MAX,
    ensures
        c.sorted_merged().wf(),
        covers(c.sorted_merged().primary_cursor(), c.primary_cursor()),
{
    let keys = starts(c.list);
    let order = order_of(keys, false);
    lemma_arranged(c);
    let sorted = arranged(c.list, order);
    lemma_order_lists_all(order, keys, false, c.primary as usize);
    let rank = order.index_of(c.primary as usize);
    let upto = sorted.take(rank + 1);
    assert(upto.last() == c.primary_cursor());
    assert(ascending(upto)) by {
        assert forall|i: int, j: int| 0 <= i < j < upto.len() implies !before(
            (#[trigger] upto[j]).lo(),
            (#[trigger] upto[i]).lo(),
        ) by {
            assert(!before(sorted[j].lo(), sorted[i].lo()));
        }
    }
    lemma_merged_last(upto);
    lemma_merged_len(sorted, rank + 1);
    lemma_merged_grows(sorted, rank + 1, merged(upto).len() - 1);
}

/// Cursors that are in document order and apart from each other are merged as they are.
proof fn lemma_apart_merged(list: Seq<Cursor>)
    requires
        all_apart(list),
    ensures
        merged(list) == list,
    decreases list.len(),
{
    if list.len() > 0 {
        let init = list.drop_last();
        assert(all_apart(init)) by {
            assert forall|i: int, j: int| 0 <= i < j < init.len() implies apart(
                #[trigger] init[i],
                #[trigger] init[j],
            ) by {
                assert(apart(list[i], list[j]));
            }
        }
        lemma_apart_merged(init);
        if init.len() > 0 {
            assert(apart(list[list.len() - 2], list[list.len() - 1]));
        }
        assert(init.push(list.last()) =~= list);
    }
}

/// Sorting and merging only sorts cursors that are apart from each other: if `next` lists the
/// cursors of a set in document order, and no two of them run into each other, it is what is left,
/// and the primary cursor is still the primary one. `order` tells where each of them was.
pub proof fn law_cursors_apart_stay(c: Cursors, next: Seq<Cursor>, order: Seq<usize>)
    requires
        c.wf(),
        c.list.len() <= usize::MAX,
        order.len() == c.list.len(),
        next.len() == c.list.len(),
        order.no_duplicates(),
        forall|k: int|
            0 <= k < order.len() ==> (#[trigger] order[k]) < c.list.len() && next[k]
                == c.list[order[k] as int],
        all_apart(next),
    ensures
        c.sorted_merged().list == next,
        0 <= c.sorted_merged().primary < order.len(),
        order[c.sorted_merged().primary] == c.primary,
{
    let keys = starts(c.list);
    assert forall|i: int, j: int| 0 <= i < j < order.len() implies precedes(
        keys,
        false,
        (#[trigger] order[i]) as int,
        (#[trigger] order[j]) as int,
    ) by {
        assert(apart(next[i], next[j]));
        assert(next[i] == c.list[order[i] as int]);
        assert(next[j] == c.list[order[j] as int]);
    }
    lemma_is_the_order(order, keys, false);
    let sorted = arranged(c.list, order);
    assert(sorted =~= next);
    lemma_apart_merged(next);
    lemma_order_lists_all(order, keys, false, c.primary as usize);
    let rank = order.index_of(c.primary as usize);
    let upto = sorted.take(rank + 1);
    assert(all_apart(upto)) by {
        assert forall|i: int, j: int| 0 <= i < j < upto.len() implies apart(
            #[trigger] upto[i],
            #[trigger] upto[j],
        ) by {
            assert(apart(next[i], next[j]));
        }
    }
    lemma_apart_merged(upto);
}

/// The cursors of `d` are those of `c`, those united that run into each other: they are in
/// document order and apart, every cursor of `c` lies in one of them, none reaches further than
/// cursors of `c` do, and the primary cursor of `c` lies in the primary one.
pub open spec fn gathers(d: Cursors, c: Cursors) -> bool {
    &&& all_apart(d.list)
    &&& forall|i: int| 0 <= i < c.list.len() ==> #[trigger] covered(d.list, c.list[i])
    &&& forall|k: int| 0 <= k < d.list.len() ==> #[trigger] shares_start(c.list, d.list[k])
    &&& forall|k: int| 0 <= k < d.list.len() ==> #[trigger] shares_end(c.list, d.list[k])
    &&& d.wf()
    &&& covers(d.list[d.primary], c.list[c.primary])
}

/// Sorting and merging gathers the cursors.
pub proof fn law_merging_gathers(c: Cursors)
    requires
        c.wf(),
        c.list.len() <= usize::MAX,
    ensures
        gathers(c.sorted_merged(), c),
{
    let d = c.sorted_merged();
    law_merging_keeps_cursors_apart(c);
    law_merging_keeps_the_primary_cursor(c);
    assert forall|i: int| 0 <= i < c.list.len() implies #[trigger] covered(
        d.list,
        c.list[i],
    ) by {
        law_merging_loses_no_cursor(c, i);
    }
    assert forall|k: int| 0 <= k < d.list.len() implies #[trigger] shares_start(
        c.list,
        d.list[k],
    ) by {
        law_merging_invents_no_extent(c, k);
    }
    assert forall|k: int| 0 <= k < d.list.len() implies #[trigger] shares_end(
        c.list,
        d.list[k],
    ) by {
        law_merging_invents_no_extent(c, k);
    }
}

/// Cursors that were sorted and merged have their carets at places of their own, but for two
/// selections that meet.
pub proof fn law_merged_carets_are_distinct(c: Cursors, i: int, j: int)
    requires
        c.list.len() <= usize::MAX,
        0 <= i < j < c.sorted_merged().list.len(),
    ensures
        c.sorted_merged().list[i].position != c.sorted_merged().list[j].position || (
        c.sorted_merged().list[i].selected() && c.sorted_merged().list[j].selected()),
{
    law_merging_keeps_cursors_apart(c);
    assert(apart(c.sorted_merged().list[i], c.sorted_merged().list[j]));
}

/// A single cursor is sorted and merged as it is.
pub proof fn law_a_single_cursor_stays(c: Cursors)
    requires
        c.wf(),
        c.list.len() == 1,
    ensures
        c.sorted_merged() == c,
{
    let keys = starts(c.list);
    let order = order_of(keys, false);
    lemma_order_of_one(keys, false);
    let sorted = arranged(c.list, order);
    assert(sorted =~= c.list);
    assert(sorted.drop_last() =~= Seq::empty());
    assert(merged(sorted.drop_last()) == sorted.drop_last());
    assert(merged(sorted) =~= sorted);
    assert(sorted.take(1) =~= sorted);
    assert(order[0] == c.primary as usize);
    assert(order.index_of(c.primary as usize) == 0) by {
        assert(order.contains(c.primary as usize));
    }
    assert(c.sorted_merged() =~= c);
}

pub(crate) proof fn lemma_mouse_steps(e: Editor, hit: Option<Position>)
    ensures
        e.step(Message::MouseClick(hit)) == e.clicked(hit),
        e.step(Message::MouseDrag(hit)) == e.dragged(hit),
        e.step(Message::MouseHover(hit)) == e.dragged(hit),
        e.step(Message::MouseRelease) == e.released(),
{
    reveal(Editor::selection_step);
}

/// After the mouse button was released no cursor has an empty selection: it selects something or
/// it is a bare caret.
pub proof fn law_release_leaves_no_empty_selection(e: Editor)
    ensures
        !e.step(Message::MouseRelease).is_dragging,
        e.step(Message::MouseRelease).cursors.list.len() == e.cursors.list.len(),
        forall|i: int|
            0 <= i < e.cursors.list.len() ==> {
                let c = #[trigger] e.step(Message::MouseRelease).cursors.list[i];
                &&& c.anchor is Some ==> c.selected()
                &&& c.position == e.cursors.list[i].position
                &&& e.cursors.list[i].selected() ==> c == e.cursors.list[i]
            },
{
    lemma_mouse_steps(e, None);
}

/// A click without a drag leaves a single bare caret where it was made.
pub proof fn law_a_click_places_a_bare_caret(e: Editor, position: Position)
    requires
        e.cursors.wf(),
    ensures
        ({
            let f = e.step(Message::MouseClick(Some(position))).step(Message::MouseRelease);
            &&& f.cursors == Cursors::single(position)
            &&& f.focus.is_focused
            &&& f.focus.has_canvas_focus
            &&& f.focus.show_cursor
        }),
{
    let hit = Some(position);
    lemma_mouse_steps(e, hit);
    lemma_mouse_steps(e.clicked(hit), hit);
    lemma_clicked(e, position);
    assert(e.clicked(hit).released().cursors =~= Cursors::single(position));
}

/// What a click leaves: one cursor, anchored where it stands.
proof fn lemma_clicked(e: Editor, position: Position)
    requires
        e.cursors.wf(),
    ensures
        e.clicked(Some(position)).cursors == (Cursors {
            list: seq![Cursor { position, anchor: Some(position) }],
            primary: 0,
        }),
        e.clicked(Some(position)).is_dragging,
        e.clicked(Some(position)).focus.is_focused,
        e.clicked(Some(position)).focus.has_canvas_focus,
        e.clicked(Some(position)).focus.show_cursor,
{
    assert(e.clicked(Some(position)).cursors =~= Cursors {
        list: seq![Cursor { position, anchor: Some(position) }],
        primary: 0,
    });
}

/// A click, a drag and a release select from where the mouse was clicked to where it was dragged
/// to.
pub proof fn law_a_drag_selects(e: Editor, from: Position, to: Position)
    requires
        e.cursors.wf(),
        from != to,
    ensures
        e.step(Message::MouseClick(Some(from))).step(Message::MouseDrag(Some(to))).step(
            Message::MouseRelease,
        ).cursors == (Cursors {
            list: seq![Cursor { position: to, anchor: Some(from) }],
            primary: 0,
        }),
{
    lemma_mouse_steps(e, Some(from));
    let f = e.clicked(Some(from));
    lemma_clicked(e, from);
    lemma_mouse_steps(f, Some(to));
    let g = f.dragged(Some(to));
    lemma_mouse_steps(g, None);
    assert(g.released().cursors =~= Cursors {
        list: seq![Cursor { position: to, anchor: Some(from) }],
        primary: 0,
    });
}

/// Escape first closes the search dialog; with the dialog closed it collapses several cursors to
/// the primary one. It does nothing else to the text, the cursors or the search.
pub proof fn law_escape_closes_or_collapses(e: Editor)
    ensures
        ({
            let f = e.step(Message::CloseSearch);
            &&& f.buffer == e.buffer
            &&& !f.search.is_open
            &&& f.search.query == e.search.query
            &&& f.search.matches == e.search.matches
            &&& e.search.is_open ==> f.cursors == e.cursors
            &&& !e.search.is_open && e.cursors.list.len() > 1 ==> f.cursors
                == e.cursors.only_primary()
        }),
{
    reveal(Editor::search_step);
}

/// The caret of a cursor stands at the last end of its selection.
pub open spec fn caret_last(c: Cursor) -> bool {
    c.anchor matches Some(a) ==> !before(c.position, a)
}

/// The caret of a cursor stands at the first end of its selection.
pub open spec fn caret_first(c: Cursor) -> bool {
    c.anchor matches Some(a) ==> !before(a, c.position)
}

/// Cursors whose carets all stand at the last ends of their selections keep them there when they
/// are merged, and those whose carets all stand at the first ends keep them there.
pub proof fn law_merging_keeps_the_side_of_the_carets(c: Cursors, k: int)
    requires
        c.list.len() <= usize::MAX,
        0 <= k < c.sorted_merged().list.len(),
    ensures
        (forall|i: int| 0 <= i < c.list.len() ==> caret_last(#[trigger] c.list[i])) ==> caret_last(
            c.sorted_merged().list[k],
        ),
        (forall|i: int| 0 <= i < c.list.len() ==> caret_first(#[trigger] c.list[i]))
            ==> caret_first(c.sorted_merged().list[k]),
{
    let order = order_of(starts(c.list), false);
    lemma_arranged(c);
    let sorted = arranged(c.list, order);
    if forall|i: int| 0 <= i < c.list.len() ==> caret_last(#[trigger] c.list[i]) {
        assert forall|i: int| 0 <= i < sorted.len() implies caret_last(#[trigger] sorted[i]) by {
            assert(caret_last(c.list[order[i] as int]));
        }
        lemma_merged_side(sorted, true);
    }
    if forall|i: int| 0 <= i < c.list.len() ==> caret_first(#[trigger] c.list[i]) {
        assert forall|i: int| 0 <= i < sorted.len() implies caret_first(#[trigger] sorted[i]) by {
            assert(caret_first(c.list[order[i] as int]));
        }
        lemma_merged_side(sorted, false);
    }
}

proof fn lemma_merged_side(list: Seq<Cursor>, last: bool)
    requires
        ascending(list),
        forall|i: int|
            0 <= i < list.len() ==> if last {
                caret_last(#[trigger] list[i])
            } else {
                caret_first(list[i])
            },
    ensures
        forall|k: int|
            0 <= k < merged(list).len() ==> if last {
                caret_last(#[trigger] merged(list)[k])
            } else {
                caret_first(merged(list)[k])
            },
    decreases list.len(),
{
    if list.len() > 0 {
        let init = list.drop_last();
        lemma_ascending_init(list);
        assert forall|i: int| 0 <= i < init.len() implies if last {
            caret_last(#[trigger] init[i])
        } else {
            caret_first(init[i])
        } by {
            assert(list[i] == init[i]);
        }
        lemma_merged_side(init, last);
        let head = merged(init);
        let c = list[list.len() - 1];
        if head.len() > 0 && touching(head.last(), c) {
            lemma_merged_step(list);
            let a = head[head.len() - 1];
            assert(if last {
                caret_last(united(a, c))
            } else {
                caret_first(united(a, c))
            });
        }
    }
}

} // verus!
