//! Cursors with their selections, and the set of them that an editor shows.
use vstd::prelude::*;

use crate::order::{is_order, lemma_order_lists_all, order_of, sorted_indices};
use crate::position::{
    adjust_pos, adjustable, adjusted, before, earlier, is_before, later, same_position, EditType,
    Position,
};
use crate::text_buffer::{move_position, moved_position, spot, Spot};

verus! {

/// A caret, and the other end of its selection where it has one.
#[derive(Clone, Copy, Debug, PartialEq, Eq)]
pub struct Cursor {
    /// Where the caret stands.
    pub position: Position,
    /// The fixed end of the selection.
    pub anchor: Option<Position>,
}

impl Cursor {
    /// The cursor selects at least one character.
    pub open spec fn selected(self) -> bool {
        self.anchor matches Some(a) && a != self.position
    }

    /// The first position of the selection; the caret without one.
    pub open spec fn lo(self) -> Position {
        match self.anchor {
            Some(a) => earlier(a, self.position),
            None => self.position,
        }
    }

    /// The last position of the selection; the caret without one.
    pub open spec fn hi(self) -> Position {
        match self.anchor {
            Some(a) => later(a, self.position),
            None => self.position,
        }
    }

    /// The caret stands at the first position of its selection.
    pub open spec fn backward(self) -> bool {
        self.anchor matches Some(a) && before(self.position, a)
    }

    /// The same caret without a selection.
    pub open spec fn unanchored(self) -> Cursor {
        Cursor { position: self.position, anchor: None }
    }

    /// The same caret with an anchor: the one it has, else its own position.
    pub open spec fn anchored(self) -> Cursor {
        Cursor {
            position: self.position,
            anchor: if self.anchor is Some {
                self.anchor
            } else {
                Some(self.position)
            },
        }
    }

    /// A caret without a selection.
    pub fn new(position: Position) -> (r: Self)
        ensures
            r == (Cursor { position, anchor: None }),
    {
        Cursor { position, anchor: None }
    }

    /// Tells whether the cursor selects at least one character.
    pub fn has_selection(&self) -> (r: bool)
        ensures
            r == self.selected(),
    {
        match self.anchor {
            Some(a) => !same_position(a, self.position),
            None => false,
        }
    }

    /// The first and the last position of the cursor's extent; both the caret without an anchor.
    pub fn extent(&self) -> (r: (Position, Position))
        ensures
            r == (self.lo(), self.hi()),
    {
        match self.anchor {
            Some(a) => if is_before(self.position, a) {
                (self.position, a)
            } else {
                (a, self.position)
            },
            None => (self.position, self.position),
        }
    }

    /// The selected range in document order, if the cursor selects anything.
    pub fn selection_range(&self) -> (r: Option<(Position, Position)>)
        ensures
            r == (if self.selected() {
                Some((self.lo(), self.hi()))
            } else {
                None
            }),
    {
        if self.has_selection() {
            Some(self.extent())
        } else {
            None
        }
    }

    /// Starts a selection at the caret.
    pub fn set_anchor(&mut self)
        ensures
            *final(self) == (Cursor {
                position: old(self).position,
                anchor: Some(old(self).position),
            }),
    {
        self.anchor = Some(self.position);
    }

    /// Drops the selection.
    pub fn clear_anchor(&mut self)
        ensures
            *final(self) == old(self).unanchored(),
    {
        self.anchor = None;
    }
}

/// A cursor after an edit at `(edit_line, edit_col)`: both of its ends are adjusted.
pub open spec fn adjusted_cursor(
    c: Cursor,
    edit_line: usize,
    edit_col: usize,
    kind: EditType,
) -> Cursor {
    Cursor {
        position: adjusted(c.position, edit_line, edit_col, kind),
        anchor: match c.anchor {
            Some(a) => Some(adjusted(a, edit_line, edit_col, kind)),
            None => None,
        },
    }
}

/// Cursors after an edit: all but the one at `skip_idx` are adjusted.
pub open spec fn adjusted_others(
    list: Seq<Cursor>,
    skip_idx: int,
    edit_line: usize,
    edit_col: usize,
    kind: EditType,
) -> Seq<Cursor> {
    Seq::new(
        list.len(),
        |i: int|
            if i == skip_idx {
                list[i]
            } else {
                adjusted_cursor(list[i], edit_line, edit_col, kind)
            },
    )
}

/// Adjusts all cursors except `skip_idx` after an edit at `(edit_line, edit_col)`.
pub fn adjust_other_cursors(
    cursors: &mut [Cursor],
    skip_idx: usize,
    edit_line: usize,
    edit_col: usize,
    kind: EditType,
)
    requires
        forall|i: int|
            0 <= i < old(cursors)@.len() && i != skip_idx ==> adjustable(
                (#[trigger] old(cursors)@[i]).position,
                edit_line,
                kind,
            ),
        forall|i: int|
            0 <= i < old(cursors)@.len() && i != skip_idx && (
            #[trigger] old(cursors)@[i]).anchor is Some ==> adjustable(
                old(cursors)@[i].anchor->0,
                edit_line,
                kind,
            ),
    ensures
        final(cursors)@ == adjusted_others(
            old(cursors)@,
            skip_idx as int,
            edit_line,
            edit_col,
            kind,
        ),
{
    let ghost start = cursors@;
    let mut i: usize = 0;
    while i < cursors.len()
        invariant
            i <= cursors@.len(),
            cursors@.len() == start.len(),
            start == old(cursors)@,
            forall|k: int|
                0 <= k < start.len() && k != skip_idx ==> adjustable(
                    (#[trigger] start[k]).position,
                    edit_line,
                    kind,
                ),
            forall|k: int|
                0 <= k < start.len() && k != skip_idx && (#[trigger] start[k]).anchor is Some
                    ==> adjustable(start[k].anchor->0, edit_line, kind),
            forall|k: int| i <= k < start.len() ==> cursors@[k] == start[k],
            forall|k: int|
                0 <= k < i ==> #[trigger] cursors@[k] == adjusted_others(
                    start,
                    skip_idx as int,
                    edit_line,
                    edit_col,
                    kind,
                )[k],
        decreases cursors@.len() - i,
    {
        if i != skip_idx {
            let mut cursor = cursors[i];
            assert(cursor == start[i as int]);
            adjust_pos(&mut cursor.position, edit_line, edit_col, kind);
            if let Some(a) = cursor.anchor {
                let mut anchor = a;
                adjust_pos(&mut anchor, edit_line, edit_col, kind);
                cursor.anchor = Some(anchor);
            }
            cursors[i] = cursor;
        }
        i += 1;
    }
    assert(cursors@ =~= adjusted_others(start, skip_idx as int, edit_line, edit_col, kind));
}

/// A cursor after the range from `s` to `e` was replaced by a text that ends at `t`.
pub open spec fn moved_cursor(c: Cursor, s: Spot, e: Spot, t: Spot) -> Cursor {
    Cursor {
        position: moved_position(c.position, s, e, t),
        anchor: match c.anchor {
            Some(a) => Some(moved_position(a, s, e, t)),
            None => None,
        },
    }
}

/// Cursors after the range from `s` to `e` was replaced by a text that ends at `t`: all but the
/// one at `skip_idx` are moved.
pub open spec fn moved_others(list: Seq<Cursor>, skip_idx: int, s: Spot, e: Spot, t: Spot) -> Seq<
    Cursor,
> {
    Seq::new(
        list.len(),
        |i: int|
            if i == skip_idx {
                list[i]
            } else {
                moved_cursor(list[i], s, e, t)
            },
    )
}

/// Two cursors, the first not after the second, run into each other: they overlap, or one of
/// them is a bare caret at the end of the other.
pub open spec fn touching(a: Cursor, b: Cursor) -> bool {
    before(b.lo(), a.hi()) || (b.lo() == a.hi() && (a.lo() == a.hi() || b.lo() == b.hi()))
}

/// One cursor over the extent of two that touch. Its caret is on the side on which the caret
/// of the first selection was.
pub open spec fn united(a: Cursor, b: Cursor) -> Cursor {
    let lo = a.lo();
    let hi = later(a.hi(), b.hi());
    let lead = if a.selected() {
        a
    } else {
        b
    };
    if lo == hi {
        a
    } else if lead.backward() {
        Cursor { position: lo, anchor: Some(hi) }
    } else {
        Cursor { position: hi, anchor: Some(lo) }
    }
}

/// A list of cursors in document order with those that touch united.
pub open spec fn merged(list: Seq<Cursor>) -> Seq<Cursor>
    decreases list.len(),
{
    if list.len() == 0 {
        list
    } else {
        let head = merged(list.drop_last());
        if head.len() > 0 && touching(head.last(), list.last()) {
            head.drop_last().push(united(head.last(), list.last()))
        } else {
            head.push(list.last())
        }
    }
}

/// The first positions of a list of cursors.
pub open spec fn starts(list: Seq<Cursor>) -> Seq<Position> {
    Seq::new(list.len(), |i: int| list[i].lo())
}

/// The carets of a list of cursors.
pub open spec fn carets(list: Seq<Cursor>) -> Seq<Position> {
    Seq::new(list.len(), |i: int| list[i].position)
}

/// A list of cursors in the given order.
pub open spec fn arranged(list: Seq<Cursor>, order: Seq<usize>) -> Seq<Cursor> {
    Seq::new(order.len(), |i: int| list[order[i] as int])
}

/// What a cursor set holds: its cursors, and which of them is the primary one.
#[verifier::ext_equal]
pub struct Cursors {
    pub list: Seq<Cursor>,
    pub primary: int,
}

impl Cursors {
    /// There is a primary cursor.
    pub open spec fn wf(self) -> bool {
        0 <= self.primary < self.list.len()
    }

    /// The primary cursor.
    pub open spec fn primary_cursor(self) -> Cursor {
        self.list[self.primary]
    }

    /// One caret alone.
    pub open spec fn single(position: Position) -> Cursors {
        Cursors { list: seq![Cursor { position, anchor: None }], primary: 0 }
    }

    /// The primary cursor alone.
    pub open spec fn only_primary(self) -> Cursors {
        Cursors { list: seq![self.primary_cursor()], primary: 0 }
    }

    /// The primary cursor replaced.
    pub open spec fn with_primary(self, c: Cursor) -> Cursors {
        Cursors { list: self.list.update(self.primary, c), primary: self.primary }
    }

    /// The primary caret moved; its anchor stays.
    pub open spec fn primary_moved(self, position: Position) -> Cursors {
        self.with_primary(Cursor { position, anchor: self.primary_cursor().anchor })
    }

    /// No cursor has an anchor.
    pub open spec fn unanchored(self) -> Cursors {
        Cursors { list: self.list.map_values(|c: Cursor| c.unanchored()), primary: self.primary }
    }

    /// Every cursor has an anchor.
    pub open spec fn anchored(self) -> Cursors {
        Cursors { list: self.list.map_values(|c: Cursor| c.anchored()), primary: self.primary }
    }

    /// Some cursor selects at least one character.
    pub open spec fn any_selected(self) -> bool {
        exists|i: int| 0 <= i < self.list.len() && (#[trigger] self.list[i]).selected()
    }

    /// The cursors in document order, those that touch united. The primary cursor is the one
    /// that the former primary cursor went into.
    pub open spec fn sorted_merged(self) -> Cursors {
        let order = order_of(starts(self.list), false);
        let sorted = arranged(self.list, order);
        let rank = order.index_of(self.primary as usize);
        Cursors { list: merged(sorted), primary: merged(sorted.take(rank + 1)).len() - 1 }
    }

    /// One more cursor.
    pub open spec fn with_cursor(self, c: Cursor) -> Cursors {
        Cursors { list: self.list.push(c), primary: self.primary }.sorted_merged()
    }
}

/// Merging keeps at least one cursor, and what is merged so far never gets fewer.
pub proof fn lemma_merged_len(list: Seq<Cursor>, k: int)
    requires
        0 < k <= list.len(),
    ensures
        0 < merged(list.take(k)).len() <= merged(list).len() <= list.len(),
    decreases list.len(),
{
    if k < list.len() {
        lemma_merged_len(list.drop_last(), k);
        assert(list.drop_last().take(k) =~= list.take(k));
    } else {
        assert(list.take(k) =~= list);
        if list.len() > 1 {
            lemma_merged_len(list.drop_last(), k - 1);
        } else {
            assert(merged(list.drop_last()) == list.drop_last());
        }
    }
}

/// Sorting and merging keeps a primary cursor.
pub proof fn lemma_sorted_merged_wf(c: Cursors)
    requires
        c.wf(),
        c.list.len() <= usize::MAX,
        is_order(order_of(starts(c.list), false), starts(c.list), false),
    ensures
        c.sorted_merged().wf(),
        c.sorted_merged().list.len() <= c.list.len(),
{
    let order = order_of(starts(c.list), false);
    lemma_order_lists_all(order, starts(c.list), false, c.primary as usize);
    let rank = order.index_of(c.primary as usize);
    let sorted = arranged(c.list, order);
    lemma_merged_len(sorted, rank + 1);
}

/// The cursors of an editor. One of them is the primary cursor.
#[derive(Debug)]
pub struct CursorSet {
    cursors: Vec<Cursor>,
    primary_idx: usize,
}

impl View for CursorSet {
    type V = Cursors;

    closed spec fn view(&self) -> Cursors {
        Cursors { list: self.cursors@, primary: self.primary_idx as int }
    }
}

impl CursorSet {
    /// There is a primary cursor.
    pub open spec fn wf(self) -> bool {
        self@.wf()
    }

    /// A single caret.
    pub fn new(position: Position) -> (r: Self)
        ensures
            r@ == Cursors::single(position),
            r.wf(),
    {
        let mut cursors: Vec<Cursor> = Vec::new();
        cursors.push(Cursor::new(position));
        let r = CursorSet { cursors, primary_idx: 0 };
        assert(r@ =~= Cursors::single(position));
        r
    }

    /// Number of cursors.
    pub fn len(&self) -> (r: usize)
        ensures
            r == self@.list.len(),
    {
        self.cursors.len()
    }

    /// Tells whether there is more than one cursor.
    pub fn is_multi(&self) -> (r: bool)
        ensures
            r == (self@.list.len() > 1),
    {
        self.cursors.len() > 1
    }

    /// All cursors.
    pub fn as_slice(&self) -> (r: &[Cursor])
        ensures
            r@ == self@.list,
    {
        self.cursors.as_slice()
    }

    /// The cursor at an index.
    pub fn get(&self, idx: usize) -> (r: Cursor)
        requires
            idx < self@.list.len(),
        ensures
            r == self@.list[idx as int],
    {
        self.cursors[idx]
    }

    /// Replaces the cursor at an index.
    pub fn set(&mut self, idx: usize, cursor: Cursor)
        requires
            idx < old(self)@.list.len(),
        ensures
            final(self)@ == (Cursors {
                list: old(self)@.list.update(idx as int, cursor),
                primary: old(self)@.primary,
            }),
    {
        self.cursors.set(idx, cursor);
    }

    /// Index of the primary cursor.
    pub fn primary_index(&self) -> (r: usize)
        ensures
            r == self@.primary,
    {
        self.primary_idx
    }

    /// The primary cursor.
    pub fn primary(&self) -> (r: &Cursor)
        requires
            self.wf(),
        ensures
            *r == self@.primary_cursor(),
    {
        &self.cursors[self.primary_idx]
    }

    /// The primary cursor, to be changed.
    pub fn primary_mut(&mut self) -> (r: &mut Cursor)
        requires
            old(self).wf(),
        ensures
            *r == old(self)@.primary_cursor(),
            final(self)@ == old(self)@.with_primary(*final(r)),
    {
        &mut self.cursors[self.primary_idx]
    }

    /// Where the primary caret stands.
    pub fn primary_position(&self) -> (r: Position)
        requires
            self.wf(),
        ensures
            r == self@.primary_cursor().position,
    {
        self.cursors[self.primary_idx].position
    }

    /// Moves the primary caret; its anchor stays.
    pub fn move_primary(&mut self, position: Position)
        requires
            old(self).wf(),
        ensures
            final(self)@ == old(self)@.primary_moved(position),
    {
        let anchor = self.cursors[self.primary_idx].anchor;
        self.cursors.set(self.primary_idx, Cursor { position, anchor });
    }

    /// Collapses the set to a single caret.
    pub fn set_single(&mut self, position: Position)
        ensures
            final(self)@ == Cursors::single(position),
    {
        let mut cursors: Vec<Cursor> = Vec::new();
        cursors.push(Cursor::new(position));
        self.cursors = cursors;
        self.primary_idx = 0;
        assert(self@ =~= Cursors::single(position));
    }

    /// Keeps the primary cursor alone.
    pub fn remove_all_but_primary(&mut self)
        requires
            old(self).wf(),
        ensures
            final(self)@ == old(self)@.only_primary(),
    {
        let mut cursors: Vec<Cursor> = Vec::new();
        cursors.push(self.cursors[self.primary_idx]);
        self.cursors = cursors;
        self.primary_idx = 0;
        assert(self@ =~= old(self)@.only_primary());
    }

    /// Drops every selection.
    pub fn clear_anchors(&mut self)
        ensures
            final(self)@ == old(self)@.unanchored(),
    {
        let ghost start = self.cursors@;
        let mut i: usize = 0;
        while i < self.cursors.len()
            invariant
                i <= self.cursors@.len(),
                self.cursors@.len() == start.len(),
                self.primary_idx == old(self).primary_idx,
                forall|k: int| i <= k < start.len() ==> self.cursors@[k] == start[k],
                forall|k: int|
                    0 <= k < i ==> #[trigger] self.cursors@[k] == start[k].unanchored(),
            decreases self.cursors@.len() - i,
        {
            let mut c = self.cursors[i];
            c.clear_anchor();
            self.cursors.set(i, c);
            i += 1;
        }
        assert(self@ =~= old(self)@.unanchored());
    }

    /// Sets an anchor on every cursor that does not yet have one.
    pub fn set_anchors(&mut self)
        ensures
            final(self)@ == old(self)@.anchored(),
    {
        let ghost start = self.cursors@;
        let mut i: usize = 0;
        while i < self.cursors.len()
            invariant
                i <= self.cursors@.len(),
                self.cursors@.len() == start.len(),
                self.primary_idx == old(self).primary_idx,
                forall|k: int| i <= k < start.len() ==> self.cursors@[k] == start[k],
                forall|k: int|
                    0 <= k < i ==> #[trigger] self.cursors@[k] == start[k].anchored(),
            decreases self.cursors@.len() - i,
        {
            let mut c = self.cursors[i];
            if c.anchor.is_none() {
                c.set_anchor();
            }
            self.cursors.set(i, c);
            i += 1;
        }
        assert(self@ =~= old(self)@.anchored());
    }

    /// Tells whether some cursor selects anything.
    pub fn any_selection(&self) -> (r: bool)
        ensures
            r == self@.any_selected(),
    {
        let mut i: usize = 0;
        while i < self.cursors.len()
            invariant
                i <= self.cursors@.len(),
                forall|k: int| 0 <= k < i ==> !(#[trigger] self.cursors@[k]).selected(),
            decreases self.cursors@.len() - i,
        {
            if self.cursors[i].has_selection() {
                assert(self@.list[i as int].selected());
                return true;
            }
            i += 1;
        }
        false
    }

    /// Indices of the cursors in descending document order of their carets, so that edits at
    /// higher positions do not invalidate lower positions.
    pub fn descending(&self) -> (r: Vec<usize>)
        ensures
            is_order(r@, carets(self@.list), true),
            r@ == order_of(carets(self@.list), true),
    {
        let mut keys: Vec<Position> = Vec::new();
        let mut i: usize = 0;
        while i < self.cursors.len()
            invariant
                i <= self.cursors@.len(),
                keys@ == carets(self.cursors@).take(i as int),
            decreases self.cursors@.len() - i,
        {
            keys.push(self.cursors[i].position);
            i += 1;
            assert(keys@ =~= carets(self.cursors@).take(i as int));
        }
        assert(keys@ =~= carets(self@.list));
        sorted_indices(&keys, true)
    }

    /// Adjusts all cursors except `skip_idx` after an edit at `(edit_line, edit_col)`.
    pub fn adjust_others(
        &mut self,
        skip_idx: usize,
        edit_line: usize,
        edit_col: usize,
        kind: EditType,
    )
        requires
            kind is MergePrev ==> edit_line > 0,
            kind is MergeNext ==> edit_line < usize::MAX,
        ensures
            final(self)@ == (Cursors {
                list: adjusted_others(
                    old(self)@.list,
                    skip_idx as int,
                    edit_line,
                    edit_col,
                    kind,
                ),
                primary: old(self)@.primary,
            }),
    {
        adjust_other_cursors(self.cursors.as_mut_slice(), skip_idx, edit_line, edit_col, kind);
    }

    /// Moves all cursors except `skip_idx` after the range from `s` to `e` was replaced by a text
    /// that ends at `t`.
    pub fn move_others(&mut self, skip_idx: usize, s: Position, e: Position, t: Position)
        ensures
            final(self)@ == (Cursors {
                list: moved_others(
                    old(self)@.list,
                    skip_idx as int,
                    spot(s),
                    spot(e),
                    spot(t),
                ),
                primary: old(self)@.primary,
            }),
    {
        let ghost start = self.cursors@;
        let ghost goal = moved_others(start, skip_idx as int, spot(s), spot(e), spot(t));
        let mut i: usize = 0;
        while i < self.cursors.len()
            invariant
                i <= self.cursors@.len(),
                self.cursors@.len() == start.len(),
                self.primary_idx == old(self).primary_idx,
                goal == moved_others(start, skip_idx as int, spot(s), spot(e), spot(t)),
                forall|k: int| i <= k < start.len() ==> self.cursors@[k] == start[k],
                forall|k: int| 0 <= k < i ==> #[trigger] self.cursors@[k] == goal[k],
            decreases self.cursors@.len() - i,
        {
            if i != skip_idx {
                let c = self.cursors[i];
                let position = move_position(c.position, s, e, t);
                let anchor = match c.anchor {
                    Some(a) => Some(move_position(a, s, e, t)),
                    None => None,
                };
                self.cursors.set(i, Cursor { position, anchor });
            }
            i += 1;
        }
        assert(self.cursors@ =~= goal);
    }

    /// Puts the cursors in document order and unites those that touch.
    pub fn sort_and_merge(&mut self)
        requires
            old(self).wf(),
        ensures
            final(self)@ == old(self)@.sorted_merged(),
            final(self).wf(),
    {
        let mut keys: Vec<Position> = Vec::new();
        let mut i: usize = 0;
        while i < self.cursors.len()
            invariant
                i <= self.cursors@.len(),
                keys@ == starts(self.cursors@).take(i as int),
            decreases self.cursors@.len() - i,
        {
            keys.push(self.cursors[i].extent().0);
            i += 1;
            assert(keys@ =~= starts(self.cursors@).take(i as int));
        }
        assert(keys@ =~= starts(self.cursors@));
        let order = sorted_indices(&keys, false);
        let ghost sorted = arranged(self.cursors@, order@);
        let ghost rank = order@.index_of(self.primary_idx);
        proof {
            lemma_order_lists_all(order@, keys@, false, self.primary_idx);
        }
        let mut out: Vec<Cursor> = Vec::new();
        let mut primary: usize = 0;
        let mut i: usize = 0;
        assert(sorted.take(0) =~= Seq::empty());
        while i < order.len()
            invariant
                i <= order@.len(),
                is_order(order@, keys@, false),
                keys@.len() == self.cursors@.len(),
                sorted == arranged(self.cursors@, order@),
                out@ == merged(sorted.take(i as int)),
                0 <= rank < order@.len(),
                order@[rank] == self.primary_idx,
                rank < i ==> primary == merged(sorted.take(rank + 1)).len() - 1,
            decreases order@.len() - i,
        {
            let c = self.cursors[order[i]];
            assert(sorted.take(i + 1).drop_last() =~= sorted.take(i as int));
            assert(sorted.take(i + 1).last() == c);
            let n = out.len();
            if n > 0 && run_together(&out[n - 1], &c) {
                let u = unite(&out[n - 1], &c);
                out.set(n - 1, u);
            } else {
                out.push(c);
            }
            assert(out@ =~= merged(sorted.take(i + 1)));
            if order[i] == self.primary_idx {
                assert(i == rank) by {
                    if i < rank {
                        assert(order@[i as int] != order@[rank]);
                    } else if rank < i {
                        assert(order@[rank] != order@[i as int]);
                    }
                }
                primary = out.len() - 1;
            }
            i += 1;
        }
        assert(sorted.take(sorted.len() as int) =~= sorted);
        proof {
            lemma_merged_len(sorted, rank + 1);
        }
        self.cursors = out;
        self.primary_idx = primary;
        assert(self@ =~= old(self)@.sorted_merged());
    }

    /// Adds a caret.
    pub fn add_cursor(&mut self, position: Position)
        requires
            old(self).wf(),
        ensures
            final(self)@ == old(self)@.with_cursor(Cursor { position, anchor: None }),
            final(self).wf(),
    {
        self.cursors.push(Cursor::new(position));
        self.sort_and_merge();
    }

    /// Adds a cursor with its selection.
    pub fn add_cursor_with_selection(&mut self, cursor: Cursor)
        requires
            old(self).wf(),
        ensures
            final(self)@ == old(self)@.with_cursor(cursor),
            final(self).wf(),
    {
        self.cursors.push(cursor);
        self.sort_and_merge();
    }
}

fn run_together(a: &Cursor, b: &Cursor) -> (r: bool)
    ensures
        r == touching(*a, *b),
{
    let (alo, ahi) = a.extent();
    let (blo, bhi) = b.extent();
    is_before(blo, ahi) || (same_position(blo, ahi) && (same_position(alo, ahi) || same_position(
        blo,
        bhi,
    )))
}

fn unite(a: &Cursor, b: &Cursor) -> (r: Cursor)
    ensures
        r == united(*a, *b),
{
    let (lo, ahi) = a.extent();
    let (_blo, bhi) = b.extent();
    let hi = if is_before(ahi, bhi) {
        bhi
    } else {
        ahi
    };
    let lead = if a.has_selection() {
        *a
    } else {
        *b
    };
    if same_position(lo, hi) {
        return *a;
    }
    let backward = match lead.anchor {
        Some(x) => is_before(lead.position, x),
        None => false,
    };
    if backward {
        Cursor { position: lo, anchor: Some(hi) }
    } else {
        Cursor { position: hi, anchor: Some(lo) }
    }
}

} // verus!
