//! One edit at every cursor: the text, the cursors and the commands after each of them.
use vstd::prelude::*;

use crate::chars::whitespace;
use crate::command::{
    all_fit, all_wf, lemma_executed, line_length, range_after, range_before, undo_all, Edit, Group,
};
use crate::cursor_set::{adjusted_others, carets, moved_others, Cursor, Cursors};
use crate::editor::Editor;
use crate::history::{lemma_recorded_coherent, lemma_recorded_each, lemma_recorded_wf};
use crate::message::IndentStyle;
use crate::order::order_of;
use crate::position::{EditType, Position};
use crate::text_buffer::{spot, Spot};

verus! {

/// How far an edit at several cursors has come: the text, the cursors, and the commands that
/// were executed.
#[verifier::ext_equal]
pub struct Batch {
    pub lines: Seq<Seq<char>>,
    pub list: Seq<Cursor>,
    pub edits: Seq<Edit>,
}

/// First column from `from` on that does not hold white space; the end of the line without one.
pub open spec fn blank_end(line: Seq<char>, from: int) -> int
    decreases line.len() - from,
{
    if 0 <= from < line.len() && whitespace(line[from]) {
        blank_end(line, from + 1)
    } else {
        from
    }
}

/// The white space that a line starts with.
pub open spec fn indentation(line: Seq<char>) -> Seq<char> {
    line.take(blank_end(line, 0))
}

/// Every index of the list is below `n`.
pub open spec fn below(order: Seq<usize>, n: nat) -> bool {
    forall|i: int| 0 <= i < order.len() ==> (#[trigger] order[i]) < n
}

/// The characters of a line; none where there is no such line.
pub open spec fn line_of(lines: Seq<Seq<char>>, line: int) -> Seq<char> {
    if 0 <= line < lines.len() {
        lines[line]
    } else {
        Seq::empty()
    }
}

impl Batch {
    /// The commands led from `lines` to the present text, and undoing them leads back.
    pub open spec fn leads_from(self, lines: Seq<Seq<char>>) -> bool {
        &&& self.lines.len() > 0
        &&& all_wf(self.edits)
        &&& all_fit(self.edits, self.lines)
        &&& undo_all(self.edits, self.lines) == lines
    }

    /// Nothing edited yet.
    pub open spec fn start(lines: Seq<Seq<char>>, list: Seq<Cursor>) -> Batch {
        Batch { lines, list, edits: Seq::empty() }
    }

    /// One more command executed.
    pub open spec fn ran(self, edit: Edit) -> Batch {
        Batch {
            lines: edit.result(self.lines),
            edits: self.edits.push(edit.on(self.lines)),
            ..self
        }
    }

    /// One caret elsewhere; its anchor stays.
    pub open spec fn placed(self, idx: int, position: Position) -> Batch {
        Batch {
            list: self.list.update(idx, Cursor { position, anchor: self.list[idx].anchor }),
            ..self
        }
    }

    /// The other cursors after an edit.
    pub open spec fn others_adjusted(
        self,
        idx: int,
        line: usize,
        col: usize,
        kind: EditType,
    ) -> Batch {
        Batch { list: adjusted_others(self.list, idx, line, col, kind), ..self }
    }

    /// A character typed at one cursor: at the start of its selection, else at the caret.
    pub open spec fn typed_at(self, idx: int, ch: char) -> Batch {
        let pos = self.list[idx].lo();
        let edit = Edit::replace(spot(pos), spot(pos), seq![seq![ch]], pos);
        self.ran(edit).placed(idx, edit.caret_after(self.lines)).others_adjusted(
            idx,
            pos.0,
            pos.1,
            EditType::InsertChar,
        )
    }

    /// A character typed at the given cursors, one after the other.
    pub open spec fn typed(self, order: Seq<usize>, ch: char) -> Batch
        decreases order.len(),
    {
        if order.len() == 0 {
            self
        } else {
            self.typed(order.drop_last(), ch).typed_at(order.last() as int, ch)
        }
    }

    /// `n` spaces inserted on `line` from the column of `caret` on, and where they leave the
    /// caret.
    pub open spec fn spaced(self, idx: int, line: usize, caret: Position, n: int) -> (
        Batch,
        Position,
    )
        decreases n,
    {
        if n <= 0 {
            (self, caret)
        } else {
            let (b, c) = self.spaced(idx, line, caret, n - 1);
            let here: Spot = (line as int, c.1 as int);
            let edit = Edit::replace(here, here, seq![seq![' ']], c);
            (
                b.ran(edit).others_adjusted(idx, line, c.1, EditType::InsertChar),
                edit.caret_after(b.lines),
            )
        }
    }

    /// The indentation of the Tab key inserted at one cursor.
    pub open spec fn tabbed_at(self, idx: int, style: IndentStyle) -> Batch {
        let pos = self.list[idx].position;
        match style {
            IndentStyle::Spaces(n) => {
                let (b, c) = self.spaced(idx, pos.0, pos, n as int);
                b.placed(idx, c)
            },
            IndentStyle::Tab => {
                let edit = Edit::replace(spot(pos), spot(pos), seq![seq!['\t']], pos);
                self.ran(edit).others_adjusted(idx, pos.0, pos.1, EditType::InsertChar).placed(
                    idx,
                    edit.caret_after(self.lines),
                )
            },
        }
    }

    /// The indentation of the Tab key inserted at the given cursors, one after the other.
    pub open spec fn tabbed(self, order: Seq<usize>, style: IndentStyle) -> Batch
        decreases order.len(),
    {
        if order.len() == 0 {
            self
        } else {
            self.tabbed(order.drop_last(), style).tabbed_at(order.last() as int, style)
        }
    }

    /// A line broken at one cursor. The new line starts as the broken one does if `indent` is
    /// set.
    pub open spec fn broken_at(self, idx: int, indent: bool) -> Batch {
        let pos = self.list[idx].position;
        let lead = if indent {
            indentation(line_of(self.lines, pos.0 as int))
        } else {
            Seq::empty()
        };
        let edit = Edit::replace(spot(pos), spot(pos), seq![Seq::empty(), lead], pos);
        self.ran(edit).placed(idx, edit.caret_after(self.lines)).others_adjusted(
            idx,
            pos.0,
            pos.1,
            EditType::InsertNewline { indent_len: lead.len() as usize },
        )
    }

    /// Lines broken at the given cursors, one after the other.
    pub open spec fn broken(self, order: Seq<usize>, indent: bool) -> Batch
        decreases order.len(),
    {
        if order.len() == 0 {
            self
        } else {
            self.broken(order.drop_last(), indent).broken_at(order.last() as int, indent)
        }
    }

    /// What Backspace does at one cursor; nothing at the start of the text.
    pub open spec fn erased_at(self, idx: int) -> Batch {
        let pos = self.list[idx].position;
        if pos.0 == 0 && pos.1 == 0 {
            self
        } else {
            let range = range_before(self.lines, pos);
            let edit = Edit::replace(range.0, range.1, seq![Seq::empty()], pos);
            let kind = if pos.1 > 0 {
                EditType::DeleteCharBack
            } else {
                EditType::MergePrev {
                    prev_line_len: line_length(self.lines, pos.0 - 1) as usize,
                }
            };
            self.ran(edit).placed(idx, edit.caret_after(self.lines)).others_adjusted(
                idx,
                pos.0,
                pos.1,
                kind,
            )
        }
    }

    /// What Backspace does at the given cursors, one after the other.
    pub open spec fn erased(self, order: Seq<usize>) -> Batch
        decreases order.len(),
    {
        if order.len() == 0 {
            self
        } else {
            self.erased(order.drop_last()).erased_at(order.last() as int)
        }
    }

    /// What Delete does at one cursor; nothing at the end of the text.
    pub open spec fn deleted_at(self, idx: int) -> Batch {
        let pos = self.list[idx].position;
        let len = line_length(self.lines, pos.0 as int);
        if pos.1 >= len && pos.0 + 1 >= self.lines.len() {
            self
        } else {
            let range = range_after(self.lines, pos);
            let edit = Edit::replace(range.0, range.1, seq![Seq::empty()], pos);
            let kind = if pos.1 < len {
                EditType::DeleteCharForward
            } else {
                EditType::MergeNext { edit_line_len: len as usize }
            };
            self.ran(edit).placed(idx, edit.caret_after(self.lines)).others_adjusted(
                idx,
                pos.0,
                pos.1,
                kind,
            )
        }
    }

    /// The other cursors after the range from `s` to `e` was replaced by a text that ends at `t`.
    pub open spec fn others_moved(self, idx: int, s: Spot, e: Spot, t: Spot) -> Batch {
        Batch { list: moved_others(self.list, idx, s, e, t), ..self }
    }

    /// One range replaced at one cursor, which is a bare caret then.
    pub open spec fn replaced_at(self, idx: int, edit: Edit) -> Batch {
        let (s, e) = (edit.from(self.lines), edit.to(self.lines));
        Batch {
            list: self.list.update(
                idx,
                Cursor { position: edit.caret_after(self.lines), anchor: None },
            ),
            ..self.ran(edit)
        }.others_moved(idx, s, e, spot(edit.caret_after(self.lines)))
    }

    /// The selection of one cursor deleted; nothing without one.
    pub open spec fn cut_at(self, idx: int) -> Batch {
        let c = self.list[idx];
        if c.selected() {
            self.replaced_at(
                idx,
                Edit::replace(spot(c.lo()), spot(c.hi()), seq![Seq::empty()], c.position),
            )
        } else {
            self
        }
    }

    /// The selections of the given cursors deleted, one after the other.
    pub open spec fn cut(self, order: Seq<usize>) -> Batch
        decreases order.len(),
    {
        if order.len() == 0 {
            self
        } else {
            self.cut(order.drop_last()).cut_at(order.last() as int)
        }
    }

    /// A text inserted at one caret.
    pub open spec fn pasted_at(self, idx: int, pieces: Seq<Seq<char>>) -> Batch {
        let pos = self.list[idx].position;
        self.replaced_at(idx, Edit::replace(spot(pos), spot(pos), pieces, pos))
    }

    /// A text inserted at the given carets, one after the other.
    pub open spec fn pasted(self, order: Seq<usize>, pieces: Seq<Seq<char>>) -> Batch
        decreases order.len(),
    {
        if order.len() == 0 {
            self
        } else {
            self.pasted(order.drop_last(), pieces).pasted_at(order.last() as int, pieces)
        }
    }

    /// What Delete does at the given cursors, one after the other.
    pub open spec fn deleted(self, order: Seq<usize>) -> Batch
        decreases order.len(),
    {
        if order.len() == 0 {
            self
        } else {
            self.deleted(order.drop_last()).deleted_at(order.last() as int)
        }
    }
}

impl Editor {
    /// Nothing edited yet.
    pub open spec fn batch(self) -> Batch {
        Batch::start(self.buffer, self.cursors.list)
    }

    /// The editor after an edit at several cursors, each command recorded by itself.
    pub open spec fn with_batch(self, b: Batch) -> Editor {
        Editor {
            buffer: b.lines,
            cursors: Cursors { list: b.list, primary: self.cursors.primary },
            history: self.history.recorded_each(b.edits),
            ..self
        }
    }

    /// The editor after an edit at several cursors, its commands recorded together.
    pub open spec fn with_group(self, b: Batch, label: Seq<char>) -> Editor {
        Editor {
            buffer: b.lines,
            cursors: Cursors { list: b.list, primary: self.cursors.primary },
            history: if b.edits.len() == 0 {
                self.history
            } else {
                self.history.recorded(Group { label, edits: b.edits })
            },
            ..self
        }
    }

    /// Indices of the cursors, from the end of the text to its start.
    pub open spec fn descending(self) -> Seq<usize> {
        order_of(carets(self.cursors.list), true)
    }
}

/// Executing a command keeps the way back.
pub proof fn lemma_ran(b: Batch, edit: Edit, lines: Seq<Seq<char>>)
    requires
        b.leads_from(lines),
        edit.wf(),
    ensures
        b.ran(edit).leads_from(lines),
{
    lemma_executed(edit, b.lines);
    let e = b.edits.push(edit.on(b.lines));
    assert(e.drop_last() =~= b.edits);
    assert forall|i: int| 0 <= i < e.len() implies (#[trigger] e[i]).wf() by {
        if i < b.edits.len() {
            assert(b.edits[i].wf());
        }
    }
}

/// An edit at several cursors keeps the editor well-formed, and its history coherent.
pub proof fn lemma_with_batch(e: Editor, b: Batch)
    requires
        e.wf(),
        b.leads_from(e.buffer),
        b.list.len() == e.cursors.list.len(),
    ensures
        e.with_batch(b).wf(),
        e.coherent() ==> e.with_batch(b).coherent(),
{
    lemma_recorded_each(e.history, b.edits, e.buffer, b.lines);
}

/// Typing at several cursors: no cursor comes or goes, and undoing the commands leads back.
pub proof fn lemma_typed(b: Batch, order: Seq<usize>, ch: char, lines: Seq<Seq<char>>)
    requires
        b.leads_from(lines),
        below(order, b.list.len()),
    ensures
        b.typed(order, ch).leads_from(lines),
        b.typed(order, ch).list.len() == b.list.len(),
    decreases order.len(),
{
    if order.len() > 0 {
        let h = b.typed(order.drop_last(), ch);
        lemma_typed(b, order.drop_last(), ch, lines);
        let pos = h.list[order.last() as int].lo();
        lemma_ran(h, Edit::replace(spot(pos), spot(pos), seq![seq![ch]], pos), lines);
    }
}

/// Inserting spaces: no cursor comes or goes, and undoing the commands leads back.
pub proof fn lemma_spaced(
    b: Batch,
    idx: int,
    line: usize,
    caret: Position,
    n: int,
    lines: Seq<Seq<char>>,
)
    requires
        b.leads_from(lines),
    ensures
        b.spaced(idx, line, caret, n).0.leads_from(lines),
        b.spaced(idx, line, caret, n).0.list.len() == b.list.len(),
    decreases n,
{
    if n > 0 {
        lemma_spaced(b, idx, line, caret, n - 1, lines);
        let (h, c) = b.spaced(idx, line, caret, n - 1);
        let here: Spot = (line as int, c.1 as int);
        lemma_ran(h, Edit::replace(here, here, seq![seq![' ']], c), lines);
    }
}

/// Tab at several cursors: no cursor comes or goes, and undoing the commands leads back.
pub proof fn lemma_tabbed(b: Batch, order: Seq<usize>, style: IndentStyle, lines: Seq<Seq<char>>)
    requires
        b.leads_from(lines),
        below(order, b.list.len()),
    ensures
        b.tabbed(order, style).leads_from(lines),
        b.tabbed(order, style).list.len() == b.list.len(),
    decreases order.len(),
{
    if order.len() > 0 {
        let h = b.tabbed(order.drop_last(), style);
        lemma_tabbed(b, order.drop_last(), style, lines);
        let idx = order.last() as int;
        let pos = h.list[idx].position;
        match style {
            IndentStyle::Spaces(n) => {
                lemma_spaced(h, idx, pos.0, pos, n as int, lines);
            },
            IndentStyle::Tab => {
                lemma_ran(h, Edit::replace(spot(pos), spot(pos), seq![seq!['\t']], pos), lines);
            },
        }
    }
}

/// Enter at several cursors: no cursor comes or goes, and undoing the commands leads back.
pub proof fn lemma_broken(b: Batch, order: Seq<usize>, indent: bool, lines: Seq<Seq<char>>)
    requires
        b.leads_from(lines),
        below(order, b.list.len()),
    ensures
        b.broken(order, indent).leads_from(lines),
        b.broken(order, indent).list.len() == b.list.len(),
    decreases order.len(),
{
    if order.len() > 0 {
        let h = b.broken(order.drop_last(), indent);
        lemma_broken(b, order.drop_last(), indent, lines);
        let pos = h.list[order.last() as int].position;
        let lead = if indent {
            indentation(line_of(h.lines, pos.0 as int))
        } else {
            Seq::empty()
        };
        lemma_ran(h, Edit::replace(spot(pos), spot(pos), seq![Seq::empty(), lead], pos), lines);
    }
}

/// Backspace at several cursors: no cursor comes or goes, and undoing the commands leads back.
pub proof fn lemma_erased(b: Batch, order: Seq<usize>, lines: Seq<Seq<char>>)
    requires
        b.leads_from(lines),
        below(order, b.list.len()),
    ensures
        b.erased(order).leads_from(lines),
        b.erased(order).list.len() == b.list.len(),
    decreases order.len(),
{
    if order.len() > 0 {
        let h = b.erased(order.drop_last());
        lemma_erased(b, order.drop_last(), lines);
        let pos = h.list[order.last() as int].position;
        let range = range_before(h.lines, pos);
        lemma_ran(h, Edit::replace(range.0, range.1, seq![Seq::empty()], pos), lines);
    }
}

/// Delete at several cursors: no cursor comes or goes, and undoing the commands leads back.
pub proof fn lemma_deleted(b: Batch, order: Seq<usize>, lines: Seq<Seq<char>>)
    requires
        b.leads_from(lines),
        below(order, b.list.len()),
    ensures
        b.deleted(order).leads_from(lines),
        b.deleted(order).list.len() == b.list.len(),
    decreases order.len(),
{
    if order.len() > 0 {
        let h = b.deleted(order.drop_last());
        lemma_deleted(b, order.drop_last(), lines);
        let pos = h.list[order.last() as int].position;
        let range = range_after(h.lines, pos);
        lemma_ran(h, Edit::replace(range.0, range.1, seq![Seq::empty()], pos), lines);
    }
}

/// An edit at several cursors whose commands are recorded together keeps the editor well-formed,
/// and its history coherent.
pub proof fn lemma_with_group(e: Editor, b: Batch, label: Seq<char>)
    requires
        e.wf(),
        b.leads_from(e.buffer),
        b.list.len() == e.cursors.list.len(),
    ensures
        e.with_group(b, label).wf(),
        e.coherent() ==> e.with_group(b, label).coherent(),
{
    let g = Group { label, edits: b.edits };
    if b.edits.len() > 0 {
        lemma_recorded_wf(e.history, g);
        if e.coherent() {
            lemma_recorded_coherent(e.history, g, e.buffer, b.lines);
        }
    }
}

/// Deleting selections: no cursor comes or goes, and undoing the commands leads back.
pub proof fn lemma_cut(b: Batch, order: Seq<usize>, lines: Seq<Seq<char>>)
    requires
        b.leads_from(lines),
        below(order, b.list.len()),
    ensures
        b.cut(order).leads_from(lines),
        b.cut(order).list.len() == b.list.len(),
    decreases order.len(),
{
    if order.len() > 0 {
        let h = b.cut(order.drop_last());
        lemma_cut(b, order.drop_last(), lines);
        let c = h.list[order.last() as int];
        lemma_ran(
            h,
            Edit::replace(spot(c.lo()), spot(c.hi()), seq![Seq::empty()], c.position),
            lines,
        );
    }
}

/// Inserting a text at several carets: no cursor comes or goes, and undoing the commands leads
/// back.
pub proof fn lemma_pasted(
    b: Batch,
    order: Seq<usize>,
    pieces: Seq<Seq<char>>,
    lines: Seq<Seq<char>>,
)
    requires
        b.leads_from(lines),
        below(order, b.list.len()),
        pieces.len() > 0,
    ensures
        b.pasted(order, pieces).leads_from(lines),
        b.pasted(order, pieces).list.len() == b.list.len(),
    decreases order.len(),
{
    if order.len() > 0 {
        let h = b.pasted(order.drop_last(), pieces);
        lemma_pasted(b, order.drop_last(), pieces, lines);
        let pos = h.list[order.last() as int].position;
        lemma_ran(h, Edit::replace(spot(pos), spot(pos), pieces, pos), lines);
    }
}

} // verus!
