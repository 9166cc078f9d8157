//! Laws of undo for the messages that make entries of their own.
use vstd::prelude::*;

use crate::batch::{below, lemma_broken, lemma_deleted, lemma_erased, Batch};
use crate::command::{all_wf, lemma_executed, lemma_run_all, run_all, undo_all, Edit, Group};
use crate::cursor_set::carets;
use crate::editor::Editor;
use crate::find_replace::{replacement, replacements};
use crate::history::Past;
use crate::history_laws::{
    lemma_cut_leads, lemma_descending, lemma_ended, lemma_paste_leads, lemma_step_undo,
};
use crate::message::Message;
use crate::order::{lemma_order_exists, lemma_order_of_one};
use crate::position::Position;
use crate::text_buffer::{lemma_join_split, split_lines};

verus! {

impl Editor {
    /// The editor after several entries of the history were undone.
    pub open spec fn undone_times(self, n: int) -> Editor
        decreases n,
    {
        if n <= 0 {
            self
        } else {
            self.undone().undone_times(n - 1)
        }
    }

    /// The message makes at most one entry of the history: it deletes selections, pastes or
    /// replaces, or it edits at a single cursor.
    pub open spec fn makes_one_entry(self, m: Message) -> bool {
        match m {
            Message::DeleteSelection => true,
            Message::Paste(_) => true,
            Message::Enter => self.cursors.list.len() == 1,
            Message::Backspace => self.cursors.any_selected() || self.cursors.list.len() == 1,
            Message::Delete => self.cursors.any_selected() || self.cursors.list.len() == 1,
            Message::ReplaceNext => !self.is_grouping,
            Message::ReplaceAll => !self.is_grouping,
            _ => false,
        }
    }

    /// The primary caret is where it is in `e`.
    pub open spec fn back_to(self, e: Editor) -> bool {
        self.cursors.primary_cursor().position == e.cursors.primary_cursor().position
    }
}

/// An entry that led to the present text is taken back by one Undo, and the primary caret goes
/// back to where it was before the first command of the entry.
proof fn lemma_undo_entry(r: Editor, p: Past, g: Group)
    requires
        r.history == p.entered(g),
        p.open is None,
        p.max_size > 0,
        !r.is_grouping,
        r.cursors.wf(),
    ensures
        r.undone().buffer == undo_all(g.edits, r.buffer),
        g.edits.len() > 0 ==> r.undone().cursors.primary_cursor().position
            == g.edits[0].caret_before,
{
    assert(p.entered(g).undo.last() == g);
}

proof fn lemma_undo_group(f: Editor, b: Batch, label: Seq<char>)
    requires
        f.wf(),
        f.history.open is None,
        f.history.max_size > 0,
        !f.is_grouping,
        b.leads_from(f.buffer),
        b.lines != f.buffer,
        b.list.len() == f.cursors.list.len(),
    ensures
        b.edits.len() > 0,
        f.with_group(b, label).edit_finished().undone().buffer == f.buffer,
        f.with_group(b, label).edit_finished().undone().cursors.primary_cursor().position
            == b.edits[0].caret_before,
{
    assert(b.edits.len() > 0);
    lemma_undo_entry(
        f.with_group(b, label).edit_finished(),
        f.history,
        Group { label, edits: b.edits },
    );
}

proof fn lemma_undo_single(f: Editor, b: Batch)
    requires
        f.wf(),
        f.history.open is None,
        f.history.max_size > 0,
        !f.is_grouping,
        b.leads_from(f.buffer),
        b.lines != f.buffer,
        b.edits.len() <= 1,
        b.list.len() == f.cursors.list.len(),
    ensures
        b.edits.len() == 1,
        f.with_batch(b).edit_finished().undone().buffer == f.buffer,
        f.with_batch(b).edit_finished().undone().cursors.primary_cursor().position
            == b.edits[0].caret_before,
{
    assert(b.edits.len() == 1);
    assert(b.edits =~= seq![b.edits[0]]);
    assert(b.edits.drop_last() =~= Seq::empty());
    assert(f.history.recorded_each(b.edits.drop_last()) == f.history);
    lemma_undo_entry(
        f.with_batch(b).edit_finished(),
        f.history,
        Group { label: Seq::empty(), edits: seq![b.edits[0]] },
    );
}

/// Edits at cursors run at most one command for each of them.
pub(crate) proof fn lemma_command_counts(b: Batch, order: Seq<usize>, indent: bool)
    ensures
        b.broken(order, indent).edits.len() <= b.edits.len() + order.len(),
        b.erased(order).edits.len() <= b.edits.len() + order.len(),
        b.deleted(order).edits.len() <= b.edits.len() + order.len(),
    decreases order.len(),
{
    if order.len() > 0 {
        lemma_command_counts(b, order.drop_last(), indent);
    }
}

/// The first of the commands, if there is any, takes the caret back to `pos`.
pub(crate) open spec fn goes_back_to(edits: Seq<Edit>, pos: Position) -> bool {
    edits.len() > 0 ==> edits[0].caret_before == pos
}

/// An edit at a single cursor: undoing its first command takes the caret back to where it was.
pub(crate) proof fn lemma_single_goes_back(e: Editor, indent: bool, text: Seq<char>)
    requires
        e.cursors.list.len() == 1,
    ensures
        ({
            let pos = e.cursors.list[0].position;
            let (start, order) = (e.batch(), e.descending());
            &&& goes_back_to(start.broken(order, indent).edits, pos)
            &&& goes_back_to(start.erased(order).edits, pos)
            &&& goes_back_to(start.deleted(order).edits, pos)
            &&& goes_back_to(start.cut(order).edits, pos)
            &&& goes_back_to(e.paste_batch(text).edits, pos)
        }),
{
    let (start, one) = (e.batch(), seq![0usize]);
    lemma_order_of_one(carets(e.cursors.list), true);
    assert(e.descending() == one);
    assert(one.drop_last() =~= Seq::empty());
    assert(start.broken(one, indent) == start.broken(one.drop_last(), indent).broken_at(0, indent));
    assert(start.erased(one) == start.erased(one.drop_last()).erased_at(0));
    assert(start.deleted(one) == start.deleted(one.drop_last()).deleted_at(0));
    let b = start.cut(one);
    assert(b == start.cut(one.drop_last()).cut_at(0));
    assert(b.list.len() == 1);
    let pieces = split_lines(text);
    lemma_order_of_one(carets(b.list), true);
    assert(b.pasted(one, pieces) == b.pasted(one.drop_last(), pieces).pasted_at(0, pieces));
}

proof fn lemma_undo_cut(f: Editor)
    requires
        f.wf(),
        f.history.open is None,
        f.history.max_size > 0,
        !f.is_grouping,
        f.cursors.list.len() <= usize::MAX,
        f.cut_if_selected().buffer != f.buffer,
    ensures
        f.cut_if_selected().undone().buffer == f.buffer,
        f.cursors.list.len() == 1 ==> f.cut_if_selected().undone().back_to(f),
{
    lemma_cut_leads(f);
    if f.cursors.list.len() == 1 {
        lemma_single_goes_back(f, false, Seq::empty());
    }
    lemma_undo_group(f, f.batch().cut(f.descending()), "Delete selection"@);
}

proof fn lemma_undo_paste(f: Editor, text: Seq<char>)
    requires
        f.wf(),
        f.history.open is None,
        f.history.max_size > 0,
        !f.is_grouping,
        f.cursors.list.len() <= usize::MAX,
        f.pasted(text).buffer != f.buffer,
    ensures
        f.pasted(text).edit_finished().undone().buffer == f.buffer,
        f.cursors.list.len() == 1 ==> f.pasted(text).edit_finished().undone().back_to(f),
{
    lemma_paste_leads(f, text);
    if f.cursors.list.len() == 1 {
        lemma_single_goes_back(f, false, text);
    }
    lemma_undo_group(f, f.paste_batch(text), "Paste"@);
}

/// The order of the cursors lists each of them.
proof fn lemma_descending_len(e: Editor)
    requires
        e.cursors.list.len() <= usize::MAX,
    ensures
        e.descending().len() == e.cursors.list.len(),
        below(e.descending(), e.cursors.list.len()),
{
    lemma_descending(e);
    lemma_order_exists(carets(e.cursors.list), true);
}

proof fn lemma_undo_keys(f: Editor)
    requires
        f.wf(),
        f.history.open is None,
        f.history.max_size > 0,
        !f.is_grouping,
        f.cursors.list.len() == 1,
    ensures
        ({
            let b = f.batch().broken(f.descending(), f.indenting.auto_indent_enabled);
            b.lines != f.buffer ==> {
                let u = f.with_batch(b).edit_finished().undone();
                u.buffer == f.buffer && u.back_to(f)
            }
        }),
        ({
            let b = f.batch().erased(f.descending());
            b.lines != f.buffer ==> {
                let u = f.with_batch(b).edit_finished().undone();
                u.buffer == f.buffer && u.back_to(f)
            }
        }),
        ({
            let b = f.batch().deleted(f.descending());
            b.lines != f.buffer ==> {
                let u = f.with_batch(b).edit_finished().undone();
                u.buffer == f.buffer && u.back_to(f)
            }
        }),
{
    let indent = f.indenting.auto_indent_enabled;
    lemma_descending_len(f);
    lemma_single_goes_back(f, indent, Seq::empty());
    lemma_command_counts(f.batch(), f.descending(), indent);
    lemma_broken(f.batch(), f.descending(), indent, f.buffer);
    lemma_erased(f.batch(), f.descending(), f.buffer);
    lemma_deleted(f.batch(), f.descending(), f.buffer);
    let b = f.batch().broken(f.descending(), indent);
    if b.lines != f.buffer {
        lemma_undo_single(f, b);
    }
    let b = f.batch().erased(f.descending());
    if b.lines != f.buffer {
        lemma_undo_single(f, b);
    }
    let b = f.batch().deleted(f.descending());
    if b.lines != f.buffer {
        lemma_undo_single(f, b);
    }
}

proof fn lemma_undo_replacements(e: Editor)
    requires
        e.sound(),
        !e.is_grouping,
        e.history.max_size > 0,
    ensures
        e.next_replaced().buffer != e.buffer ==> {
            let u = e.next_replaced().undone();
            u.buffer == e.buffer && u.back_to(e)
        },
        e.all_replaced().buffer != e.buffer ==> {
            let u = e.all_replaced().undone();
            u.buffer == e.buffer && u.back_to(e)
        },
{
    let caret = e.cursors.primary_cursor().position;
    lemma_join_split(e.search.replace_with);
    if let Some(m) = e.search.current_match() {
        let edit = replacement(m, e.search.query, e.search.replace_with, caret);
        lemma_executed(edit, e.buffer);
        let g = Group { label: Seq::empty(), edits: seq![edit.on(e.buffer)] };
        assert(g.edits.drop_last() =~= Seq::empty());
        assert(undo_all(g.edits.drop_last(), e.buffer) == e.buffer);
        lemma_undo_entry(e.next_replaced(), e.history, g);
    }
    let matches = e.all_matches();
    if matches.len() > 0 {
        let edits = replacements(matches, e.search.query, e.search.replace_with, caret);
        assert(all_wf(edits));
        lemma_run_all(edits, e.buffer, caret);
        let out = run_all(edits, e.buffer, caret);
        let g = Group { label: "Replace All"@, edits: out.edits };
        assert(out.edits[0].caret_before == edits[0].caret_before);
        lemma_undo_entry(e.all_replaced(), e.history, g);
    }
}

/// What these messages do.
proof fn lemma_steps(e: Editor, m: Message)
    ensures
        m is Enter ==> e.step(m) == e.broken(),
        m is Backspace ==> e.step(m) == e.erased(),
        m is Delete ==> e.step(m) == e.deleted(),
        m is DeleteSelection ==> e.step(m) == e.grouping_ended().cut_if_selected(),
        m matches Message::Paste(text) ==> e.step(m) == e.paste_handled(text@),
{
    reveal(Editor::edit_step);
}

/// What the messages that replace do.
pub(crate) proof fn lemma_replace_steps(e: Editor)
    ensures
        e.step(Message::ReplaceNext) == e.next_replaced(),
        e.step(Message::ReplaceAll) == e.all_replaced(),
{
    reveal(Editor::search_step);
}

/// One Undo takes back what a message did to the text, if the message makes one entry of the
/// history at most: deleting selections and pasting at any number of cursors, Enter, Backspace
/// and Delete at one, replacing one match or all. If there is one cursor, and after a replacement
/// in any case, the primary caret is back where it was as well.
pub proof fn law_one_undo_takes_back_one_entry(e: Editor, m: Message)
    requires
        e.sound(),
        e.history.max_size > 0,
        e.cursors.list.len() <= usize::MAX,
        e.makes_one_entry(m),
        e.step(m).buffer != e.buffer,
    ensures
        e.step(m).step(Message::Undo).buffer == e.buffer,
        e.cursors.list.len() == 1 || m is ReplaceNext || m is ReplaceAll ==> e.step(m).step(
            Message::Undo,
        ).back_to(e),
{
    lemma_step_undo(e.step(m));
    let f = e.grouping_ended();
    lemma_ended(e);
    lemma_ended_size(e.history);
    lemma_steps(e, m);
    lemma_replace_steps(e);
    match m {
        Message::Enter => lemma_undo_keys(f),
        Message::Backspace => if f.cursors.any_selected() {
            lemma_undo_cut(f);
        } else {
            lemma_undo_keys(f);
        },
        Message::Delete => if f.cursors.any_selected() {
            lemma_undo_cut(f);
        } else {
            lemma_undo_keys(f);
        },
        Message::DeleteSelection => lemma_undo_cut(f),
        Message::Paste(text) => lemma_undo_paste(f, text@),
        Message::ReplaceNext => lemma_undo_replacements(e),
        Message::ReplaceAll => lemma_undo_replacements(e),
        _ => {},
    }
}

/// Closing a group leaves the limit as it is.
proof fn lemma_ended_size(p: Past)
    ensures
        p.ended().max_size == p.max_size,
{
}

/// Recording commands one by one: the latest entries are theirs.
proof fn lemma_recorded_each_len(p: Past, edits: Seq<Edit>)
    requires
        p.open is None,
        edits.len() <= p.max_size,
    ensures
        p.recorded_each(edits).open is None,
        p.recorded_each(edits).max_size == p.max_size,
        p.recorded_each(edits).undo.len() >= edits.len(),
    decreases edits.len(),
{
    if edits.len() > 0 {
        lemma_recorded_each_len(p, edits.drop_last());
    }
}

/// Undoing the entries of commands that were recorded one by one undoes the commands.
proof fn lemma_undone_each(r: Editor, p: Past, edits: Seq<Edit>, k: int)
    requires
        !r.is_grouping,
        r.history.open is None,
        p.open is None,
        edits.len() <= p.max_size,
        0 <= k,
        r.history.undo.len() >= edits.len(),
        k <= p.recorded_each(edits).undo.len(),
        r.history.undo == p.recorded_each(edits).undo.skip(k),
    ensures
        r.undone_times(edits.len() as int).buffer == undo_all(edits, r.buffer),
    decreases edits.len(),
{
    if edits.len() > 0 {
        let head = edits.drop_last();
        let last = edits.last();
        let h = p.recorded_each(head);
        lemma_recorded_each_len(p, head);
        let g = Group { label: Seq::empty(), edits: seq![last] };
        let all = h.undo.push(g);
        let t: int = if all.len() > h.max_size {
            all.len() - h.max_size
        } else {
            0
        };
        assert(p.recorded_each(edits).undo =~= all.skip(t));
        assert(r.history.undo =~= all.skip(t + k));
        assert(r.history.undo.last() == g);
        assert(r.history.undo.drop_last() =~= h.undo.skip(t + k));
        let u = r.undone();
        lemma_undone_one(r, g);
        assert(undo_all(g.edits, r.buffer) == last.undone(r.buffer)) by {
            assert(g.edits.drop_last() =~= Seq::empty());
            assert(undo_all(g.edits.drop_last(), last.undone(r.buffer)) == last.undone(r.buffer));
        }
        lemma_undone_each(u, p, head, t + k);
    }
}

proof fn lemma_undone_one(r: Editor, g: Group)
    requires
        !r.is_grouping,
        r.history.open is None,
        r.history.undo.len() > 0,
        r.history.undo.last() == g,
    ensures
        r.undone().buffer == undo_all(g.edits, r.buffer),
        r.undone().history.undo == r.history.undo.drop_last(),
        r.undone().history.open is None,
        !r.undone().is_grouping,
{
}

proof fn lemma_undo_batch(f: Editor, b: Batch)
    requires
        f.history.open is None,
        !f.is_grouping,
        b.leads_from(f.buffer),
        b.edits.len() <= f.history.max_size,
    ensures
        f.with_batch(b).edit_finished().undone_times(b.edits.len() as int).buffer == f.buffer,
{
    let r = f.with_batch(b).edit_finished();
    lemma_recorded_each_len(f.history, b.edits);
    assert(f.history.recorded_each(b.edits).undo.skip(0) =~= r.history.undo);
    lemma_undone_each(r, f.history, b.edits, 0);
}

/// Enter, Backspace and Delete at several cursors make an entry of the history for each of them,
/// and undoing as many entries takes back what they did to the text.
pub proof fn law_undo_takes_back_every_cursor(e: Editor, m: Message) -> (n: int)
    requires
        e.sound(),
        e.cursors.list.len() <= e.history.max_size,
        e.cursors.list.len() <= usize::MAX,
        m is Enter || (m is Backspace || m is Delete) && !e.cursors.any_selected(),
    ensures
        0 <= n <= e.cursors.list.len(),
        e.step(m).undone_times(n).buffer == e.buffer,
{
    let f = e.grouping_ended();
    let indent = f.indenting.auto_indent_enabled;
    lemma_ended(e);
    lemma_ended_size(e.history);
    lemma_steps(e, m);
    lemma_descending_len(f);
    lemma_command_counts(f.batch(), f.descending(), indent);
    lemma_broken(f.batch(), f.descending(), indent, f.buffer);
    lemma_erased(f.batch(), f.descending(), f.buffer);
    lemma_deleted(f.batch(), f.descending(), f.buffer);
    let b = match m {
        Message::Enter => f.batch().broken(f.descending(), indent),
        Message::Backspace => f.batch().erased(f.descending()),
        _ => f.batch().deleted(f.descending()),
    };
    lemma_undo_batch(f, b);
    b.edits.len() as int
}

} // verus!
