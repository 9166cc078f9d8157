//! Laws of the save point: a text that counts as unmodified is the one that was saved. And of the
//! limit: a history never holds more entries than it may.
use vstd::prelude::*;

use crate::batch::{lemma_broken, lemma_deleted, lemma_erased, lemma_tabbed, lemma_typed, Batch};
use crate::command::{
    all_fit, all_wf, lemma_executed, lemma_run_all, lemma_undo_all, run_all, undo_all, Edit, Group,
};
use crate::editor::Editor;
use crate::find_replace::{replacement, replacements};
use crate::frame_laws::law_only_edits_change_the_text;
use crate::history::{
    lemma_open_empty, lemma_recorded_each, lemma_run_all_caret, lemma_undo_all_concat,
    lemma_wf_size, Past,
};
use crate::history_laws::{
    lemma_cut_leads, lemma_descending, lemma_ended, lemma_paste_leads, lemma_started,
};
use crate::message::Message;
use crate::text_buffer::lemma_join_split;

verus! {

/// The text after the latest entries were undone, down to the first `n`.
pub open spec fn undo_to(groups: Seq<Group>, lines: Seq<Seq<char>>, n: int) -> Seq<Seq<char>>
    decreases groups.len(),
{
    if groups.len() == 0 || groups.len() <= n {
        lines
    } else {
        undo_to(groups.drop_last(), undo_all(groups.last().edits, lines), n)
    }
}

/// The text after the next `k` entries were redone.
pub open spec fn redo_by(groups: Seq<Group>, lines: Seq<Seq<char>>, k: int) -> Seq<Seq<char>>
    decreases groups.len(),
{
    if groups.len() == 0 || k <= 0 {
        lines
    } else {
        redo_by(groups.drop_last(), run_all(groups.last().edits, lines, (0, 0)).lines, k - 1)
    }
}

impl Past {
    /// The text when the history held `n` entries to be undone, if it is `lines` now.
    pub open spec fn text_at(self, lines: Seq<Seq<char>>, n: int) -> Seq<Seq<char>> {
        if n <= self.undo.len() {
            undo_to(self.all_undo(), lines, n)
        } else {
            redo_by(self.redo, lines, n - self.undo.len())
        }
    }

    /// The save point, if there is one, is where the text was `saved`.
    pub open spec fn remembers(self, lines: Seq<Seq<char>>, saved: Seq<Seq<char>>) -> bool {
        self.saved matches Some(n) ==> {
            &&& 0 <= n <= self.undo.len() + self.redo.len()
            &&& self.text_at(lines, n) == saved
        }
    }
}

/// A text that counts as unmodified is the one that was saved.
pub proof fn law_an_unmodified_text_is_the_saved_one(e: Editor, saved: Seq<Seq<char>>)
    requires
        e.history.remembers(e.buffer, saved),
        !e.history.modified(),
    ensures
        e.buffer == saved,
{
    if let Some(g) = e.history.open {
        lemma_open_nothing(e.history.undo, g, e.buffer, e.history.undo.len() as int);
    }
}

/// An empty entry changes nothing.
proof fn lemma_open_nothing(groups: Seq<Group>, g: Group, lines: Seq<Seq<char>>, n: int)
    requires
        g.edits.len() == 0,
        n <= groups.len(),
    ensures
        undo_to(groups.push(g), lines, n) == undo_to(groups, lines, n),
{
    assert(groups.push(g).drop_last() =~= groups);
}

/// Marking the present text as saved makes it the one that counts as unmodified.
pub proof fn law_marking_remembers_the_text(e: Editor)
    ensures
        (Past {
            saved: Some(e.history.ended().undo.len() as int),
            ..e.history.ended()
        }).remembers(e.buffer, e.buffer),
{
}

proof fn lemma_begun_remembers(p: Past, label: Seq<char>, lines: Seq<Seq<char>>, t: Seq<Seq<char>>)
    requires
        p.remembers(lines, t),
    ensures
        p.begun(label).remembers(lines, t),
{
    if p.open is None {
        if let Some(n) = p.saved {
            if n <= p.undo.len() {
                lemma_open_nothing(p.undo, Group { label, edits: Seq::empty() }, lines, n);
            }
        }
    }
}

/// Undoing down to an entry does not depend on the entries before it.
proof fn lemma_undo_to_skip(groups: Seq<Group>, lines: Seq<Seq<char>>, n: int, k: int)
    requires
        0 <= k <= n,
        k <= groups.len(),
    ensures
        undo_to(groups.skip(k), lines, n - k) == undo_to(groups, lines, n),
    decreases groups.len(),
{
    if groups.len() > n {
        assert(groups.skip(k).drop_last() =~= groups.drop_last().skip(k));
        lemma_undo_to_skip(groups.drop_last(), undo_all(groups.last().edits, lines), n, k);
    }
}

proof fn lemma_trimmed_remembers(p: Past, lines: Seq<Seq<char>>, t: Seq<Seq<char>>)
    requires
        p.remembers(lines, t),
        p.max_size >= 0,
    ensures
        p.trimmed().remembers(lines, t),
{
    if p.undo.len() > p.max_size {
        let k = p.undo.len() - p.max_size;
        if let Some(n) = p.saved {
            if n >= k && n <= p.undo.len() {
                lemma_undo_to_skip(p.all_undo(), lines, n, k);
                assert(p.trimmed().all_undo() =~= p.all_undo().skip(k));
            }
        }
    }
}

proof fn lemma_entered_remembers(
    p: Past,
    g: Group,
    lines: Seq<Seq<char>>,
    next: Seq<Seq<char>>,
    t: Seq<Seq<char>>,
)
    requires
        p.remembers(lines, t),
        p.open is None,
        p.max_size >= 0,
        undo_all(g.edits, next) == lines,
    ensures
        p.entered(g).remembers(next, t),
{
    let q = Past { undo: p.undo.push(g), ..p.without_redo() };
    assert(p.undo.push(g).drop_last() =~= p.undo);
    assert(q.remembers(next, t));
    lemma_trimmed_remembers(q, next, t);
}

proof fn lemma_recorded_remembers(
    p: Past,
    g: Group,
    lines: Seq<Seq<char>>,
    next: Seq<Seq<char>>,
    t: Seq<Seq<char>>,
)
    requires
        p.wf(),
        p.coherent(lines),
        p.remembers(lines, t),
        all_fit(g.edits, next),
        undo_all(g.edits, next) == lines,
    ensures
        p.recorded(g).remembers(next, t),
{
    lemma_wf_size(p);
    match p.open {
        Some(h) => {
            let both = Group { label: h.label, edits: h.edits + g.edits };
            assert(p.undo.push(h).drop_last() =~= p.undo);
            assert(p.undo.push(both).drop_last() =~= p.undo);
            lemma_undo_all_concat(h.edits, g.edits, next);
        },
        None => lemma_entered_remembers(p, g, lines, next, t),
    }
}

proof fn lemma_recorded_each_remembers(
    p: Past,
    edits: Seq<Edit>,
    lines: Seq<Seq<char>>,
    next: Seq<Seq<char>>,
    t: Seq<Seq<char>>,
)
    requires
        p.wf(),
        p.coherent(lines),
        p.remembers(lines, t),
        all_wf(edits),
        all_fit(edits, next),
        undo_all(edits, next) == lines,
    ensures
        p.recorded_each(edits).remembers(next, t),
    decreases edits.len(),
{
    if edits.len() > 0 {
        let last = edits.last();
        let head = edits.drop_last();
        let prior = last.undone(next);
        assert forall|i: int| 0 <= i < head.len() implies (#[trigger] head[i]).wf() by {
            assert(edits[i].wf());
        }
        lemma_recorded_each(p, head, lines, prior);
        lemma_recorded_each_remembers(p, head, lines, prior, t);
        let g = Group { label: Seq::empty(), edits: seq![last] };
        assert(g.edits.drop_last() =~= Seq::empty());
        assert(undo_all(g.edits.drop_last(), prior) == prior);
        assert(all_fit(g.edits.drop_last(), prior));
        lemma_recorded_remembers(p.recorded_each(head), g, prior, next, t);
    }
}

proof fn lemma_ended_remembers(p: Past, lines: Seq<Seq<char>>, t: Seq<Seq<char>>)
    requires
        p.wf(),
        p.remembers(lines, t),
    ensures
        p.ended().remembers(lines, t),
{
    lemma_wf_size(p);
    if let Some(g) = p.open {
        if g.edits.len() == 0 {
            if let Some(n) = p.saved {
                if n <= p.undo.len() {
                    lemma_open_nothing(p.undo, g, lines, n);
                }
            }
        } else {
            if p.redo.len() > 0 {
                lemma_open_empty(p);
            }
            let q = Past { undo: p.undo.push(g), open: None, ..p.without_redo() };
            assert(q.remembers(lines, t));
            lemma_trimmed_remembers(q, lines, t);
            assert(p.ended() == q.trimmed());
        }
    }
}

proof fn lemma_undone_remembers(p: Past, lines: Seq<Seq<char>>, t: Seq<Seq<char>>)
    requires
        p.open is None,
        p.undo.len() > 0,
        p.coherent(lines),
        p.remembers(lines, t),
        lines.len() > 0,
    ensures
        p.undone().remembers(undo_all(p.undo.last().edits, lines), t),
{
    let g = p.undo.last();
    lemma_undo_all(g.edits, lines, (0, 0));
    let q = p.undone();
    assert(q.redo.drop_last() =~= p.redo);
    assert(q.redo.last() == g);
    if let Some(n) = p.saved {
        if n == p.undo.len() {
            assert(redo_by(q.redo, undo_all(g.edits, lines), 1) == redo_by(p.redo, lines, 0));
        }
    }
}

proof fn lemma_redone_remembers(p: Past, lines: Seq<Seq<char>>, t: Seq<Seq<char>>)
    requires
        p.wf(),
        p.redo.len() > 0,
        p.coherent(lines),
        p.remembers(lines, t),
        lines.len() > 0,
    ensures
        p.redone(lines).remembers(run_all(p.redo.last().edits, lines, (0, 0)).lines, t),
{
    lemma_wf_size(p);
    lemma_open_empty(p);
    let g = p.redo.last();
    lemma_run_all(g.edits, lines, (0, 0));
    let out = run_all(g.edits, lines, (0, 0));
    let h = Group { label: g.label, edits: out.edits };
    let q = Past { undo: p.undo.push(h), redo: p.redo.drop_last(), ..p };
    assert(q.undo.drop_last() =~= p.undo);
    if let Some(n) = p.saved {
        if let Some(o) = p.open {
            if n <= p.undo.len() {
                lemma_open_nothing(p.undo, o, lines, n);
            }
            if n <= q.undo.len() {
                lemma_open_nothing(q.undo, o, out.lines, n);
            }
        }
        if n == q.undo.len() {
            assert(redo_by(p.redo, lines, 1) == redo_by(p.redo.drop_last(), out.lines, 0));
        }
    }
    assert(q.remembers(out.lines, t));
    lemma_trimmed_remembers(q, out.lines, t);
}

impl Editor {
    /// The save point of the history, if there is one, is where the text was `saved`.
    pub open spec fn remembers(self, saved: Seq<Seq<char>>) -> bool {
        self.history.remembers(self.buffer, saved)
    }
}

proof fn lemma_batch_remembers(f: Editor, b: Batch, t: Seq<Seq<char>>)
    requires
        f.sound(),
        f.remembers(t),
        b.leads_from(f.buffer),
    ensures
        f.with_batch(b).edit_finished().remembers(t),
{
    lemma_recorded_each_remembers(f.history, b.edits, f.buffer, b.lines, t);
}

proof fn lemma_group_remembers(f: Editor, b: Batch, label: Seq<char>, t: Seq<Seq<char>>)
    requires
        f.sound(),
        f.remembers(t),
        b.leads_from(f.buffer),
    ensures
        f.with_group(b, label).edit_finished().remembers(t),
{
    if b.edits.len() > 0 {
        lemma_recorded_remembers(
            f.history,
            Group { label, edits: b.edits },
            f.buffer,
            b.lines,
            t,
        );
    }
}

proof fn lemma_typing_remembers(e: Editor, ch: char, t: Seq<Seq<char>>)
    requires
        e.sound(),
        e.remembers(t),
        e.cursors.list.len() <= usize::MAX,
    ensures
        e.typed(ch).remembers(t),
        e.tabbed().remembers(t),
{
    let f = e.grouping_started("Typing"@);
    lemma_started(e, "Typing"@);
    lemma_begun_remembers(e.history, "Typing"@, e.buffer, t);
    lemma_descending(f);
    lemma_typed(f.batch(), f.descending(), ch, f.buffer);
    lemma_batch_remembers(f, f.batch().typed(f.descending(), ch), t);
    let f = e.grouping_started("Tab"@);
    lemma_started(e, "Tab"@);
    lemma_begun_remembers(e.history, "Tab"@, e.buffer, t);
    lemma_tabbed(f.batch(), f.descending(), f.indenting.style, f.buffer);
    lemma_batch_remembers(f, f.batch().tabbed(f.descending(), f.indenting.style), t);
}

proof fn lemma_cut_remembers(f: Editor, t: Seq<Seq<char>>)
    requires
        f.sound(),
        f.remembers(t),
        f.cursors.list.len() <= usize::MAX,
    ensures
        f.cut_if_selected().remembers(t),
{
    lemma_cut_leads(f);
    lemma_group_remembers(f, f.batch().cut(f.descending()), "Delete selection"@, t);
}

proof fn lemma_closing_remembers(e: Editor, t: Seq<Seq<char>>)
    requires
        e.sound(),
        e.remembers(t),
    ensures
        e.grouping_ended().remembers(t),
{
    lemma_ended_remembers(e.history, e.buffer, t);
}

proof fn lemma_keys_remember(e: Editor, t: Seq<Seq<char>>)
    requires
        e.sound(),
        e.remembers(t),
        e.cursors.list.len() <= usize::MAX,
    ensures
        e.broken().remembers(t),
        e.erased().remembers(t),
        e.deleted().remembers(t),
        e.grouping_ended().cut_if_selected().remembers(t),
{
    let f = e.grouping_ended();
    lemma_ended(e);
    lemma_closing_remembers(e, t);
    lemma_cut_remembers(f, t);
    lemma_descending(f);
    let indent = f.indenting.auto_indent_enabled;
    lemma_broken(f.batch(), f.descending(), indent, f.buffer);
    lemma_erased(f.batch(), f.descending(), f.buffer);
    lemma_deleted(f.batch(), f.descending(), f.buffer);
    lemma_batch_remembers(f, f.batch().broken(f.descending(), indent), t);
    lemma_batch_remembers(f, f.batch().erased(f.descending()), t);
    lemma_batch_remembers(f, f.batch().deleted(f.descending()), t);
}

proof fn lemma_pasting_remembers(e: Editor, text: Seq<char>, t: Seq<Seq<char>>)
    requires
        e.sound(),
        e.remembers(t),
        e.cursors.list.len() <= usize::MAX,
    ensures
        e.paste_handled(text).remembers(t),
        e.committed(text).remembers(t),
{
    let f = e.grouping_ended();
    lemma_ended(e);
    lemma_closing_remembers(e, t);
    lemma_paste_leads(f, text);
    lemma_group_remembers(f, f.paste_batch(text), "Paste"@, t);
    let h = Editor { ime_preedit: None, ..e };
    assert(h.sound());
    let s = h.grouping_started("Typing"@);
    lemma_started(h, "Typing"@);
    lemma_begun_remembers(h.history, "Typing"@, h.buffer, t);
    lemma_paste_leads(s, text);
    lemma_group_remembers(s, s.paste_batch(text), "Paste"@, t);
}

proof fn lemma_history_remembers(e: Editor, t: Seq<Seq<char>>)
    requires
        e.sound(),
        e.remembers(t),
    ensures
        e.undone().remembers(t),
        e.redone().remembers(t),
{
    let f = e.grouping_ended();
    lemma_ended(e);
    lemma_closing_remembers(e, t);
    if f.history.undo.len() > 0 {
        lemma_undone_remembers(f.history, f.buffer, t);
    }
    if e.history.redo.len() > 0 {
        lemma_redone_remembers(e.history, e.buffer, t);
        lemma_run_all_caret(
            e.history.redo.last().edits,
            e.buffer,
            e.cursors.primary_cursor().position,
            (0, 0),
        );
    }
}

proof fn lemma_replacing_remembers(e: Editor, t: Seq<Seq<char>>)
    requires
        e.sound(),
        e.remembers(t),
    ensures
        e.next_replaced().remembers(t),
        e.all_replaced().remembers(t),
{
    let caret = e.cursors.primary_cursor().position;
    lemma_join_split(e.search.replace_with);
    if let Some(m) = e.search.current_match() {
        let edit = replacement(m, e.search.query, e.search.replace_with, caret);
        lemma_executed(edit, e.buffer);
        let g = Group { label: Seq::empty(), edits: seq![edit.on(e.buffer)] };
        assert(g.edits.drop_last() =~= Seq::empty());
        assert(undo_all(g.edits.drop_last(), e.buffer) == e.buffer);
        assert(all_fit(g.edits.drop_last(), e.buffer));
        lemma_recorded_remembers(e.history, g, e.buffer, edit.result(e.buffer), t);
    }
    let matches = e.all_matches();
    if matches.len() > 0 {
        let edits = replacements(matches, e.search.query, e.search.replace_with, caret);
        assert(all_wf(edits));
        lemma_run_all(edits, e.buffer, caret);
        let out = run_all(edits, e.buffer, caret);
        let g = Group { label: "Replace All"@, edits: out.edits };
        lemma_recorded_remembers(e.history, g, e.buffer, out.lines, t);
    }
}

proof fn lemma_edit_step_remembers(e: Editor, m: Message, t: Seq<Seq<char>>)
    requires
        e.sound(),
        e.remembers(t),
        e.cursors.list.len() <= usize::MAX,
    ensures
        e.edit_step(m).remembers(t),
{
    reveal(Editor::edit_step);
    match m {
        Message::CharacterInput(ch) => lemma_typing_remembers(e, ch, t),
        Message::Tab => lemma_typing_remembers(e, ' ', t),
        Message::Enter => lemma_keys_remember(e, t),
        Message::Backspace => lemma_keys_remember(e, t),
        Message::Delete => lemma_keys_remember(e, t),
        Message::DeleteSelection => lemma_keys_remember(e, t),
        Message::Paste(text) => lemma_pasting_remembers(e, text@, t),
        Message::ImeCommit(text) => lemma_pasting_remembers(e, text@, t),
        Message::Undo => lemma_history_remembers(e, t),
        Message::Redo => lemma_history_remembers(e, t),
        _ => {},
    }
}

proof fn lemma_search_step_remembers(e: Editor, m: Message, t: Seq<Seq<char>>)
    requires
        e.sound(),
        e.remembers(t),
        m is ReplaceNext || m is ReplaceAll,
    ensures
        e.search_step(m).remembers(t),
{
    reveal(Editor::search_step);
    lemma_replacing_remembers(e, t);
}

/// No message makes an editor forget which text was saved: as long as it has a save point, that
/// is where the text was the saved one.
pub proof fn law_every_message_remembers_the_saved_text(
    e: Editor,
    m: Message,
    saved: Seq<Seq<char>>,
)
    requires
        e.sound(),
        e.remembers(saved),
        e.cursors.list.len() <= usize::MAX,
    ensures
        e.step(m).remembers(saved),
{
    if m.edits() {
        lemma_edit_step_remembers(e, m, saved);
    } else if m is ReplaceNext || m is ReplaceAll {
        lemma_search_step_remembers(e, m, saved);
    } else {
        law_only_edits_change_the_text(e, m);
        lemma_closing_remembers(e, saved);
    }
}

impl Past {
    /// There are no more entries than there may be.
    pub open spec fn bounded(self) -> bool {
        self.undo.len() <= self.max_size
    }
}

/// Recording commands, together or one by one, keeps a history within its limit.
proof fn lemma_recorded_each_bounded(p: Past, edits: Seq<Edit>)
    requires
        p.bounded(),
    ensures
        p.recorded_each(edits).bounded(),
        p.recorded_each(edits).max_size == p.max_size,
    decreases edits.len(),
{
    if edits.len() > 0 {
        lemma_recorded_each_bounded(p, edits.drop_last());
    }
}

proof fn lemma_typing_bounded(e: Editor, ch: char)
    requires
        e.history.bounded(),
    ensures
        e.typed(ch).history.bounded() && e.typed(ch).history.max_size == e.history.max_size,
        e.tabbed().history.bounded() && e.tabbed().history.max_size == e.history.max_size,
{
    let f = e.grouping_started("Typing"@);
    lemma_recorded_each_bounded(f.history, f.batch().typed(f.descending(), ch).edits);
    let f = e.grouping_started("Tab"@);
    lemma_recorded_each_bounded(
        f.history,
        f.batch().tabbed(f.descending(), f.indenting.style).edits,
    );
}

proof fn lemma_keys_bounded(e: Editor)
    requires
        e.history.bounded(),
    ensures
        e.broken().history.bounded() && e.broken().history.max_size == e.history.max_size,
        e.erased().history.bounded() && e.erased().history.max_size == e.history.max_size,
        e.deleted().history.bounded() && e.deleted().history.max_size == e.history.max_size,
{
    let f = e.grouping_ended();
    lemma_recorded_each_bounded(
        f.history,
        f.batch().broken(f.descending(), f.indenting.auto_indent_enabled).edits,
    );
    lemma_recorded_each_bounded(f.history, f.batch().erased(f.descending()).edits);
    lemma_recorded_each_bounded(f.history, f.batch().deleted(f.descending()).edits);
}

proof fn lemma_others_bounded(e: Editor, text: Seq<char>)
    requires
        e.history.bounded(),
    ensures
        ({
            let f = e.grouping_ended().cut_if_selected();
            f.history.bounded() && f.history.max_size == e.history.max_size
        }),
        ({
            let f = e.paste_handled(text);
            f.history.bounded() && f.history.max_size == e.history.max_size
        }),
        ({
            let f = e.committed(text);
            f.history.bounded() && f.history.max_size == e.history.max_size
        }),
        e.undone().history.bounded() && e.undone().history.max_size == e.history.max_size,
        e.redone().history.bounded() && e.redone().history.max_size == e.history.max_size,
{
}

proof fn lemma_edit_step_bounded(e: Editor, m: Message)
    requires
        e.history.bounded(),
    ensures
        e.edit_step(m).history.bounded(),
        e.edit_step(m).history.max_size == e.history.max_size,
{
    reveal(Editor::edit_step);
    match m {
        Message::CharacterInput(ch) => lemma_typing_bounded(e, ch),
        Message::Tab => lemma_typing_bounded(e, ' '),
        Message::Enter => lemma_keys_bounded(e),
        Message::Backspace => lemma_keys_bounded(e),
        Message::Delete => lemma_keys_bounded(e),
        Message::Paste(text) => lemma_others_bounded(e, text@),
        Message::ImeCommit(text) => lemma_others_bounded(e, text@),
        _ => lemma_others_bounded(e, Seq::empty()),
    }
}

proof fn lemma_search_step_bounded(e: Editor, m: Message)
    requires
        e.history.bounded(),
    ensures
        e.search_step(m).history.bounded(),
        e.search_step(m).history.max_size == e.history.max_size,
{
    reveal(Editor::search_step);
}

/// Whatever message an editor is given, its history holds no more entries than it may, and that
/// limit stays what it is.
pub proof fn law_a_history_stays_within_its_limit(e: Editor, m: Message)
    requires
        e.history.bounded(),
    ensures
        e.step(m).history.bounded(),
        e.step(m).history.max_size == e.history.max_size,
{
    if m.edits() {
        lemma_edit_step_bounded(e, m);
    } else if m is ReplaceNext || m is ReplaceAll {
        lemma_search_step_bounded(e, m);
    } else {
        law_only_edits_change_the_text(e, m);
    }
}

} // verus!
