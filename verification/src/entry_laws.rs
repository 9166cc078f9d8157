//! Laws of the entries of the history: what makes one, what ends one, and how undo, redo and the
//! save point go from one to the next.
use vstd::prelude::*;

use crate::batch::{lemma_broken, lemma_deleted, lemma_erased, Batch};
use crate::command::{
    all_wf, lemma_executed, lemma_run_all, lemma_undo_all, run_all, undo_all, Edit, Group,
};
use crate::cursor_set::carets;
use crate::edit_laws::lemma_edit_steps;
use crate::editor::Editor;
use crate::find_replace::{replacement, replacements};
use crate::history::{lemma_run_all_caret, Past};
use crate::history_laws::{
    law_every_message_keeps_the_history_sound, law_one_undo_takes_back_what_was_typed,
    law_redo_takes_back_undo,
    lemma_cut_leads, lemma_descending, lemma_ended, lemma_paste_leads,
};
use crate::message::{IndentStyle, Message};
use crate::order::{lemma_order_exists, lemma_order_of_one, order_of};
use crate::position::Position;
use crate::save_laws::undo_to;
use crate::text_buffer::{at, end_of, lemma_join_split, split_lines};
use crate::undo_laws::{lemma_command_counts, lemma_replace_steps};

verus! {

/// The messages that end what was being typed.
pub open spec fn ends_typing(m: Message) -> bool {
    m is ArrowKey || m is GotoPosition || m is MouseClick || m is Enter || m is Backspace
        || m is Delete || m is DeleteSelection || m is Paste || m is Undo
}

/// The messages that type.
pub open spec fn types(e: Editor, m: Message) -> bool {
    match m {
        Message::CharacterInput(_) => e.focused(),
        Message::Tab => true,
        Message::ImeCommit(text) => text@.len() > 0,
        _ => false,
    }
}

proof fn lemma_groups_of_edits(e: Editor, m: Message)
    requires
        e.sound(),
        m.edits(),
    ensures
        ends_typing(m) ==> !e.step(m).is_grouping && e.step(m).history.open is None,
        types(e, m) ==> e.step(m).is_grouping,
        types(e, m) && (e.is_grouping ==> e.history.open is Some) ==> e.step(
            m,
        ).history.open is Some,
        !ends_typing(m) && !types(e, m) ==> e.step(m).is_grouping == e.is_grouping,
{
    lemma_edit_steps(e, m);
    lemma_ended(e);
    let f = e.grouping_ended();
    let indent = f.indenting.auto_indent_enabled;
    lemma_open_stays(f.history, f.batch().broken(f.descending(), indent).edits);
    lemma_open_stays(f.history, f.batch().erased(f.descending()).edits);
    lemma_open_stays(f.history, f.batch().deleted(f.descending()).edits);
    if let Message::CharacterInput(ch) = m {
        let g = e.grouping_started("Typing"@);
        lemma_open_stays(g.history, g.batch().typed(g.descending(), ch).edits);
    }
    if m is Tab {
        let g = e.grouping_started("Tab"@);
        lemma_open_stays(g.history, g.batch().tabbed(g.descending(), g.indenting.style).edits);
    }
}

/// Recording commands opens and closes no group.
proof fn lemma_open_stays(p: Past, edits: Seq<Edit>)
    ensures
        p.recorded_each(edits).open is Some == p.open is Some,
        p.recorded_each(edits).max_size == p.max_size,
        edits.len() > 0 ==> p.recorded_each(edits).redo.len() == 0,
    decreases edits.len(),
{
    if edits.len() > 0 {
        lemma_open_stays(p, edits.drop_last());
    }
}

proof fn lemma_groups_of_others(e: Editor, m: Message)
    requires
        e.sound(),
        !m.edits(),
    ensures
        ends_typing(m) ==> !e.step(m).is_grouping && e.step(m).history.open is None,
        !ends_typing(m) ==> e.step(m).is_grouping == e.is_grouping,
        !ends_typing(m) && !(m is ReplaceNext) && !(m is ReplaceAll) ==> e.step(m).history
            == e.history,
{
    lemma_ended(e);
    if m.navigates() {
        reveal(Editor::navigation_step);
    } else if m.selects() {
        reveal(Editor::selection_step);
    } else if m.searches() {
        reveal(Editor::search_step);
    } else {
        reveal(Editor::view_step);
    }
}

/// What is typed, with Tab and an input method too, is gathered in one entry of the history until
/// an arrow key, a jump, a click or another edit ends it. All other messages leave it as it is.
pub proof fn law_typing_is_gathered_until_it_ends(e: Editor, m: Message)
    requires
        e.sound(),
    ensures
        ends_typing(m) ==> !e.step(m).is_grouping && e.step(m).history.open is None,
        types(e, m) ==> e.step(m).is_grouping,
        types(e, m) && (e.is_grouping ==> e.history.open is Some) ==> e.step(
            m,
        ).history.open is Some,
        !ends_typing(m) && !types(e, m) ==> e.step(m).is_grouping == e.is_grouping,
        !ends_typing(m) && !m.edits() && !(m is ReplaceNext) && !(m is ReplaceAll) ==> e.step(
            m,
        ).history == e.history,
{
    if m.edits() {
        lemma_groups_of_edits(e, m);
    } else {
        lemma_groups_of_others(e, m);
    }
}

/// What is typed after the caret was moved is an entry of its own: one Undo takes back what was
/// typed since then, and nothing of what was typed before.
pub proof fn law_moving_separates_what_is_typed(e: Editor, m: Message, messages: Seq<Message>)
    requires
        e.sound(),
        ends_typing(m),
        e.cursors.list.len() < usize::MAX,
        e.step(m).cursors.list.len() <= usize::MAX,
        e.step(m).history.max_size > 0,
        forall|i: int| 0 <= i < messages.len() ==> (#[trigger] messages[i]).is_grouped(),
        e.step(m).stepped(messages).buffer != e.step(m).buffer,
    ensures
        e.step(m).stepped(messages).step(Message::Undo).buffer == e.step(m).buffer,
{
    law_typing_is_gathered_until_it_ends(e, m);
    law_every_message_keeps_the_history_sound(e, m);
    law_one_undo_takes_back_what_was_typed(e.step(m), messages);
}

/// A change of the text, other than by Undo and Redo, leaves nothing to redo.
pub proof fn law_a_change_leaves_nothing_to_redo(e: Editor, m: Message)
    requires
        e.wf(),
        e.cursors.list.len() <= usize::MAX,
        !(m is Undo),
        !(m is Redo),
        m.may_change_text(),
        e.step(m).buffer != e.buffer,
    ensures
        e.step(m).history.redo.len() == 0,
{
    lemma_edit_steps(e, m);
    lemma_replace_steps(e);
    let f = e.grouping_ended();
    let indent = f.indenting.auto_indent_enabled;
    lemma_nothing_ran(f, indent);
    lemma_open_stays(f.history, f.batch().broken(f.descending(), indent).edits);
    lemma_open_stays(f.history, f.batch().erased(f.descending()).edits);
    lemma_open_stays(f.history, f.batch().deleted(f.descending()).edits);
    match m {
        Message::CharacterInput(ch) => {
            let g = e.grouping_started("Typing"@);
            lemma_nothing_typed(g, ch, Seq::empty());
            lemma_open_stays(g.history, g.batch().typed(g.descending(), ch).edits);
        },
        Message::Tab => {
            let g = e.grouping_started("Tab"@);
            lemma_nothing_typed(g, ' ', Seq::empty());
            lemma_open_stays(g.history, g.batch().tabbed(g.descending(), g.indenting.style).edits);
        },
        Message::Paste(text) => lemma_nothing_typed(f, ' ', text@),
        Message::ImeCommit(text) => {
            let g = (Editor { ime_preedit: None, ..e }).grouping_started("Typing"@);
            lemma_nothing_typed(g, ' ', text@);
        },
        _ => {},
    }
}

/// Without a command the text stays.
proof fn lemma_nothing_ran(f: Editor, indent: bool)
    ensures
        ({
            let b = f.batch().broken(f.descending(), indent);
            b.edits.len() == 0 ==> b.lines == f.buffer
        }),
        ({
            let b = f.batch().erased(f.descending());
            b.edits.len() == 0 ==> b.lines == f.buffer
        }),
        ({
            let b = f.batch().deleted(f.descending());
            b.edits.len() == 0 ==> b.lines == f.buffer
        }),
        ({
            let b = f.batch().cut(f.descending());
            b.edits.len() == 0 ==> b.lines == f.buffer
        }),
{
    lemma_no_command(f.batch(), f.descending(), indent);
}

proof fn lemma_no_command(b: Batch, order: Seq<usize>, indent: bool)
    ensures
        b.broken(order, indent).edits.len() == 0 ==> b.broken(order, indent).lines == b.lines,
        b.erased(order).edits.len() == 0 ==> b.erased(order).lines == b.lines,
        b.deleted(order).edits.len() == 0 ==> b.deleted(order).lines == b.lines,
        b.cut(order).edits.len() == 0 ==> b.cut(order).lines == b.lines,
    decreases order.len(),
{
    if order.len() > 0 {
        lemma_no_command(b, order.drop_last(), indent);
    }
}

proof fn lemma_nothing_typed(f: Editor, ch: char, text: Seq<char>)
    ensures
        ({
            let b = f.batch().typed(f.descending(), ch);
            b.edits.len() == 0 ==> b.lines == f.buffer
        }),
        ({
            let b = f.batch().tabbed(f.descending(), f.indenting.style);
            b.edits.len() == 0 ==> b.lines == f.buffer
        }),
        f.paste_batch(text).edits.len() == 0 ==> f.paste_batch(text).lines == f.buffer,
{
    lemma_no_typed(f.batch(), f.descending(), ch);
    lemma_no_tabbed(f.batch(), f.descending(), f);
    lemma_no_command(f.batch(), f.descending(), false);
    let b = f.batch().cut(f.descending());
    lemma_no_pasted(b, order_of(carets(b.list), true), split_lines(text));
}

proof fn lemma_no_typed(b: Batch, order: Seq<usize>, ch: char)
    ensures
        b.typed(order, ch).edits.len() == 0 ==> b.typed(order, ch).lines == b.lines,
    decreases order.len(),
{
    if order.len() > 0 {
        lemma_no_typed(b, order.drop_last(), ch);
    }
}

proof fn lemma_no_tabbed(b: Batch, order: Seq<usize>, f: Editor)
    ensures
        b.tabbed(order, f.indenting.style).edits.len() == 0 ==> b.tabbed(
            order,
            f.indenting.style,
        ).lines == b.lines,
        b.tabbed(order, f.indenting.style).edits.len() >= b.edits.len(),
    decreases order.len(),
{
    if order.len() > 0 {
        lemma_no_tabbed(b, order.drop_last(), f);
        let h = b.tabbed(order.drop_last(), f.indenting.style);
        if let IndentStyle::Spaces(n) = f.indenting.style {
            let pos = h.list[order.last() as int].position;
            lemma_no_spaced(h, order.last() as int, pos.0, pos, n as int);
        }
    }
}

proof fn lemma_no_spaced(
    b: Batch,
    idx: int,
    line: usize,
    caret: Position,
    n: int,
)
    ensures
        b.spaced(idx, line, caret, n).0.edits.len() == b.edits.len() + (if n > 0 {
            n
        } else {
            0
        }),
        n <= 0 ==> b.spaced(idx, line, caret, n).0 == b,
    decreases n,
{
    if n > 0 {
        lemma_no_spaced(b, idx, line, caret, n - 1);
    }
}

proof fn lemma_no_pasted(b: Batch, order: Seq<usize>, pieces: Seq<Seq<char>>)
    ensures
        b.pasted(order, pieces).edits.len() == b.edits.len() + order.len(),
        order.len() == 0 ==> b.pasted(order, pieces) == b,
    decreases order.len(),
{
    if order.len() > 0 {
        lemma_no_pasted(b, order.drop_last(), pieces);
    }
}

/// A message that makes one entry of the history makes one that takes back what it did.
#[verifier::rlimit(40)]
proof fn lemma_one_entry(e: Editor, m: Message) -> (g: Group)
    requires
        e.sound(),
        !e.is_grouping,
        e.cursors.list.len() <= usize::MAX,
        e.makes_one_entry(m),
        e.step(m).buffer != e.buffer,
    ensures
        e.step(m).history == e.history.entered(g),
        g.edits.len() > 0,
        undo_all(g.edits, e.step(m).buffer) == e.buffer,
        !e.step(m).is_grouping,
        e.cursors.list.len() == 1 && !(m is ReplaceNext) && !(m is ReplaceAll) ==> ends_at(
            g.edits,
            e.step(m).cursors.list[0].position,
        ),
{
    if e.cursors.list.len() == 1 {
        lemma_single_ends_at(
            e,
            e.indenting.auto_indent_enabled,
            if let Message::Paste(text) = m {
                text@
            } else {
                Seq::empty()
            },
        );
    }
    lemma_edit_steps(e, m);
    lemma_replace_steps(e);
    lemma_descending(e);
    lemma_order_exists(carets(e.cursors.list), true);
    let indent = e.indenting.auto_indent_enabled;
    let (start, order) = (e.batch(), e.descending());
    lemma_nothing_ran(e, indent);
    lemma_command_counts(start, order, indent);
    match m {
        Message::ReplaceNext => lemma_replaced_entry(e, m),
        Message::ReplaceAll => lemma_replaced_entry(e, m),
        Message::Paste(text) => {
            lemma_paste_leads(e, text@);
            lemma_nothing_typed(e, ' ', text@);
            Group { label: "Paste"@, edits: e.paste_batch(text@).edits }
        },
        Message::DeleteSelection => {
            lemma_cut_leads(e);
            Group { label: "Delete selection"@, edits: start.cut(order).edits }
        },
        Message::Enter => {
            lemma_broken(start, order, indent, e.buffer);
            lemma_single_entry(e, start.broken(order, indent))
        },
        Message::Backspace => if e.cursors.any_selected() {
            lemma_cut_leads(e);
            Group { label: "Delete selection"@, edits: start.cut(order).edits }
        } else {
            lemma_erased(start, order, e.buffer);
            lemma_single_entry(e, start.erased(order))
        },
        _ => if e.cursors.any_selected() {
            lemma_cut_leads(e);
            Group { label: "Delete selection"@, edits: start.cut(order).edits }
        } else {
            lemma_deleted(start, order, e.buffer);
            lemma_single_entry(e, start.deleted(order))
        },
    }
}

/// One command recorded by itself.
proof fn lemma_single_entry(e: Editor, b: Batch) -> (g: Group)
    requires
        e.history.open is None,
        b.leads_from(e.buffer),
        b.edits.len() == 1,
    ensures
        e.with_batch(b).history == e.history.entered(g),
        g.edits == b.edits,
{
    assert(b.edits =~= seq![b.edits[0]]);
    assert(b.edits.drop_last() =~= Seq::empty());
    assert(e.history.recorded_each(b.edits.drop_last()) == e.history);
    Group { label: Seq::empty(), edits: b.edits }
}

proof fn lemma_replaced_entry(e: Editor, m: Message) -> (g: Group)
    requires
        e.sound(),
        !e.is_grouping,
        m is ReplaceNext || m is ReplaceAll,
        e.step(m).buffer != e.buffer,
    ensures
        e.step(m).history == e.history.entered(g),
        g.edits.len() > 0,
        undo_all(g.edits, e.step(m).buffer) == e.buffer,
        !e.step(m).is_grouping,
{
    lemma_replace_steps(e);
    let caret = e.cursors.primary_cursor().position;
    lemma_join_split(e.search.replace_with);
    if m is ReplaceNext {
        let edit = replacement(
            e.search.current_match()->0,
            e.search.query,
            e.search.replace_with,
            caret,
        );
        lemma_executed(edit, e.buffer);
        let g = Group { label: Seq::empty(), edits: seq![edit.on(e.buffer)] };
        assert(g.edits.drop_last() =~= Seq::empty());
        assert(undo_all(g.edits.drop_last(), e.buffer) == e.buffer);
        g
    } else {
        let edits = replacements(e.all_matches(), e.search.query, e.search.replace_with, caret);
        assert(all_wf(edits));
        lemma_run_all(edits, e.buffer, caret);
        Group { label: "Replace All"@, edits: run_all(edits, e.buffer, caret).edits }
    }
}

/// Every message of the list makes one entry of the history, which changes the text.
pub open spec fn each_makes_an_entry(e: Editor, messages: Seq<Message>) -> bool {
    forall|i: int|
        0 <= i < messages.len() ==> {
            let f = #[trigger] e.stepped(messages.take(i));
            &&& f.makes_one_entry(messages[i])
            &&& f.step(messages[i]).buffer != f.buffer
            &&& f.cursors.list.len() < usize::MAX
        }
}

/// Undo goes back message by message: after as many messages as the history keeps entries, as
/// many times Undo give the text back, and every Undo on the way gives back the text before the
/// message that it takes back.
pub proof fn law_undo_goes_back_message_by_message(
    e: Editor,
    messages: Seq<Message>,
    undos: Seq<Message>,
)
    requires
        e.sound(),
        !e.is_grouping,
        e.history.undo.len() <= e.history.max_size,
        messages.len() <= e.history.max_size,
        each_makes_an_entry(e, messages),
        undos.len() <= messages.len(),
        forall|i: int| 0 <= i < undos.len() ==> (#[trigger] undos[i]) is Undo,
    ensures
        e.stepped(messages).stepped(undos).buffer == e.stepped(
            messages.take(messages.len() - undos.len()),
        ).buffer,
{
    let f = e.stepped(messages);
    let n = messages.len() as int;
    lemma_entries(e, messages);
    assert(messages.take(n) =~= messages);
    lemma_undos(f, undos);
    lemma_back_to(e, messages, n, undos.len() as int);
}

/// The entries that the messages made.
proof fn lemma_entries(e: Editor, messages: Seq<Message>)
    requires
        e.sound(),
        !e.is_grouping,
        e.history.undo.len() <= e.history.max_size,
        messages.len() <= e.history.max_size,
        each_makes_an_entry(e, messages),
    ensures
        e.stepped(messages).sound(),
        !e.stepped(messages).is_grouping,
        e.stepped(messages).history.max_size == e.history.max_size,
        messages.len() <= e.stepped(messages).history.undo.len() <= e.history.max_size,
    decreases messages.len(),
{
    if messages.len() > 0 {
        let head = messages.drop_last();
        let n = messages.len() - 1;
        lemma_head_makes_entries(e, messages);
        lemma_entries(e, head);
        assert(messages.take(n) =~= head);
        let f = e.stepped(messages.take(n));
        assert(f.makes_one_entry(messages[n]));
        let g = lemma_one_entry(f, messages[n]);
        law_every_message_keeps_the_history_sound(f, messages[n]);
    }
}

proof fn lemma_head_makes_entries(e: Editor, messages: Seq<Message>)
    requires
        messages.len() > 0,
        each_makes_an_entry(e, messages),
    ensures
        each_makes_an_entry(e, messages.drop_last()),
{
    let head = messages.drop_last();
    assert forall|i: int| 0 <= i < head.len() implies {
        let f = #[trigger] e.stepped(head.take(i));
        &&& f.makes_one_entry(head[i])
        &&& f.step(head[i]).buffer != f.buffer
        &&& f.cursors.list.len() < usize::MAX
    } by {
        assert(head.take(i) =~= messages.take(i));
        let f = e.stepped(messages.take(i));
        assert(f.makes_one_entry(messages[i]));
    }
}

/// What several times Undo do.
proof fn lemma_undos(f: Editor, undos: Seq<Message>)
    requires
        f.history.open is None,
        !f.is_grouping,
        undos.len() <= f.history.undo.len(),
        forall|i: int| 0 <= i < undos.len() ==> (#[trigger] undos[i]) is Undo,
    ensures
        ({
            let r = f.stepped(undos);
            let n = f.history.undo.len() - undos.len();
            &&& r.history.open is None
            &&& !r.is_grouping
            &&& r.history.undo == f.history.undo.take(n)
            &&& r.buffer == undo_to(f.history.undo, f.buffer, n)
        }),
    decreases undos.len(),
{
    let n = f.history.undo.len() - undos.len();
    if undos.len() > 0 {
        let head = undos.drop_last();
        assert forall|i: int| 0 <= i < head.len() implies (#[trigger] head[i]) is Undo by {
            assert(undos[i] is Undo);
        }
        lemma_undos(f, head);
        let r = f.stepped(head);
        assert(undos[undos.len() - 1] is Undo);
        lemma_edit_steps(r, undos.last());
        lemma_undo_to_step(f.history.undo, f.buffer, n);
        assert(r.history.undo.drop_last() =~= f.history.undo.take(n));
        assert(r.history.undo.last() == f.history.undo[n]);
        assert(r.history.ended() == r.history);
    } else {
        assert(f.history.undo.take(n) =~= f.history.undo);
    }
}

/// Undoing one entry more.
proof fn lemma_undo_to_step(groups: Seq<Group>, lines: Seq<Seq<char>>, n: int)
    requires
        0 <= n < groups.len(),
    ensures
        undo_to(groups, lines, n) == undo_all(groups[n].edits, undo_to(groups, lines, n + 1)),
    decreases groups.len(),
{
    if n + 1 < groups.len() {
        lemma_undo_to_step(groups.drop_last(), undo_all(groups.last().edits, lines), n);
    } else {
        assert(undo_to(groups.drop_last(), undo_all(groups.last().edits, lines), n) == undo_all(
            groups.last().edits,
            lines,
        ));
    }
}

/// Older entries play no part.
proof fn lemma_undo_to_skip(groups: Seq<Group>, lines: Seq<Seq<char>>, t: int, n: int)
    requires
        0 <= t <= n <= groups.len(),
    ensures
        undo_to(groups.skip(t), lines, n - t) == undo_to(groups, lines, n),
    decreases groups.len(),
{
    if n < groups.len() {
        assert(groups.skip(t).drop_last() =~= groups.drop_last().skip(t));
        lemma_undo_to_skip(groups.drop_last(), undo_all(groups.last().edits, lines), t, n);
    }
}

/// Undoing the latest `k` entries after the first `n` messages leads back to the text after the
/// first `n - k`.
proof fn lemma_back_to(e: Editor, messages: Seq<Message>, n: int, k: int)
    requires
        e.sound(),
        !e.is_grouping,
        e.history.undo.len() <= e.history.max_size,
        messages.len() <= e.history.max_size,
        each_makes_an_entry(e, messages),
        0 <= k <= n <= messages.len(),
    ensures
        ({
            let f = e.stepped(messages.take(n));
            &&& n <= f.history.undo.len()
            &&& undo_to(f.history.undo, f.buffer, f.history.undo.len() - k) == e.stepped(
                messages.take(n - k),
            ).buffer
        }),
    decreases k,
{
    let all = messages.take(n);
    assert(each_makes_an_entry(e, all)) by {
        assert forall|i: int| 0 <= i < all.len() implies {
            let f = #[trigger] e.stepped(all.take(i));
            &&& f.makes_one_entry(all[i])
            &&& f.step(all[i]).buffer != f.buffer
            &&& f.cursors.list.len() < usize::MAX
        } by {
            assert(all.take(i) =~= messages.take(i));
            assert(e.stepped(messages.take(i)).makes_one_entry(messages[i]));
        }
    }
    lemma_entries(e, all);
    if k > 0 {
        let m = messages[n - 1];
        let h = e.stepped(messages.take(n - 1));
        assert(h.makes_one_entry(m));
        lemma_back_to(e, messages, n - 1, k - 1);
        lemma_head_makes_entries(e, all);
        assert(all.drop_last() =~= messages.take(n - 1));
        lemma_entries(e, all.drop_last());
        let f = e.stepped(all);
        assert(f == h.step(m));
        let g = lemma_one_entry(h, m);
        let pushed = h.history.undo.push(g);
        let t = pushed.len() - f.history.undo.len();
        assert(0 <= t <= 1);
        assert(f.history.undo =~= pushed.skip(t));
        let len = f.history.undo.len() as int;
        assert(f.history.undo.drop_last() =~= h.history.undo.skip(t));
        assert(f.history.undo.last() == g);
        assert(undo_to(f.history.undo, f.buffer, len - k) == undo_to(
            h.history.undo.skip(t),
            h.buffer,
            len - k,
        ));
        lemma_undo_to_skip(h.history.undo, h.buffer, t, len - k + t);
        assert(len - k + t == h.history.undo.len() - (k - 1));
        assert(messages.take(n - 1 - (k - 1)) =~= messages.take(n - k));
    }
}

/// As long as the limit is not reached, a change of the text leaves all entries that there were,
/// and adds one.
pub proof fn law_entries_are_kept_up_to_the_limit(e: Editor, m: Message)
    requires
        e.sound(),
        !e.is_grouping,
        e.cursors.list.len() <= usize::MAX,
        e.makes_one_entry(m),
        e.step(m).buffer != e.buffer,
        e.history.undo.len() < e.history.max_size,
    ensures
        e.step(m).history.undo.len() == e.history.undo.len() + 1,
        e.step(m).history.undo.drop_last() == e.history.undo,
{
    let g = lemma_one_entry(e, m);
    assert(e.step(m).history.undo.drop_last() =~= e.history.undo);
}

/// A text that was just saved counts as unmodified; a change makes it count as modified, and
/// undoing the change makes it count as unmodified again.
pub proof fn law_a_saved_text_is_modified_by_changes(e: Editor, m: Message)
    requires
        e.sound(),
        !e.is_grouping,
        e.cursors.list.len() <= usize::MAX,
        e.makes_one_entry(m),
        e.step(m).buffer != e.buffer,
        e.history.undo.len() < e.history.max_size,
        e.history.saved == Some(e.history.undo.len() as int),
    ensures
        !e.history.modified(),
        e.step(m).history.modified(),
        !e.step(m).step(Message::Undo).history.modified(),
        e.step(m).step(Message::Undo).buffer == e.buffer,
{
    let g = lemma_one_entry(e, m);
    let f = e.step(m);
    lemma_edit_steps(f, Message::Undo);
    assert(f.history.undo.last() == g);
    assert(f.history.ended() == f.history);
}

/// The caret stands behind what the last of the commands inserted.
spec fn ends_at(edits: Seq<Edit>, pos: Position) -> bool {
    edits.len() > 0 && pos == at(end_of(edits.last().start, edits.last().inserted))
}

/// An edit at a single cursor leaves the caret behind what its last command inserted.
proof fn lemma_single_ends_at(e: Editor, indent: bool, text: Seq<char>)
    requires
        e.cursors.list.len() == 1,
    ensures
        ({
            let (start, order) = (e.batch(), e.descending());
            &&& ends_or_nothing(start.broken(order, indent))
            &&& ends_or_nothing(start.erased(order))
            &&& ends_or_nothing(start.deleted(order))
            &&& ends_or_nothing(start.cut(order))
            &&& ends_or_nothing(e.paste_batch(text))
        }),
{
    let (start, one) = (e.batch(), seq![0usize]);
    lemma_order_of_one(carets(e.cursors.list), true);
    assert(e.descending() == one);
    assert(one.drop_last() =~= Seq::empty());
    assert(start.broken(one, indent) == start.broken(one.drop_last(), indent).broken_at(0, indent));
    assert(start.erased(one) == start.erased(one.drop_last()).erased_at(0));
    assert(start.deleted(one) == start.deleted(one.drop_last()).deleted_at(0));
    let b = start.cut(one);
    assert(b == start.cut(one.drop_last()).cut_at(0));
    assert(b.list.len() == 1);
    let pieces = split_lines(text);
    lemma_order_of_one(carets(b.list), true);
    assert(b.pasted(one, pieces) == b.pasted(one.drop_last(), pieces).pasted_at(0, pieces));
}

spec fn ends_or_nothing(b: Batch) -> bool {
    b.edits.len() > 0 ==> ends_at(b.edits, b.list[0].position)
}

/// Executing commands again leaves the caret where it was when they were executed first.
proof fn lemma_run_again(edits: Seq<Edit>, lines: Seq<Seq<char>>, caret: Position)
    requires
        edits.len() > 0,
        run_all(edits, lines, caret).edits == edits,
    ensures
        ends_at(edits, run_all(edits, lines, caret).caret),
{
    let head = run_all(edits.drop_last(), lines, caret);
    assert(run_all(edits, lines, caret).edits.last() == edits.last().on(head.lines));
}

/// Redo puts the caret where the edit had put it: after an edit at a single cursor, Undo and Redo
/// leave the text and the caret as the edit did.
pub proof fn law_redo_takes_the_caret_along(e: Editor, m: Message)
    requires
        e.sound(),
        !e.is_grouping,
        e.history.max_size > 0,
        e.cursors.list.len() == 1,
        e.makes_one_entry(m),
        !(m is ReplaceNext),
        !(m is ReplaceAll),
        e.step(m).buffer != e.buffer,
    ensures
        ({
            let f = e.step(m);
            let r = f.step(Message::Undo).step(Message::Redo);
            &&& r.buffer == f.buffer
            &&& r.cursors.list.len() == 1
            &&& f.cursors.list.len() == 1
            &&& r.cursors.list[0].position == f.cursors.list[0].position
            &&& r.cursors.list[0].anchor is None
        }),
{
    let f = e.step(m);
    let g = lemma_one_entry(e, m);
    lemma_single_stays_single(e, m);
    law_every_message_keeps_the_history_sound(e, m);
    assert(f.history.undo.last() == g);
    assert(f.history.ended() == f.history);
    let u = f.step(Message::Undo);
    lemma_edit_steps(f, Message::Undo);
    lemma_edit_steps(u, Message::Redo);
    assert(f.history.all_undo() == f.history.undo);
    let caret = u.cursors.primary_cursor().position;
    lemma_undo_all(g.edits, f.buffer, caret);
    assert(u.history.redo.last() == g);
    lemma_run_again(g.edits, u.buffer, caret);
    assert(u.cursors.list.len() == 1);
}

/// An edit leaves as many cursors as there were.
proof fn lemma_single_stays_single(e: Editor, m: Message)
    requires
        e.wf(),
        e.cursors.list.len() == 1,
        !e.is_grouping,
        e.makes_one_entry(m),
        !(m is ReplaceNext),
        !(m is ReplaceAll),
    ensures
        e.step(m).cursors.list.len() == 1,
        e.step(m).cursors.primary == 0,
{
    lemma_edit_steps(e, m);
    let indent = e.indenting.auto_indent_enabled;
    lemma_descending(e);
    let (start, order) = (e.batch(), e.descending());
    assert(start.leads_from(e.buffer));
    lemma_broken(start, order, indent, e.buffer);
    lemma_erased(start, order, e.buffer);
    lemma_deleted(start, order, e.buffer);
    lemma_cut_leads(e);
    if let Message::Paste(text) = m {
        lemma_paste_leads(e, text@);
    }
}

/// A history that holds more entries than it may forgets the oldest ones, and only those. The save
/// point stays at the same text, unless it is forgotten with the entries that lead to it.
pub proof fn law_the_oldest_entries_are_forgotten(p: Past)
    requires
        0 <= p.max_size,
    ensures
        ({
            let q = p.trimmed();
            let k = p.undo.len() - q.undo.len();
            &&& p.undo.len() <= p.max_size ==> q == p
            &&& p.undo.len() > p.max_size ==> q.undo.len() == p.max_size
            &&& k >= 0
            &&& forall|i: int| 0 <= i < q.undo.len() ==> #[trigger] q.undo[i] == p.undo[i + k]
            &&& q.redo == p.redo && q.open == p.open && q.max_size == p.max_size
            &&& k > 0 && p.saved is Some ==> q.saved == (if p.saved->0 >= k {
                Some(p.saved->0 - k)
            } else {
                None
            })
            &&& p.saved is None ==> q.saved is None
        }),
{
}

/// All commands that are recorded while a group is open make up one entry, in the order in which
/// they were executed, once the group is closed; without a command there is none. A group that is
/// open is not opened again.
pub proof fn law_a_group_is_one_entry(p: Past, label: Seq<char>, again: Seq<char>, edits: Seq<Edit>)
    requires
        p.open is None,
        p.undo.len() < p.max_size,
    ensures
        p.begun(label).begun(again) == p.begun(label),
        ({
            let q = p.begun(label).recorded_each(edits).ended();
            &&& q.open is None
            &&& edits.len() == 0 ==> q.undo == p.undo && q.redo == p.redo
            &&& edits.len() > 0 ==> {
                &&& q.undo == p.undo.push(Group { label, edits })
                &&& q.redo.len() == 0
            }
        }),
{
    lemma_group_gathers(p, label, edits);
    let r = p.begun(label).recorded_each(edits);
    if edits.len() > 0 {
        assert(r.ended().undo =~= p.undo.push(Group { label, edits }));
    }
}

proof fn lemma_group_gathers(p: Past, label: Seq<char>, edits: Seq<Edit>)
    requires
        p.open is None,
    ensures
        ({
            let r = p.begun(label).recorded_each(edits);
            &&& r.open == Some(Group { label, edits })
            &&& r.undo == p.undo
            &&& r.max_size == p.max_size
            &&& edits.len() == 0 ==> r.redo == p.redo
            &&& edits.len() > 0 ==> r.redo.len() == 0
        }),
    decreases edits.len(),
{
    if edits.len() > 0 {
        lemma_group_gathers(p, label, edits.drop_last());
        assert(edits.drop_last() + seq![edits.last()] =~= edits);
    } else {
        assert(edits =~= Seq::empty());
    }
}

/// Undo and Redo move the primary caret alone, and leave nothing selected.
pub proof fn law_undo_and_redo_move_the_primary_caret(e: Editor)
    requires
        e.cursors.wf(),
        e.history.max_size > 0,
    ensures
        e.history.undo.len() > 0 || (e.history.open matches Some(g) && g.edits.len() > 0) ==> {
            let f = e.step(Message::Undo);
            f.caret_went_to(e, f.cursors.list[f.cursors.primary].position)
        },
        e.history.redo.len() > 0 ==> {
            let f = e.step(Message::Redo);
            f.caret_went_to(e, f.cursors.list[f.cursors.primary].position)
        },
{
    lemma_edit_steps(e, Message::Undo);
    lemma_edit_steps(e, Message::Redo);
}

/// The text and the history are the same.
spec fn same_past(a: Editor, b: Editor) -> bool {
    &&& a.buffer == b.buffer
    &&& a.history == b.history
    &&& a.is_grouping == b.is_grouping
}

/// Redo does the same to the same text with the same history.
proof fn lemma_redone_same(a: Editor, b: Editor)
    requires
        same_past(a, b),
    ensures
        same_past(a.step(Message::Redo), b.step(Message::Redo)),
{
    lemma_edit_steps(a, Message::Redo);
    lemma_edit_steps(b, Message::Redo);
    if a.history.redo.len() > 0 {
        lemma_run_all_caret(
            a.history.redo.last().edits,
            a.buffer,
            a.cursors.primary_cursor().position,
            b.cursors.primary_cursor().position,
        );
    }
}

/// Redo goes forward again as far as Undo went back: after `n` times Undo, `k` times Redo give the
/// text that there was after `n - k` times Undo.
pub proof fn law_redo_goes_forward_again(e: Editor, undos: Seq<Message>, redos: Seq<Message>)
    requires
        e.sound(),
        !e.is_grouping,
        e.history.undo.len() <= e.history.max_size,
        undos.len() <= e.history.undo.len(),
        e.cursors.list.len() < usize::MAX,
        forall|i: int| 0 <= i < undos.len() ==> (#[trigger] undos[i]) is Undo,
        redos.len() <= undos.len(),
        forall|i: int| 0 <= i < redos.len() ==> (#[trigger] redos[i]) is Redo,
    ensures
        e.stepped(undos).stepped(redos).buffer == e.stepped(
            undos.take(undos.len() - redos.len()),
        ).buffer,
{
    lemma_forward(e, undos, redos);
}

proof fn lemma_forward(e: Editor, undos: Seq<Message>, redos: Seq<Message>)
    requires
        e.sound(),
        !e.is_grouping,
        e.history.undo.len() <= e.history.max_size,
        undos.len() <= e.history.undo.len(),
        e.cursors.list.len() < usize::MAX,
        forall|i: int| 0 <= i < undos.len() ==> (#[trigger] undos[i]) is Undo,
        redos.len() <= undos.len(),
        forall|i: int| 0 <= i < redos.len() ==> (#[trigger] redos[i]) is Redo,
    ensures
        same_past(
            e.stepped(undos).stepped(redos),
            e.stepped(undos.take(undos.len() - redos.len())),
        ),
    decreases redos.len(),
{
    let n = undos.len() - redos.len();
    if redos.len() == 0 {
        assert(undos.take(n) =~= undos);
    } else {
        let head = redos.drop_last();
        assert forall|i: int| 0 <= i < head.len() implies (#[trigger] head[i]) is Redo by {
            assert(redos[i] is Redo);
        }
        lemma_forward(e, undos, head);
        let (a, b) = (undos.take(n + 1), undos.take(n));
        assert(a.drop_last() =~= b);
        assert forall|i: int| 0 <= i < b.len() implies (#[trigger] b[i]) is Undo by {
            assert(undos[i] is Undo);
        }
        assert(undos[n] is Undo);
        let f = e.stepped(b);
        lemma_undos(e, b);
        lemma_undos_sound(e, b);
        assert(redos[redos.len() - 1] is Redo);
        let r = e.stepped(undos).stepped(head);
        assert(undos.take(undos.len() - head.len()) =~= a);
        assert(same_past(r, e.stepped(a)));
        lemma_redone_same(r, e.stepped(a));
        assert(e.stepped(a) == f.step(Message::Undo));
        law_redo_takes_back_undo(f);
        assert(f.history.ended() == f.history);
        assert(f.history.trimmed() == f.history);
        lemma_edit_steps(f, Message::Undo);
        lemma_edit_steps(f.step(Message::Undo), Message::Redo);
    }
}

proof fn lemma_undos_sound(e: Editor, undos: Seq<Message>)
    requires
        e.sound(),
        e.cursors.list.len() < usize::MAX,
        forall|i: int| 0 <= i < undos.len() ==> (#[trigger] undos[i]) is Undo,
    ensures
        e.stepped(undos).sound(),
        e.stepped(undos).cursors.list.len() == e.cursors.list.len(),
        e.stepped(undos).history.max_size == e.history.max_size,
    decreases undos.len(),
{
    if undos.len() > 0 {
        let head = undos.drop_last();
        assert forall|i: int| 0 <= i < head.len() implies (#[trigger] head[i]) is Undo by {
            assert(undos[i] is Undo);
        }
        lemma_undos_sound(e, head);
        let r = e.stepped(head);
        assert(undos[undos.len() - 1] is Undo);
        law_every_message_keeps_the_history_sound(r, undos.last());
        lemma_edit_steps(r, undos.last());
    }
}

} // verus!
