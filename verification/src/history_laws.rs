//! Laws of undo and redo: the history always belongs to the text, and what one of them does the
//! other takes back.
use vstd::prelude::*;

use crate::batch::{
    below, lemma_broken, lemma_cut, lemma_deleted, lemma_erased, lemma_pasted, lemma_tabbed,
    lemma_typed, lemma_with_batch, lemma_with_group, Batch,
};
use crate::command::{
    all_fit, all_wf, lemma_executed, lemma_run_all, lemma_undo_all, run_all, undo_all, Edit, Group,
};
use crate::cursor_set::{carets, lemma_sorted_merged_wf, starts, Cursor, Cursors};
use crate::editor::{Editor, FocusState, HISTORY_SIZE};
use crate::find_replace::{replacement, replacements};
use crate::history::{
    lemma_begun_coherent, lemma_begun_wf, lemma_empty_wf, lemma_ended_coherent, lemma_ended_wf,
    lemma_open_empty, lemma_recorded_coherent, lemma_recorded_each_into, lemma_recorded_each_open,
    lemma_recorded_wf, lemma_redone_coherent, lemma_redone_wf, lemma_run_all_caret,
    lemma_undo_all_concat, lemma_undone_coherent, lemma_undone_wf, Past,
};
use crate::message::{IndentStyle, Message};
use crate::navigation::Motion;
use crate::order::{lemma_order_exists, lemma_order_of_one, order_of};
use crate::position::Position;
use crate::text_buffer::{lemma_join_split, split_lines};
use crate::undo_laws::goes_back_to;

verus! {

impl Editor {
    /// The editor is well-formed, its history belongs to its text, and a group of commands is
    /// open only while the editor groups them.
    pub open spec fn sound(self) -> bool {
        &&& self.wf()
        &&& self.coherent()
        &&& self.history.open is Some ==> self.is_grouping
    }
}

/// The cursors are listed once each.
pub(crate) proof fn lemma_descending(e: Editor)
    requires
        e.cursors.list.len() <= usize::MAX,
    ensures
        below(e.descending(), e.cursors.list.len()),
{
    lemma_order_exists(carets(e.cursors.list), true);
}

/// Sorting and merging keeps a primary cursor.
proof fn lemma_merging(c: Cursors)
    requires
        c.wf(),
        c.list.len() <= usize::MAX,
    ensures
        c.sorted_merged().wf(),
        c.sorted_merged().list.len() <= c.list.len(),
{
    lemma_order_exists(starts(c.list), false);
    lemma_sorted_merged_wf(c);
}

/// A group opened.
pub(crate) proof fn lemma_started(e: Editor, label: Seq<char>)
    requires
        e.sound(),
    ensures
        e.grouping_started(label).sound(),
{
    lemma_begun_coherent(e.history, label, e.buffer);
    lemma_begun_wf(e.history, label);
}

/// A group closed.
pub(crate) proof fn lemma_ended(e: Editor)
    requires
        e.sound(),
    ensures
        e.grouping_ended().sound(),
        e.grouping_ended().history.open is None,
        e.grouping_ended().history == e.history.ended(),
{
    lemma_ended_coherent(e.history, e.buffer);
    lemma_ended_wf(e.history);
}

/// What follows every change of the text.
proof fn lemma_finished(e: Editor)
    requires
        e.sound(),
    ensures
        e.edit_finished().sound(),
{
}

/// An edit at several cursors, each command recorded by itself.
proof fn lemma_batch_sound(e: Editor, b: Batch)
    requires
        e.sound(),
        b.leads_from(e.buffer),
        b.list.len() == e.cursors.list.len(),
    ensures
        e.with_batch(b).sound(),
{
    lemma_with_batch(e, b);
    lemma_recorded_each_open(e.history, b.edits);
}

/// An edit at several cursors, its commands recorded together.
proof fn lemma_group_sound(e: Editor, b: Batch, label: Seq<char>)
    requires
        e.sound(),
        b.leads_from(e.buffer),
        b.list.len() == e.cursors.list.len(),
    ensures
        e.with_group(b, label).sound(),
{
    lemma_with_group(e, b, label);
}

/// Deleting selections leads from the text.
pub(crate) proof fn lemma_cut_leads(e: Editor)
    requires
        e.wf(),
        e.cursors.list.len() <= usize::MAX,
    ensures
        e.batch().cut(e.descending()).leads_from(e.buffer),
        e.batch().cut(e.descending()).list.len() == e.cursors.list.len(),
{
    lemma_descending(e);
    lemma_cut(e.batch(), e.descending(), e.buffer);
}

/// Pasting leads from the text.
pub(crate) proof fn lemma_paste_leads(e: Editor, text: Seq<char>)
    requires
        e.wf(),
        e.cursors.list.len() <= usize::MAX,
    ensures
        e.paste_batch(text).leads_from(e.buffer),
        e.paste_batch(text).list.len() == e.cursors.list.len(),
{
    lemma_cut_leads(e);
    let b = e.batch().cut(e.descending());
    lemma_order_exists(carets(b.list), true);
    lemma_join_split(text);
    lemma_pasted(b, order_of(carets(b.list), true), split_lines(text), e.buffer);
}

proof fn lemma_cut_sound(e: Editor)
    requires
        e.sound(),
        e.cursors.list.len() <= usize::MAX,
    ensures
        e.cut_if_selected().sound(),
{
    if e.cursors.any_selected() {
        lemma_cut_leads(e);
        lemma_group_sound(e, e.batch().cut(e.descending()), "Delete selection"@);
        lemma_finished(e.cut());
    }
}

proof fn lemma_paste_sound(e: Editor, text: Seq<char>)
    requires
        e.sound(),
        e.cursors.list.len() <= usize::MAX,
    ensures
        e.pasted(text).edit_finished().sound(),
{
    lemma_paste_leads(e, text);
    lemma_group_sound(e, e.paste_batch(text), "Paste"@);
    lemma_finished(e.pasted(text));
}

proof fn lemma_typed_sound(e: Editor, ch: char)
    requires
        e.sound(),
        e.cursors.list.len() <= usize::MAX,
    ensures
        e.typed(ch).sound(),
{
    let f = e.grouping_started("Typing"@);
    lemma_started(e, "Typing"@);
    lemma_descending(f);
    lemma_typed(f.batch(), f.descending(), ch, f.buffer);
    let b = f.batch().typed(f.descending(), ch);
    lemma_batch_sound(f, b);
    lemma_finished(f.with_batch(b));
}

proof fn lemma_tabbed_sound(e: Editor)
    requires
        e.sound(),
        e.cursors.list.len() <= usize::MAX,
    ensures
        e.tabbed().sound(),
{
    let f = e.grouping_started("Tab"@);
    lemma_started(e, "Tab"@);
    lemma_descending(f);
    lemma_tabbed(f.batch(), f.descending(), f.indenting.style, f.buffer);
    let b = f.batch().tabbed(f.descending(), f.indenting.style);
    lemma_batch_sound(f, b);
    lemma_finished(f.with_batch(b));
}

proof fn lemma_broken_sound(e: Editor)
    requires
        e.sound(),
        e.cursors.list.len() <= usize::MAX,
    ensures
        e.broken().sound(),
{
    let f = e.grouping_ended();
    lemma_ended(e);
    lemma_descending(f);
    let indent = f.indenting.auto_indent_enabled;
    lemma_broken(f.batch(), f.descending(), indent, f.buffer);
    let b = f.batch().broken(f.descending(), indent);
    lemma_batch_sound(f, b);
    lemma_finished(f.with_batch(b));
}

proof fn lemma_erased_sound(e: Editor)
    requires
        e.sound(),
        e.cursors.list.len() <= usize::MAX,
    ensures
        e.erased().sound(),
        e.deleted().sound(),
{
    let f = e.grouping_ended();
    lemma_ended(e);
    lemma_descending(f);
    lemma_erased(f.batch(), f.descending(), f.buffer);
    lemma_deleted(f.batch(), f.descending(), f.buffer);
    let a = f.batch().erased(f.descending());
    let b = f.batch().deleted(f.descending());
    lemma_batch_sound(f, a);
    lemma_finished(f.with_batch(a));
    lemma_batch_sound(f, b);
    lemma_finished(f.with_batch(b));
    lemma_cut_sound(f);
}

proof fn lemma_committed_sound(e: Editor, text: Seq<char>)
    requires
        e.sound(),
        e.cursors.list.len() <= usize::MAX,
    ensures
        e.committed(text).sound(),
{
    let f = Editor { ime_preedit: None, ..e };
    assert(f.sound());
    lemma_started(f, "Typing"@);
    lemma_paste_sound(f.grouping_started("Typing"@), text);
}

proof fn lemma_undone_sound(e: Editor)
    requires
        e.sound(),
    ensures
        e.undone().sound(),
{
    let f = e.grouping_ended();
    lemma_ended(e);
    let past = f.history.ended();
    assert(past == f.history);
    if past.undo.len() > 0 {
        lemma_undone_coherent(past, f.buffer);
        lemma_undone_wf(past);
        let edits = past.undo.last().edits;
        assert(undo_all(edits, f.buffer).len() > 0) by {
            lemma_undo_all(edits, f.buffer, (0, 0));
        }
    }
}

proof fn lemma_redone_sound(e: Editor)
    requires
        e.sound(),
    ensures
        e.redone().sound(),
{
    if e.history.redo.len() > 0 {
        let edits = e.history.redo.last().edits;
        lemma_run_all_caret(edits, e.buffer, e.cursors.primary_cursor().position, (0, 0));
        lemma_redone_coherent(e.history, e.buffer);
        lemma_redone_wf(e.history, e.buffer);
        lemma_run_all(edits, e.buffer, (0, 0));
    }
}

/// One command executed and recorded.
proof fn lemma_ran_sound(e: Editor, edit: Edit)
    requires
        e.sound(),
        edit.wf(),
    ensures
        e.ran(edit).sound(),
{
    let next = edit.result(e.buffer);
    let g = Group { label: Seq::empty(), edits: seq![edit.on(e.buffer)] };
    lemma_executed(edit, e.buffer);
    assert(g.edits.drop_last() =~= Seq::empty());
    assert(undo_all(g.edits.drop_last(), e.buffer) == e.buffer);
    assert(all_fit(g.edits.drop_last(), e.buffer));
    lemma_recorded_wf(e.history, g);
    lemma_recorded_coherent(e.history, g, e.buffer, next);
}

proof fn lemma_next_replaced_sound(e: Editor)
    requires
        e.sound(),
    ensures
        e.next_replaced().sound(),
{
    if let Some(m) = e.search.current_match() {
        let edit = replacement(
            m,
            e.search.query,
            e.search.replace_with,
            e.cursors.primary_cursor().position,
        );
        lemma_join_split(e.search.replace_with);
        lemma_ran_sound(e, edit);
    }
}

proof fn lemma_all_replaced_sound(e: Editor)
    requires
        e.sound(),
    ensures
        e.all_replaced().sound(),
{
    let matches = e.all_matches();
    if matches.len() > 0 {
        let caret = e.cursors.primary_cursor().position;
        let edits = replacements(matches, e.search.query, e.search.replace_with, caret);
        lemma_join_split(e.search.replace_with);
        assert(all_wf(edits));
        lemma_run_all(edits, e.buffer, caret);
        let out = run_all(edits, e.buffer, caret);
        let g = Group { label: "Replace All"@, edits: out.edits };
        lemma_recorded_wf(e.history, g);
        lemma_recorded_coherent(e.history, g, e.buffer, out.lines);
    }
}

proof fn lemma_edit_step_sound(e: Editor, m: Message)
    requires
        e.sound(),
        e.cursors.list.len() <= usize::MAX,
    ensures
        e.edit_step(m).sound(),
{
    reveal(Editor::edit_step);
    match m {
        Message::CharacterInput(ch) => lemma_typed_sound(e, ch),
        Message::Tab => lemma_tabbed_sound(e),
        Message::Enter => lemma_broken_sound(e),
        Message::Backspace => lemma_erased_sound(e),
        Message::Delete => lemma_erased_sound(e),
        Message::DeleteSelection => {
            lemma_ended(e);
            lemma_cut_sound(e.grouping_ended());
        },
        Message::Paste(text) => {
            lemma_ended(e);
            lemma_paste_sound(e.grouping_ended(), text@);
        },
        Message::ImeCommit(text) => lemma_committed_sound(e, text@),
        Message::Undo => lemma_undone_sound(e),
        Message::Redo => lemma_redone_sound(e),
        _ => {},
    }
}

proof fn lemma_navigation_step_sound(e: Editor, m: Message)
    requires
        e.sound(),
        e.cursors.list.len() <= usize::MAX,
    ensures
        e.navigation_step(m).sound(),
{
    reveal(Editor::navigation_step);
    lemma_ended(e);
    match m {
        Message::ArrowKey(direction, shift) => {
            let motion = Motion::Arrow(direction);
            lemma_navigated_wf(e, motion);
        },
        Message::Home(shift) => lemma_navigated_wf(e, Motion::LineStart),
        Message::End(shift) => lemma_navigated_wf(e, Motion::LineEnd),
        Message::PageUp => lemma_navigated_wf(
            e,
            Motion::Up(e.layout.page_lines),
        ),
        Message::PageDown => lemma_navigated_wf(
            e,
            Motion::Down(e.layout.page_lines),
        ),
        _ => {},
    }
}

/// Moving the cursors keeps a primary cursor.
proof fn lemma_navigated_wf(e: Editor, motion: Motion)
    requires
        e.cursors.wf(),
        e.cursors.list.len() <= usize::MAX,
    ensures
        e.cursors.navigated(e.buffer, motion, true).wf(),
        e.cursors.navigated(e.buffer, motion, false).wf(),
        e.cursors.each_moved(e.buffer, motion).sorted_merged().wf(),
{
    lemma_merging(e.cursors.anchored().each_moved(e.buffer, motion));
    lemma_merging(e.cursors.unanchored().each_moved(e.buffer, motion));
    lemma_merging(e.cursors.each_moved(e.buffer, motion));
}

/// One more cursor keeps a primary cursor.
proof fn lemma_with_cursor_wf(c: Cursors, cursor: Cursor)
    requires
        c.wf(),
        c.list.len() < usize::MAX,
    ensures
        c.with_cursor(cursor).wf(),
{
    lemma_merging(Cursors { list: c.list.push(cursor), primary: c.primary });
}

proof fn lemma_selection_step_sound(e: Editor, m: Message)
    requires
        e.sound(),
        e.cursors.list.len() < usize::MAX,
    ensures
        e.selection_step(m).sound(),
{
    reveal(Editor::selection_step);
    match m {
        Message::MouseClick(hit) => {
            let f = Editor {
                focus: FocusState {
                    is_focused: true,
                    has_canvas_focus: true,
                    ..e.focus
                },
                ..e
            };
            assert(f.sound());
            lemma_ended(f);
        },
        Message::AltClick(hit) => {
            if let Some(position) = hit {
                lemma_with_cursor_wf(e.cursors, Cursor { position, anchor: None });
            }
        },
        Message::AddCursorAbove => lemma_added_sound(e),
        Message::AddCursorBelow => lemma_added_sound(e),
        Message::SelectNextOccurrence => lemma_next_selected_sound(e),
        _ => {},
    }
}

proof fn lemma_added_sound(e: Editor)
    requires
        e.sound(),
        e.cursors.list.len() < usize::MAX,
    ensures
        e.added_above().sound(),
        e.added_below().sound(),
{
    assert forall|p: Position| (#[trigger] e.caret_added(p)).sound() by {
        lemma_with_cursor_wf(e.cursors, Cursor { position: p, anchor: None });
    }
    let line = e.cursors.primary_cursor().position.0;
    assert(e.caret_added_on(line - 1).sound());
    assert(e.caret_added_on(line + 1).sound());
}

proof fn lemma_next_selected_sound(e: Editor)
    requires
        e.sound(),
        e.cursors.list.len() < usize::MAX,
    ensures
        e.next_selected().sound(),
{
    if let Some(text) = e.selected_text() {
        if let Some(place) = e.next_place() {
            lemma_with_cursor_wf(
                e.cursors,
                Cursor {
                    position: (place.0 as usize, (place.1 + text.len()) as usize),
                    anchor: Some((place.0 as usize, place.1 as usize)),
                },
            );
        }
    }
}

proof fn lemma_search_step_sound(e: Editor, m: Message)
    requires
        e.sound(),
    ensures
        e.search_step(m).sound(),
{
    reveal(Editor::search_step);
    match m {
        Message::ReplaceNext => lemma_next_replaced_sound(e),
        Message::ReplaceAll => lemma_all_replaced_sound(e),
        _ => {},
    }
}

proof fn lemma_view_step_sound(e: Editor, m: Message)
    requires
        e.sound(),
    ensures
        e.view_step(m).sound(),
{
    reveal(Editor::view_step);
}

/// The history of a new editor belongs to its text.
pub proof fn law_a_new_editor_is_sound(content: Seq<char>, syntax: Seq<char>)
    ensures
        Editor::fresh(content, syntax).sound(),
{
    lemma_join_split(content);
    lemma_empty_wf(HISTORY_SIZE as int);
}

/// Whatever message an editor is given, its history goes on belonging to its text: every entry
/// can be undone, and every undone entry redone, with exactly the effect that it had. (An editor
/// with as many cursors as a `usize` can count could not take one more.)
pub proof fn law_every_message_keeps_the_history_sound(e: Editor, m: Message)
    requires
        e.sound(),
        e.cursors.list.len() < usize::MAX,
    ensures
        e.step(m).sound(),
{
    if m.edits() {
        lemma_edit_step_sound(e, m);
    } else if m.navigates() {
        lemma_navigation_step_sound(e, m);
    } else if m.selects() {
        lemma_selection_step_sound(e, m);
    } else if m.searches() {
        lemma_search_step_sound(e, m);
    } else {
        lemma_view_step_sound(e, m);
    }
}

impl Editor {
    /// The editor after several messages.
    pub open spec fn stepped(self, messages: Seq<Message>) -> Editor
        decreases messages.len(),
    {
        if messages.len() == 0 {
            self
        } else {
            self.stepped(messages.drop_last()).step(messages.last())
        }
    }

    /// There is a single cursor, and it is a bare caret.
    pub open spec fn single_bare(self) -> bool {
        self.cursors.list.len() == 1 && self.cursors.list[0].anchor is None
    }
}

impl Message {
    /// The message goes into the group of commands that is open, and opens one if none is.
    pub open spec fn is_grouped(self) -> bool {
        self is CharacterInput || self is Tab || self is ImeCommit
    }
}

/// The history of an editor always belongs to its text, whatever messages it was given since it
/// was made. (There must always have been room for one more cursor.)
pub proof fn law_an_editor_is_always_sound(
    content: Seq<char>,
    syntax: Seq<char>,
    messages: Seq<Message>,
)
    requires
        forall|k: int|
            0 <= k < messages.len() ==> (#[trigger] Editor::fresh(content, syntax).stepped(
                messages.take(k),
            )).cursors.list.len() < usize::MAX,
    ensures
        Editor::fresh(content, syntax).stepped(messages).sound(),
    decreases messages.len(),
{
    let e = Editor::fresh(content, syntax);
    if messages.len() == 0 {
        law_a_new_editor_is_sound(content, syntax);
    } else {
        let head = messages.drop_last();
        assert forall|k: int| 0 <= k < head.len() implies (#[trigger] e.stepped(
            head.take(k),
        )).cursors.list.len() < usize::MAX by {
            assert(head.take(k) =~= messages.take(k));
        }
        law_an_editor_is_always_sound(content, syntax, head);
        assert(messages.take(messages.len() - 1) =~= head);
        law_every_message_keeps_the_history_sound(e.stepped(head), messages.last());
    }
}

/// What Undo does.
pub(crate) proof fn lemma_step_undo(e: Editor)
    ensures
        e.step(Message::Undo) == e.undone(),
{
    reveal(Editor::edit_step);
}

/// What Redo does.
proof fn lemma_step_redo(e: Editor)
    ensures
        e.step(Message::Redo) == e.redone(),
{
    reveal(Editor::edit_step);
}

proof fn lemma_undone_redone(e: Editor)
    requires
        e.sound(),
        e.can_undo(),
    ensures
        e.undone().redone().buffer == e.buffer,
        e.undone().redone().history == e.history.ended().trimmed(),
{
    let f = e.grouping_ended();
    lemma_ended(e);
    let past = f.history;
    assert(past.ended() == past);
    lemma_undone_coherent(past, f.buffer);
    let u = e.undone();
    let edits = u.history.redo.last().edits;
    lemma_run_all_caret(edits, u.buffer, u.cursors.primary_cursor().position, (0, 0));
}

/// Redo takes back what Undo did: the text is what it was, and so are the entries of the history.
pub proof fn law_redo_takes_back_undo(e: Editor)
    requires
        e.sound(),
        e.can_undo(),
    ensures
        e.step(Message::Undo).step(Message::Redo).buffer == e.buffer,
        e.step(Message::Undo).step(Message::Redo).history == e.history.ended().trimmed(),
{
    lemma_step_undo(e);
    lemma_step_redo(e.undone());
    lemma_undone_redone(e);
}

proof fn lemma_redone_undone(e: Editor)
    requires
        e.sound(),
        e.can_redo(),
        e.history.max_size > 0,
    ensures
        e.redone().undone().buffer == e.buffer,
{
    let g = e.history.redo.last();
    lemma_open_empty(e.history);
    lemma_run_all_caret(g.edits, e.buffer, e.cursors.primary_cursor().position, (0, 0));
    lemma_run_all(g.edits, e.buffer, (0, 0));
    let out = run_all(g.edits, e.buffer, (0, 0));
    let h = Group { label: g.label, edits: out.edits };
    let q = Past {
        undo: e.history.undo.push(h),
        redo: e.history.redo.drop_last(),
        ..e.history
    };
    assert(q.trimmed().undo.last() == h);
    let r = e.redone();
    assert(r.history == q.trimmed());
    assert(r.grouping_ended().history.ended().undo.last() == h);
}

/// Undo takes back what Redo did.
pub proof fn law_undo_takes_back_redo(e: Editor)
    requires
        e.sound(),
        e.can_redo(),
        e.history.max_size > 0,
    ensures
        e.step(Message::Redo).step(Message::Undo).buffer == e.buffer,
{
    lemma_step_redo(e);
    lemma_step_undo(e.redone());
    lemma_redone_undone(e);
}

/// What was typed, with Tab and with an input method too, is taken back by one Undo, however
/// many characters and cursors there were. If it was typed at a single bare caret, the caret is
/// back where it was as well.
pub proof fn law_one_undo_takes_back_what_was_typed(e: Editor, messages: Seq<Message>)
    requires
        e.sound(),
        !e.is_grouping,
        e.history.max_size > 0,
        e.cursors.list.len() <= usize::MAX,
        forall|i: int| 0 <= i < messages.len() ==> (#[trigger] messages[i]).is_grouped(),
        e.stepped(messages).buffer != e.buffer,
    ensures
        e.stepped(messages).step(Message::Undo).buffer == e.buffer,
        e.single_bare() ==> e.stepped(messages).step(Message::Undo).back_to(e),
{
    let f = e.stepped(messages);
    lemma_step_undo(f);
    lemma_group_grows(e, messages);
    let g = f.history.open->0;
    assert(g.edits.len() > 0);
    assert(Past { open: None, ..f.history }.entered(g).undo.last() == g);
    assert(f.grouping_ended().history.ended().undo.last() == g);
}

/// The group that is open holds all that was done since `e`.
spec fn group_leads_from(f: Editor, e: Editor) -> bool {
    &&& f.sound()
    &&& f.cursors.list.len() == e.cursors.list.len()
    &&& f.history.max_size == e.history.max_size
    &&& !f.is_grouping ==> f.buffer == e.buffer
    &&& f.is_grouping ==> f.history.open is Some
    &&& f.history.open matches Some(g) ==> {
        &&& all_fit(g.edits, f.buffer)
        &&& undo_all(g.edits, f.buffer) == e.buffer
        &&& e.single_bare() ==> goes_back_to(g.edits, e.cursors.list[0].position)
    }
    &&& e.single_bare() ==> f.single_bare()
    &&& e.single_bare() && (f.history.open is None || f.history.open->0.edits.len() == 0)
        ==> f.cursors.list == e.cursors.list
}

/// What a command typed at a single bare caret leaves behind: a bare caret, which has not moved
/// if nothing was executed, and a way back to where it was.
spec fn types_at(c: Cursor, b: Batch) -> bool {
    &&& b.list.len() == 1
    &&& b.list[0].anchor is None
    &&& goes_back_to(b.edits, c.position)
    &&& b.edits.len() == 0 ==> b.list[0] == c
}

/// Spaces inserted at a caret: undoing the first of them takes the caret back.
proof fn lemma_spaced_goes_back(b: Batch, idx: int, line: usize, caret: Position, n: int)
    requires
        b.edits.len() == 0,
        0 <= idx < b.list.len(),
    ensures
        ({
            let (s, c) = b.spaced(idx, line, caret, n);
            &&& s.list.len() == b.list.len()
            &&& s.list[idx] == b.list[idx]
            &&& goes_back_to(s.edits, caret)
            &&& s.edits.len() == 0 ==> c == caret
        }),
    decreases n,
{
    if n > 0 {
        lemma_spaced_goes_back(b, idx, line, caret, n - 1);
    }
}

/// Typing, Tab and pasting at a single bare caret.
proof fn lemma_types_at(e: Editor, ch: char, text: Seq<char>)
    requires
        e.single_bare(),
    ensures
        ({
            let c = e.cursors.list[0];
            &&& types_at(c, e.batch().typed(e.descending(), ch))
            &&& types_at(c, e.batch().tabbed(e.descending(), e.indenting.style))
            &&& types_at(c, e.paste_batch(text))
        }),
{
    let (start, one, style) = (e.batch(), seq![0usize], e.indenting.style);
    let c = e.cursors.list[0];
    lemma_order_of_one(carets(e.cursors.list), true);
    assert(e.descending() == one);
    assert(one.drop_last() =~= Seq::empty());
    assert(start.typed(one, ch) == start.typed(one.drop_last(), ch).typed_at(0, ch));
    assert(start.tabbed(one, style) == start.tabbed(one.drop_last(), style).tabbed_at(0, style));
    if let IndentStyle::Spaces(n) = style {
        lemma_spaced_goes_back(start, 0, c.position.0, c.position, n as int);
    }
    let b = start.cut(one);
    assert(b == start.cut(one.drop_last()).cut_at(0));
    assert(b == start);
    let pieces = split_lines(text);
    assert(b.pasted(one, pieces) == b.pasted(one.drop_last(), pieces).pasted_at(0, pieces));
}

proof fn lemma_group_grows(e: Editor, messages: Seq<Message>)
    requires
        e.sound(),
        !e.is_grouping,
        e.cursors.list.len() <= usize::MAX,
        forall|i: int| 0 <= i < messages.len() ==> (#[trigger] messages[i]).is_grouped(),
    ensures
        group_leads_from(e.stepped(messages), e),
    decreases messages.len(),
{
    if messages.len() > 0 {
        let head = messages.drop_last();
        assert forall|i: int| 0 <= i < head.len() implies (#[trigger] head[i]).is_grouped() by {
            assert(messages[i].is_grouped());
        }
        lemma_group_grows(e, head);
        let m = messages.last();
        assert(messages[messages.len() - 1].is_grouped());
        lemma_group_step(e.stepped(head), e, m);
    }
}

/// One more batch of commands in the open group.
proof fn lemma_group_extended(f: Editor, e: Editor, b: Batch, r: Editor)
    requires
        group_leads_from(f, e),
        f.is_grouping,
        b.leads_from(f.buffer),
        b.list.len() == f.cursors.list.len(),
        r.sound(),
        r.is_grouping,
        r.buffer == b.lines,
        r.cursors.list == b.list,
        r.history.max_size == f.history.max_size,
        r.history.open == Some(
            Group { label: f.history.open->0.label, edits: f.history.open->0.edits + b.edits },
        ),
        f.single_bare() ==> types_at(f.cursors.list[0], b),
    ensures
        group_leads_from(r, e),
{
    lemma_undo_all_concat(f.history.open->0.edits, b.edits, b.lines);
    let (old, new) = (f.history.open->0.edits, r.history.open->0.edits);
    if e.single_bare() {
        assert(f.single_bare());
        if old.len() > 0 {
            assert(new[0] == old[0]);
        } else if new.len() > 0 {
            assert(new[0] == b.edits[0]);
        } else {
            assert(r.cursors.list =~= e.cursors.list);
        }
    }
}

proof fn lemma_group_typed(f: Editor, e: Editor, ch: char)
    requires
        group_leads_from(f, e),
        f.cursors.list.len() <= usize::MAX,
    ensures
        group_leads_from(f.typed(ch), e),
{
    if f.focused() {
        let s = f.grouping_started("Typing"@);
        lemma_started(f, "Typing"@);
        assert(group_leads_from(s, e));
        lemma_descending(s);
        lemma_typed(s.batch(), s.descending(), ch, s.buffer);
        let b = s.batch().typed(s.descending(), ch);
        lemma_recorded_each_into(s.history, b.edits);
        lemma_typed_sound(f, ch);
        if s.single_bare() {
            lemma_types_at(s, ch, Seq::empty());
        }
        lemma_group_extended(s, e, b, f.typed(ch));
    }
}

proof fn lemma_group_tabbed(f: Editor, e: Editor)
    requires
        group_leads_from(f, e),
        f.cursors.list.len() <= usize::MAX,
    ensures
        group_leads_from(f.tabbed(), e),
{
    let s = f.grouping_started("Tab"@);
    lemma_started(f, "Tab"@);
    assert(group_leads_from(s, e));
    lemma_descending(s);
    lemma_tabbed(s.batch(), s.descending(), s.indenting.style, s.buffer);
    let b = s.batch().tabbed(s.descending(), s.indenting.style);
    lemma_recorded_each_into(s.history, b.edits);
    lemma_tabbed_sound(f);
    if s.single_bare() {
        lemma_types_at(s, ' ', Seq::empty());
    }
    lemma_group_extended(s, e, b, f.tabbed());
}

proof fn lemma_group_committed(f: Editor, e: Editor, text: Seq<char>)
    requires
        group_leads_from(f, e),
        f.cursors.list.len() <= usize::MAX,
    ensures
        group_leads_from(f.committed(text), e),
{
    let h = Editor { ime_preedit: None, ..f };
    if text.len() > 0 {
        assert(h.sound());
        let s = h.grouping_started("Typing"@);
        lemma_started(h, "Typing"@);
        assert(group_leads_from(s, e));
        lemma_paste_leads(s, text);
        let b = s.paste_batch(text);
        lemma_committed_sound(f, text);
        if b.edits.len() == 0 {
            assert(s.history.open->0.edits + b.edits =~= s.history.open->0.edits);
        }
        if s.single_bare() {
            lemma_types_at(s, ' ', text);
        }
        lemma_group_extended(s, e, b, f.committed(text));
    }
}

/// What the messages that are grouped do.
proof fn lemma_step_grouped(e: Editor, m: Message)
    ensures
        m matches Message::CharacterInput(ch) ==> e.step(m) == e.typed(ch),
        m is Tab ==> e.step(m) == e.tabbed(),
        m matches Message::ImeCommit(text) ==> e.step(m) == e.committed(text@),
{
    reveal(Editor::edit_step);
}

proof fn lemma_group_step(f: Editor, e: Editor, m: Message)
    requires
        group_leads_from(f, e),
        f.cursors.list.len() <= usize::MAX,
        m.is_grouped(),
    ensures
        group_leads_from(f.step(m), e),
{
    lemma_step_grouped(f, m);
    match m {
        Message::CharacterInput(ch) => lemma_group_typed(f, e, ch),
        Message::Tab => lemma_group_tabbed(f, e),
        Message::ImeCommit(text) => lemma_group_committed(f, e, text@),
        _ => {},
    }
}

} // verus!
