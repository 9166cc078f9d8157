//! Laws of editing at one cursor: what every key does to the characters of the text, and where it
//! leaves the caret.
use vstd::prelude::*;

use crate::batch::{blank_end, indentation, line_of};
use crate::caret_laws::{lemma_blank_end, lemma_offset_order, offset};
use crate::chars::whitespace;
use crate::command::{line_length, range_after, range_before, Edit};
use crate::cursor_set::{carets, Cursor};
use crate::editor::Editor;
use crate::flat_laws::{
    flat, law_a_part_holds_what_stands_between, law_an_offset_finds_its_character,
    law_lines_hold_their_text, lemma_flat_edit, lemma_flat_end, lemma_flat_one,
};
use crate::key_laws::{lemma_key_cursors, lemma_key_steps};
use crate::message::{IndentStyle, Message, Reply};
use crate::order::lemma_order_of_one;
use crate::position::Position;
use crate::text_buffer::{
    end_of, extracted, glued, not_after, spot, valid, Spot,
};
use crate::typing_laws::{
    lemma_tabbed_lines, lemma_tabbed_parts, lemma_typed_parts, tab_text, with_text,
};

verus! {

/// Both ends of a cursor stand in the text.
pub open spec fn stands_in(lines: Seq<Seq<char>>, c: Cursor) -> bool {
    &&& valid(lines, spot(c.position))
    &&& c.anchor matches Some(a) ==> valid(lines, spot(a))
}

/// How many characters stand before the first end of a cursor.
pub open spec fn first_end(lines: Seq<Seq<char>>, c: Cursor) -> int {
    match c.anchor {
        Some(a) if offset(lines, spot(a)) < offset(lines, spot(c.position)) => offset(
            lines,
            spot(a),
        ),
        _ => offset(lines, spot(c.position)),
    }
}

/// How many characters stand before the last end of a cursor.
pub open spec fn last_end(lines: Seq<Seq<char>>, c: Cursor) -> int {
    match c.anchor {
        Some(a) if offset(lines, spot(a)) > offset(lines, spot(c.position)) => offset(
            lines,
            spot(a),
        ),
        _ => offset(lines, spot(c.position)),
    }
}

impl Editor {
    /// There is one cursor, it stands in the text, and there is room to count on.
    pub open spec fn edits_at_one(self, more: nat) -> bool {
        &&& self.cursors.list.len() == 1
        &&& self.cursors.primary == 0
        &&& stands_in(self.buffer, self.cursors.list[0])
        &&& flat(self.buffer).len() + more < usize::MAX
    }

    /// There is one cursor, and its caret stands behind the first `n` characters of the text.
    pub open spec fn caret_behind(self, n: int) -> bool {
        &&& self.cursors.list.len() == 1
        &&& self.cursors.primary == 0
        &&& valid(self.buffer, spot(self.cursors.list[0].position))
        &&& offset(self.buffer, spot(self.cursors.list[0].position)) == n
    }
}

/// The first and the last end of a cursor in the text.
pub(crate) proof fn lemma_ends_in_text(lines: Seq<Seq<char>>, c: Cursor)
    requires
        stands_in(lines, c),
    ensures
        valid(lines, spot(c.lo())),
        valid(lines, spot(c.hi())),
        not_after(spot(c.lo()), spot(c.hi())),
        offset(lines, spot(c.lo())) == first_end(lines, c),
        offset(lines, spot(c.hi())) == last_end(lines, c),
        0 <= first_end(lines, c) <= last_end(lines, c) <= flat(lines).len(),
        c.selected() <==> first_end(lines, c) < last_end(lines, c),
{
    law_an_offset_finds_its_character(lines, spot(c.lo()));
    law_an_offset_finds_its_character(lines, spot(c.hi()));
    if let Some(a) = c.anchor {
        lemma_offset_order(lines, spot(a), spot(c.position));
        lemma_offset_order(lines, spot(c.position), spot(a));
    }
}

/// Copying asks for exactly the characters between the two ends of the primary cursor to be
/// written to the clipboard, and for nothing if there are none. It changes nothing.
pub proof fn law_copying_writes_what_is_selected(e: Editor)
    requires
        e.cursors.wf(),
        stands_in(e.buffer, e.cursors.list[e.cursors.primary]),
    ensures
        ({
            let c = e.cursors.list[e.cursors.primary];
            let (a, b) = (first_end(e.buffer, c), last_end(e.buffer, c));
            &&& a < b ==> e.reply(Message::Copy) == Reply::WriteClipboard(
                flat(e.buffer).subrange(a, b),
            )
            &&& a == b ==> e.reply(Message::Copy) == Reply::Nothing
            &&& a <= b
            &&& e.step(Message::Copy) == e
        }),
{
    let c = e.cursors.list[e.cursors.primary];
    lemma_ends_in_text(e.buffer, c);
    let (s, t) = (spot(c.lo()), spot(c.hi()));
    law_a_part_holds_what_stands_between(e.buffer, s, t);
    law_lines_hold_their_text(extracted(e.buffer, s, t), Seq::empty());
    reveal(Editor::view_step);
}

/// What a command at one place does to the text, and where it leaves the caret.
proof fn lemma_one_edit(lines: Seq<Seq<char>>, edit: Edit)
    requires
        valid(lines, edit.start),
        valid(lines, edit.end),
        not_after(edit.start, edit.end),
        edit.inserted.len() > 0,
        flat(lines).len() + flat(edit.inserted).len() <= usize::MAX,
    ensures
        ({
            let (a, b) = (offset(lines, edit.start), offset(lines, edit.end));
            let next = edit.result(lines);
            &&& 0 <= a <= b <= flat(lines).len()
            &&& flat(next) == flat(lines).take(a) + flat(edit.inserted) + flat(lines).skip(b)
            &&& valid(next, spot(edit.caret_after(lines)))
            &&& offset(next, spot(edit.caret_after(lines))) == a + flat(edit.inserted).len()
        }),
{
    lemma_flat_edit(edit, lines);
    lemma_flat_end(lines, edit.start, edit.end, edit.inserted);
    let t = end_of(edit.start, edit.inserted);
    assert(edit.from(lines) == edit.start);
    assert(edit.to(lines) == edit.end);
    lemma_offset_order(edit.result(lines), t, t);
}

/// A character typed at one cursor is inserted at its first end, and the caret stands behind it.
pub proof fn law_typing_inserts_at_the_first_end(e: Editor, ch: char)
    requires
        e.focus.is_focused,
        e.focus.has_canvas_focus,
        !e.focus.focus_locked,
        e.edits_at_one(1),
    ensures
        ({
            let f = e.step(Message::CharacterInput(ch));
            let a = first_end(e.buffer, e.cursors.list[0]);
            &&& flat(f.buffer) == flat(e.buffer).insert(a, ch)
            &&& f.caret_behind(a + 1)
        }),
{
    let c = e.cursors.list[0];
    lemma_ends_in_text(e.buffer, c);
    lemma_typed_parts(e, ch);
    lemma_order_of_one(carets(e.cursors.list), true);
    let (start, one) = (e.batch(), seq![0usize]);
    assert(one.drop_last() =~= Seq::empty());
    assert(start.typed(one, ch) == start.typed(one.drop_last(), ch).typed_at(0, ch));
    let edit = Edit::replace(spot(c.lo()), spot(c.lo()), seq![seq![ch]], c.lo());
    lemma_flat_one(seq![ch]);
    lemma_one_edit(e.buffer, edit);
    let a = first_end(e.buffer, c);
    assert(flat(e.buffer).take(a) + seq![ch] + flat(e.buffer).skip(a) =~= flat(e.buffer).insert(
        a,
        ch,
    ));
    lemma_primary_kept(e, Message::CharacterInput(ch));
}

/// What the editing messages do.
pub(crate) proof fn lemma_edit_steps(e: Editor, m: Message)
    ensures
        m matches Message::CharacterInput(ch) ==> e.step(m) == e.typed(ch),
        m is Tab ==> e.step(m) == e.tabbed(),
        m is Enter ==> e.step(m) == e.broken(),
        m is Backspace ==> e.step(m) == e.erased(),
        m is Delete ==> e.step(m) == e.deleted(),
        m is DeleteSelection ==> e.step(m) == e.grouping_ended().cut_if_selected(),
        m matches Message::Paste(text) ==> e.step(m) == e.paste_handled(text@),
        m matches Message::ImeCommit(text) ==> e.step(m) == e.committed(text@),
        m is Undo ==> e.step(m) == e.undone(),
        m is Redo ==> e.step(m) == e.redone(),
{
    reveal(Editor::edit_step);
}

/// Editing keeps the primary cursor the primary one.
proof fn lemma_primary_kept(e: Editor, m: Message)
    requires
        m is CharacterInput || m is Enter || m is Backspace || m is Delete || m is DeleteSelection,
    ensures
        e.step(m).cursors.primary == e.cursors.primary,
{
    lemma_edit_steps(e, m);
}

/// Enter at one cursor inserts a line break at the caret, and with auto-indent the white space
/// that the line starts with: its first `n` characters, with no white space behind them. The caret
/// stands behind what was inserted.
pub proof fn law_enter_inserts_a_line_break(e: Editor) -> (n: int)
    requires
        e.cursors.list.len() == 1 ==> e.edits_at_one(
            e.buffer[e.cursors.list[0].position.0 as int].len() + 1,
        ),
        e.cursors.list.len() == 1,
    ensures
        ({
            let f = e.step(Message::Enter);
            let pos = e.cursors.list[0].position;
            let line = e.buffer[pos.0 as int];
            let a = offset(e.buffer, spot(pos));
            &&& 0 <= n <= line.len()
            &&& !e.indenting.auto_indent_enabled ==> n == 0
            &&& e.indenting.auto_indent_enabled ==> {
                &&& forall|i: int| 0 <= i < n ==> whitespace(#[trigger] line[i])
                &&& n < line.len() ==> !whitespace(line[n])
            }
            &&& flat(f.buffer) == flat(e.buffer).take(a).push('\n') + line.take(n) + flat(
                e.buffer,
            ).skip(a)
            &&& f.caret_behind(a + 1 + n)
        }),
{
    let c = e.cursors.list[0];
    let pos = c.position;
    let line = e.buffer[pos.0 as int];
    let indent = e.indenting.auto_indent_enabled;
    let n = if indent {
        blank_end(line, 0)
    } else {
        0
    };
    lemma_blank_end(line, 0);
    lemma_blank_all(line, 0);
    lemma_key_steps(e);
    lemma_key_cursors(e);
    lemma_order_of_one(carets(e.cursors.list), true);
    let (start, one) = (e.batch(), seq![0usize]);
    assert(one.drop_last() =~= Seq::empty());
    assert(start.broken(one, indent) == start.broken(one.drop_last(), indent).broken_at(0, indent));
    assert(line_of(e.buffer, pos.0 as int) == line);
    let lead = if indent {
        indentation(line)
    } else {
        Seq::empty()
    };
    assert(lead =~= line.take(n));
    let pieces = seq![Seq::empty(), lead];
    let edit = Edit::replace(spot(pos), spot(pos), pieces, pos);
    assert(pieces.skip(1) =~= seq![lead]);
    lemma_flat_one(lead);
    assert(flat(pieces) =~= seq!['\n'] + lead);
    lemma_ends_in_text(e.buffer, c);
    law_an_offset_finds_its_character(e.buffer, spot(pos));
    lemma_one_edit(e.buffer, edit);
    let a = offset(e.buffer, spot(pos));
    assert(flat(e.buffer).take(a) + (seq!['\n'] + lead) + flat(e.buffer).skip(a) =~= flat(
        e.buffer,
    ).take(a).push('\n') + line.take(n) + flat(e.buffer).skip(a));
    lemma_primary_kept(e, Message::Enter);
    n
}

proof fn lemma_blank_all(line: Seq<char>, from: int)
    requires
        0 <= from <= line.len(),
    ensures
        forall|i: int| from <= i < blank_end(line, from) ==> whitespace(#[trigger] line[i]),
        blank_end(line, from) < line.len() ==> !whitespace(line[blank_end(line, from)]),
    decreases line.len() - from,
{
    if from < line.len() && whitespace(line[from]) {
        lemma_blank_all(line, from + 1);
    }
}

/// Backspace at one cursor that selects nothing deletes the character before the caret, a line
/// break like any other, and nothing at the start of the text. Delete deletes the one behind the
/// caret, and nothing at the end.
pub proof fn law_backspace_and_delete_take_one_character(e: Editor)
    requires
        e.edits_at_one(0),
        !e.cursors.list[0].selected(),
    ensures
        ({
            let a = offset(e.buffer, spot(e.cursors.list[0].position));
            let (f, g) = (e.step(Message::Backspace), e.step(Message::Delete));
            &&& a > 0 ==> flat(f.buffer) == flat(e.buffer).remove(a - 1) && f.caret_behind(a - 1)
            &&& a == 0 ==> f.buffer == e.buffer && f.caret_behind(0)
            &&& a < flat(e.buffer).len() ==> flat(g.buffer) == flat(e.buffer).remove(a)
                && g.caret_behind(a)
            &&& a == flat(e.buffer).len() ==> g.buffer == e.buffer && g.caret_behind(a)
        }),
{
    let c = e.cursors.list[0];
    let pos = c.position;
    let a = offset(e.buffer, spot(pos));
    let lines = e.buffer;
    lemma_ends_in_text(lines, c);
    assert(!e.cursors.any_selected());
    lemma_key_steps(e);
    lemma_key_cursors(e);
    lemma_primary_kept(e, Message::Backspace);
    lemma_primary_kept(e, Message::Delete);
    lemma_order_of_one(carets(e.cursors.list), true);
    let (start, one) = (e.batch(), seq![0usize]);
    assert(one.drop_last() =~= Seq::empty());
    assert(start.erased(one) == start.erased(one.drop_last()).erased_at(0));
    assert(start.deleted(one) == start.deleted(one.drop_last()).deleted_at(0));
    law_an_offset_finds_its_character(lines, spot(pos));
    lemma_offset_order(lines, spot(pos), spot(pos));
    let none = seq![Seq::<char>::empty()];
    lemma_flat_one(Seq::empty());
    if pos != (0usize, 0usize) {
        let (s, t) = range_before(lines, pos);
        let edit = Edit::replace(s, t, none, pos);
        assert(offset(lines, t) == offset(lines, s) + 1);
        lemma_offset_order(lines, s, t);
        lemma_one_edit(lines, edit);
        assert(flat(lines).take(a - 1) + Seq::empty() + flat(lines).skip(a) =~= flat(
            lines,
        ).remove(a - 1));
    }
    let len = line_length(lines, pos.0 as int);
    if pos.1 < len || pos.0 + 1 < lines.len() {
        let (s, t) = range_after(lines, pos);
        let edit = Edit::replace(s, t, none, pos);
        assert(offset(lines, t) == offset(lines, s) + 1);
        law_an_offset_finds_its_character(lines, t);
        lemma_one_edit(lines, edit);
        assert(flat(lines).take(a) + Seq::empty() + flat(lines).skip(a + 1) =~= flat(
            lines,
        ).remove(a));
    }
}

/// Tab at one cursor inserts the indentation at the caret, and the caret stands behind it.
pub proof fn law_tab_inserts_at_the_caret(e: Editor)
    requires
        e.edits_at_one(tab_text(e.indenting.style).len()),
    ensures
        ({
            let f = e.step(Message::Tab);
            let text = match e.indenting.style {
                IndentStyle::Spaces(n) => Seq::new(n as nat, |i: int| ' '),
                IndentStyle::Tab => seq!['\t'],
            };
            let a = offset(e.buffer, spot(e.cursors.list[0].position));
            &&& flat(f.buffer) == flat(e.buffer).take(a) + text + flat(e.buffer).skip(a)
            &&& f.caret_behind(a + text.len())
        }),
{
    let c = e.cursors.list[0];
    let pos = c.position;
    let (lines, text) = (e.buffer, tab_text(e.indenting.style));
    let bare = Cursor { position: pos, anchor: None };
    lemma_ends_in_text(lines, c);
    law_an_offset_finds_its_character(lines, spot(pos));
    lemma_tabbed_parts(e);
    lemma_edit_steps(e, Message::Tab);
    lemma_order_of_one(carets(e.cursors.list), true);
    let (start, one, style) = (e.batch(), seq![0usize], e.indenting.style);
    assert(one.drop_last() =~= Seq::empty());
    assert(start.tabbed(one, style) == start.tabbed(one.drop_last(), style).tabbed_at(0, style));
    lemma_line_in_flat(lines, spot(pos));
    lemma_tabbed_lines(start, 0, style);
    let edit = Edit::replace(spot(pos), spot(pos), seq![text], pos);
    lemma_flat_one(text);
    lemma_one_edit(lines, edit);
    let g = glued(lines[pos.0 as int].take(pos.1 as int), seq![text], lines[pos.0 as int].skip(
        pos.1 as int,
    ));
    assert(g[0] =~= with_text(lines[pos.0 as int], pos.1 as int, text));
    assert(edit.result(lines) =~= lines.update(
        pos.0 as int,
        with_text(lines[pos.0 as int], pos.1 as int, text),
    ));
}

/// A line is not longer than the text.
proof fn lemma_line_in_flat(lines: Seq<Seq<char>>, s: Spot)
    requires
        valid(lines, s),
    ensures
        lines[s.0].len() <= flat(lines).len(),
        s.0 <= flat(lines).len(),
{
    let t: Spot = (s.0, lines[s.0].len() as int);
    law_an_offset_finds_its_character(lines, t);
    lemma_offset_order(lines, t, t);
}

/// An input method that commits a text does with it what pasting does.
pub proof fn law_a_commit_is_pasted(e: Editor, text: String)
    requires
        text@.len() > 0,
    ensures
        e.step(Message::ImeCommit(text)).buffer == e.step(Message::Paste(text)).buffer,
        e.step(Message::ImeCommit(text)).cursors == e.step(Message::Paste(text)).cursors,
{
    lemma_edit_steps(e, Message::ImeCommit(text));
    lemma_edit_steps(e, Message::Paste(text));
    let f = e.grouping_ended();
    let g = (Editor { ime_preedit: None, ..e }).grouping_started("Typing"@);
    assert(f.batch() == e.batch());
    assert(g.batch() == e.batch());
}

/// Without anything to undo or to redo the text and the cursors stay. Copying and a click that
/// asks to jump change nothing at all.
pub proof fn law_nothing_to_do_changes_nothing(e: Editor, hit: Option<Position>)
    ensures
        e.history.undo.len() == 0 && (e.history.open matches Some(g) ==> g.edits.len() == 0) ==> {
            let f = e.step(Message::Undo);
            f.buffer == e.buffer && f.cursors == e.cursors
        },
        e.history.redo.len() == 0 ==> e.step(Message::Redo) == e,
        e.step(Message::JumpClick(hit)) == e,
        e.step(Message::Copy) == e,
{
    lemma_edit_steps(e, Message::Undo);
    lemma_edit_steps(e, Message::Redo);
    reveal(Editor::view_step);
}

} // verus!
