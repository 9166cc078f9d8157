//! Edits that are made at every cursor at once.
use vstd::prelude::*;

use crate::batch::{blank_end, indentation, Batch};
use crate::chars::push_range;
use crate::command::{Command, CompositeCommand, Edit, Group};
use crate::cursor_set::{carets, Cursor, CursorSet, Cursors};
use crate::history::{CommandHistory, Past};
use crate::message::IndentStyle;
use crate::order::{is_order, order_of};
use crate::position::{EditType, Position};
use crate::text_buffer::{split_lines, TextBuffer};

verus! {

/// A text, its cursors and its history hold what an edit at every cursor has made of them.
pub open spec fn holds(
    buffer: TextBuffer,
    cursors: CursorSet,
    history: CommandHistory,
    b: Batch,
    primary: int,
    past: Past,
) -> bool {
    &&& buffer@ == b.lines
    &&& cursors@ == (Cursors { list: b.list, primary })
    &&& history@ == past.recorded_each(b.edits)
    &&& buffer.wf()
    &&& cursors.wf()
    &&& history.wf()
}

/// Executes a command and records it. Returns where it leaves the caret.
pub fn run_command(
    buffer: &mut TextBuffer,
    history: &mut CommandHistory,
    command: Command,
) -> (r: Position)
    requires
        old(buffer).wf(),
        old(history).wf(),
        command.wf(),
    ensures
        final(buffer)@ == command@.result(old(buffer)@),
        final(buffer).wf(),
        final(history)@ == old(history)@.recorded_edit(command@.on(old(buffer)@)),
        final(history).wf(),
        r == command@.caret_after(old(buffer)@),
{
    let mut command = command;
    let mut cursor: Position = (0, 0);
    command.execute(buffer, &mut cursor);
    history.push(command);
    cursor
}

/// One more command at the end of a batch is one more command recorded.
proof fn lemma_recorded_next(past: Past, edits: Seq<Edit>, edit: Edit)
    ensures
        past.recorded_each(edits.push(edit)) == past.recorded_each(edits).recorded_edit(edit),
{
    assert(edits.push(edit).drop_last() =~= edits);
}

/// Inserts a character at one cursor, at the start of its selection if it has one.
fn type_at(
    buffer: &mut TextBuffer,
    cursors: &mut CursorSet,
    history: &mut CommandHistory,
    idx: usize,
    ch: char,
    Ghost(h): Ghost<Batch>,
    Ghost(primary): Ghost<int>,
    Ghost(past): Ghost<Past>,
)
    requires
        holds(*old(buffer), *old(cursors), *old(history), h, primary, past),
        idx < h.list.len(),
    ensures
        holds(
            *final(buffer),
            *final(cursors),
            *final(history),
            h.typed_at(idx as int, ch),
            primary,
            past,
        ),
        final(cursors)@.list.len() == old(cursors)@.list.len(),
{
    let cursor = cursors.get(idx);
    let pos = cursor.extent().0;
    let command = Command::insert_char(pos.0, pos.1, ch, pos);
    proof {
        lemma_recorded_next(past, h.edits, command@.on(h.lines));
    }
    let position = run_command(buffer, history, command);
    cursors.set(idx, Cursor { position, anchor: cursor.anchor });
    cursors.adjust_others(idx, pos.0, pos.1, EditType::InsertChar);
    assert(cursors@.list == h.typed_at(idx as int, ch).list);
}

/// Inserts a character at every cursor, at the start of its selection if it has one.
pub fn type_everywhere(
    buffer: &mut TextBuffer,
    cursors: &mut CursorSet,
    history: &mut CommandHistory,
    ch: char,
)
    requires
        old(buffer).wf(),
        old(cursors).wf(),
        old(history).wf(),
    ensures
        holds(
            *final(buffer),
            *final(cursors),
            *final(history),
            Batch::start(old(buffer)@, old(cursors)@.list).typed(
                order_of(carets(old(cursors)@.list), true), ch,
            ),
            old(cursors)@.primary,
            old(history)@,
        ),
        final(cursors)@.list.len() == old(cursors)@.list.len(),
{
    let ghost n = cursors@.list.len();
    let ghost primary = cursors@.primary;
    let ghost past = history@;
    let ghost b = Batch::start(buffer@, cursors@.list);
    let order = cursors.descending();
    let mut k: usize = 0;
    assert(order@.take(0) =~= Seq::empty());
    while k < order.len()
        invariant
            k <= order@.len(),
            order@.len() == n,
            is_order(order@, carets(b.list), true),
            cursors@.list.len() == n,
            holds(
                *buffer,
                *cursors,
                *history,
                b.typed(order@.take(k as int), ch),
                primary,
                past,
            ),
        decreases order@.len() - k,
    {
        let ghost h = b.typed(order@.take(k as int), ch);
        let idx = order[k];
        assert(order@.take(k + 1).drop_last() =~= order@.take(k as int));
        assert(order@.take(k + 1).last() == idx);
        type_at(buffer, cursors, history, idx, ch, Ghost(h), Ghost(primary), Ghost(past));
        k += 1;
    }
    assert(order@.take(order@.len() as int) =~= order@);
}

/// Inserts spaces at one cursor.
fn spaces_at(
    buffer: &mut TextBuffer,
    cursors: &mut CursorSet,
    history: &mut CommandHistory,
    idx: usize,
    n: u8,
    Ghost(h): Ghost<Batch>,
    Ghost(primary): Ghost<int>,
    Ghost(past): Ghost<Past>,
)
    requires
        holds(*old(buffer), *old(cursors), *old(history), h, primary, past),
        idx < h.list.len(),
    ensures
        holds(
            *final(buffer),
            *final(cursors),
            *final(history),
            h.tabbed_at(idx as int, IndentStyle::Spaces(n)),
            primary,
            past,
        ),
        final(cursors)@.list.len() == old(cursors)@.list.len(),
{
    let cursor = cursors.get(idx);
    let pos = cursor.position;
    let mut caret = pos;
    let mut i: u8 = 0;
    while i < n
        invariant
            i <= n,
            idx < h.list.len(),
            holds(
                *buffer,
                *cursors,
                *history,
                h.spaced(idx as int, pos.0, pos, i as int).0,
                primary,
                past,
            ),
            cursors@.list.len() == h.list.len(),
            cursors@.list[idx as int] == cursor,
            caret == h.spaced(idx as int, pos.0, pos, i as int).1,
        decreases n - i,
    {
        let ghost g = h.spaced(idx as int, pos.0, pos, i as int).0;
        let col = caret.1;
        let command = Command::insert_char(pos.0, col, ' ', caret);
        proof {
            lemma_recorded_next(past, g.edits, command@.on(g.lines));
        }
        caret = run_command(buffer, history, command);
        cursors.adjust_others(idx, pos.0, col, EditType::InsertChar);
        i += 1;
        assert(cursors@.list == h.spaced(idx as int, pos.0, pos, i as int).0.list);
    }
    cursors.set(idx, Cursor { position: caret, anchor: cursor.anchor });
}

/// Inserts a tab character at one cursor.
fn tab_char_at(
    buffer: &mut TextBuffer,
    cursors: &mut CursorSet,
    history: &mut CommandHistory,
    idx: usize,
    Ghost(h): Ghost<Batch>,
    Ghost(primary): Ghost<int>,
    Ghost(past): Ghost<Past>,
)
    requires
        holds(*old(buffer), *old(cursors), *old(history), h, primary, past),
        idx < h.list.len(),
    ensures
        holds(
            *final(buffer),
            *final(cursors),
            *final(history),
            h.tabbed_at(idx as int, IndentStyle::Tab),
            primary,
            past,
        ),
        final(cursors)@.list.len() == old(cursors)@.list.len(),
{
    let cursor = cursors.get(idx);
    let pos = cursor.position;
    let command = Command::insert_char(pos.0, pos.1, '\t', pos);
    proof {
        lemma_recorded_next(past, h.edits, command@.on(h.lines));
    }
    let position = run_command(buffer, history, command);
    cursors.adjust_others(idx, pos.0, pos.1, EditType::InsertChar);
    cursors.set(idx, Cursor { position, anchor: cursor.anchor });
    assert(cursors@.list == h.tabbed_at(idx as int, IndentStyle::Tab).list);
}

/// Inserts the indentation of the Tab key at one cursor.
fn tab_at(
    buffer: &mut TextBuffer,
    cursors: &mut CursorSet,
    history: &mut CommandHistory,
    idx: usize,
    style: IndentStyle,
    Ghost(h): Ghost<Batch>,
    Ghost(primary): Ghost<int>,
    Ghost(past): Ghost<Past>,
)
    requires
        holds(*old(buffer), *old(cursors), *old(history), h, primary, past),
        idx < h.list.len(),
    ensures
        holds(
            *final(buffer),
            *final(cursors),
            *final(history),
            h.tabbed_at(idx as int, style),
            primary,
            past,
        ),
        final(cursors)@.list.len() == old(cursors)@.list.len(),
{
    match style {
        IndentStyle::Spaces(n) => spaces_at(
            buffer,
            cursors,
            history,
            idx,
            n,
            Ghost(h),
            Ghost(primary),
            Ghost(past),
        ),
        IndentStyle::Tab => tab_char_at(
            buffer,
            cursors,
            history,
            idx,
            Ghost(h),
            Ghost(primary),
            Ghost(past),
        ),
    }
}

/// Inserts the indentation of the Tab key at every cursor.
pub fn tab_everywhere(
    buffer: &mut TextBuffer,
    cursors: &mut CursorSet,
    history: &mut CommandHistory,
    style: IndentStyle,
)
    requires
        old(buffer).wf(),
        old(cursors).wf(),
        old(history).wf(),
    ensures
        holds(
            *final(buffer),
            *final(cursors),
            *final(history),
            Batch::start(old(buffer)@, old(cursors)@.list).tabbed(
                order_of(carets(old(cursors)@.list), true), style,
            ),
            old(cursors)@.primary,
            old(history)@,
        ),
        final(cursors)@.list.len() == old(cursors)@.list.len(),
{
    let ghost n = cursors@.list.len();
    let ghost primary = cursors@.primary;
    let ghost past = history@;
    let ghost b = Batch::start(buffer@, cursors@.list);
    let order = cursors.descending();
    let mut k: usize = 0;
    assert(order@.take(0) =~= Seq::empty());
    while k < order.len()
        invariant
            k <= order@.len(),
            order@.len() == n,
            is_order(order@, carets(b.list), true),
            cursors@.list.len() == n,
            holds(
                *buffer,
                *cursors,
                *history,
                b.tabbed(order@.take(k as int), style),
                primary,
                past,
            ),
        decreases order@.len() - k,
    {
        let ghost h = b.tabbed(order@.take(k as int), style);
        let idx = order[k];
        assert(order@.take(k + 1).drop_last() =~= order@.take(k as int));
        assert(order@.take(k + 1).last() == idx);
        tab_at(buffer, cursors, history, idx, style, Ghost(h), Ghost(primary), Ghost(past));
        k += 1;
    }
    assert(order@.take(order@.len() as int) =~= order@);
}

/// The white space that a line starts with.
fn leading_whitespace(line: &Vec<char>) -> (r: Vec<char>)
    ensures
        r@ == indentation(line@),
{
    let mut n: usize = 0;
    while n < line.len() && line[n].is_whitespace()
        invariant
            n <= line@.len(),
            blank_end(line@, 0) == blank_end(line@, n as int),
        decreases line@.len() - n,
    {
        n += 1;
    }
    let mut r: Vec<char> = Vec::new();
    push_range(&mut r, line, 0, n);
    assert(r@ =~= indentation(line@));
    r
}

/// Breaks the line at one cursor. The new line starts as the broken one does if `indent` is set.
fn break_at(
    buffer: &mut TextBuffer,
    cursors: &mut CursorSet,
    history: &mut CommandHistory,
    idx: usize,
    indent: bool,
    Ghost(h): Ghost<Batch>,
    Ghost(primary): Ghost<int>,
    Ghost(past): Ghost<Past>,
)
    requires
        holds(*old(buffer), *old(cursors), *old(history), h, primary, past),
        idx < h.list.len(),
    ensures
        holds(
            *final(buffer),
            *final(cursors),
            *final(history),
            h.broken_at(idx as int, indent),
            primary,
            past,
        ),
        final(cursors)@.list.len() == old(cursors)@.list.len(),
{
    let cursor = cursors.get(idx);
    let pos = cursor.position;
    let lead: Vec<char> = if indent {
        leading_whitespace(&buffer.line_chars(pos.0))
    } else {
        Vec::new()
    };
    let indent_len = lead.len();
    let command = Command::insert_newline(pos.0, pos.1, pos, lead);
    proof {
        lemma_recorded_next(past, h.edits, command@.on(h.lines));
    }
    let position = run_command(buffer, history, command);
    cursors.set(idx, Cursor { position, anchor: cursor.anchor });
    cursors.adjust_others(idx, pos.0, pos.1, EditType::InsertNewline { indent_len });
    assert(cursors@.list == h.broken_at(idx as int, indent).list);
}

/// Breaks the line at every cursor.
pub fn break_everywhere(
    buffer: &mut TextBuffer,
    cursors: &mut CursorSet,
    history: &mut CommandHistory,
    indent: bool,
)
    requires
        old(buffer).wf(),
        old(cursors).wf(),
        old(history).wf(),
    ensures
        holds(
            *final(buffer),
            *final(cursors),
            *final(history),
            Batch::start(old(buffer)@, old(cursors)@.list).broken(
                order_of(carets(old(cursors)@.list), true), indent,
            ),
            old(cursors)@.primary,
            old(history)@,
        ),
        final(cursors)@.list.len() == old(cursors)@.list.len(),
{
    let ghost n = cursors@.list.len();
    let ghost primary = cursors@.primary;
    let ghost past = history@;
    let ghost b = Batch::start(buffer@, cursors@.list);
    let order = cursors.descending();
    let mut k: usize = 0;
    assert(order@.take(0) =~= Seq::empty());
    while k < order.len()
        invariant
            k <= order@.len(),
            order@.len() == n,
            is_order(order@, carets(b.list), true),
            cursors@.list.len() == n,
            holds(
                *buffer,
                *cursors,
                *history,
                b.broken(order@.take(k as int), indent),
                primary,
                past,
            ),
        decreases order@.len() - k,
    {
        let ghost h = b.broken(order@.take(k as int), indent);
        let idx = order[k];
        assert(order@.take(k + 1).drop_last() =~= order@.take(k as int));
        assert(order@.take(k + 1).last() == idx);
        break_at(buffer, cursors, history, idx, indent, Ghost(h), Ghost(primary), Ghost(past));
        k += 1;
    }
    assert(order@.take(order@.len() as int) =~= order@);
}

/// Deletes the character before one cursor, or merges its line into the one before it.
fn erase_at(
    buffer: &mut TextBuffer,
    cursors: &mut CursorSet,
    history: &mut CommandHistory,
    idx: usize,
    Ghost(h): Ghost<Batch>,
    Ghost(primary): Ghost<int>,
    Ghost(past): Ghost<Past>,
)
    requires
        holds(*old(buffer), *old(cursors), *old(history), h, primary, past),
        idx < h.list.len(),
    ensures
        holds(
            *final(buffer),
            *final(cursors),
            *final(history),
            h.erased_at(idx as int),
            primary,
            past,
        ),
        final(cursors)@.list.len() == old(cursors)@.list.len(),
{
    let cursor = cursors.get(idx);
    let pos = cursor.position;
    let kind = if pos.1 > 0 {
        EditType::DeleteCharBack
    } else if pos.0 > 0 {
        let prev_line_len = buffer.line_len(pos.0 - 1);
        EditType::MergePrev { prev_line_len }
    } else {
        return;
    };
    let command = Command::delete_char(buffer, pos.0, pos.1, pos);
    proof {
        lemma_recorded_next(past, h.edits, command@.on(h.lines));
    }
    let position = run_command(buffer, history, command);
    cursors.set(idx, Cursor { position, anchor: cursor.anchor });
    cursors.adjust_others(idx, pos.0, pos.1, kind);
    assert(cursors@.list == h.erased_at(idx as int).list);
}

/// Deletes the character before every cursor.
pub fn erase_everywhere(
    buffer: &mut TextBuffer,
    cursors: &mut CursorSet,
    history: &mut CommandHistory,
)
    requires
        old(buffer).wf(),
        old(cursors).wf(),
        old(history).wf(),
    ensures
        holds(
            *final(buffer),
            *final(cursors),
            *final(history),
            Batch::start(old(buffer)@, old(cursors)@.list).erased(
                order_of(carets(old(cursors)@.list), true),
            ),
            old(cursors)@.primary,
            old(history)@,
        ),
        final(cursors)@.list.len() == old(cursors)@.list.len(),
{
    let ghost n = cursors@.list.len();
    let ghost primary = cursors@.primary;
    let ghost past = history@;
    let ghost b = Batch::start(buffer@, cursors@.list);
    let order = cursors.descending();
    let mut k: usize = 0;
    assert(order@.take(0) =~= Seq::empty());
    while k < order.len()
        invariant
            k <= order@.len(),
            order@.len() == n,
            is_order(order@, carets(b.list), true),
            cursors@.list.len() == n,
            holds(
                *buffer,
                *cursors,
                *history,
                b.erased(order@.take(k as int)),
                primary,
                past,
            ),
        decreases order@.len() - k,
    {
        let ghost h = b.erased(order@.take(k as int));
        let idx = order[k];
        assert(order@.take(k + 1).drop_last() =~= order@.take(k as int));
        assert(order@.take(k + 1).last() == idx);
        erase_at(buffer, cursors, history, idx, Ghost(h), Ghost(primary), Ghost(past));
        k += 1;
    }
    assert(order@.take(order@.len() as int) =~= order@);
}

/// Deletes the character after one cursor, or merges the next line into its line.
fn delete_at(
    buffer: &mut TextBuffer,
    cursors: &mut CursorSet,
    history: &mut CommandHistory,
    idx: usize,
    Ghost(h): Ghost<Batch>,
    Ghost(primary): Ghost<int>,
    Ghost(past): Ghost<Past>,
)
    requires
        holds(*old(buffer), *old(cursors), *old(history), h, primary, past),
        idx < h.list.len(),
    ensures
        holds(
            *final(buffer),
            *final(cursors),
            *final(history),
            h.deleted_at(idx as int),
            primary,
            past,
        ),
        final(cursors)@.list.len() == old(cursors)@.list.len(),
{
    let cursor = cursors.get(idx);
    let pos = cursor.position;
    let line_len = buffer.line_len(pos.0);
    let count = buffer.line_count();
    let kind = if pos.1 < line_len {
        EditType::DeleteCharForward
    } else if pos.0 < count - 1 {
        EditType::MergeNext { edit_line_len: line_len }
    } else {
        return;
    };
    let command = Command::delete_forward(buffer, pos.0, pos.1, pos);
    proof {
        lemma_recorded_next(past, h.edits, command@.on(h.lines));
    }
    let position = run_command(buffer, history, command);
    cursors.set(idx, Cursor { position, anchor: cursor.anchor });
    cursors.adjust_others(idx, pos.0, pos.1, kind);
    assert(cursors@.list == h.deleted_at(idx as int).list);
}

/// Deletes the character after every cursor.
pub fn delete_everywhere(
    buffer: &mut TextBuffer,
    cursors: &mut CursorSet,
    history: &mut CommandHistory,
)
    requires
        old(buffer).wf(),
        old(cursors).wf(),
        old(history).wf(),
    ensures
        holds(
            *final(buffer),
            *final(cursors),
            *final(history),
            Batch::start(old(buffer)@, old(cursors)@.list).deleted(
                order_of(carets(old(cursors)@.list), true),
            ),
            old(cursors)@.primary,
            old(history)@,
        ),
        final(cursors)@.list.len() == old(cursors)@.list.len(),
{
    let ghost n = cursors@.list.len();
    let ghost primary = cursors@.primary;
    let ghost past = history@;
    let ghost b = Batch::start(buffer@, cursors@.list);
    let order = cursors.descending();
    let mut k: usize = 0;
    assert(order@.take(0) =~= Seq::empty());
    while k < order.len()
        invariant
            k <= order@.len(),
            order@.len() == n,
            is_order(order@, carets(b.list), true),
            cursors@.list.len() == n,
            holds(
                *buffer,
                *cursors,
                *history,
                b.deleted(order@.take(k as int)),
                primary,
                past,
            ),
        decreases order@.len() - k,
    {
        let ghost h = b.deleted(order@.take(k as int));
        let idx = order[k];
        assert(order@.take(k + 1).drop_last() =~= order@.take(k as int));
        assert(order@.take(k + 1).last() == idx);
        delete_at(buffer, cursors, history, idx, Ghost(h), Ghost(primary), Ghost(past));
        k += 1;
    }
    assert(order@.take(order@.len() as int) =~= order@);
}

/// A text, its cursors and a composite command hold what an edit at every cursor has made of
/// them.
pub open spec fn gathers(
    buffer: TextBuffer,
    cursors: CursorSet,
    composite: CompositeCommand,
    b: Batch,
    primary: int,
    label: Seq<char>,
) -> bool {
    &&& buffer@ == b.lines
    &&& cursors@ == (Cursors { list: b.list, primary })
    &&& composite@ == (Group { label, edits: b.edits })
    &&& buffer.wf()
    &&& cursors.wf()
    &&& composite.wf()
}

/// Replaces a range at one cursor, which is a bare caret then.
fn replace_at(
    buffer: &mut TextBuffer,
    cursors: &mut CursorSet,
    composite: &mut CompositeCommand,
    idx: usize,
    command: Command,
    Ghost(h): Ghost<Batch>,
    Ghost(primary): Ghost<int>,
    Ghost(label): Ghost<Seq<char>>,
)
    requires
        gathers(*old(buffer), *old(cursors), *old(composite), h, primary, label),
        idx < h.list.len(),
        command.wf(),
    ensures
        gathers(
            *final(buffer),
            *final(cursors),
            *final(composite),
            h.replaced_at(idx as int, command@),
            primary,
            label,
        ),
        final(cursors)@.list.len() == old(cursors)@.list.len(),
{
    let ghost edit = command@;
    let mut command = command;
    let mut caret: Position = (0, 0);
    command.execute(buffer, &mut caret);
    let (s, e) = command.range();
    composite.add(command);
    cursors.set(idx, Cursor::new(caret));
    cursors.move_others(idx, s, e, caret);
    assert(cursors@.list == h.replaced_at(idx as int, edit).list);
}

/// Deletes the selection of every cursor and gathers the commands.
pub fn cut_everywhere(
    buffer: &mut TextBuffer,
    cursors: &mut CursorSet,
    composite: &mut CompositeCommand,
)
    requires
        old(buffer).wf(),
        old(cursors).wf(),
        old(composite).wf(),
    ensures
        gathers(
            *final(buffer),
            *final(cursors),
            *final(composite),
            (Batch {
                lines: old(buffer)@,
                list: old(cursors)@.list,
                edits: old(composite)@.edits,
            }).cut(order_of(carets(old(cursors)@.list), true)),
            old(cursors)@.primary,
            old(composite)@.label,
        ),
        final(cursors)@.list.len() == old(cursors)@.list.len(),
{
    let ghost n = cursors@.list.len();
    let ghost primary = cursors@.primary;
    let ghost label = composite@.label;
    let ghost b = Batch { lines: buffer@, list: cursors@.list, edits: composite@.edits };
    let order = cursors.descending();
    let mut k: usize = 0;
    assert(order@.take(0) =~= Seq::empty());
    while k < order.len()
        invariant
            k <= order@.len(),
            order@.len() == n,
            is_order(order@, carets(b.list), true),
            cursors@.list.len() == n,
            gathers(*buffer, *cursors, *composite, b.cut(order@.take(k as int)), primary, label),
        decreases order@.len() - k,
    {
        let ghost h = b.cut(order@.take(k as int));
        let idx = order[k];
        assert(order@.take(k + 1).drop_last() =~= order@.take(k as int));
        assert(order@.take(k + 1).last() == idx);
        let cursor = cursors.get(idx);
        if let Some((start, end)) = cursor.selection_range() {
            let command = Command::delete_range(start, end, cursor.position);
            replace_at(
                buffer,
                cursors,
                composite,
                idx,
                command,
                Ghost(h),
                Ghost(primary),
                Ghost(label),
            );
        }
        k += 1;
    }
    assert(order@.take(order@.len() as int) =~= order@);
}

/// Inserts a text at every caret and gathers the commands.
pub fn paste_everywhere(
    buffer: &mut TextBuffer,
    cursors: &mut CursorSet,
    composite: &mut CompositeCommand,
    text: &str,
)
    requires
        old(buffer).wf(),
        old(cursors).wf(),
        old(composite).wf(),
    ensures
        gathers(
            *final(buffer),
            *final(cursors),
            *final(composite),
            (Batch {
                lines: old(buffer)@,
                list: old(cursors)@.list,
                edits: old(composite)@.edits,
            }).pasted(order_of(carets(old(cursors)@.list), true), split_lines(text@)),
            old(cursors)@.primary,
            old(composite)@.label,
        ),
        final(cursors)@.list.len() == old(cursors)@.list.len(),
{
    let ghost n = cursors@.list.len();
    let ghost primary = cursors@.primary;
    let ghost label = composite@.label;
    let ghost pieces = split_lines(text@);
    let ghost b = Batch { lines: buffer@, list: cursors@.list, edits: composite@.edits };
    let order = cursors.descending();
    let mut k: usize = 0;
    assert(order@.take(0) =~= Seq::empty());
    while k < order.len()
        invariant
            k <= order@.len(),
            order@.len() == n,
            pieces == split_lines(text@),
            is_order(order@, carets(b.list), true),
            cursors@.list.len() == n,
            gathers(
                *buffer,
                *cursors,
                *composite,
                b.pasted(order@.take(k as int), pieces),
                primary,
                label,
            ),
        decreases order@.len() - k,
    {
        let ghost h = b.pasted(order@.take(k as int), pieces);
        let idx = order[k];
        assert(order@.take(k + 1).drop_last() =~= order@.take(k as int));
        assert(order@.take(k + 1).last() == idx);
        let pos = cursors.get(idx).position;
        let command = Command::insert_text(pos.0, pos.1, text, pos);
        replace_at(
            buffer,
            cursors,
            composite,
            idx,
            command,
            Ghost(h),
            Ghost(primary),
            Ghost(label),
        );
        k += 1;
    }
    assert(order@.take(order@.len() as int) =~= order@);
}

} // verus!
