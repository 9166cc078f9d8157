//! Edits that can be executed and undone.
use vstd::prelude::*;

use crate::position::{capped, is_before, Position};
use crate::text_buffer::{
    at, clamped, end_of, extracted, lemma_splice_inverse, not_after, rows, spliced, split_lines,
    split_text, spot, valid, Spot, TextBuffer,
};

verus! {

/// What a command does: it replaces the text from `start` to `end`, which is `removed` once the
/// command was executed, by `inserted`.
#[verifier::ext_equal]
pub struct Edit {
    pub start: Spot,
    pub end: Spot,
    pub inserted: Seq<Seq<char>>,
    pub removed: Seq<Seq<char>>,
    /// Where the caret goes back to when the command is undone.
    pub caret_before: Position,
}

impl Edit {
    /// Lines and columns count from zero, and a text is at least one piece, though it may be
    /// empty.
    pub open spec fn wf(self) -> bool {
        &&& 0 <= self.start.0 && 0 <= self.start.1
        &&& 0 <= self.end.0 && 0 <= self.end.1
        &&& self.inserted.len() > 0
        &&& self.removed.len() > 0
    }

    /// A command that was not executed yet.
    pub open spec fn replace(
        start: Spot,
        end: Spot,
        inserted: Seq<Seq<char>>,
        caret_before: Position,
    ) -> Edit {
        Edit { start, end, inserted, removed: seq![Seq::empty()], caret_before }
    }

    /// The place of `lines` where the edit starts.
    pub open spec fn from(self, lines: Seq<Seq<char>>) -> Spot {
        clamped(lines, self.start)
    }

    /// The place of `lines` where the replaced range ends.
    pub open spec fn to(self, lines: Seq<Seq<char>>) -> Spot {
        let e = clamped(lines, self.end);
        if not_after(self.from(lines), e) {
            e
        } else {
            self.from(lines)
        }
    }

    /// The command as it is executed on `lines`: its range in the text, and what stood there.
    pub open spec fn on(self, lines: Seq<Seq<char>>) -> Edit {
        let (s, e) = (self.from(lines), self.to(lines));
        Edit { start: s, end: e, removed: extracted(lines, s, e), ..self }
    }

    /// The text after the command was executed on `lines`.
    pub open spec fn result(self, lines: Seq<Seq<char>>) -> Seq<Seq<char>> {
        spliced(lines, self.from(lines), self.to(lines), self.inserted)
    }

    /// Where the caret stands after the command was executed on `lines`: behind what it inserted.
    pub open spec fn caret_after(self, lines: Seq<Seq<char>>) -> Position {
        at(end_of(self.from(lines), self.inserted))
    }

    /// The text after the command was undone on `lines`.
    pub open spec fn undone(self, lines: Seq<Seq<char>>) -> Seq<Seq<char>> {
        let s = clamped(lines, self.start);
        let e = clamped(lines, end_of(self.start, self.inserted));
        spliced(
            lines,
            s,
            if not_after(s, e) {
                e
            } else {
                s
            },
            self.removed,
        )
    }

    /// `lines` is a text that the command, once executed, leaves behind.
    pub open spec fn fits(self, lines: Seq<Seq<char>>) -> bool {
        let t = end_of(self.start, self.inserted);
        &&& self.wf()
        &&& valid(lines, self.start)
        &&& valid(lines, t)
        &&& not_after(self.start, t)
        &&& extracted(lines, self.start, t) == self.inserted
        &&& self.end == end_of(self.start, self.removed)
    }
}

/// Executing a command leaves a text that it fits, and undoing it gives the text back.
pub proof fn lemma_executed(edit: Edit, lines: Seq<Seq<char>>)
    requires
        edit.wf(),
        lines.len() > 0,
    ensures
        edit.on(lines).wf(),
        edit.on(lines).fits(edit.result(lines)),
        edit.on(lines).undone(edit.result(lines)) == lines,
        edit.result(lines).len() > 0,
        valid(edit.result(lines), end_of(edit.from(lines), edit.inserted)),
{
    lemma_splice_inverse(lines, edit.from(lines), edit.to(lines), edit.inserted);
}

/// Undoing a command on a text that it fits, and executing it again, gives that text back.
pub proof fn lemma_undone(edit: Edit, lines: Seq<Seq<char>>)
    requires
        edit.fits(lines),
    ensures
        edit.undone(lines).len() > 0,
        edit.result(edit.undone(lines)) == lines,
        edit.on(edit.undone(lines)) == edit,
{
    let t = end_of(edit.start, edit.inserted);
    lemma_splice_inverse(lines, edit.start, t, edit.removed);
    let prior = edit.undone(lines);
    assert(edit.to(prior) == edit.end);
    assert(edit.on(prior) =~= edit);
}

/// The range that Backspace at `pos` deletes: the character before it, or the line break before
/// its line; nothing at the start of the text.
pub open spec fn range_before(lines: Seq<Seq<char>>, pos: Position) -> (Spot, Spot) {
    if pos.1 > 0 {
        ((pos.0 as int, pos.1 - 1), spot(pos))
    } else if pos.0 > 0 {
        ((pos.0 - 1, line_length(lines, pos.0 - 1)), spot(pos))
    } else {
        (spot(pos), spot(pos))
    }
}

/// The range that Delete at `pos` deletes: the character after it, or the line break after its
/// line; nothing at the end of the text.
pub open spec fn range_after(lines: Seq<Seq<char>>, pos: Position) -> (Spot, Spot) {
    if pos.1 < line_length(lines, pos.0 as int) {
        (spot(pos), (pos.0 as int, pos.1 + 1))
    } else if pos.0 + 1 < lines.len() {
        (spot(pos), (pos.0 + 1, 0))
    } else {
        (spot(pos), spot(pos))
    }
}

/// Number of characters of a line; 0 where there is none.
pub open spec fn line_length(lines: Seq<Seq<char>>, line: int) -> int {
    if 0 <= line < lines.len() {
        lines[line].len() as int
    } else {
        0
    }
}

/// A command of the undo history.
#[derive(Debug)]
pub struct Command {
    start: Position,
    end: Position,
    inserted: Vec<Vec<char>>,
    removed: Vec<Vec<char>>,
    caret_before: Position,
}

impl View for Command {
    type V = Edit;

    closed spec fn view(&self) -> Edit {
        Edit {
            start: spot(self.start),
            end: spot(self.end),
            inserted: rows(self.inserted@),
            removed: rows(self.removed@),
            caret_before: self.caret_before,
        }
    }
}

/// One empty piece.
fn no_text() -> (r: Vec<Vec<char>>)
    ensures
        r@.len() == 1,
        rows(r@) == seq![Seq::<char>::empty()],
{
    let mut r: Vec<Vec<char>> = Vec::new();
    r.push(Vec::new());
    assert(rows(r@) =~= seq![Seq::<char>::empty()]);
    r
}

impl Command {
    /// The command was made from at least one piece of text.
    pub open spec fn wf(self) -> bool {
        self@.wf()
    }

    fn replace(start: Position, end: Position, inserted: Vec<Vec<char>>, cursor: Position) -> (r:
        Self)
        requires
            inserted@.len() > 0,
        ensures
            r@ == Edit::replace(spot(start), spot(end), rows(inserted@), cursor),
            r.wf(),
    {
        Command { start, end, inserted, removed: no_text(), caret_before: cursor }
    }

    /// Inserts a character at `(line, col)`.
    pub fn insert_char(line: usize, col: usize, ch: char, cursor: Position) -> (r: Self)
        ensures
            r@ == Edit::replace(
                spot((line, col)),
                spot((line, col)),
                seq![seq![ch]],
                cursor,
            ),
            r.wf(),
    {
        let mut piece: Vec<char> = Vec::new();
        piece.push(ch);
        assert(piece@ =~= seq![ch]);
        let mut pieces: Vec<Vec<char>> = Vec::new();
        pieces.push(piece);
        assert(rows(pieces@) =~= seq![seq![ch]]);
        Command::replace((line, col), (line, col), pieces, cursor)
    }

    /// Splits a line at `(line, col)`; the new line starts with `indent`.
    pub fn insert_newline(line: usize, col: usize, cursor: Position, indent: Vec<char>) -> (r: Self)
        ensures
            r@ == Edit::replace(
                spot((line, col)),
                spot((line, col)),
                seq![Seq::empty(), indent@],
                cursor,
            ),
            r.wf(),
    {
        let mut pieces: Vec<Vec<char>> = Vec::new();
        pieces.push(Vec::new());
        pieces.push(indent);
        assert(rows(pieces@) =~= seq![Seq::empty(), indent@]);
        Command::replace((line, col), (line, col), pieces, cursor)
    }

    /// Inserts a text at `(line, col)`.
    pub fn insert_text(line: usize, col: usize, text: &str, cursor: Position) -> (r: Self)
        ensures
            r@ == Edit::replace(
                spot((line, col)),
                spot((line, col)),
                split_lines(text@),
                cursor,
            ),
            r.wf(),
    {
        Command::replace((line, col), (line, col), split_text(text), cursor)
    }

    /// Deletes the character before `(line, col)`, or merges the line into the one before it.
    pub fn delete_char(buffer: &TextBuffer, line: usize, col: usize, cursor: Position) -> (r: Self)
        ensures
            r@ == Edit::replace(
                range_before(buffer@, (line, col)).0,
                range_before(buffer@, (line, col)).1,
                seq![Seq::empty()],
                cursor,
            ),
            r.wf(),
    {
        let start = if col > 0 {
            (line, col - 1)
        } else if line > 0 {
            (line - 1, buffer.line_len(line - 1))
        } else {
            (line, col)
        };
        Command::replace(start, (line, col), no_text(), cursor)
    }

    /// Deletes the character after `(line, col)`, or merges the next line into this one.
    pub fn delete_forward(buffer: &TextBuffer, line: usize, col: usize, cursor: Position) -> (r:
        Self)
        ensures
            r@ == Edit::replace(
                range_after(buffer@, (line, col)).0,
                range_after(buffer@, (line, col)).1,
                seq![Seq::empty()],
                cursor,
            ),
            r.wf(),
    {
        let count = buffer.line_count();
        let end = if col < buffer.line_len(line) {
            (line, col + 1)
        } else if count > 0 && line < count - 1 {
            (line + 1, 0)
        } else {
            (line, col)
        };
        Command::replace((line, col), end, no_text(), cursor)
    }

    /// Deletes the text from `start` to `end`.
    pub fn delete_range(start: Position, end: Position, cursor: Position) -> (r: Self)
        ensures
            r@ == Edit::replace(spot(start), spot(end), seq![Seq::empty()], cursor),
            r.wf(),
    {
        Command::replace(start, end, no_text(), cursor)
    }

    /// Replaces `len` characters at `start` by a text.
    pub fn replace_text(start: Position, len: usize, text: &str, cursor: Position) -> (r: Self)
        ensures
            r@ == Edit::replace(
                spot(start),
                spot((start.0, capped(start.1 + len))),
                split_lines(text@),
                cursor,
            ),
            r.wf(),
    {
        Command::replace(start, (start.0, start.1.saturating_add(len)), split_text(text), cursor)
    }

    /// The range that the command replaces.
    pub fn range(&self) -> (r: (Position, Position))
        ensures
            spot(r.0) == self@.start,
            spot(r.1) == self@.end,
    {
        (self.start, self.end)
    }

    /// Executes the command on a text, moves the caret behind what it inserted, and keeps what
    /// it removed.
    pub fn execute(&mut self, buffer: &mut TextBuffer, cursor: &mut Position)
        requires
            old(self).wf(),
            old(buffer).wf(),
        ensures
            final(self)@ == old(self)@.on(old(buffer)@),
            final(self).wf(),
            final(buffer)@ == old(self)@.result(old(buffer)@),
            final(buffer).wf(),
            *final(cursor) == old(self)@.caret_after(old(buffer)@),
    {
        let ghost lines = buffer@;
        let ghost edit = self@;
        let s = buffer.clamp(self.start);
        let clamped_end = buffer.clamp(self.end);
        let e = if is_before(clamped_end, s) {
            s
        } else {
            clamped_end
        };
        self.removed = buffer.extract(s, e);
        self.start = s;
        self.end = e;
        buffer.replace_range(s, e, &self.inserted);
        proof {
            lemma_executed(edit, lines);
        }
        *cursor = end_in(buffer, s, &self.inserted);
        assert(self@ =~= edit.on(lines));
    }

    /// Undoes the command on a text and puts the caret back.
    pub fn undo(&self, buffer: &mut TextBuffer, cursor: &mut Position)
        requires
            self.wf(),
            old(buffer).wf(),
        ensures
            final(buffer)@ == self@.undone(old(buffer)@),
            final(buffer).wf(),
            *final(cursor) == self@.caret_before,
    {
        let s = buffer.clamp(self.start);
        let clamped_end = end_in(buffer, self.start, &self.inserted);
        let e = if is_before(clamped_end, s) {
            s
        } else {
            clamped_end
        };
        buffer.replace_range(s, e, &self.removed);
        *cursor = self.caret_before;
    }
}

/// Where `pieces` end when they stand at `start`, as the nearest place of the text.
fn end_in(buffer: &TextBuffer, start: Position, pieces: &Vec<Vec<char>>) -> (r: Position)
    requires
        buffer.wf(),
        pieces@.len() > 0,
    ensures
        spot(r) == clamped(buffer@, end_of(spot(start), rows(pieces@))),
{
    let last = pieces.len() - 1;
    let count = buffer.line_count();
    let end = if last == 0 {
        (start.0, start.1.saturating_add(pieces[0].len()))
    } else {
        (start.0.saturating_add(last), pieces[last].len())
    };
    let ghost t = end_of(spot(start), rows(pieces@));
    let r = buffer.clamp(end);
    if end.0 < count {
        let len = buffer.line_len(end.0);
        assert(spot(end).0 == t.0);
    }
    r
}

/// What a list of commands does.
pub open spec fn edits_of(commands: Seq<Command>) -> Seq<Edit> {
    Seq::new(commands.len(), |i: int| commands[i]@)
}

/// Every edit of the list is well-formed.
pub open spec fn all_wf(edits: Seq<Edit>) -> bool {
    forall|i: int| 0 <= i < edits.len() ==> (#[trigger] edits[i]).wf()
}

/// What the execution of several commands leaves: the commands as they were executed, the text
/// and the caret.
#[verifier::ext_equal]
pub struct Outcome {
    pub edits: Seq<Edit>,
    pub lines: Seq<Seq<char>>,
    pub caret: Position,
}

/// The commands executed one after the other.
pub open spec fn run_all(edits: Seq<Edit>, lines: Seq<Seq<char>>, caret: Position) -> Outcome
    decreases edits.len(),
{
    if edits.len() == 0 {
        Outcome { edits, lines, caret }
    } else {
        let head = run_all(edits.drop_last(), lines, caret);
        let edit = edits.last();
        Outcome {
            edits: head.edits.push(edit.on(head.lines)),
            lines: edit.result(head.lines),
            caret: edit.caret_after(head.lines),
        }
    }
}

/// The text after the commands were undone, the last one first.
pub open spec fn undo_all(edits: Seq<Edit>, lines: Seq<Seq<char>>) -> Seq<Seq<char>>
    decreases edits.len(),
{
    if edits.len() == 0 {
        lines
    } else {
        undo_all(edits.drop_last(), edits.last().undone(lines))
    }
}

/// Where the caret stands after the commands were undone.
pub open spec fn caret_undone(edits: Seq<Edit>, caret: Position) -> Position {
    if edits.len() == 0 {
        caret
    } else {
        edits[0].caret_before
    }
}

/// `lines` is a text that the commands, executed one after the other, leave behind.
pub open spec fn all_fit(edits: Seq<Edit>, lines: Seq<Seq<char>>) -> bool
    decreases edits.len(),
{
    edits.len() == 0 || {
        &&& edits.last().fits(lines)
        &&& all_fit(edits.drop_last(), edits.last().undone(lines))
    }
}

/// Executing commands leaves a text that they fit, and undoing them gives the text back.
pub proof fn lemma_run_all(edits: Seq<Edit>, lines: Seq<Seq<char>>, caret: Position)
    requires
        all_wf(edits),
        lines.len() > 0,
    ensures
        run_all(edits, lines, caret).edits.len() == edits.len(),
        all_wf(run_all(edits, lines, caret).edits),
        run_all(edits, lines, caret).lines.len() > 0,
        all_fit(run_all(edits, lines, caret).edits, run_all(edits, lines, caret).lines),
        undo_all(run_all(edits, lines, caret).edits, run_all(edits, lines, caret).lines) == lines,
        forall|i: int|
            0 <= i < edits.len() ==> (#[trigger] run_all(
                edits,
                lines,
                caret,
            ).edits[i]).caret_before == edits[i].caret_before,
    decreases edits.len(),
{
    if edits.len() > 0 {
        let head = run_all(edits.drop_last(), lines, caret);
        lemma_run_all(edits.drop_last(), lines, caret);
        lemma_executed(edits.last(), head.lines);
        let all = run_all(edits, lines, caret);
        assert(all.edits.drop_last() =~= head.edits);
        assert forall|i: int| 0 <= i < edits.len() implies (
        #[trigger] all.edits[i]).caret_before == edits[i].caret_before by {
            if i < edits.len() - 1 {
                assert(all.edits[i] == head.edits[i]);
            }
        }
    }
}

/// Undoing commands on a text that they fit, and executing them again, gives that text back.
pub proof fn lemma_undo_all(edits: Seq<Edit>, lines: Seq<Seq<char>>, caret: Position)
    requires
        all_fit(edits, lines),
        lines.len() > 0,
    ensures
        undo_all(edits, lines).len() > 0,
        run_all(edits, undo_all(edits, lines), caret).lines == lines,
        run_all(edits, undo_all(edits, lines), caret).edits == edits,
    decreases edits.len(),
{
    if edits.len() > 0 {
        let prior = edits.last().undone(lines);
        lemma_undone(edits.last(), lines);
        lemma_undo_all(edits.drop_last(), prior, caret);
        assert(edits.drop_last().push(edits.last()) =~= edits);
    }
}

/// A labelled list of commands.
#[verifier::ext_equal]
pub struct Group {
    pub label: Seq<char>,
    pub edits: Seq<Edit>,
}

/// Several commands that are executed and undone as one.
#[derive(Debug)]
pub struct CompositeCommand {
    label: String,
    commands: Vec<Command>,
}

impl View for CompositeCommand {
    type V = Group;

    closed spec fn view(&self) -> Group {
        Group { label: self.label@, edits: edits_of(self.commands@) }
    }
}

impl CompositeCommand {
    /// Every command is well-formed.
    pub open spec fn wf(self) -> bool {
        all_wf(self@.edits)
    }

    /// A composite without commands.
    pub fn new(label: String) -> (r: Self)
        ensures
            r@ == (Group { label: label@, edits: Seq::empty() }),
            r.wf(),
    {
        let r = CompositeCommand { label, commands: Vec::new() };
        assert(r@.edits =~= Seq::empty());
        r
    }

    /// Appends a command.
    pub fn add(&mut self, command: Command)
        requires
            old(self).wf(),
            command.wf(),
        ensures
            final(self)@ == (Group {
                label: old(self)@.label,
                edits: old(self)@.edits.push(command@),
            }),
            final(self).wf(),
    {
        self.commands.push(command);
        assert(self@.edits =~= old(self)@.edits.push(command@));
    }

    /// Appends the commands of another composite.
    pub fn append(&mut self, other: CompositeCommand)
        requires
            old(self).wf(),
            other.wf(),
        ensures
            final(self)@ == (Group {
                label: old(self)@.label,
                edits: old(self)@.edits + other@.edits,
            }),
            final(self).wf(),
    {
        let mut commands = other.commands;
        self.commands.append(&mut commands);
        assert(self@.edits =~= old(self)@.edits + other@.edits);
        assert forall|i: int| 0 <= i < self@.edits.len() implies (
        #[trigger] self@.edits[i]).wf() by {
            if i < old(self)@.edits.len() {
                assert(old(self)@.edits[i].wf());
            } else {
                assert(other@.edits[i - old(self)@.edits.len()].wf());
            }
        }
    }

    /// Tells whether there are no commands.
    pub fn is_empty(&self) -> (r: bool)
        ensures
            r == (self@.edits.len() == 0),
    {
        self.commands.len() == 0
    }

    /// Executes the commands one after the other.
    pub fn execute(&mut self, buffer: &mut TextBuffer, cursor: &mut Position)
        requires
            old(self).wf(),
            old(buffer).wf(),
        ensures
            final(self)@ == (Group {
                label: old(self)@.label,
                edits: run_all(old(self)@.edits, old(buffer)@, *old(cursor)).edits,
            }),
            final(self).wf(),
            final(buffer)@ == run_all(old(self)@.edits, old(buffer)@, *old(cursor)).lines,
            final(buffer).wf(),
            *final(cursor) == run_all(old(self)@.edits, old(buffer)@, *old(cursor)).caret,
    {
        let ghost edits = self@.edits;
        let ghost lines = buffer@;
        let ghost caret = *cursor;
        let mut i: usize = 0;
        assert(edits.take(0) =~= Seq::empty());
        while i < self.commands.len()
            invariant
                i <= self.commands@.len(),
                self.commands@.len() == edits.len(),
                self.label == old(self).label,
                all_wf(edits),
                buffer.wf(),
                buffer@ == run_all(edits.take(i as int), lines, caret).lines,
                *cursor == run_all(edits.take(i as int), lines, caret).caret,
                run_all(edits.take(i as int), lines, caret).edits.len() == i,
                forall|k: int|
                    0 <= k < i ==> (#[trigger] self.commands@[k])@ == run_all(
                        edits.take(i as int),
                        lines,
                        caret,
                    ).edits[k],
                forall|k: int| 0 <= k < i ==> (#[trigger] self.commands@[k]).wf(),
                forall|k: int| i <= k < edits.len() ==> (#[trigger] self.commands@[k])@ == edits[k],
            decreases self.commands@.len() - i,
        {
            assert(edits.take(i + 1).drop_last() =~= edits.take(i as int));
            assert(self.commands@[i as int]@ == edits[i as int]);
            assert(edits[i as int].wf());
            let ghost was = self.commands@;
            self.commands[i].execute(buffer, cursor);
            assert(forall|k: int| 0 <= k < was.len() && k != i ==> self.commands@[k] == was[k]);
            i += 1;
        }
        assert(edits.take(edits.len() as int) =~= edits);
        assert(self@.edits =~= run_all(edits, lines, caret).edits);
        assert forall|k: int| 0 <= k < self@.edits.len() implies (
        #[trigger] self@.edits[k]).wf() by {
            assert(self.commands@[k].wf());
        }
    }

    /// Undoes the commands, the last one first.
    pub fn undo(&self, buffer: &mut TextBuffer, cursor: &mut Position)
        requires
            self.wf(),
            old(buffer).wf(),
        ensures
            final(buffer)@ == undo_all(self@.edits, old(buffer)@),
            final(buffer).wf(),
            *final(cursor) == caret_undone(self@.edits, *old(cursor)),
    {
        let ghost edits = self@.edits;
        let ghost lines = buffer@;
        let mut i = self.commands.len();
        assert(edits.take(edits.len() as int) =~= edits);
        while i > 0
            invariant
                i <= self.commands@.len(),
                edits == self@.edits,
                edits.len() == self.commands@.len(),
                all_wf(edits),
                buffer.wf(),
                undo_all(edits.take(i as int), buffer@) == undo_all(edits, lines),
                i == edits.len() ==> *cursor == *old(cursor),
                i < edits.len() ==> *cursor == edits[i as int].caret_before,
            decreases i,
        {
            assert(edits.take(i as int).drop_last() =~= edits.take(i - 1));
            i = i - 1;
            assert(edits[i as int].wf());
            assert(self.commands@[i as int]@ == edits[i as int]);
            self.commands[i].undo(buffer, cursor);
        }
        assert(edits.take(0) =~= Seq::empty());
    }
}

} // verus!
