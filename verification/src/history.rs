//! The undo and redo history.
use vstd::prelude::*;

use crate::command::{
    all_fit, all_wf, caret_undone, lemma_run_all, lemma_undo_all, run_all, undo_all, Command,
    CompositeCommand, Edit, Group,
};
use crate::position::Position;
use crate::text_buffer::TextBuffer;

verus! {

/// What a history holds.
#[verifier::ext_equal]
pub struct Past {
    /// What can be undone, the latest last.
    pub undo: Seq<Group>,
    /// What can be redone, the next one last.
    pub redo: Seq<Group>,
    /// The group that commands are added to at present.
    pub open: Option<Group>,
    /// How many entries are kept at most.
    pub max_size: int,
    /// Number of entries that were undoable when the text was saved; `None` if that state is
    /// out of reach.
    pub saved: Option<int>,
}

/// Every edit of every group is well-formed.
pub open spec fn groups_wf(groups: Seq<Group>) -> bool {
    forall|i: int| 0 <= i < groups.len() ==> all_wf((#[trigger] groups[i]).edits)
}

impl Past {
    /// Every edit is well-formed, and while an open group holds commands there is nothing to
    /// redo.
    pub closed spec fn wf(self) -> bool {
        &&& groups_wf(self.undo)
        &&& groups_wf(self.redo)
        &&& self.open matches Some(g) ==> all_wf(g.edits) && (g.edits.len() > 0 ==> self.redo.len()
            == 0)
        &&& 0 <= self.max_size
    }

    /// A history without entries, of a text that is not modified.
    pub open spec fn empty(max_size: int) -> Past {
        Past { undo: Seq::empty(), redo: Seq::empty(), open: None, max_size, saved: Some(0) }
    }

    /// The oldest entries beyond the limit dropped.
    pub open spec fn trimmed(self) -> Past {
        if self.undo.len() <= self.max_size {
            self
        } else {
            let k = self.undo.len() - self.max_size;
            Past {
                undo: self.undo.skip(k),
                saved: match self.saved {
                    Some(n) if n >= k => Some(n - k),
                    _ => None,
                },
                ..self
            }
        }
    }

    /// Nothing to redo; a saved state that could only be redone is out of reach.
    pub open spec fn without_redo(self) -> Past {
        Past {
            redo: Seq::empty(),
            saved: match self.saved {
                Some(n) if n <= self.undo.len() => Some(n),
                _ => None,
            },
            ..self
        }
    }

    /// A new entry.
    pub open spec fn entered(self, group: Group) -> Past {
        let p = self.without_redo();
        Past { undo: p.undo.push(group), ..p }.trimmed()
    }

    /// Commands that were just executed: part of the open group, else an entry of their own.
    pub open spec fn recorded(self, group: Group) -> Past {
        match self.open {
            Some(g) => Past {
                open: Some(Group { label: g.label, edits: g.edits + group.edits }),
                ..self.without_redo()
            },
            None => self.entered(group),
        }
    }

    /// One command that was just executed.
    pub open spec fn recorded_edit(self, edit: Edit) -> Past {
        self.recorded(Group { label: Seq::empty(), edits: seq![edit] })
    }

    /// Commands that were just executed, each recorded by itself.
    pub open spec fn recorded_each(self, edits: Seq<Edit>) -> Past
        decreases edits.len(),
    {
        if edits.len() == 0 {
            self
        } else {
            self.recorded_each(edits.drop_last()).recorded_edit(edits.last())
        }
    }

    /// A group is open: the one that was, else a new one.
    pub open spec fn begun(self, label: Seq<char>) -> Past {
        match self.open {
            Some(_) => self,
            None => Past { open: Some(Group { label, edits: Seq::empty() }), ..self },
        }
    }

    /// No group is open; the one that was is an entry, unless it is empty.
    pub open spec fn ended(self) -> Past {
        match self.open {
            Some(g) => {
                let p = Past { open: None, ..self };
                if g.edits.len() == 0 {
                    p
                } else {
                    p.entered(g)
                }
            },
            None => self,
        }
    }

    /// The latest entry undone.
    pub open spec fn undone(self) -> Past {
        Past { undo: self.undo.drop_last(), redo: self.redo.push(self.undo.last()), ..self }
    }

    /// The next entry redone, as it was executed on `lines`.
    pub open spec fn redone(self, lines: Seq<Seq<char>>) -> Past {
        let g = self.redo.last();
        Past {
            undo: self.undo.push(
                Group { label: g.label, edits: run_all(g.edits, lines, (0, 0)).edits },
            ),
            redo: self.redo.drop_last(),
            ..self
        }.trimmed()
    }

    /// The text differs from the one that was saved, as far as the history knows.
    pub open spec fn modified(self) -> bool {
        ||| self.saved != Some(self.undo.len() as int)
        ||| self.open matches Some(g) && g.edits.len() > 0
    }
}

/// The entries fit the text: each of them, undone from the latest on, undoes what it did.
pub open spec fn undo_fits(groups: Seq<Group>, lines: Seq<Seq<char>>) -> bool
    decreases groups.len(),
{
    groups.len() == 0 || {
        &&& all_fit(groups.last().edits, lines)
        &&& undo_fits(groups.drop_last(), undo_all(groups.last().edits, lines))
    }
}

/// The entries to be redone fit the text: each of them, redone from the next on, does what it did.
pub open spec fn redo_fits(groups: Seq<Group>, lines: Seq<Seq<char>>) -> bool
    decreases groups.len(),
{
    groups.len() == 0 || {
        let out = run_all(groups.last().edits, lines, (0, 0));
        &&& all_wf(groups.last().edits)
        &&& out.edits == groups.last().edits
        &&& redo_fits(groups.drop_last(), out.lines)
    }
}

impl Past {
    /// The entries, with the open group as the latest one.
    pub open spec fn all_undo(self) -> Seq<Group> {
        match self.open {
            Some(g) => self.undo.push(g),
            None => self.undo,
        }
    }

    /// The history belongs to the text.
    pub open spec fn coherent(self, lines: Seq<Seq<char>>) -> bool {
        &&& undo_fits(self.all_undo(), lines)
        &&& redo_fits(self.redo, lines)
    }
}

/// What a list of composite commands holds.
pub open spec fn groups_of(list: Seq<CompositeCommand>) -> Seq<Group> {
    Seq::new(list.len(), |i: int| list[i]@)
}

/// The caret plays no part in what commands do to the text.
pub proof fn lemma_run_all_caret(edits: Seq<Edit>, lines: Seq<Seq<char>>, a: Position, b: Position)
    ensures
        run_all(edits, lines, a).edits == run_all(edits, lines, b).edits,
        run_all(edits, lines, a).lines == run_all(edits, lines, b).lines,
    decreases edits.len(),
{
    if edits.len() > 0 {
        lemma_run_all_caret(edits.drop_last(), lines, a, b);
    }
}

/// A record of executed commands, for undo and redo.
#[derive(Debug)]
pub struct CommandHistory {
    undo_stack: Vec<CompositeCommand>,
    redo_stack: Vec<CompositeCommand>,
    current_group: Option<CompositeCommand>,
    max_size: usize,
    save_point: Option<usize>,
}

impl View for CommandHistory {
    type V = Past;

    closed spec fn view(&self) -> Past {
        Past {
            undo: groups_of(self.undo_stack@),
            redo: groups_of(self.redo_stack@),
            open: match self.current_group {
                Some(g) => Some(g@),
                None => None,
            },
            max_size: self.max_size as int,
            saved: match self.save_point {
                Some(n) => Some(n as int),
                None => None,
            },
        }
    }
}

impl CommandHistory {
    /// Every command is well-formed.
    pub open spec fn wf(self) -> bool {
        self@.wf()
    }

    /// A history without entries that keeps at most `max_size` of them.
    pub fn new(max_size: usize) -> (r: Self)
        ensures
            r@ == Past::empty(max_size as int),
            r.wf(),
    {
        let r = CommandHistory {
            undo_stack: Vec::new(),
            redo_stack: Vec::new(),
            current_group: None,
            max_size,
            save_point: Some(0),
        };
        assert(r@ =~= Past::empty(max_size as int));
        r
    }

    /// Number of entries that can be undone.
    pub fn undo_count(&self) -> (r: usize)
        ensures
            r == self@.undo.len(),
    {
        self.undo_stack.len()
    }

    /// Number of entries that can be redone.
    pub fn redo_count(&self) -> (r: usize)
        ensures
            r == self@.redo.len(),
    {
        self.redo_stack.len()
    }

    /// Tells whether there is an entry to undo.
    pub fn can_undo(&self) -> (r: bool)
        ensures
            r == (self@.undo.len() > 0),
    {
        self.undo_stack.len() > 0
    }

    /// Tells whether there is an entry to redo.
    pub fn can_redo(&self) -> (r: bool)
        ensures
            r == (self@.redo.len() > 0),
    {
        self.redo_stack.len() > 0
    }

    /// How many entries are kept at most.
    pub fn max_size(&self) -> (r: usize)
        ensures
            r == self@.max_size,
    {
        self.max_size
    }

    fn trim(&mut self)
        ensures
            final(self)@ == old(self)@.trimmed(),
    {
        let ghost start = self@;
        if self.undo_stack.len() > self.max_size {
            let k = self.undo_stack.len() - self.max_size;
            let kept = self.undo_stack.split_off(k);
            self.undo_stack = kept;
            self.save_point = match self.save_point {
                Some(n) => if n >= k {
                    Some((n - k) as usize)
                } else {
                    None
                },
                None => None,
            };
            assert(self@.undo =~= start.undo.skip(k as int));
        }
        assert(self@ =~= start.trimmed());
    }

    fn drop_redo(&mut self)
        ensures
            final(self)@ == old(self)@.without_redo(),
    {
        self.redo_stack = Vec::new();
        self.save_point = match self.save_point {
            Some(n) => if n <= self.undo_stack.len() {
                Some(n)
            } else {
                None
            },
            None => None,
        };
        assert(self@ =~= old(self)@.without_redo());
    }

    fn enter(&mut self, group: CompositeCommand)
        ensures
            final(self)@ == old(self)@.entered(group@),
    {
        self.drop_redo();
        let ghost p = self@;
        self.undo_stack.push(group);
        assert(self@ =~= Past { undo: p.undo.push(group@), ..p });
        self.trim();
    }

    /// Records commands that were just executed together.
    pub fn push_composite(&mut self, composite: CompositeCommand)
        requires
            old(self).wf(),
            composite.wf(),
        ensures
            final(self)@ == old(self)@.recorded(composite@),
            final(self).wf(),
    {
        proof {
            lemma_recorded_wf(self@, composite@);
        }
        match self.current_group.take() {
            Some(g) => {
                let mut group = g;
                group.append(composite);
                self.drop_redo();
                self.current_group = Some(group);
            },
            None => {
                self.enter(composite);
            },
        }
        assert(self@ =~= old(self)@.recorded(composite@));
    }

    /// Records a command that was just executed.
    pub fn push(&mut self, command: Command)
        requires
            old(self).wf(),
            command.wf(),
        ensures
            final(self)@ == old(self)@.recorded_edit(command@),
            final(self).wf(),
    {
        let mut composite = CompositeCommand::new(String::new());
        composite.add(command);
        proof {
            reveal_strlit("");
            assert(composite@.edits =~= seq![command@]);
            assert(composite@.label =~= Seq::empty());
        }
        self.push_composite(composite);
    }

    /// Opens a group, unless one is open: the commands that follow are undone as one.
    pub fn begin_group(&mut self, label: &str)
        requires
            old(self).wf(),
        ensures
            final(self)@ == old(self)@.begun(label@),
            final(self).wf(),
    {
        if self.current_group.is_none() {
            let group = CompositeCommand::new(label.to_owned());
            self.current_group = Some(group);
        }
        assert(self@ =~= old(self)@.begun(label@));
    }

    /// Closes the open group, if there is one.
    pub fn end_group(&mut self)
        requires
            old(self).wf(),
        ensures
            final(self)@ == old(self)@.ended(),
            final(self).wf(),
    {
        proof {
            lemma_ended_wf(self@);
        }
        match self.current_group.take() {
            Some(g) => {
                if !g.is_empty() {
                    self.enter(g);
                }
            },
            None => {},
        }
        assert(self@ =~= old(self)@.ended());
    }

    /// Closes the open group, if there is one, and undoes the latest entry; `false` if there is
    /// none.
    pub fn undo(&mut self, buffer: &mut TextBuffer, cursor: &mut Position) -> (r: bool)
        requires
            old(self).wf(),
            old(buffer).wf(),
        ensures
            r == (old(self)@.ended().undo.len() > 0),
            !r ==> {
                &&& final(self)@ == old(self)@.ended()
                &&& final(buffer)@ == old(buffer)@
                &&& *final(cursor) == *old(cursor)
            },
            r ==> {
                let edits = old(self)@.ended().undo.last().edits;
                &&& final(self)@ == old(self)@.ended().undone()
                &&& final(buffer)@ == undo_all(edits, old(buffer)@)
                &&& *final(cursor) == caret_undone(edits, *old(cursor))
            },
            final(self).wf(),
            final(buffer).wf(),
    {
        self.end_group();
        let ghost p = self@;
        match self.undo_stack.pop() {
            Some(group) => {
                assert(p.undo.last() == group@);
                group.undo(buffer, cursor);
                self.redo_stack.push(group);
                assert(self@ =~= p.undone());
                proof {
                    lemma_undone_wf(p);
                }
                true
            },
            None => {
                assert(self@ =~= p);
                false
            },
        }
    }

    /// Redoes the entry that was undone last; `false` if there is none.
    pub fn redo(&mut self, buffer: &mut TextBuffer, cursor: &mut Position) -> (r: bool)
        requires
            old(self).wf(),
            old(buffer).wf(),
        ensures
            r == (old(self)@.redo.len() > 0),
            !r ==> {
                &&& final(self)@ == old(self)@
                &&& final(buffer)@ == old(buffer)@
                &&& *final(cursor) == *old(cursor)
            },
            r ==> {
                let out = run_all(old(self)@.redo.last().edits, old(buffer)@, *old(cursor));
                &&& final(self)@ == old(self)@.redone(old(buffer)@)
                &&& final(buffer)@ == out.lines
                &&& *final(cursor) == out.caret
            },
            final(self).wf(),
            final(buffer).wf(),
    {
        let ghost p = self@;
        let ghost lines = buffer@;
        match self.redo_stack.pop() {
            Some(g) => {
                assert(p.redo.last() == g@);
                proof {
                    lemma_run_all_caret(g@.edits, lines, *cursor, (0, 0));
                    lemma_redone_wf(p, lines);
                }
                let mut group = g;
                group.execute(buffer, cursor);
                self.undo_stack.push(group);
                assert(groups_of(self.undo_stack@) =~= p.undo.push(group@));
                assert(groups_of(self.redo_stack@) =~= p.redo.drop_last());
                self.trim();
                assert(self@ =~= p.redone(lines));
                true
            },
            None => {
                assert(self@ =~= p);
                false
            },
        }
    }

    /// Changes how many entries are kept at most; the oldest beyond the limit are dropped.
    pub fn set_max_size(&mut self, max_size: usize)
        requires
            old(self).wf(),
        ensures
            final(self)@ == (Past { max_size: max_size as int, ..old(self)@ }).trimmed(),
            final(self).wf(),
    {
        self.max_size = max_size;
        let ghost p = Past { max_size: max_size as int, ..old(self)@ };
        assert(self@ =~= p);
        self.trim();
        proof {
            lemma_trimmed_wf(p);
        }
    }

    /// Drops all entries. Whether the text counts as modified does not change.
    pub fn clear(&mut self)
        requires
            old(self).wf(),
        ensures
            final(self)@ == (Past {
                undo: Seq::empty(),
                redo: Seq::empty(),
                open: None,
                max_size: old(self)@.max_size,
                saved: if old(self)@.modified() {
                    None
                } else {
                    Some(0)
                },
            }),
            final(self).wf(),
    {
        let changed = self.is_modified();
        self.undo_stack = Vec::new();
        self.redo_stack = Vec::new();
        self.current_group = None;
        self.save_point = if changed {
            None
        } else {
            Some(0)
        };
        assert(self@.undo =~= Seq::empty());
        assert(self@.redo =~= Seq::empty());
    }

    /// Takes the present text as the saved one. An open group is closed.
    pub fn mark_saved(&mut self)
        requires
            old(self).wf(),
        ensures
            final(self)@ == (Past {
                saved: Some(old(self)@.ended().undo.len() as int),
                ..old(self)@.ended()
            }),
            final(self).wf(),
            !final(self)@.modified(),
    {
        self.end_group();
        self.save_point = Some(self.undo_stack.len());
        assert(self@ =~= Past {
            saved: Some(old(self)@.ended().undo.len() as int),
            ..old(self)@.ended()
        });
    }

    /// Tells whether the text was changed since it was saved.
    pub fn is_modified(&self) -> (r: bool)
        ensures
            r == self@.modified(),
    {
        let pending = match &self.current_group {
            Some(g) => !g.is_empty(),
            None => false,
        };
        let at_save = match self.save_point {
            Some(n) => n == self.undo_stack.len(),
            None => false,
        };
        pending || !at_save
    }
}

/// Dropping old entries keeps the others well-formed.
pub proof fn lemma_trimmed_wf(p: Past)
    requires
        p.wf(),
    ensures
        p.trimmed().wf(),
{
    if p.undo.len() > p.max_size {
        let k = p.undo.len() - p.max_size;
        assert forall|i: int| 0 <= i < p.undo.skip(k).len() implies all_wf(
            (#[trigger] p.undo.skip(k)[i]).edits,
        ) by {
            assert(all_wf(p.undo[i + k].edits));
        }
    }
}

/// A new entry keeps a history well-formed.
pub proof fn lemma_entered_wf(p: Past, g: Group)
    requires
        p.wf(),
        all_wf(g.edits),
    ensures
        p.entered(g).wf(),
{
    let q = Past { undo: p.without_redo().undo.push(g), ..p.without_redo() };
    assert forall|i: int| 0 <= i < q.undo.len() implies all_wf((#[trigger] q.undo[i]).edits) by {
        if i < p.undo.len() {
            assert(all_wf(p.undo[i].edits));
        }
    }
    lemma_trimmed_wf(q);
}

/// Recording commands keeps a history well-formed.
pub proof fn lemma_recorded_wf(p: Past, g: Group)
    requires
        p.wf(),
        all_wf(g.edits),
    ensures
        p.recorded(g).wf(),
{
    match p.open {
        Some(h) => {
            let edits = h.edits + g.edits;
            assert forall|i: int| 0 <= i < edits.len() implies (#[trigger] edits[i]).wf() by {
                if i < h.edits.len() {
                    assert(h.edits[i].wf());
                } else {
                    assert(g.edits[i - h.edits.len()].wf());
                }
            }
        },
        None => {
            lemma_entered_wf(p, g);
        },
    }
}

/// A history without entries is well-formed.
pub proof fn lemma_empty_wf(max_size: int)
    requires
        0 <= max_size,
    ensures
        Past::empty(max_size).wf(),
{
}

/// The limit of a well-formed history is not negative.
pub proof fn lemma_wf_size(p: Past)
    requires
        p.wf(),
    ensures
        0 <= p.max_size,
{
}

/// Opening a group keeps a history well-formed.
pub proof fn lemma_begun_wf(p: Past, label: Seq<char>)
    requires
        p.wf(),
    ensures
        p.begun(label).wf(),
{
}

/// Recording commands one by one neither opens nor closes a group.
pub proof fn lemma_recorded_each_open(p: Past, edits: Seq<Edit>)
    ensures
        p.recorded_each(edits).open is Some == p.open is Some,
    decreases edits.len(),
{
    if edits.len() > 0 {
        lemma_recorded_each_open(p, edits.drop_last());
    }
}

/// While there is something to redo an open group is empty.
pub proof fn lemma_open_empty(p: Past)
    requires
        p.wf(),
        p.redo.len() > 0,
    ensures
        p.open matches Some(g) ==> g.edits.len() == 0,
{
}

/// Commands recorded one by one while a group is open go into it.
pub proof fn lemma_recorded_each_into(p: Past, edits: Seq<Edit>)
    requires
        p.open is Some,
    ensures
        p.recorded_each(edits).open == Some(
            Group { label: p.open->0.label, edits: p.open->0.edits + edits },
        ),
        p.recorded_each(edits).max_size == p.max_size,
    decreases edits.len(),
{
    if edits.len() > 0 {
        lemma_recorded_each_into(p, edits.drop_last());
        assert(p.open->0.edits + edits.drop_last() + seq![edits.last()] =~= p.open->0.edits
            + edits);
    } else {
        assert(p.open->0.edits + edits =~= p.open->0.edits);
    }
}

/// Closing a group keeps a history well-formed.
pub proof fn lemma_ended_wf(p: Past)
    requires
        p.wf(),
    ensures
        p.ended().wf(),
{
    match p.open {
        Some(g) => {
            if g.edits.len() > 0 {
                lemma_entered_wf(Past { open: None, ..p }, g);
            }
        },
        None => {},
    }
}

/// Undoing keeps a history well-formed.
pub proof fn lemma_undone_wf(p: Past)
    requires
        p.wf(),
        p.undo.len() > 0,
        p.open matches Some(g) ==> g.edits.len() == 0,
    ensures
        p.undone().wf(),
{
    assert(all_wf(p.undo.last().edits));
    let q = p.undone();
    assert forall|i: int| 0 <= i < q.redo.len() implies all_wf((#[trigger] q.redo[i]).edits) by {
        if i < p.redo.len() {
            assert(all_wf(p.redo[i].edits));
        }
    }
}

/// Redoing keeps a history well-formed.
pub proof fn lemma_redone_wf(p: Past, lines: Seq<Seq<char>>)
    requires
        p.wf(),
        p.redo.len() > 0,
        lines.len() > 0,
    ensures
        p.redone(lines).wf(),
{
    let g = p.redo.last();
    assert(all_wf(g.edits));
    lemma_run_all(g.edits, lines, (0, 0));
    let h = Group { label: g.label, edits: run_all(g.edits, lines, (0, 0)).edits };
    let q = Past { undo: p.undo.push(h), redo: p.redo.drop_last(), ..p };
    assert forall|i: int| 0 <= i < q.undo.len() implies all_wf((#[trigger] q.undo[i]).edits) by {
        if i < p.undo.len() {
            assert(all_wf(p.undo[i].edits));
        }
    }
    lemma_trimmed_wf(q);
}

/// What fits a text still does when the oldest entries are dropped.
proof fn lemma_undo_fits_skip(groups: Seq<Group>, lines: Seq<Seq<char>>, k: int)
    requires
        undo_fits(groups, lines),
        0 <= k <= groups.len(),
    ensures
        undo_fits(groups.skip(k), lines),
    decreases groups.len(),
{
    if k < groups.len() {
        lemma_undo_fits_skip(groups.drop_last(), undo_all(groups.last().edits, lines), k);
        assert(groups.skip(k).drop_last() =~= groups.drop_last().skip(k));
    }
}

/// Commands that were undone one list after the other.
pub proof fn lemma_undo_all_concat(a: Seq<Edit>, b: Seq<Edit>, lines: Seq<Seq<char>>)
    requires
        all_fit(b, lines),
        all_fit(a, undo_all(b, lines)),
    ensures
        all_fit(a + b, lines),
        undo_all(a + b, lines) == undo_all(a, undo_all(b, lines)),
    decreases b.len(),
{
    if b.len() == 0 {
        assert(a + b =~= a);
    } else {
        lemma_undo_all_concat(a, b.drop_last(), b.last().undone(lines));
        assert((a + b).drop_last() =~= a + b.drop_last());
    }
}

/// An empty entry changes nothing.
proof fn lemma_undo_fits_empty(groups: Seq<Group>, g: Group, lines: Seq<Seq<char>>)
    requires
        g.edits.len() == 0,
    ensures
        undo_fits(groups.push(g), lines) == undo_fits(groups, lines),
{
    assert(groups.push(g).drop_last() =~= groups);
}

/// Dropping old entries keeps a history coherent.
proof fn lemma_trimmed_coherent(p: Past, lines: Seq<Seq<char>>)
    requires
        p.wf(),
        p.open matches Some(g) ==> g.edits.len() == 0,
        p.coherent(lines),
    ensures
        p.trimmed().coherent(lines),
{
    if p.undo.len() > p.max_size {
        let k = p.undo.len() - p.max_size;
        match p.open {
            Some(g) => {
                lemma_undo_fits_empty(p.undo, g, lines);
                lemma_undo_fits_skip(p.undo, lines, k);
                lemma_undo_fits_empty(p.undo.skip(k), g, lines);
            },
            None => {
                lemma_undo_fits_skip(p.undo, lines, k);
            },
        }
    }
}

/// Recording commands that led from one text to the next keeps a history coherent.
pub proof fn lemma_recorded_coherent(
    p: Past,
    g: Group,
    lines: Seq<Seq<char>>,
    next: Seq<Seq<char>>,
)
    requires
        p.wf(),
        p.coherent(lines),
        all_wf(g.edits),
        all_fit(g.edits, next),
        undo_all(g.edits, next) == lines,
    ensures
        p.recorded(g).coherent(next),
{
    match p.open {
        Some(h) => {
            assert(p.undo.push(h).drop_last() =~= p.undo);
            lemma_undo_all_concat(h.edits, g.edits, next);
            let both = Group { label: h.label, edits: h.edits + g.edits };
            assert(p.undo.push(both).drop_last() =~= p.undo);
        },
        None => {
            let q = Past { undo: p.undo.push(g), ..p.without_redo() };
            assert(p.undo.push(g).drop_last() =~= p.undo);
            lemma_entered_wf(p, g);
            assert forall|i: int| 0 <= i < q.undo.len() implies all_wf(
                (#[trigger] q.undo[i]).edits,
            ) by {
                if i < p.undo.len() {
                    assert(all_wf(p.undo[i].edits));
                }
            }
            lemma_trimmed_coherent(q, next);
        },
    }
}

/// Opening a group keeps a history coherent.
pub proof fn lemma_begun_coherent(p: Past, label: Seq<char>, lines: Seq<Seq<char>>)
    requires
        p.coherent(lines),
    ensures
        p.begun(label).coherent(lines),
{
    if p.open is None {
        lemma_undo_fits_empty(p.undo, Group { label, edits: Seq::empty() }, lines);
    }
}

/// Closing a group keeps a history coherent.
pub proof fn lemma_ended_coherent(p: Past, lines: Seq<Seq<char>>)
    requires
        p.wf(),
        p.coherent(lines),
    ensures
        p.ended().coherent(lines),
{
    match p.open {
        Some(g) => {
            if g.edits.len() == 0 {
                lemma_undo_fits_empty(p.undo, g, lines);
            } else {
                let r = Past { open: None, ..p };
                let q = Past { undo: p.undo.push(g), ..r.without_redo() };
                assert forall|i: int| 0 <= i < q.undo.len() implies all_wf(
                    (#[trigger] q.undo[i]).edits,
                ) by {
                    if i < p.undo.len() {
                        assert(all_wf(p.undo[i].edits));
                    }
                }
                lemma_trimmed_coherent(q, lines);
            }
        },
        None => {},
    }
}

/// Undoing the latest entry of a coherent history keeps it coherent, and redoing it then gives
/// the text and the history's entries back.
pub proof fn lemma_undone_coherent(p: Past, lines: Seq<Seq<char>>)
    requires
        p.wf(),
        p.open is None,
        p.undo.len() > 0,
        p.coherent(lines),
        lines.len() > 0,
    ensures
        p.undone().coherent(undo_all(p.undo.last().edits, lines)),
        run_all(
            p.undone().redo.last().edits,
            undo_all(p.undo.last().edits, lines),
            (0, 0),
        ).lines == lines,
        p.undone().redone(undo_all(p.undo.last().edits, lines)) == p.trimmed(),
{
    let g = p.undo.last();
    let prior = undo_all(g.edits, lines);
    assert(all_wf(g.edits));
    lemma_undo_all(g.edits, lines, (0, 0));
    assert(p.redo.push(g).drop_last() =~= p.redo);
    assert(redo_fits(p.redo.push(g), prior));
    assert(p.undo.drop_last().push(g) =~= p.undo);
    let q = p.undone();
    assert(q.redo.last() == g);
    assert(Group { label: g.label, edits: run_all(g.edits, prior, (0, 0)).edits } =~= g);
    assert((Past { undo: q.undo.push(g), redo: q.redo.drop_last(), ..q }) =~= p);
}

/// Redoing the next entry of a coherent history keeps it coherent.
pub proof fn lemma_redone_coherent(p: Past, lines: Seq<Seq<char>>)
    requires
        p.wf(),
        p.redo.len() > 0,
        p.coherent(lines),
        lines.len() > 0,
    ensures
        p.redone(lines).coherent(run_all(p.redo.last().edits, lines, (0, 0)).lines),
{
    let g = p.redo.last();
    assert(all_wf(g.edits));
    lemma_run_all(g.edits, lines, (0, 0));
    let out = run_all(g.edits, lines, (0, 0));
    let h = Group { label: g.label, edits: out.edits };
    let q = Past { undo: p.undo.push(h), redo: p.redo.drop_last(), ..p };
    match p.open {
        Some(o) => {
            lemma_undo_fits_empty(p.undo, o, lines);
            assert(p.undo.push(h).drop_last() =~= p.undo);
            lemma_undo_fits_empty(p.undo.push(h), o, out.lines);
        },
        None => {
            assert(p.undo.push(h).drop_last() =~= p.undo);
        },
    }
    assert forall|i: int| 0 <= i < q.undo.len() implies all_wf((#[trigger] q.undo[i]).edits) by {
        if i < p.undo.len() {
            assert(all_wf(p.undo[i].edits));
        }
    }
    lemma_trimmed_coherent(q, out.lines);
}

/// Recording commands one by one that led from one text to the next keeps a history well-formed
/// and coherent.
pub proof fn lemma_recorded_each(
    p: Past,
    edits: Seq<Edit>,
    lines: Seq<Seq<char>>,
    next: Seq<Seq<char>>,
)
    requires
        p.wf(),
        all_wf(edits),
        all_fit(edits, next),
        undo_all(edits, next) == lines,
    ensures
        p.recorded_each(edits).wf(),
        p.coherent(lines) ==> p.recorded_each(edits).coherent(next),
    decreases edits.len(),
{
    if edits.len() > 0 {
        let last = edits.last();
        let head = edits.drop_last();
        let prior = last.undone(next);
        assert forall|i: int| 0 <= i < head.len() implies (#[trigger] head[i]).wf() by {
            assert(edits[i].wf());
        }
        lemma_recorded_each(p, head, lines, prior);
        let g = Group { label: Seq::empty(), edits: seq![last] };
        assert(edits[edits.len() - 1].wf());
        lemma_recorded_wf(p.recorded_each(head), g);
        assert(g.edits.drop_last() =~= Seq::empty());
        assert(undo_all(g.edits, next) == prior) by {
            assert(undo_all(g.edits.drop_last(), prior) == prior);
        }
        assert(all_fit(g.edits.drop_last(), prior));
        if p.coherent(lines) {
            lemma_recorded_coherent(p.recorded_each(head), g, prior, next);
        }
    }
}

} // verus!
