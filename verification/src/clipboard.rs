//! The clipboard: copying the selection and pasting.
use vstd::prelude::*;

use crate::batch::Batch;
use crate::chars::string_of;
use crate::command::CompositeCommand;
use crate::cursor_set::{carets, Cursor};
use crate::editor::{CodeEditor, Editor};
use crate::message::{Action, Reply};
use crate::multi_edit::{cut_everywhere, paste_everywhere};
use crate::order::order_of;
use crate::position::is_before;
use crate::text_buffer::{clamped, extracted, joined, not_after, rows, split_lines, spot};

verus! {

/// The text that a cursor selects.
pub open spec fn text_of(lines: Seq<Seq<char>>, c: Cursor) -> Seq<char> {
    let s = clamped(lines, spot(c.lo()));
    let e = clamped(lines, spot(c.hi()));
    joined(
        extracted(
            lines,
            s,
            if not_after(s, e) {
                e
            } else {
                s
            },
        ),
    )
}

impl Editor {
    /// The text that the primary cursor selects.
    pub open spec fn selected_text(self) -> Option<Seq<char>> {
        if self.cursors.primary_cursor().selected() {
            Some(text_of(self.buffer, self.cursors.primary_cursor()))
        } else {
            None
        }
    }

    /// What copying asks for.
    pub open spec fn copy_reply(self) -> Reply {
        match self.selected_text() {
            Some(text) => Reply::WriteClipboard(text),
            None => Reply::Nothing,
        }
    }

    /// The commands that pasting is made of: the selections are deleted, then the text is
    /// inserted at every caret.
    pub open spec fn paste_batch(self, text: Seq<char>) -> Batch {
        let b = self.batch().cut(self.descending());
        b.pasted(order_of(carets(b.list), true), split_lines(text))
    }

    /// A text inserted at every cursor in place of its selection, as one entry of the history.
    pub open spec fn pasted(self, text: Seq<char>) -> Editor {
        self.with_group(self.paste_batch(text), "Paste"@)
    }

    /// A text pasted; an empty one only asks for the clipboard.
    pub open spec fn paste_handled(self, text: Seq<char>) -> Editor {
        let e = self.grouping_ended();
        if text.len() == 0 {
            e
        } else {
            e.pasted(text).edit_finished()
        }
    }

    /// What pasting asks for.
    pub open spec fn paste_reply(self, text: Seq<char>) -> Reply {
        if text.len() == 0 {
            Reply::ReadClipboard
        } else {
            Reply::ScrollToCursor
        }
    }
}

/// Puts lines together with line breaks between them.
pub fn join_pieces(pieces: &Vec<Vec<char>>) -> (r: Vec<char>)
    ensures
        r@ == joined(rows(pieces@)),
{
    let ghost all = rows(pieces@);
    let mut r: Vec<char> = Vec::new();
    let mut i: usize = 0;
    assert(all.take(0) =~= Seq::empty());
    assert(r@ =~= joined(all.take(0)));
    while i < pieces.len()
        invariant
            i <= pieces@.len(),
            all == rows(pieces@),
            r@ == joined(all.take(i as int)),
        decreases pieces@.len() - i,
    {
        let ghost was = r@;
        assert(all.take(i + 1).drop_last() =~= all.take(i as int));
        if i > 0 {
            r.push('\n');
        }
        crate::chars::push_range(&mut r, &pieces[i], 0, pieces[i].len());
        assert(pieces@[i as int]@.subrange(0, pieces@[i as int]@.len() as int)
            =~= all[i as int]);
        if i == 0 {
            assert(r@ =~= all[0]);
        } else {
            assert(r@ =~= was.push('\n') + all[i as int]);
        }
        i += 1;
    }
    assert(all.take(all.len() as int) =~= all);
    r
}

impl CodeEditor {
    /// The text that the primary cursor selects, if it selects anything.
    pub fn get_selected_text(&self) -> (r: Option<String>)
        requires
            self.wf(),
        ensures
            r is Some == self@.selected_text() is Some,
            r matches Some(text) ==> self@.selected_text() == Some(text@),
    {
        match self.cursors.primary().selection_range() {
            Some((start, end)) => {
                let s = self.buffer.clamp(start);
                let clamped_end = self.buffer.clamp(end);
                let e = if is_before(clamped_end, s) {
                    s
                } else {
                    clamped_end
                };
                let pieces = self.buffer.extract(s, e);
                Some(string_of(&join_pieces(&pieces)))
            },
            None => None,
        }
    }

    /// Asks for the selected text to be put on the clipboard, if anything is selected.
    pub fn copy_selection(&self) -> (r: Action)
        requires
            self.wf(),
        ensures
            r@ == self@.copy_reply(),
    {
        match self.get_selected_text() {
            Some(text) => Action::WriteClipboard(text),
            None => Action::Nothing,
        }
    }

    /// Inserts a text at every cursor, in place of its selection.
    pub fn paste_text(&mut self, text: &str)
        requires
            old(self).wf(),
        ensures
            final(self)@ == old(self)@.pasted(text@),
            final(self).wf(),
    {
        let mut composite = CompositeCommand::new("Paste".to_owned());
        cut_everywhere(&mut self.buffer, &mut self.cursors, &mut composite);
        paste_everywhere(&mut self.buffer, &mut self.cursors, &mut composite, text);
        if !composite.is_empty() {
            self.history.push_composite(composite);
        }
    }

    /// Handles paste operations. If the provided text is empty, asks for the clipboard to be
    /// read. Otherwise pastes the provided text.
    pub fn handle_paste_msg(&mut self, text: &str) -> (r: Action)
        requires
            old(self).wf(),
        ensures
            final(self)@ == old(self)@.paste_handled(text@),
            final(self).wf(),
            r@ == old(self)@.paste_reply(text@),
    {
        self.end_grouping_if_active();
        if text.unicode_len() == 0 {
            Action::ReadClipboard
        } else {
            self.paste_text(text);
            self.finish_edit_operation();
            Action::ScrollToCursor
        }
    }
}

} // verus!
