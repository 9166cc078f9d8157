//! Laws of texts and the clipboard: what is taken apart is put together again.
use vstd::prelude::*;

use crate::command::Edit;
use crate::cursor_set::carets;
use crate::editor::Editor;
use crate::message::{Message, Reply};
use crate::order::lemma_order_of_one;
use crate::text_buffer::{
    end_of, extracted, joined, lemma_splice_inverse, not_after, spliced, split_lines, spot, valid,
    Spot,
};

verus! {

/// No line holds a line break.
pub open spec fn no_breaks(lines: Seq<Seq<char>>) -> bool {
    forall|i: int, j: int|
        0 <= i < lines.len() && 0 <= j < lines[i].len() ==> #[trigger] lines[i][j] != '\n'
}

/// Cutting a text into lines leaves no line break in them.
pub proof fn law_cut_lines_hold_no_breaks(text: Seq<char>)
    ensures
        split_lines(text).len() > 0,
        no_breaks(split_lines(text)),
    decreases text.len(),
{
    if text.len() > 0 {
        law_cut_lines_hold_no_breaks(text.drop_last());
    }
}

/// A line break and a line at the end of a text are one more line.
proof fn lemma_split_line(text: Seq<char>, line: Seq<char>)
    requires
        forall|j: int| 0 <= j < line.len() ==> #[trigger] line[j] != '\n',
    ensures
        split_lines(text.push('\n') + line) == split_lines(text).push(line),
    decreases line.len(),
{
    let whole = text.push('\n') + line;
    if line.len() == 0 {
        assert(whole =~= text.push('\n'));
        assert(whole.drop_last() =~= text);
        assert(line =~= Seq::empty());
    } else {
        lemma_split_line(text, line.drop_last());
        assert(whole.drop_last() =~= text.push('\n') + line.drop_last());
        let head = split_lines(text).push(line.drop_last());
        assert(head.drop_last() =~= split_lines(text));
        assert(line.drop_last().push(line.last()) =~= line);
        assert(whole.last() == line[line.len() - 1]);
    }
}

/// A text without line breaks is one line.
proof fn lemma_split_single(line: Seq<char>)
    requires
        forall|j: int| 0 <= j < line.len() ==> #[trigger] line[j] != '\n',
    ensures
        split_lines(line) == seq![line],
    decreases line.len(),
{
    if line.len() > 0 {
        let init = line.drop_last();
        assert forall|j: int| 0 <= j < init.len() implies #[trigger] init[j] != '\n' by {
            assert(line[j] != '\n');
        }
        lemma_split_single(init);
        assert(line[line.len() - 1] != '\n');
        assert(init.push(line.last()) =~= line);
        assert(seq![init].drop_last().push(line) =~= seq![line]);
    } else {
        assert(line =~= Seq::empty());
    }
}

/// Joining lines and cutting the text gives the lines back.
pub proof fn law_joined_lines_are_cut_again(lines: Seq<Seq<char>>)
    requires
        lines.len() > 0,
        no_breaks(lines),
    ensures
        split_lines(joined(lines)) == lines,
    decreases lines.len(),
{
    if lines.len() == 1 {
        lemma_split_single(lines[0]);
        assert(lines =~= seq![lines[0]]);
    } else {
        let init = lines.drop_last();
        let last = lines.last();
        assert(no_breaks(init)) by {
            assert forall|i: int, j: int|
                0 <= i < init.len() && 0 <= j < init[i].len() implies #[trigger] init[i][j]
                != '\n' by {
                assert(lines[i][j] != '\n');
            }
        }
        law_joined_lines_are_cut_again(init);
        assert forall|j: int| 0 <= j < last.len() implies #[trigger] last[j] != '\n' by {
            assert(lines[lines.len() - 1][j] != '\n');
        }
        lemma_split_line(joined(init), last);
        assert(init.push(last) =~= lines);
    }
}

/// A part of a text without line breaks in its lines has none either.
proof fn lemma_extracted_no_breaks(lines: Seq<Seq<char>>, s: Spot, e: Spot)
    requires
        no_breaks(lines),
        valid(lines, s),
        valid(lines, e),
        not_after(s, e),
    ensures
        no_breaks(extracted(lines, s, e)),
{
    let part = extracted(lines, s, e);
    assert forall|i: int, j: int| 0 <= i < part.len() && 0 <= j < part[i].len() implies #[trigger]
    part[i][j] != '\n' by {
        let from: int = if i == 0 {
            s.1
        } else {
            0
        };
        assert(part[i][j] == lines[s.0 + i][from + j]);
    }
}

/// Pasting at the one cursor of an editor.
proof fn lemma_pasted_single(e: Editor, text: Seq<char>)
    requires
        e.buffer.len() > 0,
        e.cursors.list.len() == 1,
        e.cursors.list[0].selected(),
        valid(e.buffer, spot(e.cursors.list[0].lo())),
        valid(e.buffer, spot(e.cursors.list[0].hi())),
    ensures
        ({
            let (s, t) = (spot(e.cursors.list[0].lo()), spot(e.cursors.list[0].hi()));
            e.pasted(text).buffer == spliced(
                spliced(e.buffer, s, t, seq![Seq::empty()]),
                s,
                s,
                split_lines(text),
            )
        }),
{
    let c = e.cursors.list[0];
    let (s, t) = (spot(c.lo()), spot(c.hi()));
    let nothing: Seq<Seq<char>> = seq![Seq::empty()];
    lemma_order_of_one(carets(e.cursors.list), true);
    lemma_splice_inverse(e.buffer, s, t, nothing);
    let b0 = e.batch();
    let edit = Edit::replace(s, t, nothing, c.position);
    let b1 = b0.cut(e.descending());
    assert(e.descending().drop_last() =~= Seq::empty());
    assert(b0.cut(e.descending().drop_last()) == b0);
    assert(b1 == b0.cut_at(0));
    assert(b1.lines == spliced(e.buffer, s, t, nothing));
    assert(end_of(s, nothing) == s);
    assert(b1.list.len() == 1);
    assert(b1.list[0].position == c.lo());
    lemma_order_of_one(carets(b1.list), true);
    let pieces = split_lines(text);
    let order = seq![0usize];
    assert(order.drop_last() =~= Seq::empty());
    assert(b1.pasted(order.drop_last(), pieces) == b1);
    assert(b1.pasted(order, pieces) == b1.pasted_at(0, pieces));
    assert(valid(b1.lines, s));
}

/// Pasting what was copied over the selection that it came from leaves the text as it was.
pub proof fn law_pasting_the_copy_changes_nothing(e: Editor)
    requires
        e.buffer.len() > 0,
        no_breaks(e.buffer),
        e.cursors.list.len() == 1,
        e.cursors.primary == 0,
        e.cursors.list[0].selected(),
        valid(e.buffer, spot(e.cursors.list[0].lo())),
        valid(e.buffer, spot(e.cursors.list[0].hi())),
    ensures
        e.reply(Message::Copy) matches Reply::WriteClipboard(text) && e.pasted(text).buffer
            == e.buffer,
{
    let c = e.cursors.list[0];
    let (s, t) = (spot(c.lo()), spot(c.hi()));
    let part = extracted(e.buffer, s, t);
    let text = joined(part);
    assert(e.selected_text() == Some(text));
    lemma_extracted_no_breaks(e.buffer, s, t);
    law_joined_lines_are_cut_again(part);
    lemma_pasted_single(e, text);
    lemma_splice_inverse(e.buffer, s, t, seq![Seq::empty()]);
    assert(end_of(s, seq![Seq::<char>::empty()]) == s);
}

} // verus!
