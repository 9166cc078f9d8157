//! Laws of the text as one sequence of characters: what replacing, cutting out and joining lines
//! mean for it.
use vstd::prelude::*;

use crate::caret_laws::{lemma_line_offset, lemma_offset_order, line_offset, offset};
use crate::command::{lemma_executed, Edit};
use crate::text_buffer::{
    end_of, extracted, glued, joined, lemma_join_split, lemma_splice_inverse, not_after, spliced,
    split_lines, spot, valid, Spot,
};

verus! {

/// The characters of a text from its first line on, with a line break between two lines.
pub open spec fn flat(lines: Seq<Seq<char>>) -> Seq<char>
    decreases lines.len(),
{
    if lines.len() == 0 {
        Seq::empty()
    } else if lines.len() == 1 {
        lines[0]
    } else {
        lines[0].push('\n') + flat(lines.skip(1))
    }
}

/// The lines of two texts, one after the other.
proof fn lemma_flat_concat(a: Seq<Seq<char>>, b: Seq<Seq<char>>)
    requires
        a.len() > 0,
        b.len() > 0,
    ensures
        flat(a + b) == flat(a).push('\n') + flat(b),
    decreases a.len(),
{
    let c = a + b;
    if a.len() == 1 {
        assert(c.skip(1) =~= b);
    } else {
        lemma_flat_concat(a.skip(1), b);
        assert(c.skip(1) =~= a.skip(1) + b);
        assert(c[0] == a[0]);
        assert(a[0].push('\n') + (flat(a.skip(1)).push('\n') + flat(b)) =~= (a[0].push('\n')
            + flat(a.skip(1))).push('\n') + flat(b));
    }
}

/// Two texts put together: the second goes on where the first ends.
spec fn continued(a: Seq<Seq<char>>, b: Seq<Seq<char>>) -> Seq<Seq<char>> {
    a.drop_last().push(a.last() + b[0]) + b.skip(1)
}

pub(crate) proof fn lemma_flat_one(line: Seq<char>)
    ensures
        flat(seq![line]) == line,
{
}

/// The last line of a text.
proof fn lemma_flat_last(a: Seq<Seq<char>>, tail: Seq<char>)
    requires
        a.len() > 0,
    ensures
        flat(a.drop_last().push(a.last() + tail)) == flat(a) + tail,
{
    let init = a.drop_last();
    if init.len() > 0 {
        assert(init.push(a.last() + tail) =~= init + seq![a.last() + tail]);
        lemma_flat_concat(init, seq![a.last() + tail]);
        assert(a =~= init + seq![a.last()]);
        lemma_flat_concat(init, seq![a.last()]);
        lemma_flat_one(a.last());
        lemma_flat_one(a.last() + tail);
        assert(flat(init).push('\n') + (a.last() + tail) =~= (flat(init).push('\n') + a.last())
            + tail);
    } else {
        assert(init.push(a.last() + tail) =~= seq![a.last() + tail]);
        assert(a =~= seq![a.last()]);
        lemma_flat_one(a.last());
        lemma_flat_one(a.last() + tail);
    }
}

proof fn lemma_flat_continued(a: Seq<Seq<char>>, b: Seq<Seq<char>>)
    requires
        a.len() > 0,
        b.len() > 0,
    ensures
        flat(continued(a, b)) == flat(a) + flat(b),
{
    let front = a.drop_last().push(a.last() + b[0]);
    lemma_flat_last(a, b[0]);
    if b.len() > 1 {
        lemma_flat_concat(front, b.skip(1));
        assert((flat(a) + b[0]).push('\n') + flat(b.skip(1)) =~= flat(a) + (b[0].push('\n')
            + flat(b.skip(1))));
    } else {
        assert(continued(a, b) =~= front);
    }
}

/// The text before a place.
spec fn front_of(lines: Seq<Seq<char>>, s: Spot) -> Seq<Seq<char>> {
    lines.take(s.0).push(lines[s.0].take(s.1))
}

/// The text behind a place.
spec fn back_of(lines: Seq<Seq<char>>, s: Spot) -> Seq<Seq<char>> {
    seq![lines[s.0].skip(s.1)] + lines.skip(s.0 + 1)
}

proof fn lemma_flat_lines(lines: Seq<Seq<char>>, n: int)
    requires
        0 < n <= lines.len(),
    ensures
        flat(lines.take(n)).len() + 1 == line_offset(lines, n),
    decreases n,
{
    if n == 1 {
        assert(lines.take(1) =~= seq![lines[0]]);
        lemma_flat_one(lines[0]);
        assert(line_offset(lines, 1) == line_offset(lines, 0) + lines[0].len() + 1);
    } else {
        lemma_flat_lines(lines, n - 1);
        assert(lines.take(n) =~= lines.take(n - 1) + seq![lines[n - 1]]);
        lemma_flat_concat(lines.take(n - 1), seq![lines[n - 1]]);
        lemma_flat_one(lines[n - 1]);
    }
}

/// Cutting a text at a place.
proof fn lemma_flat_cut(lines: Seq<Seq<char>>, s: Spot)
    requires
        valid(lines, s),
    ensures
        lines == continued(front_of(lines, s), back_of(lines, s)),
        flat(lines) == flat(front_of(lines, s)) + flat(back_of(lines, s)),
        flat(front_of(lines, s)).len() == offset(lines, s),
{
    let (a, b) = (front_of(lines, s), back_of(lines, s));
    let whole = lines[s.0];
    assert(whole.take(s.1) + whole.skip(s.1) =~= whole);
    assert(a.drop_last() =~= lines.take(s.0));
    assert(b.skip(1) =~= lines.skip(s.0 + 1));
    assert(continued(a, b) =~= lines);
    lemma_flat_continued(a, b);
    if s.0 > 0 {
        assert(a =~= lines.take(s.0) + seq![whole.take(s.1)]);
        lemma_flat_concat(lines.take(s.0), seq![whole.take(s.1)]);
        lemma_flat_one(whole.take(s.1));
        lemma_flat_lines(lines, s.0);
    } else {
        assert(a =~= seq![whole.take(s.1)]);
        lemma_flat_one(whole.take(s.1));
    }
}

/// A text with a range replaced, in parts.
proof fn lemma_spliced_parts(lines: Seq<Seq<char>>, s: Spot, e: Spot, pieces: Seq<Seq<char>>)
    requires
        valid(lines, s),
        valid(lines, e),
        not_after(s, e),
        pieces.len() > 0,
    ensures
        spliced(lines, s, e, pieces) == continued(
            continued(front_of(lines, s), pieces),
            back_of(lines, e),
        ),
{
    let (a, b) = (front_of(lines, s), back_of(lines, e));
    let next = spliced(lines, s, e, pieces);
    let mid = continued(a, pieces);
    let all = continued(mid, b);
    let g = glued(lines[s.0].take(s.1), pieces, lines[e.0].skip(e.1));
    assert(a.drop_last() =~= lines.take(s.0));
    assert(b.skip(1) =~= lines.skip(e.0 + 1));
    let n = pieces.len() as int;
    assert(mid.len() == s.0 + n);
    assert(all.len() == next.len());
    assert forall|i: int| 0 <= i < next.len() implies #[trigger] next[i] == all[i] by {
        if i < s.0 {
            assert(all[i] == mid[i]);
        } else if i < s.0 + n {
            let j = i - s.0;
            assert(next[i] == g[j]);
            assert(mid[i] == (if j == 0 {
                lines[s.0].take(s.1) + pieces[0]
            } else {
                pieces[j]
            }));
            assert(g[j] =~= all[i]);
        } else {
            assert(all[i] == b.skip(1)[i - s.0 - n]);
        }
    }
    assert(next =~= all);
}

/// Replacing a range of a text by lines replaces the characters between its ends by those of the
/// lines, and leaves all others as they are.
pub proof fn law_replacing_a_range_replaces_its_characters(
    lines: Seq<Seq<char>>,
    s: Spot,
    e: Spot,
    pieces: Seq<Seq<char>>,
)
    requires
        valid(lines, s),
        valid(lines, e),
        not_after(s, e),
        pieces.len() > 0,
    ensures
        0 <= offset(lines, s) <= offset(lines, e) <= flat(lines).len(),
        flat(spliced(lines, s, e, pieces)) == flat(lines).take(offset(lines, s)) + flat(pieces)
            + flat(lines).skip(offset(lines, e)),
{
    let (a, b) = (front_of(lines, s), back_of(lines, e));
    lemma_flat_cut(lines, s);
    lemma_flat_cut(lines, e);
    lemma_offset_order(lines, s, e);
    let next = spliced(lines, s, e, pieces);
    let mid = continued(a, pieces);
    lemma_spliced_parts(lines, s, e, pieces);
    lemma_flat_continued(a, pieces);
    lemma_flat_continued(mid, b);
    assert(flat(lines).take(offset(lines, s)) =~= flat(a));
    assert(flat(lines).skip(offset(lines, e)) =~= flat(b));
}

/// The part of a text between two places holds the characters between them.
pub proof fn law_a_part_holds_what_stands_between(lines: Seq<Seq<char>>, s: Spot, e: Spot)
    requires
        valid(lines, s),
        valid(lines, e),
        not_after(s, e),
    ensures
        0 <= offset(lines, s) <= offset(lines, e) <= flat(lines).len(),
        flat(extracted(lines, s, e)) == flat(lines).subrange(offset(lines, s), offset(lines, e)),
{
    let (a, b) = (front_of(lines, s), back_of(lines, e));
    let part = extracted(lines, s, e);
    lemma_flat_cut(lines, s);
    lemma_flat_cut(lines, e);
    lemma_offset_order(lines, s, e);
    let front = front_of(lines, e);
    assert(continued(a, part) =~= front) by {
        assert(a.drop_last() =~= lines.take(s.0));
        assert(lines[s.0].take(s.1) + part[0] =~= (if s.0 == e.0 {
            lines[s.0].take(e.1)
        } else {
            lines[s.0]
        }));
        assert forall|i: int| 0 <= i < front.len() implies #[trigger] front[i] == continued(
            a,
            part,
        )[i] by {
            if i > s.0 {
                assert(continued(a, part)[i] == part[i - s.0]);
                assert(part[i - s.0] =~= front[i]);
            }
        }
    }
    lemma_flat_continued(a, part);
    assert(flat(lines).subrange(offset(lines, s), offset(lines, e)) =~= flat(part));
}

/// A line of the text stands between two places.
proof fn lemma_flat_char(lines: Seq<Seq<char>>, s: Spot)
    requires
        valid(lines, s),
    ensures
        0 <= offset(lines, s) <= flat(lines).len(),
        s.1 < lines[s.0].len() ==> offset(lines, s) < flat(lines).len() && flat(lines)[offset(
            lines,
            s,
        )] == lines[s.0][s.1],
        s.1 == lines[s.0].len() && s.0 + 1 < lines.len() ==> offset(lines, s) < flat(lines).len()
            && flat(lines)[offset(lines, s)] == '\n',
        s == (lines.len() - 1, lines.last().len() as int) ==> offset(lines, s)
            == flat(lines).len(),
{
    let b = back_of(lines, s);
    lemma_flat_cut(lines, s);
    if s.0 + 1 < lines.len() {
        assert(b.skip(1) =~= lines.skip(s.0 + 1));
        assert(flat(b) == lines[s.0].skip(s.1).push('\n') + flat(b.skip(1)));
    } else {
        assert(b =~= seq![lines[s.0].skip(s.1)]);
        lemma_flat_one(lines[s.0].skip(s.1));
    }
    lemma_line_offset(lines, s.0, s.0);
}

/// The offset of a place tells which character stands behind it: the one of its line, the line
/// break at the end of its line, or none at the end of the text.
pub proof fn law_an_offset_finds_its_character(lines: Seq<Seq<char>>, s: Spot)
    requires
        valid(lines, s),
    ensures
        0 <= offset(lines, s) <= flat(lines).len(),
        s.1 < lines[s.0].len() ==> flat(lines)[offset(lines, s)] == lines[s.0][s.1],
        s.1 == lines[s.0].len() && s.0 + 1 < lines.len() ==> flat(lines)[offset(lines, s)] == '\n',
        s == (lines.len() - 1, lines.last().len() as int) <==> offset(lines, s)
            == flat(lines).len(),
{
    lemma_flat_char(lines, s);
}

/// Joining lines puts a line break between two of them and adds nothing else; cutting a text into
/// lines takes its line breaks out and drops nothing else.
pub proof fn law_lines_hold_their_text(lines: Seq<Seq<char>>, text: Seq<char>)
    ensures
        joined(lines) == flat(lines),
        flat(split_lines(text)) == text,
{
    lemma_joined_flat(lines);
    lemma_joined_flat(split_lines(text));
    lemma_join_split(text);
}

proof fn lemma_joined_flat(lines: Seq<Seq<char>>)
    ensures
        joined(lines) == flat(lines),
    decreases lines.len(),
{
    if lines.len() > 1 {
        let init = lines.drop_last();
        lemma_joined_flat(init);
        assert(lines =~= init + seq![lines.last()]);
        lemma_flat_concat(init, seq![lines.last()]);
        lemma_flat_one(lines.last());
    }
}

/// Where lines end that replace a range: behind their characters.
pub(crate) proof fn lemma_flat_end(
    lines: Seq<Seq<char>>,
    s: Spot,
    e: Spot,
    pieces: Seq<Seq<char>>,
)
    requires
        valid(lines, s),
        valid(lines, e),
        not_after(s, e),
        pieces.len() > 0,
    ensures
        ({
            let next = spliced(lines, s, e, pieces);
            let t = end_of(s, pieces);
            valid(next, t) && offset(next, t) == offset(lines, s) + flat(pieces).len()
        }),
{
    let next = spliced(lines, s, e, pieces);
    let t = end_of(s, pieces);
    let a = front_of(lines, s);
    lemma_splice_inverse(lines, s, e, pieces);
    lemma_flat_cut(lines, s);
    lemma_flat_cut(next, t);
    lemma_flat_continued(a, pieces);
    let g = glued(lines[s.0].take(s.1), pieces, lines[e.0].skip(e.1));
    let n = pieces.len() as int;
    let mid = continued(a, pieces);
    let front = front_of(next, t);
    assert(a.drop_last() =~= lines.take(s.0));
    assert(front =~= mid) by {
        assert forall|i: int| 0 <= i < front.len() implies #[trigger] front[i] == mid[i] by {
            if i >= s.0 {
                assert(next[i] == g[i - s.0]);
                assert(front[i] =~= mid[i]);
            }
        }
    }
}

/// What a command does to the characters of a text that it fits into.
pub(crate) proof fn lemma_flat_edit(edit: Edit, lines: Seq<Seq<char>>)
    requires
        valid(lines, edit.start),
        valid(lines, edit.end),
        not_after(edit.start, edit.end),
        edit.inserted.len() > 0,
    ensures
        0 <= offset(lines, edit.start) <= offset(lines, edit.end) <= flat(lines).len(),
        flat(edit.result(lines)) == flat(lines).take(offset(lines, edit.start)) + flat(
            edit.inserted,
        ) + flat(lines).skip(offset(lines, edit.end)),
{
    assert(edit.from(lines) == edit.start);
    assert(edit.to(lines) == edit.end);
    law_replacing_a_range_replaces_its_characters(lines, edit.start, edit.end, edit.inserted);
}

/// A command replaces the characters of its range by those that it inserts, and leaves the caret
/// behind them. Undoing it gives the text back. (The characters must be countable.)
pub proof fn law_a_command_replaces_its_range(edit: Edit, lines: Seq<Seq<char>>)
    requires
        edit.wf(),
        valid(lines, edit.start),
        valid(lines, edit.end),
        not_after(edit.start, edit.end),
        flat(lines).len() + flat(edit.inserted).len() <= usize::MAX,
    ensures
        ({
            let (a, b) = (offset(lines, edit.start), offset(lines, edit.end));
            let next = edit.result(lines);
            let caret = edit.caret_after(lines);
            &&& flat(next) == flat(lines).take(a) + flat(edit.inserted) + flat(lines).skip(b)
            &&& valid(next, spot(caret))
            &&& offset(next, spot(caret)) == a + flat(edit.inserted).len()
            &&& edit.on(lines).undone(next) == lines
            &&& edit.on(lines).caret_before == edit.caret_before
        }),
{
    lemma_flat_edit(edit, lines);
    lemma_flat_end(lines, edit.start, edit.end, edit.inserted);
    lemma_executed(edit, lines);
    let t = end_of(edit.start, edit.inserted);
    assert(edit.from(lines) == edit.start);
    assert(edit.to(lines) == edit.end);
    lemma_offset_order(edit.result(lines), t, t);
}

} // verus!
