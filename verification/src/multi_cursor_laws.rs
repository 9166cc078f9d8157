//! Laws of adding cursors: with the mouse, on neighbouring lines, and at the next occurrence of
//! what is selected.
use vstd::prelude::*;

use crate::batch::line_of;
use crate::caret_laws::{lemma_offset_order, offset};
use crate::chars::alphanumeric;
use crate::cursor_laws::{all_apart, gathers, law_cursors_apart_stay, law_merging_gathers};
use crate::cursor_set::{Cursor, Cursors};
use crate::editor::Editor;
use crate::find_laws::reads;
use crate::flat_laws::{flat, law_a_part_holds_what_stands_between, law_lines_hold_their_text};
use crate::message::Message;
use crate::motion_laws::keeps_column;
use crate::multi_cursor::{next_occurrence, word_at, word_end, word_start};
use crate::position::Position;
use crate::search::occurs_at;
use crate::search_laws::{
    countable, law_nothing_found_means_no_occurrence, law_the_next_occurrence_is_the_nearest,
    search_column,
};
use crate::text_buffer::{extracted, not_after, spot, valid, Spot};

verus! {

/// `f` has the cursors of `e` and one more. Those that run into each other are one; if none do,
/// all cursors of `e` are still there as they were, and the primary one still is the primary one.
pub open spec fn adds_cursor(e: Cursors, f: Cursors, c: Cursor) -> bool {
    &&& gathers(f, (Cursors { list: e.list.push(c), primary: e.primary }))
    &&& forall|k: int|
        0 <= k <= e.list.len() && #[trigger] all_apart(e.list.insert(k, c)) ==> {
            &&& f.list == e.list.insert(k, c)
            &&& f.primary == (if e.primary < k {
                e.primary
            } else {
                e.primary + 1
            })
        }
}

proof fn lemma_adds_cursor(e: Cursors, c: Cursor)
    requires
        e.wf(),
        e.list.len() < usize::MAX,
    ensures
        adds_cursor(e, e.with_cursor(c), c),
{
    let all = Cursors { list: e.list.push(c), primary: e.primary };
    law_merging_gathers(all);
    assert forall|k: int|
        0 <= k <= e.list.len() && #[trigger] all_apart(e.list.insert(k, c)) implies {
        &&& e.with_cursor(c).list == e.list.insert(k, c)
        &&& e.with_cursor(c).primary == (if e.primary < k {
            e.primary
        } else {
            e.primary + 1
        })
    } by {
        let n = e.list.len() as int;
        let order = Seq::new(
            all.list.len(),
            |i: int|
                if i < k {
                    i as usize
                } else if i == k {
                    n as usize
                } else {
                    (i - 1) as usize
                },
        );
        let next = e.list.insert(k, c);
        assert forall|i: int| 0 <= i < order.len() implies (#[trigger] order[i]) < all.list.len()
            && next[i] == all.list[order[i] as int] by {}
        law_cursors_apart_stay(all, next, order);
    }
}

/// What the messages that add cursors do.
proof fn lemma_adding_steps(e: Editor, hit: Option<Position>)
    ensures
        e.step(Message::AltClick(hit)) == e.alt_clicked(hit),
        e.step(Message::AddCursorAbove) == e.added_above(),
        e.step(Message::AddCursorBelow) == e.added_below(),
        e.step(Message::SelectNextOccurrence) == e.next_selected(),
{
    reveal(Editor::selection_step);
}

/// Alt and a click add a bare caret where the text was clicked; beside the text they do nothing.
pub proof fn law_alt_click_adds_a_caret(e: Editor, p: Position)
    requires
        e.cursors.wf(),
        e.cursors.list.len() < usize::MAX,
    ensures
        adds_cursor(
            e.cursors,
            e.step(Message::AltClick(Some(p))).cursors,
            Cursor { position: p, anchor: None },
        ),
        e.step(Message::AltClick(Some(p))).buffer == e.buffer,
        !e.step(Message::AltClick(Some(p))).caches.overlay_cache.valid,
        e.step(Message::AltClick(None)) == e,
{
    lemma_adding_steps(e, Some(p));
    lemma_adding_steps(e, None);
    lemma_adds_cursor(e.cursors, Cursor { position: p, anchor: None });
}

/// A cursor can be added on the line above the primary caret, and on the line below it: a bare
/// caret in the same column, or at the end of the line if it is shorter. On the first line there
/// is none above and on the last one none below, and nothing happens.
pub proof fn law_cursors_are_added_above_and_below(e: Editor) -> (r: (Position, Position))
    requires
        e.cursors.wf(),
        e.cursors.list.len() < usize::MAX,
        countable(e.buffer),
        e.cursors.list[e.cursors.primary].position.0 < e.buffer.len(),
    ensures
        ({
            let from = e.cursors.list[e.cursors.primary].position;
            let f = e.step(Message::AddCursorAbove);
            &&& from.0 == 0 ==> f == e
            &&& from.0 > 0 ==> {
                &&& r.0.0 == from.0 - 1
                &&& keeps_column(e.buffer, from.1, r.0)
                &&& adds_cursor(e.cursors, f.cursors, Cursor { position: r.0, anchor: None })
            }
        }),
        ({
            let from = e.cursors.list[e.cursors.primary].position;
            let f = e.step(Message::AddCursorBelow);
            &&& from.0 + 1 == e.buffer.len() ==> f == e
            &&& from.0 + 1 < e.buffer.len() ==> {
                &&& r.1.0 == from.0 + 1
                &&& keeps_column(e.buffer, from.1, r.1)
                &&& adds_cursor(e.cursors, f.cursors, Cursor { position: r.1, anchor: None })
            }
        }),
{
    lemma_adding_steps(e, None);
    let from = e.cursors.list[e.cursors.primary].position;
    let above = if from.0 > 0 {
        lemma_added_on(e, from.0 - 1)
    } else {
        from
    };
    let below = if from.0 + 1 < e.buffer.len() {
        lemma_added_on(e, from.0 + 1)
    } else {
        from
    };
    (above, below)
}

proof fn lemma_added_on(e: Editor, line: int) -> (to: Position)
    requires
        e.cursors.wf(),
        e.cursors.list.len() < usize::MAX,
        countable(e.buffer),
        0 <= line < e.buffer.len(),
    ensures
        to.0 == line,
        keeps_column(e.buffer, e.cursors.list[e.cursors.primary].position.1, to),
        adds_cursor(
            e.cursors,
            e.caret_added_on(line).cursors,
            Cursor { position: to, anchor: None },
        ),
{
    let col = e.cursors.primary_cursor().position.1;
    assert(e.buffer[line].len() <= usize::MAX);
    let len = e.buffer[line].len();
    let to: Position = (
        line as usize,
        if col < len {
            col
        } else {
            len as usize
        },
    );
    lemma_adds_cursor(e.cursors, Cursor { position: to, anchor: None });
    to
}

/// The character belongs to words: a letter, a digit or an underscore.
pub open spec fn in_word(c: char) -> bool {
    alphanumeric(c) || c == '_'
}

proof fn lemma_word_start(line: Seq<char>, col: int)
    requires
        0 <= col <= line.len(),
    ensures
        0 <= word_start(line, col) <= col,
        forall|i: int| word_start(line, col) <= i < col ==> in_word(#[trigger] line[i]),
        word_start(line, col) > 0 ==> !in_word(line[word_start(line, col) - 1]),
    decreases col,
{
    if 0 < col && in_word(line[col - 1]) {
        lemma_word_start(line, col - 1);
    }
}

proof fn lemma_word_end(line: Seq<char>, col: int)
    requires
        0 <= col <= line.len(),
    ensures
        col <= word_end(line, col) <= line.len(),
        forall|i: int| col <= i < word_end(line, col) ==> in_word(#[trigger] line[i]),
        word_end(line, col) < line.len() ==> !in_word(line[word_end(line, col)]),
    decreases line.len() - col,
{
    if col < line.len() && in_word(line[col]) {
        lemma_word_end(line, col + 1);
    }
}

/// Without a selection, asking for the next occurrence selects the whole word that the primary
/// caret stands in or at, up to its end, and nothing if there is none. The other cursors stay.
pub proof fn law_the_word_at_the_caret_is_selected(e: Editor)
    requires
        e.cursors.wf(),
        countable(e.buffer),
        !e.cursors.list[e.cursors.primary].selected(),
        valid(e.buffer, spot(e.cursors.list[e.cursors.primary].position)),
    ensures
        ({
            let f = e.step(Message::SelectNextOccurrence);
            let i = e.cursors.primary;
            let (l, c) = e.cursors.list[i].position;
            let line = e.buffer[l as int];
            let word = (c > 0 && in_word(line[c - 1])) || (c < line.len() && in_word(
                line[c as int],
            ));
            let new = f.cursors.list[i];
            let (a, b) = (new.anchor->0, new.position);
            &&& f.buffer == e.buffer
            &&& f.cursors.primary == i
            &&& !word ==> f.cursors.list == e.cursors.list
            &&& word ==> {
                &&& f.cursors.list == e.cursors.list.update(i, new)
                &&& new.anchor is Some
                &&& a.0 == l && b.0 == l
                &&& a.1 <= c <= b.1 <= line.len()
                &&& a.1 < b.1
                &&& forall|k: int| a.1 <= k < b.1 ==> in_word(#[trigger] line[k])
                &&& a.1 > 0 ==> !in_word(line[a.1 - 1])
                &&& b.1 < line.len() ==> !in_word(line[b.1 as int])
            }
        }),
{
    lemma_adding_steps(e, None);
    let i = e.cursors.primary;
    let (l, c) = e.cursors.list[i].position;
    let line = e.buffer[l as int];
    assert(e.buffer[l as int].len() <= usize::MAX);
    assert(line_of(e.buffer, l as int) == line);
    lemma_word_start(line, c as int);
    lemma_word_end(line, c as int);
    let (s, t) = word_at(line, c as int);
    let word = (c > 0 && in_word(line[c - 1])) || (c < line.len() && in_word(line[c as int]));
    assert(word ==> s < t);
    assert(!word ==> s == t);
    let f = e.step(Message::SelectNextOccurrence);
    if word {
        assert(f.cursors.list =~= e.cursors.list.update(i, f.cursors.list[i]));
    }
}

/// Of all places where the text reads `text`, `p` comes first, searching from `start` to the end
/// of the text and then from the start of the text on.
pub open spec fn comes_next(
    lines: Seq<Seq<char>>,
    text: Seq<char>,
    start: Spot,
    p: Spot,
) -> bool {
    &&& reads(lines, p, text, true)
    &&& forall|q: Spot| #[trigger]
        reads(lines, q, text, true) ==> if not_after(start, p) {
            not_after(start, q) ==> not_after(p, q)
        } else {
            !not_after(start, q) && not_after(p, q)
        }
}

/// A text that the text reads at a place occurs there.
proof fn lemma_reads(lines: Seq<Seq<char>>, p: Spot, text: Seq<char>)
    requires
        0 <= p.0 < lines.len(),
    ensures
        reads(lines, p, text, true) == occurs_at(lines[p.0], text, p.1, true),
{
    if reads(lines, p, text, true) {
        assert(occurs_at(lines[p.0], text, p.1, true));
    }
    if occurs_at(lines[p.0], text, p.1, true) {
        assert(reads(lines, p, text, true));
    }
}

proof fn lemma_comes_next(lines: Seq<Seq<char>>, text: Seq<char>, start: Spot)
    requires
        valid(lines, start),
        text.len() > 0,
    ensures
        match next_occurrence(lines, text, start, 0) {
            Some(p) => comes_next(lines, text, start, p),
            None => forall|q: Spot| !#[trigger] reads(lines, q, text, true),
        },
{
    let n = lines.len() as int;
    match next_occurrence(lines, text, start, 0) {
        Some(p) => {
            let k = law_the_next_occurrence_is_the_nearest(lines, text, start);
            lemma_round(start.0, k, n);
            lemma_reads(lines, p, text);
            assert(k == n ==> p.1 < start.1) by {
                if k == n && p.1 >= start.1 {
                    lemma_round(start.0, 0, n);
                    assert(search_column(start, 0) <= p.1);
                    assert(!occurs_at(lines[(start.0 + 0) % n], text, p.1, true));
                }
            }
            assert forall|q: Spot| #[trigger] reads(lines, q, text, true) implies if not_after(
                start,
                p,
            ) {
                not_after(start, q) ==> not_after(p, q)
            } else {
                !not_after(start, q) && not_after(p, q)
            } by {
                lemma_reads(lines, q, text);
                let j = if not_after(start, q) {
                    q.0 - start.0
                } else {
                    q.0 - start.0 + n
                };
                lemma_round(start.0, j, n);
                assert(search_column(start, j) <= q.1);
                if j < k {
                    assert(!occurs_at(lines[(start.0 + j) % n], text, q.1, true));
                } else if j == k {
                    if q.1 < p.1 {
                        assert(!occurs_at(lines[p.0], text, q.1, true));
                    }
                }
            }
        },
        None => {
            assert forall|q: Spot| !#[trigger] reads(lines, q, text, true) by {
                if reads(lines, q, text, true) {
                    lemma_reads(lines, q, text);
                    law_nothing_found_means_no_occurrence(lines, text, start, q.0, q.1);
                }
            }
        },
    }
}

/// Going round the lines.
proof fn lemma_round(line: int, k: int, n: int)
    requires
        0 <= line < n,
        0 <= k <= n,
    ensures
        (line + k) % n == (if line + k < n {
            line + k
        } else {
            line + k - n
        }),
{
    if line + k < n {
        assert((line + k) % n == line + k) by (nonlinear_arith)
            requires
                0 <= line + k < n,
        ;
    } else {
        assert((line + k) % n == line + k - n) by (nonlinear_arith)
            requires
                n <= line + k < 2 * n,
        ;
    }
}

/// With a selection, asking for the next occurrence adds a cursor that selects the next place
/// behind the last cursor, and after the end of the text from its start on, where the text reads
/// what the primary cursor selects. If it reads it nowhere, nothing happens. (A selection within
/// one line is always read where it is selected.)
pub proof fn law_the_next_occurrence_is_selected(e: Editor) -> (r: Option<Spot>)
    requires
        e.cursors.wf(),
        e.cursors.list.len() < usize::MAX,
        countable(e.buffer),
        e.cursors.list[e.cursors.primary].selected(),
        valid(e.buffer, spot(e.cursors.list[e.cursors.primary].lo())),
        valid(e.buffer, spot(e.cursors.list[e.cursors.primary].hi())),
        valid(e.buffer, spot(e.cursors.list.last().hi())),
    ensures
        ({
            let f = e.step(Message::SelectNextOccurrence);
            let c = e.cursors.list[e.cursors.primary];
            let text = flat(e.buffer).subrange(
                offset(e.buffer, spot(c.lo())),
                offset(e.buffer, spot(c.hi())),
            );
            let start = spot(e.cursors.list.last().hi());
            &&& f.buffer == e.buffer
            &&& r matches Some(p) ==> {
                &&& comes_next(e.buffer, text, start, p)
                &&& p.0 <= usize::MAX && p.1 + text.len() <= usize::MAX
                &&& adds_cursor(
                    e.cursors,
                    f.cursors,
                    Cursor {
                        position: (p.0 as usize, (p.1 + text.len()) as usize),
                        anchor: Some((p.0 as usize, p.1 as usize)),
                    },
                )
            }
            &&& r is None ==> f == e && forall|q: Spot| !#[trigger]
                reads(e.buffer, q, text, true)
        }),
{
    lemma_adding_steps(e, None);
    let c = e.cursors.list[e.cursors.primary];
    let (s, t) = (spot(c.lo()), spot(c.hi()));
    let part = extracted(e.buffer, s, t);
    law_a_part_holds_what_stands_between(e.buffer, s, t);
    law_lines_hold_their_text(part, Seq::empty());
    let text = flat(part);
    assert(e.selected_text() == Some(text));
    lemma_offset_order(e.buffer, t, s);
    assert(text.len() > 0);
    let start = spot(e.cursors.list.last().hi());
    lemma_comes_next(e.buffer, text, start);
    let r = next_occurrence(e.buffer, text, start, 0);
    if let Some(p) = r {
        assert(reads(e.buffer, p, text, true));
        assert(e.buffer[p.0].len() <= usize::MAX);
        lemma_adds_cursor(
            e.cursors,
            Cursor {
                position: (p.0 as usize, (p.1 + text.len()) as usize),
                anchor: Some((p.0 as usize, p.1 as usize)),
            },
        );
    }
    r
}

} // verus!
