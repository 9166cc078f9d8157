//! The text: lines of characters, and the one edit from which all others are made.
use vstd::prelude::*;

use crate::chars::{push_range, str_chars, string_of};
use crate::position::{capped, is_before, same_position, Position};

verus! {

/// A place in a text, as exact integers: line and column.
pub type Spot = (int, int);

/// The place that a caret position names.
pub open spec fn spot(p: Position) -> Spot {
    (p.0 as int, p.1 as int)
}

/// The caret position at a place that fits in one.
pub open spec fn at(s: Spot) -> Position {
    (s.0 as usize, s.1 as usize)
}

/// `s` names a place of the text: an existing line, and a column up to its end.
pub open spec fn valid(lines: Seq<Seq<char>>, s: Spot) -> bool {
    &&& 0 <= s.0 < lines.len()
    &&& 0 <= s.1 <= lines[s.0].len()
}

/// `a` is not after `b`.
pub open spec fn not_after(a: Spot, b: Spot) -> bool {
    a.0 < b.0 || (a.0 == b.0 && a.1 <= b.1)
}

/// The place of the text nearest to `s`: a column past the end of its line stands at the end,
/// a line past the last one at the end of the text.
pub open spec fn clamped(lines: Seq<Seq<char>>, s: Spot) -> Spot {
    if s.0 >= lines.len() {
        (lines.len() - 1, lines.last().len() as int)
    } else if s.1 > lines[s.0].len() {
        (s.0, lines[s.0].len() as int)
    } else {
        s
    }
}

/// The pieces of a text between `prefix` and `suffix`: the first piece continues the prefix,
/// the suffix continues the last one.
pub open spec fn glued(prefix: Seq<char>, pieces: Seq<Seq<char>>, suffix: Seq<char>) -> Seq<
    Seq<char>,
> {
    Seq::new(
        pieces.len(),
        |i: int|
            (if i == 0 {
                prefix
            } else {
                Seq::empty()
            }) + pieces[i] + (if i == pieces.len() - 1 {
                suffix
            } else {
                Seq::empty()
            }),
    )
}

/// The text with the range from `s` to `e` replaced by `pieces`, one piece per line.
pub open spec fn spliced(lines: Seq<Seq<char>>, s: Spot, e: Spot, pieces: Seq<Seq<char>>) -> Seq<
    Seq<char>,
> {
    lines.take(s.0) + glued(lines[s.0].take(s.1), pieces, lines[e.0].skip(e.1)) + lines.skip(
        e.0 + 1,
    )
}

/// The part of the text from `s` to `e`, one piece per line.
pub open spec fn extracted(lines: Seq<Seq<char>>, s: Spot, e: Spot) -> Seq<Seq<char>> {
    Seq::new(
        (e.0 - s.0 + 1) as nat,
        |i: int|
            lines[s.0 + i].subrange(
                if i == 0 {
                    s.1
                } else {
                    0
                },
                if i == e.0 - s.0 {
                    e.1
                } else {
                    lines[s.0 + i].len() as int
                },
            ),
    )
}

/// Where `pieces` end when they are put at `s`.
pub open spec fn end_of(s: Spot, pieces: Seq<Seq<char>>) -> Spot {
    if pieces.len() == 1 {
        (s.0, s.1 + pieces[0].len())
    } else {
        (s.0 + pieces.len() - 1, pieces.last().len() as int)
    }
}

/// Where replacing the range from `s` to `e` by a text that ends at `t` moves a place: what
/// stands before the range stays, what stands in it goes to the end of the new text, and what
/// stands behind it keeps its distance to the end.
pub open spec fn moved(p: Spot, s: Spot, e: Spot, t: Spot) -> Spot {
    if !not_after(s, p) || (p == s && s != e) {
        p
    } else if !not_after(e, p) {
        t
    } else if p.0 == e.0 {
        (t.0, t.1 + (p.1 - e.1))
    } else {
        (p.0 - e.0 + t.0, p.1)
    }
}

/// `moved` for a caret position; a coordinate past the largest `usize` stays at it.
pub open spec fn moved_position(p: Position, s: Spot, e: Spot, t: Spot) -> Position {
    let m = moved(spot(p), s, e, t);
    (capped(m.0), capped(m.1))
}

/// Moves a position after the range from `s` to `e` was replaced by a text that ends at `t`.
pub fn move_position(p: Position, s: Position, e: Position, t: Position) -> (r: Position)
    ensures
        r == moved_position(p, spot(s), spot(e), spot(t)),
{
    if is_before(p, s) || (same_position(p, s) && !same_position(s, e)) {
        p
    } else if is_before(p, e) {
        t
    } else if p.0 == e.0 {
        (t.0, t.1.saturating_add(p.1 - e.1))
    } else {
        ((p.0 - e.0).saturating_add(t.0), p.1)
    }
}

/// Lines of characters, as sequences.
pub open spec fn rows(v: Seq<Vec<char>>) -> Seq<Seq<char>> {
    Seq::new(v.len(), |i: int| v[i]@)
}

/// One more line, in both models.
pub proof fn lemma_rows_push(v: Seq<Vec<char>>, row: Vec<char>)
    ensures
        rows(v.push(row)) == rows(v).push(row@),
{
    assert(rows(v.push(row)) =~= rows(v).push(row@));
}

/// Replacing a range by a text and then that text by what was in the range gives the text back.
pub proof fn lemma_splice_inverse(
    lines: Seq<Seq<char>>,
    s: Spot,
    e: Spot,
    pieces: Seq<Seq<char>>,
)
    requires
        valid(lines, s),
        valid(lines, e),
        not_after(s, e),
        pieces.len() > 0,
    ensures
        valid(spliced(lines, s, e, pieces), s),
        valid(spliced(lines, s, e, pieces), end_of(s, pieces)),
        not_after(s, end_of(s, pieces)),
        spliced(
            spliced(lines, s, e, pieces),
            s,
            end_of(s, pieces),
            extracted(lines, s, e),
        ) == lines,
        extracted(spliced(lines, s, e, pieces), s, end_of(s, pieces)) == pieces,
        end_of(s, extracted(lines, s, e)) == e,
{
    let mid = spliced(lines, s, e, pieces);
    let t = end_of(s, pieces);
    let removed = extracted(lines, s, e);
    let g = glued(lines[s.0].take(s.1), pieces, lines[e.0].skip(e.1));
    assert(mid.len() == s.0 + pieces.len() + (lines.len() - e.0 - 1));
    assert(forall|i: int| 0 <= i < pieces.len() ==> mid[s.0 + i] == #[trigger] g[i]);
    assert(mid[s.0] == g[0]);
    assert(mid[t.0] == g[pieces.len() - 1]);
    assert(mid[s.0].take(s.1) =~= lines[s.0].take(s.1));
    assert(mid[t.0].skip(t.1) =~= lines[e.0].skip(e.1));
    let back = spliced(mid, s, t, removed);
    assert(back.len() == lines.len());
    assert forall|i: int| 0 <= i < lines.len() implies back[i] == lines[i] by {
        if i < s.0 {
        } else if i <= e.0 {
            let g2 = glued(mid[s.0].take(s.1), removed, mid[t.0].skip(t.1));
            assert(back[i] == g2[i - s.0]);
            assert(back[i] =~= lines[i]);
        } else {
        }
    }
    assert(back =~= lines);
    let again = extracted(mid, s, t);
    assert(again.len() == pieces.len());
    assert forall|i: int| 0 <= i < pieces.len() implies again[i] == pieces[i] by {
        assert(mid[s.0 + i] == g[i]);
        assert(again[i] =~= pieces[i]);
    }
    assert(again =~= pieces);
}

/// A text cut at its line breaks: always at least one line.
pub open spec fn split_lines(text: Seq<char>) -> Seq<Seq<char>>
    decreases text.len(),
{
    if text.len() == 0 {
        seq![Seq::empty()]
    } else {
        let head = split_lines(text.drop_last());
        if text.last() == '\n' {
            head.push(Seq::empty())
        } else {
            head.drop_last().push(head.last().push(text.last()))
        }
    }
}

/// Lines put together with line breaks between them.
pub open spec fn joined(lines: Seq<Seq<char>>) -> Seq<char>
    decreases lines.len(),
{
    if lines.len() == 0 {
        Seq::empty()
    } else if lines.len() == 1 {
        lines[0]
    } else {
        joined(lines.drop_last()).push('\n') + lines.last()
    }
}

/// Cutting a text into lines and joining them gives the text back.
pub proof fn lemma_join_split(text: Seq<char>)
    ensures
        split_lines(text).len() > 0,
        joined(split_lines(text)) == text,
    decreases text.len(),
{
    if text.len() == 0 {
        assert(joined(split_lines(text)) =~= text);
    } else {
        let t = text.drop_last();
        let head = split_lines(t);
        lemma_join_split(t);
        let all = split_lines(text);
        if text.last() == '\n' {
            assert(all.drop_last() =~= head);
            assert(joined(all) =~= text);
        } else {
            assert(all.drop_last() =~= head.drop_last());
            assert(all.last() == head.last().push(text.last()));
            assert(text =~= t.push(text.last()));
            if head.len() == 1 {
                assert(all.len() == 1);
                assert(joined(all) == all[0]);
            } else {
                let j = joined(head.drop_last()).push('\n');
                assert(joined(head) == j + head.last());
                assert(joined(all) == j + head.last().push(text.last()));
                assert(joined(all) =~= (j + head.last()).push(text.last()));
            }
        }
    }
}

/// Cuts a text at its line breaks.
pub fn split_text(text: &str) -> (r: Vec<Vec<char>>)
    ensures
        rows(r@) == split_lines(text@),
        r@.len() > 0,
{
    let chars = str_chars(text);
    let mut done: Vec<Vec<char>> = Vec::new();
    let mut cur: Vec<char> = Vec::new();
    let mut i: usize = 0;
    assert(chars@.take(0) =~= Seq::empty());
    assert(rows(done@).push(cur@) =~= split_lines(chars@.take(0)));
    while i < chars.len()
        invariant
            i <= chars.len(),
            rows(done@).push(cur@) == split_lines(chars@.take(i as int)),
        decreases chars.len() - i,
    {
        let ghost before = rows(done@).push(cur@);
        assert(chars@.take(i + 1).drop_last() =~= chars@.take(i as int));
        assert(before.drop_last() =~= rows(done@));
        if chars[i] == '\n' {
            let mut full: Vec<char> = Vec::new();
            std::mem::swap(&mut full, &mut cur);
            done.push(full);
            assert(rows(done@) =~= before);
        } else {
            cur.push(chars[i]);
        }
        i += 1;
        assert(rows(done@).push(cur@) =~= split_lines(chars@.take(i as int)));
    }
    done.push(cur);
    assert(chars@.take(chars@.len() as int) =~= text@);
    assert(rows(done@) =~= split_lines(text@));
    done
}

/// A text as lines of characters, without their line breaks.
pub struct TextBuffer {
    lines: Vec<Vec<char>>,
}

impl View for TextBuffer {
    type V = Seq<Seq<char>>;

    closed spec fn view(&self) -> Seq<Seq<char>> {
        rows(self.lines@)
    }
}

impl TextBuffer {
    /// A text has at least one line.
    pub open spec fn wf(self) -> bool {
        self@.len() > 0
    }

    /// Creates a text from a string, cut at its line breaks.
    pub fn new(content: &str) -> (r: Self)
        ensures
            r@ == split_lines(content@),
            r.wf(),
    {
        let lines = split_text(content);
        TextBuffer { lines }
    }

    /// Number of lines.
    pub fn line_count(&self) -> (r: usize)
        ensures
            r == self@.len(),
    {
        self.lines.len()
    }

    /// Number of characters of a line; 0 past the last line.
    pub fn line_len(&self, line: usize) -> (r: usize)
        ensures
            r == (if line < self@.len() {
                self@[line as int].len()
            } else {
                0
            }),
    {
        if line < self.lines.len() {
            self.lines[line].len()
        } else {
            0
        }
    }

    /// The characters of a line; none past the last line.
    pub fn line_chars(&self, line: usize) -> (r: Vec<char>)
        ensures
            r@ == (if line < self@.len() {
                self@[line as int]
            } else {
                Seq::empty()
            }),
    {
        let mut r: Vec<char> = Vec::new();
        if line < self.lines.len() {
            push_range(&mut r, &self.lines[line], 0, self.lines[line].len());
            assert(r@ =~= self@[line as int]);
        }
        r
    }

    /// A line as a string; empty past the last line.
    pub fn line(&self, line: usize) -> (r: String)
        ensures
            r@ == (if line < self@.len() {
                self@[line as int]
            } else {
                Seq::empty()
            }),
    {
        string_of(&self.line_chars(line))
    }

    /// The place of the text nearest to `pos`.
    pub fn clamp(&self, pos: Position) -> (r: Position)
        requires
            self.wf(),
        ensures
            spot(r) == clamped(self@, spot(pos)),
            valid(self@, spot(r)),
    {
        if pos.0 >= self.lines.len() {
            let last = self.lines.len() - 1;
            (last, self.lines[last].len())
        } else if pos.1 > self.lines[pos.0].len() {
            (pos.0, self.lines[pos.0].len())
        } else {
            pos
        }
    }

    /// The part of the text from `s` to `e`, one piece per line.
    pub fn extract(&self, s: Position, e: Position) -> (r: Vec<Vec<char>>)
        requires
            valid(self@, spot(s)),
            valid(self@, spot(e)),
            not_after(spot(s), spot(e)),
        ensures
            rows(r@) == extracted(self@, spot(s), spot(e)),
    {
        let mut r: Vec<Vec<char>> = Vec::new();
        let mut line = s.0;
        let count = self.lines.len();
        while line <= e.0
            invariant
                e.0 < count,
                s.0 <= line <= e.0 + 1,
                valid(self@, spot(s)),
                valid(self@, spot(e)),
                not_after(spot(s), spot(e)),
                r@.len() == line - s.0,
                forall|i: int|
                    0 <= i < line - s.0 ==> (#[trigger] r@[i])@ == extracted(
                        self@,
                        spot(s),
                        spot(e),
                    )[i],
            decreases e.0 + 1 - line,
        {
            let from = if line == s.0 {
                s.1
            } else {
                0
            };
            let to = if line == e.0 {
                e.1
            } else {
                self.lines[line].len()
            };
            let mut piece: Vec<char> = Vec::new();
            push_range(&mut piece, &self.lines[line], from, to);
            assert(piece@ =~= extracted(self@, spot(s), spot(e))[line - s.0]);
            r.push(piece);
            line = line + 1;
        }
        assert(rows(r@) =~= extracted(self@, spot(s), spot(e)));
        r
    }

    /// Replaces the range from `s` to `e` by `pieces`, one piece per line.
    pub fn replace_range(&mut self, s: Position, e: Position, pieces: &Vec<Vec<char>>)
        requires
            valid(old(self)@, spot(s)),
            valid(old(self)@, spot(e)),
            not_after(spot(s), spot(e)),
            pieces@.len() > 0,
        ensures
            final(self)@ == spliced(old(self)@, spot(s), spot(e), rows(pieces@)),
            final(self).wf(),
    {
        let ghost start = self@;
        let ghost prefix = start[s.0 as int].take(s.1 as int);
        let ghost suffix = start[e.0 as int].skip(e.1 as int);
        let ghost g = glued(prefix, rows(pieces@), suffix);
        let count = self.lines.len();
        assert(e.0 < count);
        let mut tail = self.lines.split_off(e.0 + 1);
        let middle = self.lines.split_off(s.0);
        assert(rows(self.lines@) =~= start.take(s.0 as int));
        assert(rows(tail@) =~= start.skip(e.0 + 1));
        assert(middle@[0]@ == start[s.0 as int]);
        let last = middle.len() - 1;
        assert(middle@[last as int]@ == start[e.0 as int]);
        let mut i: usize = 0;
        while i < pieces.len()
            invariant
                i <= pieces.len(),
                valid(start, spot(s)),
                valid(start, spot(e)),
                middle@.len() > 0,
                last == middle@.len() - 1,
                middle@[0]@ == start[s.0 as int],
                middle@[last as int]@ == start[e.0 as int],
                prefix == start[s.0 as int].take(s.1 as int),
                suffix == start[e.0 as int].skip(e.1 as int),
                g == glued(prefix, rows(pieces@), suffix),
                rows(self.lines@) == start.take(s.0 as int) + g.take(i as int),
            decreases pieces.len() - i,
        {
            let mut row: Vec<char> = Vec::new();
            if i == 0 {
                push_range(&mut row, &middle[0], 0, s.1);
            }
            push_range(&mut row, &pieces[i], 0, pieces[i].len());
            if i == pieces.len() - 1 {
                push_range(&mut row, &middle[last], e.1, middle[last].len());
            }
            assert(row@ =~= g[i as int]);
            proof {
                lemma_rows_push(self.lines@, row);
            }
            self.lines.push(row);
            i += 1;
            assert(rows(self.lines@) =~= start.take(s.0 as int) + g.take(i as int));
        }
        let ghost head = self.lines@;
        let ghost rest = tail@;
        self.lines.append(&mut tail);
        assert(rows(self.lines@) =~= rows(head) + rows(rest));
        assert(g.take(g.len() as int) =~= g);
        assert(self@ =~= spliced(start, spot(s), spot(e), rows(pieces@)));
    }
}

} // verus!
