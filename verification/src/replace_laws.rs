//! The law of replacing all matches: every line is what it was, with its matches replaced.
use vstd::prelude::*;

use crate::command::run_all;
use crate::editor::Editor;
use crate::find_replace::{replacement, replacements};
use crate::message::Message;
use crate::position::Position;
use crate::search::{
    found, found_in, lemma_found_prefix, line_matches, occurs_at, on_line, SearchMatch,
};
use crate::search_laws::{countable, lemma_first_match, lemma_line_match_stands};
use crate::text_buffer::{glued, lemma_join_split, split_lines};

verus! {

/// Two texts one behind the other: the last row of the first goes on with the first row of the
/// second.
pub open spec fn chained(a: Seq<Seq<char>>, b: Seq<Seq<char>>) -> Seq<Seq<char>> {
    a.drop_last() + seq![a.last() + b[0]] + b.skip(1)
}

/// A line from column `from` on, with its matches replaced by `pieces`. The matches are taken from
/// left to right, none overlapping another.
pub open spec fn replaced_rows(
    line: Seq<char>,
    query: Seq<char>,
    pieces: Seq<Seq<char>>,
    case_sensitive: bool,
    from: int,
) -> Seq<Seq<char>>
    decreases line.len() - from,
{
    if query.len() == 0 || from < 0 || from + query.len() > line.len() {
        seq![line.skip(from)]
    } else if occurs_at(line, query, from, case_sensitive) {
        chained(
            pieces,
            replaced_rows(line, query, pieces, case_sensitive, from + query.len()),
        )
    } else {
        chained(
            seq![seq![line[from]]],
            replaced_rows(line, query, pieces, case_sensitive, from + 1),
        )
    }
}

/// The lines of a text from the `n`-th on, with their matches replaced by `pieces`.
pub open spec fn replaced_lines(
    lines: Seq<Seq<char>>,
    query: Seq<char>,
    pieces: Seq<Seq<char>>,
    case_sensitive: bool,
    n: int,
) -> Seq<Seq<char>>
    decreases lines.len() - n,
{
    if n < 0 || n >= lines.len() {
        Seq::empty()
    } else {
        replaced_rows(lines[n], query, pieces, case_sensitive, 0) + replaced_lines(
            lines,
            query,
            pieces,
            case_sensitive,
            n + 1,
        )
    }
}

proof fn lemma_rows_nonempty(
    line: Seq<char>,
    query: Seq<char>,
    pieces: Seq<Seq<char>>,
    cs: bool,
    from: int,
)
    requires
        pieces.len() > 0,
    ensures
        replaced_rows(line, query, pieces, cs, from).len() > 0,
    decreases line.len() - from,
{
    if query.len() == 0 || from < 0 || from + query.len() > line.len() {
    } else if occurs_at(line, query, from, cs) {
        lemma_rows_nonempty(line, query, pieces, cs, from + query.len());
    } else {
        lemma_rows_nonempty(line, query, pieces, cs, from + 1);
    }
}

/// Two rows before a text are one.
proof fn lemma_chained_rows(a: Seq<char>, b: Seq<char>, rest: Seq<Seq<char>>)
    requires
        rest.len() > 0,
    ensures
        chained(seq![a], chained(seq![b], rest)) == chained(seq![a + b], rest),
{
    let inner = chained(seq![b], rest);
    assert(inner[0] =~= b + rest[0]);
    assert(a + (b + rest[0]) =~= (a + b) + rest[0]);
    assert(chained(seq![a], inner) =~= chained(seq![a + b], rest));
}

/// An empty row before a text is nothing.
proof fn lemma_chained_empty(rest: Seq<Seq<char>>)
    requires
        rest.len() > 0,
    ensures
        chained(seq![Seq::empty()], rest) == rest,
{
    assert(Seq::<char>::empty() + rest[0] =~= rest[0]);
    assert(chained(seq![Seq::empty()], rest) =~= rest);
}

/// Putting pieces between a prefix and a text.
proof fn lemma_glued_chained(prefix: Seq<char>, pieces: Seq<Seq<char>>, rest: Seq<Seq<char>>)
    requires
        pieces.len() > 0,
        rest.len() > 0,
    ensures
        glued(prefix, pieces, rest[0]) + rest.skip(1) == chained(
            seq![prefix],
            chained(pieces, rest),
        ),
{
    let g = glued(prefix, pieces, rest[0]);
    let inner = chained(pieces, rest);
    let whole = chained(seq![prefix], inner);
    let n = pieces.len() as int;
    assert(whole.len() == n + rest.len() - 1);
    assert forall|i: int| 0 <= i < whole.len() implies (g + rest.skip(1))[i] == whole[i] by {
        if i < n {
            if i == 0 {
                assert(whole[0] == prefix + inner[0]);
                if n == 1 {
                    assert(inner[0] == pieces[0] + rest[0]);
                    assert(g[0] =~= whole[0]);
                } else {
                    assert(inner[0] == pieces[0]);
                    assert(g[0] =~= whole[0]);
                }
            } else {
                assert(whole[i] == inner[i]);
                assert(g[i] =~= whole[i]);
            }
        } else {
            assert(whole[i] == inner[i]);
        }
    }
    assert(g + rest.skip(1) =~= whole);
}

/// Where nothing matches a line goes on as it is.
proof fn lemma_rows_until(
    line: Seq<char>,
    query: Seq<char>,
    pieces: Seq<Seq<char>>,
    cs: bool,
    from: int,
    to: int,
)
    requires
        pieces.len() > 0,
        query.len() > 0,
        0 <= from <= to,
        to + query.len() <= line.len(),
        forall|c: int| from <= c < to ==> !#[trigger] occurs_at(line, query, c, cs),
    ensures
        replaced_rows(line, query, pieces, cs, from) == chained(
            seq![line.subrange(from, to)],
            replaced_rows(line, query, pieces, cs, to),
        ),
    decreases to - from,
{
    let rest = replaced_rows(line, query, pieces, cs, to);
    lemma_rows_nonempty(line, query, pieces, cs, to);
    if from == to {
        assert(line.subrange(from, to) =~= Seq::empty());
        lemma_chained_empty(rest);
    } else {
        assert(!occurs_at(line, query, from, cs));
        lemma_rows_until(line, query, pieces, cs, from + 1, to);
        lemma_chained_rows(seq![line[from]], line.subrange(from + 1, to), rest);
        assert(seq![line[from]] + line.subrange(from + 1, to) =~= line.subrange(from, to));
    }
}

/// A line without further matches stays as it is.
proof fn lemma_rows_unmatched(
    line: Seq<char>,
    query: Seq<char>,
    pieces: Seq<Seq<char>>,
    cs: bool,
    from: int,
)
    requires
        pieces.len() > 0,
        0 <= from <= line.len(),
        line_matches(line, query, cs, from).len() == 0,
    ensures
        replaced_rows(line, query, pieces, cs, from) == seq![line.skip(from)],
    decreases line.len() - from,
{
    if query.len() > 0 && from + query.len() <= line.len() {
        lemma_rows_unmatched(line, query, pieces, cs, from + 1);
        assert(seq![line[from]] + line.skip(from + 1) =~= line.skip(from));
        assert(replaced_rows(line, query, pieces, cs, from) =~= seq![line.skip(from)]);
    }
}

/// Behind the `r`-th match of a line the others are found.
proof fn lemma_matches_skip(line: Seq<char>, query: Seq<char>, cs: bool, from: int, r: int)
    requires
        0 <= from,
        0 < r <= line_matches(line, query, cs, from).len(),
    ensures
        line_matches(
            line,
            query,
            cs,
            line_matches(line, query, cs, from)[r - 1] + query.len(),
        ) == line_matches(line, query, cs, from).skip(r),
    decreases line.len() - from,
{
    let m = line_matches(line, query, cs, from);
    if occurs_at(line, query, from, cs) {
        let rest = line_matches(line, query, cs, from + query.len());
        if r == 1 {
            assert(m.skip(1) =~= rest);
        } else {
            lemma_matches_skip(line, query, cs, from + query.len(), r - 1);
            assert(m.skip(r) =~= rest.skip(r - 1));
        }
    } else {
        lemma_matches_skip(line, query, cs, from + 1, r);
    }
}

/// The column behind the first `r` matches of a line.
spec fn behind(line: Seq<char>, query: Seq<char>, cs: bool, r: int) -> int {
    if r <= 0 {
        0
    } else {
        line_matches(line, query, cs, 0)[r - 1] + query.len()
    }
}

proof fn lemma_behind(line: Seq<char>, query: Seq<char>, cs: bool, r: int)
    requires
        0 <= r <= line_matches(line, query, cs, 0).len(),
    ensures
        0 <= behind(line, query, cs, r) <= line.len(),
        line_matches(line, query, cs, behind(line, query, cs, r)) == line_matches(
            line,
            query,
            cs,
            0,
        ).skip(r),
{
    if r > 0 {
        lemma_matches_skip(line, query, cs, 0, r);
        lemma_line_match_stands(line, query, cs, 0, r - 1);
    } else {
        assert(line_matches(line, query, cs, 0).skip(0) =~= line_matches(line, query, cs, 0));
    }
}

/// The text while matches are being replaced from the last one to the first: all of the lines
/// behind the `l`-th, and of that line all but its first `r`.
spec fn midway(
    lines: Seq<Seq<char>>,
    query: Seq<char>,
    pieces: Seq<Seq<char>>,
    cs: bool,
    l: int,
    r: int,
) -> Seq<Seq<char>> {
    let x = behind(lines[l], query, cs, r);
    lines.take(l) + chained(
        seq![lines[l].take(x)],
        replaced_rows(lines[l], query, pieces, cs, x),
    ) + replaced_lines(lines, query, pieces, cs, l + 1)
}

/// With none of its matches replaced yet a line is as it was.
proof fn lemma_midway_line_start(
    lines: Seq<Seq<char>>,
    query: Seq<char>,
    pieces: Seq<Seq<char>>,
    cs: bool,
    l: int,
)
    requires
        pieces.len() > 0,
        0 <= l < lines.len(),
    ensures
        midway(lines, query, pieces, cs, l, line_matches(lines[l], query, cs, 0).len() as int)
            == lines.take(l + 1) + replaced_lines(lines, query, pieces, cs, l + 1),
{
    let line = lines[l];
    let n = line_matches(line, query, cs, 0).len() as int;
    let x = behind(line, query, cs, n);
    lemma_behind(line, query, cs, n);
    lemma_rows_unmatched(line, query, pieces, cs, x);
    assert(line.take(x) + line.skip(x) =~= line);
    assert(chained(seq![line.take(x)], seq![line.skip(x)]) =~= seq![line]);
    assert(lines.take(l) + seq![line] =~= lines.take(l + 1));
}

/// With all of its matches replaced a line is done.
proof fn lemma_midway_line_done(
    lines: Seq<Seq<char>>,
    query: Seq<char>,
    pieces: Seq<Seq<char>>,
    cs: bool,
    l: int,
)
    requires
        pieces.len() > 0,
        0 <= l < lines.len(),
    ensures
        midway(lines, query, pieces, cs, l, 0) == lines.take(l) + replaced_lines(
            lines,
            query,
            pieces,
            cs,
            l,
        ),
{
    let rows = replaced_rows(lines[l], query, pieces, cs, 0);
    lemma_rows_nonempty(lines[l], query, pieces, cs, 0);
    assert(lines[l].take(0) =~= Seq::empty());
    lemma_chained_empty(rows);
    let rest = replaced_lines(lines, query, pieces, cs, l + 1);
    assert(lines.take(l) + rows + rest =~= lines.take(l) + (rows + rest));
}

/// One more match replaced.
proof fn lemma_midway_step(
    lines: Seq<Seq<char>>,
    query: Seq<char>,
    text: Seq<char>,
    cs: bool,
    l: int,
    r: int,
    caret: Position,
)
    requires
        countable(lines),
        0 <= l < lines.len(),
        0 < r <= line_matches(lines[l], query, cs, 0).len(),
    ensures
        ({
            let pieces = split_lines(text);
            let m = SearchMatch {
                line: l as usize,
                col: line_matches(lines[l], query, cs, 0)[r - 1] as usize,
            };
            replacement(m, query, text, caret).result(midway(lines, query, pieces, cs, l, r))
                == midway(lines, query, pieces, cs, l, r - 1)
        }),
{
    let pieces = split_lines(text);
    lemma_join_split(text);
    let line = lines[l];
    let cols = line_matches(line, query, cs, 0);
    let c = cols[r - 1];
    let x = c + query.len();
    lemma_behind(line, query, cs, r);
    lemma_behind(line, query, cs, r - 1);
    lemma_line_match_stands(line, query, cs, 0, r - 1);
    assert(line.len() <= usize::MAX);
    let m = SearchMatch { line: l as usize, col: c as usize };
    let edit = replacement(m, query, text, caret);
    let rows = replaced_rows(line, query, pieces, cs, x);
    lemma_rows_nonempty(line, query, pieces, cs, x);
    let rest = replaced_lines(lines, query, pieces, cs, l + 1);
    let t = midway(lines, query, pieces, cs, l, r);
    let mid = chained(seq![line.take(x)], rows);
    assert(t[l] == mid[0]);
    assert(mid[0] == line.take(x) + rows[0]);
    assert(t[l].take(c) =~= line.take(c));
    assert(t[l].skip(x) =~= rows[0]);
    assert(t.take(l) =~= lines.take(l));
    assert(t.skip(l + 1) =~= rows.skip(1) + rest);
    assert(edit.from(t) == (l, c));
    assert(edit.to(t) == (l, x));
    let done = chained(seq![line.take(c)], chained(pieces, rows));
    lemma_glued_chained(line.take(c), pieces, rows);
    assert(edit.result(t) =~= lines.take(l) + done + rest);
    assert(query.len() > 0);
    assert(chained(pieces, rows) == replaced_rows(line, query, pieces, cs, c));
    // Back to the match before, or to the start of the line.
    let y = behind(line, query, cs, r - 1);
    assert(line_matches(line, query, cs, y)[0] == c);
    lemma_line_match_stands(line, query, cs, y, 0);
    assert forall|d: int| y <= d < c implies !#[trigger] occurs_at(line, query, d, cs) by {
        lemma_first_match(line, query, cs, y, d);
    }
    lemma_rows_until(line, query, pieces, cs, y, c);
    let tail = replaced_rows(line, query, pieces, cs, c);
    lemma_rows_nonempty(line, query, pieces, cs, c);
    lemma_chained_rows(line.take(y), line.subrange(y, c), tail);
    assert(line.take(y) + line.subrange(y, c) =~= line.take(c));
}

/// The match before which `r` matches of the `l`-th line and all of the lines before it stand.
proof fn lemma_match_at(lines: Seq<Seq<char>>, query: Seq<char>, cs: bool, l: int, r: int)
    requires
        countable(lines),
        0 <= l < lines.len(),
        0 < r <= line_matches(lines[l], query, cs, 0).len(),
    ensures
        found_in(lines, query, cs, l).len() + r <= found(lines, query, cs).len(),
        found(lines, query, cs)[found_in(lines, query, cs, l).len() + r - 1] == (SearchMatch {
            line: l as usize,
            col: line_matches(lines[l], query, cs, 0)[r - 1] as usize,
        }),
{
    let head = found_in(lines, query, cs, l);
    let upto = found_in(lines, query, cs, l + 1);
    let all = found(lines, query, cs);
    lemma_found_prefix(lines, query, cs, l + 1, lines.len() as int);
    assert(upto == head + on_line(l, line_matches(lines[l], query, cs, 0)));
    assert(all.take(upto.len() as int)[head.len() + r - 1] == all[head.len() + r - 1]);
}

proof fn lemma_midway(
    lines: Seq<Seq<char>>,
    query: Seq<char>,
    text: Seq<char>,
    cs: bool,
    caret: Position,
    l: int,
    r: int,
)
    requires
        countable(lines),
        0 <= l < lines.len(),
        0 <= r <= line_matches(lines[l], query, cs, 0).len(),
    ensures
        ({
            let all = found(lines, query, cs);
            let left = found_in(lines, query, cs, l).len() + r;
            &&& left <= all.len()
            &&& run_all(
                replacements(all, query, text, caret).take(all.len() - left),
                lines,
                caret,
            ).lines == midway(lines, query, split_lines(text), cs, l, r)
        }),
    decreases lines.len() - l, line_matches(lines[l], query, cs, 0).len() - r,
{
    let pieces = split_lines(text);
    lemma_join_split(text);
    let all = found(lines, query, cs);
    let edits = replacements(all, query, text, caret);
    let cols = line_matches(lines[l], query, cs, 0);
    let left = found_in(lines, query, cs, l).len() + r;
    if r < cols.len() {
        lemma_midway(lines, query, text, cs, caret, l, r + 1);
        lemma_midway_step(lines, query, text, cs, l, r + 1, caret);
        lemma_match_at(lines, query, cs, l, r + 1);
        let k = all.len() - left;
        assert(edits.take(k).drop_last() =~= edits.take(k - 1));
        assert(edits.take(k).last() == edits[k - 1]);
        assert(edits[k - 1] == replacement(all[left as int], query, text, caret));
    } else {
        lemma_found_prefix(lines, query, cs, l + 1, lines.len() as int);
        lemma_midway_line_start(lines, query, pieces, cs, l);
        if l + 1 < lines.len() {
            lemma_midway(lines, query, text, cs, caret, l + 1, 0);
            lemma_midway_line_done(lines, query, pieces, cs, l + 1);
        } else {
            assert(edits.take(0) =~= Seq::empty());
            assert(lines.take(l + 1) + Seq::<Seq<char>>::empty() =~= lines);
        }
    }
}

proof fn lemma_step_replace_all(e: Editor)
    ensures
        e.step(Message::ReplaceAll) == e.all_replaced(),
{
    reveal(Editor::search_step);
}

/// Replacing all matches replaces every match of every line, and nothing else.
pub proof fn law_replacing_all_replaces_every_match(e: Editor)
    requires
        e.buffer.len() > 0,
        countable(e.buffer),
    ensures
        e.step(Message::ReplaceAll).buffer == replaced_lines(
            e.buffer,
            e.search.query,
            split_lines(e.search.replace_with),
            e.search.case_sensitive,
            0,
        ),
{
    lemma_step_replace_all(e);
    let (lines, query, cs) = (e.buffer, e.search.query, e.search.case_sensitive);
    let text = e.search.replace_with;
    let caret = e.cursors.primary_cursor().position;
    let all = found(lines, query, cs);
    let edits = replacements(all, query, text, caret);
    lemma_join_split(text);
    lemma_midway(lines, query, text, cs, caret, 0, 0);
    lemma_midway_line_done(lines, query, split_lines(text), cs, 0);
    assert(edits.take(all.len() as int) =~= edits);
    let done = replaced_lines(lines, query, split_lines(text), cs, 0);
    assert(lines.take(0) + done =~= done);
}

} // verus!
