//! Laws of searching: what is found stands in the text, nothing is missed, and the dialog goes
//! round its matches.
use vstd::arithmetic::div_mod::lemma_fundamental_div_mod_converse;
use vstd::prelude::*;

use crate::editor::Editor;
use crate::message::Message;
use crate::multi_cursor::next_occurrence;
use crate::search::{
    found, found_in, limited, line_matches, occurs_at, on_line, MAX_MATCHES, Search, SearchMatch,
};
use crate::text_buffer::Spot;

verus! {

/// A match of a line stands there, and not before the column from which the line was searched.
pub(crate) proof fn lemma_line_match_stands(
    line: Seq<char>,
    query: Seq<char>,
    cs: bool,
    from: int,
    i: int,
)
    requires
        0 <= from,
        0 <= i < line_matches(line, query, cs, from).len(),
    ensures
        occurs_at(line, query, line_matches(line, query, cs, from)[i], cs),
        from <= line_matches(line, query, cs, from)[i],
    decreases line.len() - from,
{
    if occurs_at(line, query, from, cs) {
        if i > 0 {
            lemma_line_match_stands(line, query, cs, from + query.len(), i - 1);
        }
    } else {
        lemma_line_match_stands(line, query, cs, from + 1, i);
    }
}

/// The matches of a line come left to right, none overlapping another.
proof fn lemma_line_matches_apart(
    line: Seq<char>,
    query: Seq<char>,
    cs: bool,
    from: int,
    i: int,
    j: int,
)
    requires
        0 <= from,
        0 <= i < j < line_matches(line, query, cs, from).len(),
    ensures
        line_matches(line, query, cs, from)[i] + query.len() <= line_matches(
            line,
            query,
            cs,
            from,
        )[j],
    decreases line.len() - from,
{
    if occurs_at(line, query, from, cs) {
        if i > 0 {
            lemma_line_matches_apart(line, query, cs, from + query.len(), i - 1, j - 1);
        } else {
            lemma_line_match_stands(line, query, cs, from + query.len(), j - 1);
        }
    } else {
        lemma_line_matches_apart(line, query, cs, from + 1, i, j);
    }
}

/// Every occurrence on a line begins in a match.
proof fn lemma_line_match_covers(
    line: Seq<char>,
    query: Seq<char>,
    cs: bool,
    from: int,
    col: int,
) -> (i: int)
    requires
        query.len() > 0,
        0 <= from <= col,
        occurs_at(line, query, col, cs),
    ensures
        0 <= i < line_matches(line, query, cs, from).len(),
        line_matches(line, query, cs, from)[i] <= col < line_matches(line, query, cs, from)[i]
            + query.len(),
    decreases line.len() - from,
{
    if occurs_at(line, query, from, cs) {
        if col < from + query.len() {
            0
        } else {
            lemma_line_match_covers(line, query, cs, from + query.len(), col) + 1
        }
    } else {
        lemma_line_match_covers(line, query, cs, from + 1, col)
    }
}

/// The match stands on its line, in the text.
pub open spec fn stands(lines: Seq<Seq<char>>, query: Seq<char>, cs: bool, m: SearchMatch) -> bool {
    m.line < lines.len() && occurs_at(lines[m.line as int], query, m.col as int, cs)
}

/// The lines and columns of the text can be counted.
pub open spec fn countable(lines: Seq<Seq<char>>) -> bool {
    &&& lines.len() <= usize::MAX
    &&& forall|l: int| 0 <= l < lines.len() ==> (#[trigger] lines[l]).len() <= usize::MAX
}

/// The first match ends before the second starts.
pub open spec fn match_before(a: SearchMatch, b: SearchMatch, len: nat) -> bool {
    a.line < b.line || (a.line == b.line && a.col + len <= b.col)
}

proof fn lemma_found_in(lines: Seq<Seq<char>>, query: Seq<char>, cs: bool, n: int, i: int)
    requires
        countable(lines),
        0 <= n <= lines.len(),
        0 <= i < found_in(lines, query, cs, n).len(),
    ensures
        stands(lines, query, cs, found_in(lines, query, cs, n)[i]),
        found_in(lines, query, cs, n)[i].line < n,
    decreases n,
{
    let head = found_in(lines, query, cs, n - 1);
    if i < head.len() {
        lemma_found_in(lines, query, cs, n - 1, i);
    } else {
        let cols = line_matches(lines[n - 1], query, cs, 0);
        lemma_line_match_stands(lines[n - 1], query, cs, 0, i - head.len());
        let c = cols[i - head.len()];
        assert(lines[n - 1].len() <= usize::MAX);
        assert(on_line(n - 1, cols)[i - head.len()].col == c);
    }
}

/// Everything that is found stands in the text where it was found.
pub proof fn law_matches_stand_in_the_text(
    lines: Seq<Seq<char>>,
    query: Seq<char>,
    case_sensitive: bool,
    i: int,
)
    requires
        countable(lines),
        0 <= i < found(lines, query, case_sensitive).len(),
    ensures
        stands(lines, query, case_sensitive, found(lines, query, case_sensitive)[i]),
{
    lemma_found_in(lines, query, case_sensitive, lines.len() as int, i);
}

proof fn lemma_found_ordered(
    lines: Seq<Seq<char>>,
    query: Seq<char>,
    cs: bool,
    n: int,
    i: int,
    j: int,
)
    requires
        countable(lines),
        0 <= n <= lines.len(),
        0 <= i < j < found_in(lines, query, cs, n).len(),
    ensures
        match_before(
            found_in(lines, query, cs, n)[i],
            found_in(lines, query, cs, n)[j],
            query.len(),
        ),
    decreases n,
{
    let head = found_in(lines, query, cs, n - 1);
    let line = lines[n - 1];
    if j < head.len() {
        lemma_found_ordered(lines, query, cs, n - 1, i, j);
    } else if i < head.len() {
        lemma_found_in(lines, query, cs, n - 1, i);
    } else {
        lemma_line_matches_apart(line, query, cs, 0, i - head.len(), j - head.len());
        lemma_line_match_stands(line, query, cs, 0, i - head.len());
        lemma_line_match_stands(line, query, cs, 0, j - head.len());
        assert(lines[n - 1].len() <= usize::MAX);
    }
}

/// Matches come in document order, and none overlaps another.
pub proof fn law_matches_come_in_order(
    lines: Seq<Seq<char>>,
    query: Seq<char>,
    case_sensitive: bool,
    i: int,
    j: int,
)
    requires
        countable(lines),
        0 <= i < j < found(lines, query, case_sensitive).len(),
    ensures
        match_before(
            found(lines, query, case_sensitive)[i],
            found(lines, query, case_sensitive)[j],
            query.len(),
        ),
{
    lemma_found_ordered(lines, query, case_sensitive, lines.len() as int, i, j);
}

proof fn lemma_found_all(
    lines: Seq<Seq<char>>,
    query: Seq<char>,
    cs: bool,
    n: int,
    line: int,
    col: int,
) -> (i: int)
    requires
        countable(lines),
        query.len() > 0,
        0 <= line < n <= lines.len(),
        occurs_at(lines[line], query, col, cs),
    ensures
        0 <= i < found_in(lines, query, cs, n).len(),
        ({
            let m = found_in(lines, query, cs, n)[i];
            m.line == line && m.col <= col < m.col + query.len()
        }),
    decreases n,
{
    let head = found_in(lines, query, cs, n - 1);
    if line < n - 1 {
        lemma_found_all(lines, query, cs, n - 1, line, col)
    } else {
        let i = lemma_line_match_covers(lines[line], query, cs, 0, col);
        lemma_line_match_stands(lines[line], query, cs, 0, i);
        assert(lines[line].len() <= usize::MAX);
        head.len() + i
    }
}

/// No occurrence is missed: each one begins in a match.
pub proof fn law_no_occurrence_is_missed(
    lines: Seq<Seq<char>>,
    query: Seq<char>,
    case_sensitive: bool,
    line: int,
    col: int,
) -> (i: int)
    requires
        countable(lines),
        query.len() > 0,
        0 <= line < lines.len(),
        occurs_at(lines[line], query, col, case_sensitive),
    ensures
        0 <= i < found(lines, query, case_sensitive).len(),
        ({
            let m = found(lines, query, case_sensitive)[i];
            m.line == line && m.col <= col < m.col + query.len()
        }),
{
    lemma_found_all(lines, query, case_sensitive, lines.len() as int, line, col)
}

/// Another query, and case mattering or not, lead to the first match, if there is one.
pub proof fn law_a_new_search_starts_at_the_first_match(
    s: Search,
    query: Seq<char>,
    lines: Seq<Seq<char>>,
)
    ensures
        s.queried(query, lines).current == (if found(lines, query, s.case_sensitive).len() == 0 {
            None
        } else {
            Some(0int)
        }),
        s.toggled(lines).current == (if found(lines, s.query, !s.case_sensitive).len() == 0 {
            None
        } else {
            Some(0int)
        }),
{
}

/// The next match and the previous one undo each other.
pub proof fn law_next_and_previous_undo_each_other(s: Search)
    requires
        s.wf(),
        s.current is Some,
    ensures
        s.next().previous() == s,
        s.previous().next() == s,
{
    assert(s.next().previous() =~= s);
    assert(s.previous().next() =~= s);
}

impl Search {
    /// The match that is the current one after several steps to the next.
    pub open spec fn next_times(self, n: int) -> Search
        decreases n,
    {
        if n <= 0 {
            self
        } else {
            self.next_times(n - 1).next()
        }
    }
}

/// Going to the next match as often as there are matches comes round to the current one, and
/// passes all others.
pub proof fn law_next_goes_round_all_matches(s: Search, n: int)
    requires
        s.wf(),
        s.current is Some,
        0 <= n <= s.matches.len(),
    ensures
        s.next_times(n).matches == s.matches,
        s.next_times(n).current == Some(
            if s.current->0 + n < s.matches.len() {
                s.current->0 + n
            } else {
                s.current->0 + n - s.matches.len()
            },
        ),
        s.next_times(s.matches.len() as int).current == s.current,
    decreases s.matches.len() - n,
{
    lemma_next_times(s, n);
    lemma_next_times(s, s.matches.len() as int);
}

proof fn lemma_next_times(s: Search, n: int)
    requires
        s.wf(),
        s.current is Some,
        0 <= n <= s.matches.len(),
    ensures
        s.next_times(n).matches == s.matches,
        s.next_times(n).current == Some(
            if s.current->0 + n < s.matches.len() {
                s.current->0 + n
            } else {
                s.current->0 + n - s.matches.len()
            },
        ),
    decreases n,
{
    if n > 0 {
        lemma_next_times(s, n - 1);
    }
}

impl Editor {
    /// The matches of the dialog are those of the present text, up to the limit of the dialog.
    pub open spec fn matches_are_current(self) -> bool {
        self.search.matches == limited(
            found(self.buffer, self.search.query, self.search.case_sensitive),
            Some(MAX_MATCHES),
        )
    }
}

/// While a query is being searched for, every message that edits the text leaves matches of the
/// present text, as long as it changed it. Replacing does so even with the dialog closed.
pub proof fn law_matches_follow_the_text(e: Editor, m: Message)
    requires
        m.may_change_text(),
        m.edits() ==> e.search.is_open && e.search.query.len() > 0,
        e.step(m).buffer != e.buffer,
    ensures
        e.step(m).matches_are_current(),
        e.step(m).search.query == e.search.query,
{
    if m.edits() {
        lemma_edit_finds(e, m);
    } else {
        lemma_replacing_finds(e, m);
    }
}

proof fn lemma_keys_find(e: Editor, ch: char)
    requires
        e.search.is_open,
        e.search.query.len() > 0,
    ensures
        e.typed(ch) == e || e.typed(ch).matches_are_current() && e.typed(ch).search.query
            == e.search.query,
        e.tabbed().matches_are_current() && e.tabbed().search.query == e.search.query,
        e.broken().matches_are_current() && e.broken().search.query == e.search.query,
        e.erased().matches_are_current() && e.erased().search.query == e.search.query,
        e.deleted().matches_are_current() && e.deleted().search.query == e.search.query,
{
}

proof fn lemma_others_find(e: Editor, text: Seq<char>)
    requires
        e.search.is_open,
        e.search.query.len() > 0,
    ensures
        ({
            let f = e.grouping_ended().cut_if_selected();
            f.buffer == e.buffer || f.matches_are_current() && f.search.query == e.search.query
        }),
        ({
            let f = e.paste_handled(text);
            f.buffer == e.buffer || f.matches_are_current() && f.search.query == e.search.query
        }),
        ({
            let f = e.committed(text);
            f.buffer == e.buffer || f.matches_are_current() && f.search.query == e.search.query
        }),
        e.undone().buffer == e.buffer || e.undone().matches_are_current()
            && e.undone().search.query == e.search.query,
        e.redone().buffer == e.buffer || e.redone().matches_are_current()
            && e.redone().search.query == e.search.query,
{
}

proof fn lemma_edit_finds(e: Editor, m: Message)
    requires
        e.search.is_open,
        e.search.query.len() > 0,
        e.edit_step(m).buffer != e.buffer,
    ensures
        e.edit_step(m).matches_are_current(),
        e.edit_step(m).search.query == e.search.query,
{
    reveal(Editor::edit_step);
    match m {
        Message::CharacterInput(ch) => lemma_keys_find(e, ch),
        Message::Tab => lemma_keys_find(e, ' '),
        Message::Enter => lemma_keys_find(e, ' '),
        Message::Backspace => lemma_keys_find(e, ' '),
        Message::Delete => lemma_keys_find(e, ' '),
        Message::Paste(text) => lemma_others_find(e, text@),
        Message::ImeCommit(text) => lemma_others_find(e, text@),
        _ => lemma_others_find(e, Seq::empty()),
    }
}

proof fn lemma_replacing_finds(e: Editor, m: Message)
    requires
        m is ReplaceNext || m is ReplaceAll,
        e.search_step(m).buffer != e.buffer,
    ensures
        e.search_step(m).matches_are_current(),
        e.search_step(m).search.query == e.search.query,
{
    reveal(Editor::search_step);
}

/// The first match of a line is the first occurrence from the column on from which it was
/// searched; without a match there is none.
pub(crate) proof fn lemma_first_match(
    line: Seq<char>,
    query: Seq<char>,
    cs: bool,
    from: int,
    col: int,
)
    requires
        query.len() > 0,
        0 <= from <= col,
        line_matches(line, query, cs, from).len() > 0 ==> col < line_matches(
            line,
            query,
            cs,
            from,
        )[0],
    ensures
        !occurs_at(line, query, col, cs),
{
    if occurs_at(line, query, col, cs) {
        let i = lemma_line_match_covers(line, query, cs, from, col);
        if i > 0 {
            lemma_line_matches_apart(line, query, cs, from, 0, i);
        }
    }
}

/// The column from which the `k`-th line is searched.
pub open spec fn search_column(start: Spot, k: int) -> int {
    if k == 0 {
        start.1
    } else {
        0
    }
}

/// Nothing is found on the lines that were searched before the `k`-th one.
pub open spec fn nothing_before(
    lines: Seq<Seq<char>>,
    text: Seq<char>,
    start: Spot,
    k: int,
) -> bool {
    forall|j: int, col: int|
        0 <= j < k && search_column(start, j) <= col ==> !#[trigger] occurs_at(
            lines[(start.0 + j) % (lines.len() as int)],
            text,
            col,
            true,
        )
}

proof fn lemma_next_occurrence(
    lines: Seq<Seq<char>>,
    text: Seq<char>,
    start: Spot,
    k: int,
) -> (found_on: int)
    requires
        lines.len() > 0,
        text.len() > 0,
        0 <= start.0,
        0 <= start.1,
        0 <= k <= lines.len() + 1,
        nothing_before(lines, text, start, k),
    ensures
        k <= found_on <= lines.len() + 1,
        nothing_before(lines, text, start, found_on),
        match next_occurrence(lines, text, start, k) {
            Some(p) => {
                &&& found_on <= lines.len()
                &&& p.0 == (start.0 + found_on) % (lines.len() as int)
                &&& occurs_at(lines[p.0], text, p.1, true)
                &&& search_column(start, found_on) <= p.1
                &&& forall|col: int|
                    search_column(start, found_on) <= col < p.1 ==> !#[trigger] occurs_at(
                        lines[p.0],
                        text,
                        col,
                        true,
                    )
            },
            None => found_on == lines.len() + 1,
        },
    decreases lines.len() + 1 - k,
{
    if k > lines.len() {
        k
    } else {
        let line = (start.0 + k) % (lines.len() as int);
        let from = search_column(start, k);
        let cols = line_matches(lines[line], text, true, from);
        if cols.len() > 0 {
            lemma_line_match_stands(lines[line], text, true, from, 0);
            assert forall|col: int| from <= col < cols[0] implies !#[trigger] occurs_at(
                lines[line],
                text,
                col,
                true,
            ) by {
                lemma_first_match(lines[line], text, true, from, col);
            }
            k
        } else {
            assert forall|j: int, col: int|
                0 <= j < k + 1 && search_column(start, j) <= col implies !#[trigger] occurs_at(
                lines[(start.0 + j) % (lines.len() as int)],
                text,
                col,
                true,
            ) by {
                if j == k {
                    lemma_first_match(lines[line], text, true, from, col);
                }
            }
            lemma_next_occurrence(lines, text, start, k + 1)
        }
    }
}

/// The next occurrence of a text is one, and it is the nearest: searching from the start on, and
/// after the last line from the first one again, nothing comes before it. The result tells on
/// which line, counted from that of the start, it was found.
pub proof fn law_the_next_occurrence_is_the_nearest(
    lines: Seq<Seq<char>>,
    text: Seq<char>,
    start: Spot,
) -> (k: int)
    requires
        lines.len() > 0,
        text.len() > 0,
        0 <= start.0,
        0 <= start.1,
        next_occurrence(lines, text, start, 0) is Some,
    ensures
        ({
            let p = next_occurrence(lines, text, start, 0)->0;
            &&& 0 <= k <= lines.len()
            &&& p.0 == (start.0 + k) % (lines.len() as int)
            &&& occurs_at(lines[p.0], text, p.1, true)
            &&& nothing_before(lines, text, start, k)
            &&& search_column(start, k) <= p.1
            &&& forall|col: int|
                search_column(start, k) <= col < p.1 ==> !#[trigger] occurs_at(
                    lines[p.0],
                    text,
                    col,
                    true,
                )
        }),
{
    lemma_next_occurrence(lines, text, start, 0)
}

/// A text that is found nowhere does not stand anywhere.
pub proof fn law_nothing_found_means_no_occurrence(
    lines: Seq<Seq<char>>,
    text: Seq<char>,
    start: Spot,
    line: int,
    col: int,
)
    requires
        text.len() > 0,
        0 <= start.0,
        0 <= start.1,
        next_occurrence(lines, text, start, 0) is None,
        0 <= line < lines.len(),
    ensures
        !occurs_at(lines[line], text, col, true),
{
    let n = lines.len() as int;
    lemma_next_occurrence(lines, text, start, 0);
    let r = start.0 % n;
    let k = if line > r {
        line - r
    } else {
        line - r + n
    };
    assert((start.0 + k) % n == line) by {
        let q = start.0 / n;
        assert(start.0 == q * n + r && 0 <= r < n) by (nonlinear_arith)
            requires
                n > 0,
                q == start.0 / n,
                r == start.0 % n,
        ;
        if line > r {
            assert(start.0 + k == q * n + line);
            lemma_fundamental_div_mod_converse(start.0 + k, n, q, line);
        } else {
            assert(start.0 + k == (q + 1) * n + line) by (nonlinear_arith)
                requires
                    start.0 == q * n + r,
                    k == line - r + n,
            ;
            lemma_fundamental_div_mod_converse(start.0 + k, n, q + 1, line);
        }
    }
    if occurs_at(lines[line], text, col, true) {
        assert(search_column(start, k) <= col);
        assert(!occurs_at(lines[(start.0 + k) % n], text, col, true));
    }
}

/// A limit keeps the first matches, as many as it allows; without one all matches are kept.
pub proof fn law_a_limit_keeps_the_first_matches(matches: Seq<SearchMatch>, n: usize)
    ensures
        limited(matches, None) == matches,
        matches.len() <= n ==> limited(matches, Some(n)) == matches,
        matches.len() > n ==> limited(matches, Some(n)).len() == n,
        forall|i: int|
            0 <= i < limited(matches, Some(n)).len() ==> #[trigger] limited(matches, Some(n))[i]
                == matches[i],
{
}

} // verus!
