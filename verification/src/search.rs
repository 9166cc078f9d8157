//! Search: finding a query in a text, and the state of the search dialog.
use vstd::prelude::*;

use crate::chars::{is_same_char, same_char, str_chars};
use crate::text_buffer::TextBuffer;

verus! {

/// Matches that the dialog keeps at most.
pub const MAX_MATCHES: usize = 10000;

/// Where a match starts.
#[derive(Clone, Copy, Debug, PartialEq, Eq)]
pub struct SearchMatch {
    pub line: usize,
    pub col: usize,
}

/// The input field of the search dialog that has the focus.
#[derive(Clone, Copy, Debug, PartialEq, Eq)]
pub enum SearchFocusedField {
    Search,
    Replace,
}

/// `query` stands in `line` at column `col`.
pub open spec fn occurs_at(
    line: Seq<char>,
    query: Seq<char>,
    col: int,
    case_sensitive: bool,
) -> bool {
    &&& 0 <= col
    &&& col + query.len() <= line.len()
    &&& forall|i: int|
        0 <= i < query.len() ==> same_char(
            line[col + i],
            #[trigger] query[i],
            case_sensitive,
        )
}

/// The matches of one line from column `from` on, left to right, none overlapping another.
pub open spec fn line_matches(
    line: Seq<char>,
    query: Seq<char>,
    case_sensitive: bool,
    from: int,
) -> Seq<int>
    decreases line.len() - from,
{
    if query.len() == 0 || from < 0 || from + query.len() > line.len() {
        Seq::empty()
    } else if occurs_at(line, query, from, case_sensitive) {
        seq![from] + line_matches(line, query, case_sensitive, from + query.len())
    } else {
        line_matches(line, query, case_sensitive, from + 1)
    }
}

/// The matches at the given columns of a line.
pub open spec fn on_line(line: int, cols: Seq<int>) -> Seq<SearchMatch> {
    Seq::new(cols.len(), |i: int| SearchMatch { line: line as usize, col: cols[i] as usize })
}

/// The matches of the first `n` lines, in document order.
pub open spec fn found_in(
    lines: Seq<Seq<char>>,
    query: Seq<char>,
    case_sensitive: bool,
    n: int,
) -> Seq<SearchMatch>
    decreases n,
{
    if n <= 0 {
        Seq::empty()
    } else {
        found_in(lines, query, case_sensitive, n - 1) + on_line(
            n - 1,
            line_matches(lines[n - 1], query, case_sensitive, 0),
        )
    }
}

/// All matches of a text, in document order.
pub open spec fn found(lines: Seq<Seq<char>>, query: Seq<char>, case_sensitive: bool) -> Seq<
    SearchMatch,
> {
    found_in(lines, query, case_sensitive, lines.len() as int)
}

/// The first `limit` matches of a list; all of them without a limit.
pub open spec fn limited(matches: Seq<SearchMatch>, limit: Option<usize>) -> Seq<SearchMatch> {
    match limit {
        Some(n) if n < matches.len() => matches.take(n as int),
        _ => matches,
    }
}

/// The matches of the first lines come first.
pub proof fn lemma_found_prefix(
    lines: Seq<Seq<char>>,
    query: Seq<char>,
    case_sensitive: bool,
    m: int,
    n: int,
)
    requires
        0 <= m <= n,
    ensures
        found_in(lines, query, case_sensitive, m).len() <= found_in(
            lines,
            query,
            case_sensitive,
            n,
        ).len(),
        found_in(lines, query, case_sensitive, n).take(
            found_in(lines, query, case_sensitive, m).len() as int,
        ) == found_in(lines, query, case_sensitive, m),
    decreases n,
{
    let a = found_in(lines, query, case_sensitive, m);
    let b = found_in(lines, query, case_sensitive, n);
    if m < n {
        lemma_found_prefix(lines, query, case_sensitive, m, n - 1);
        let c = found_in(lines, query, case_sensitive, n - 1);
        assert(b.take(a.len() as int) =~= c.take(a.len() as int));
    } else {
        assert(b.take(a.len() as int) =~= a);
    }
}

/// Tells whether `query` stands in `line` at column `col`.
pub fn stands_at(line: &Vec<char>, query: &Vec<char>, col: usize, case_sensitive: bool) -> (r: bool)
    requires
        col + query@.len() <= line@.len(),
    ensures
        r == occurs_at(line@, query@, col as int, case_sensitive),
{
    let mut i: usize = 0;
    let len = line.len();
    while i < query.len()
        invariant
            i <= query@.len(),
            len == line@.len(),
            col + query@.len() <= len,
            forall|k: int|
                0 <= k < i ==> same_char(line@[col + k], #[trigger] query@[k], case_sensitive),
        decreases query@.len() - i,
    {
        if !is_same_char(line[col + i], query[i], case_sensitive) {
            assert(!same_char(line@[col + i], query@[i as int], case_sensitive));
            return false;
        }
        i += 1;
    }
    true
}

fn push_line_matches(
    out: &mut Vec<SearchMatch>,
    line: &Vec<char>,
    line_idx: usize,
    query: &Vec<char>,
    case_sensitive: bool,
)
    requires
        query@.len() > 0,
    ensures
        final(out)@ == old(out)@ + on_line(
            line_idx as int,
            line_matches(line@, query@, case_sensitive, 0),
        ),
{
    let ghost start = out@;
    let ghost all = line_matches(line@, query@, case_sensitive, 0);
    let mut from: usize = 0;
    assert(start + on_line(line_idx as int, all) =~= out@ + on_line(line_idx as int, all));
    while from <= line.len() && query.len() <= line.len() - from
        invariant
            query@.len() > 0,
            from <= line@.len(),
            start + on_line(line_idx as int, all) == out@ + on_line(
                line_idx as int,
                line_matches(line@, query@, case_sensitive, from as int),
            ),
        decreases line@.len() - from,
    {
        if stands_at(line, query, from, case_sensitive) {
            let ghost rest = line_matches(
                line@,
                query@,
                case_sensitive,
                from + query@.len(),
            );
            let ghost here = on_line(line_idx as int, seq![from as int] + rest);
            let ghost was = out@;
            out.push(SearchMatch { line: line_idx, col: from });
            assert(was + here =~= out@ + on_line(line_idx as int, rest));
            from = from + query.len();
        } else {
            from = from + 1;
        }
    }
    assert(out@ =~= out@ + on_line(line_idx as int, Seq::empty()));
}

/// Finds `query` in a text, from its start on, at most `limit` times. An empty query has no
/// matches.
pub fn find_matches(
    buffer: &TextBuffer,
    query: &str,
    case_sensitive: bool,
    limit: Option<usize>,
) -> (r: Vec<SearchMatch>)
    ensures
        r@ == limited(found(buffer@, query@, case_sensitive), limit),
{
    let chars = str_chars(query);
    let mut out: Vec<SearchMatch> = Vec::new();
    let count = buffer.line_count();
    if chars.len() == 0 {
        proof {
            lemma_nothing_found(buffer@, query@, case_sensitive, count as int);
        }
        assert(limited(found(buffer@, query@, case_sensitive), limit) =~= out@);
        return out;
    }
    let mut line: usize = 0;
    while line < count
        invariant
            line <= count,
            count == buffer@.len(),
            chars@ == query@,
            chars@.len() > 0,
            out@ == found_in(buffer@, query@, case_sensitive, line as int),
            limit matches Some(n) ==> line == 0 || out@.len() < n,
        decreases count - line,
    {
        let text = buffer.line_chars(line);
        push_line_matches(&mut out, &text, line, &chars, case_sensitive);
        line += 1;
        if let Some(n) = limit {
            if out.len() >= n {
                proof {
                    lemma_found_prefix(
                        buffer@,
                        query@,
                        case_sensitive,
                        line as int,
                        count as int,
                    );
                }
                let ghost all = found(buffer@, query@, case_sensitive);
                let ghost part = out@;
                assert(all.take(part.len() as int).take(n as int) =~= all.take(n as int));
                out.truncate(n);
                assert(out@ =~= part.take(n as int));
                assert(out@ =~= limited(all, limit));
                return out;
            }
        }
    }
    out
}

pub(crate) proof fn lemma_nothing_found(
    lines: Seq<Seq<char>>,
    query: Seq<char>,
    case_sensitive: bool,
    n: int,
)
    requires
        query.len() == 0,
    ensures
        found_in(lines, query, case_sensitive, n).len() == 0,
    decreases n,
{
    if n > 0 {
        lemma_nothing_found(lines, query, case_sensitive, n - 1);
    }
}

/// What the search dialog holds.
#[verifier::ext_equal]
pub struct Search {
    pub is_open: bool,
    pub is_replace_mode: bool,
    pub query: Seq<char>,
    pub replace_with: Seq<char>,
    pub case_sensitive: bool,
    pub matches: Seq<SearchMatch>,
    pub current: Option<int>,
    pub focused: SearchFocusedField,
}

impl Search {
    /// The current match is one of the matches.
    pub open spec fn wf(self) -> bool {
        self.current matches Some(i) ==> 0 <= i < self.matches.len()
    }

    /// A closed dialog.
    pub open spec fn closed_dialog() -> Search {
        Search {
            is_open: false,
            is_replace_mode: false,
            query: Seq::empty(),
            replace_with: Seq::empty(),
            case_sensitive: false,
            matches: Seq::empty(),
            current: None,
            focused: SearchFocusedField::Search,
        }
    }

    /// The current match.
    pub open spec fn current_match(self) -> Option<SearchMatch> {
        match self.current {
            Some(i) => Some(self.matches[i]),
            None => None,
        }
    }

    /// The matches found again in `lines`. The current match keeps its number; it is the first
    /// one where that number is gone, and none without matches.
    pub open spec fn updated(self, lines: Seq<Seq<char>>) -> Search {
        let matches = limited(
            found(lines, self.query, self.case_sensitive),
            Some(MAX_MATCHES),
        );
        Search {
            matches,
            current: if matches.len() == 0 {
                None
            } else {
                match self.current {
                    Some(i) if i < matches.len() => Some(i),
                    _ => Some(0),
                }
            },
            ..self
        }
    }

    /// Another query: the first match is the current one.
    pub open spec fn queried(self, query: Seq<char>, lines: Seq<Seq<char>>) -> Search {
        Search { query, current: None, ..self }.updated(lines)
    }

    /// The dialog opened, with the focus on the query.
    pub open spec fn opened(self, is_replace_mode: bool) -> Search {
        Search { is_open: true, is_replace_mode, focused: SearchFocusedField::Search, ..self }
    }

    /// Case matters now if it did not, and the other way round: the first match is the current
    /// one.
    pub open spec fn toggled(self, lines: Seq<Seq<char>>) -> Search {
        Search { case_sensitive: !self.case_sensitive, current: None, ..self }.updated(lines)
    }

    /// The next match is the current one; after the last comes the first.
    pub open spec fn next(self) -> Search {
        Search {
            current: if self.matches.len() == 0 {
                self.current
            } else {
                match self.current {
                    Some(i) if i + 1 < self.matches.len() => Some(i + 1),
                    _ => Some(0),
                }
            },
            ..self
        }
    }

    /// The previous match is the current one; before the first comes the last.
    pub open spec fn previous(self) -> Search {
        Search {
            current: if self.matches.len() == 0 {
                self.current
            } else {
                match self.current {
                    Some(i) if i > 0 => Some(i - 1),
                    _ => Some(self.matches.len() - 1),
                }
            },
            ..self
        }
    }
}

/// The state of the search dialog.
#[derive(Debug)]
pub struct SearchState {
    pub is_open: bool,
    pub is_replace_mode: bool,
    pub query: String,
    pub replace_with: String,
    pub case_sensitive: bool,
    pub matches: Vec<SearchMatch>,
    pub current_match_index: Option<usize>,
    pub focused_field: SearchFocusedField,
}

impl View for SearchState {
    type V = Search;

    open spec fn view(&self) -> Search {
        Search {
            is_open: self.is_open,
            is_replace_mode: self.is_replace_mode,
            query: self.query@,
            replace_with: self.replace_with@,
            case_sensitive: self.case_sensitive,
            matches: self.matches@,
            current: match self.current_match_index {
                Some(i) => Some(i as int),
                None => None,
            },
            focused: self.focused_field,
        }
    }
}

impl SearchState {
    /// The current match is one of the matches.
    pub open spec fn wf(self) -> bool {
        self@.wf()
    }

    /// A closed dialog.
    pub fn new() -> (r: Self)
        ensures
            r@ == Search::closed_dialog(),
            r.wf(),
    {
        let r = SearchState {
            is_open: false,
            is_replace_mode: false,
            query: String::new(),
            replace_with: String::new(),
            case_sensitive: false,
            matches: Vec::new(),
            current_match_index: None,
            focused_field: SearchFocusedField::Search,
        };
        proof {
            reveal_strlit("");
        }
        assert(r@ =~= Search::closed_dialog());
        r
    }

    /// Opens the dialog for searching.
    pub fn open_search(&mut self)
        ensures
            final(self)@ == old(self)@.opened(false),
    {
        self.is_open = true;
        self.is_replace_mode = false;
        self.focused_field = SearchFocusedField::Search;
    }

    /// Opens the dialog for searching and replacing.
    pub fn open_replace(&mut self)
        ensures
            final(self)@ == old(self)@.opened(true),
    {
        self.is_open = true;
        self.is_replace_mode = true;
        self.focused_field = SearchFocusedField::Search;
    }

    /// Closes the dialog.
    pub fn close(&mut self)
        ensures
            final(self)@ == (Search { is_open: false, ..old(self)@ }),
    {
        self.is_open = false;
    }

    /// The current match.
    pub fn current_match(&self) -> (r: Option<SearchMatch>)
        requires
            self.wf(),
        ensures
            r == self@.current_match(),
    {
        match self.current_match_index {
            Some(i) => Some(self.matches[i]),
            None => None,
        }
    }

    /// Finds the matches again.
    pub fn update_matches(&mut self, buffer: &TextBuffer)
        ensures
            final(self)@ == old(self)@.updated(buffer@),
            final(self).wf(),
    {
        self.matches = find_matches(
            buffer,
            self.query.as_str(),
            self.case_sensitive,
            Some(MAX_MATCHES),
        );
        self.current_match_index = if self.matches.len() == 0 {
            None
        } else {
            match self.current_match_index {
                Some(i) => if i < self.matches.len() {
                    Some(i)
                } else {
                    Some(0)
                },
                None => Some(0),
            }
        };
        assert(self@ =~= old(self)@.updated(buffer@));
    }

    /// Searches for another query.
    pub fn set_query(&mut self, query: String, buffer: &TextBuffer)
        ensures
            final(self)@ == old(self)@.queried(query@, buffer@),
            final(self).wf(),
    {
        self.query = query;
        self.current_match_index = None;
        assert(self@ =~= Search { query: query@, current: None, ..old(self)@ });
        self.update_matches(buffer);
    }

    /// Sets the text that replaces matches.
    pub fn set_replace_with(&mut self, text: String)
        ensures
            final(self)@ == (Search { replace_with: text@, ..old(self)@ }),
    {
        self.replace_with = text;
    }

    /// Makes case matter or not, and searches again.
    pub fn toggle_case_sensitive(&mut self, buffer: &TextBuffer)
        ensures
            final(self)@ == old(self)@.toggled(buffer@),
            final(self).wf(),
    {
        self.case_sensitive = !self.case_sensitive;
        self.current_match_index = None;
        assert(self@ =~= Search {
            case_sensitive: !old(self)@.case_sensitive,
            current: None,
            ..old(self)@
        });
        self.update_matches(buffer);
    }

    /// Goes to the next match.
    pub fn next_match(&mut self)
        requires
            old(self).wf(),
        ensures
            final(self)@ == old(self)@.next(),
            final(self).wf(),
    {
        if self.matches.len() > 0 {
            self.current_match_index = match self.current_match_index {
                Some(i) => if i < self.matches.len() - 1 {
                    Some((i + 1) as usize)
                } else {
                    Some(0)
                },
                None => Some(0),
            };
        }
        assert(self@ =~= old(self)@.next());
    }

    /// Goes to the previous match.
    pub fn previous_match(&mut self)
        requires
            old(self).wf(),
        ensures
            final(self)@ == old(self)@.previous(),
            final(self).wf(),
    {
        if self.matches.len() > 0 {
            let last = self.matches.len() - 1;
            self.current_match_index = match self.current_match_index {
                Some(i) => if i > 0 {
                    Some((i - 1) as usize)
                } else {
                    Some(last)
                },
                None => Some(last),
            };
        }
        assert(self@ =~= old(self)@.previous());
    }

    /// Moves the focus to the other input field.
    fn switch_field(&mut self)
        ensures
            final(self)@ == (Search { focused: other_field(old(self)@.focused), ..old(self)@ }),
    {
        self.focused_field = match self.focused_field {
            SearchFocusedField::Search => SearchFocusedField::Replace,
            SearchFocusedField::Replace => SearchFocusedField::Search,
        };
    }

    /// Cycles the focus forward: from the search to the replace field and back.
    pub fn focus_next_field(&mut self)
        ensures
            final(self)@ == (Search { focused: other_field(old(self)@.focused), ..old(self)@ }),
    {
        self.switch_field();
    }

    /// Cycles the focus backward: from the replace to the search field and back.
    pub fn focus_previous_field(&mut self)
        ensures
            final(self)@ == (Search { focused: other_field(old(self)@.focused), ..old(self)@ }),
    {
        self.switch_field();
    }
}

/// The other input field.
pub open spec fn other_field(field: SearchFocusedField) -> SearchFocusedField {
    match field {
        SearchFocusedField::Search => SearchFocusedField::Replace,
        SearchFocusedField::Replace => SearchFocusedField::Search,
    }
}

} // verus!
