//! Laws of the search dialog: which places are found, where the caret goes, and what replacing does
//! to the text.
use vstd::prelude::*;

use crate::caret_laws::{
    lemma_front_kept, lemma_offset_order, lemma_same_offset, offset, same_before,
};
use crate::chars::lowercase;
use crate::command::run_all;
use crate::editor::Editor;
use crate::find_replace::{replacement, replacements};
use crate::flat_laws::{
    flat, law_an_offset_finds_its_character, law_lines_hold_their_text, lemma_flat_edit,
    lemma_flat_end,
};
use crate::message::{Message, Reply};
use crate::position::{before, Position};
use crate::search::{
    found, lemma_nothing_found, limited, Search, SearchFocusedField, SearchMatch, MAX_MATCHES,
};
use crate::search_laws::{
    countable, law_matches_come_in_order, law_matches_stand_in_the_text,
    law_no_occurrence_is_missed, stands,
};
use crate::spread_laws::lemma_same_earlier;
use crate::text_buffer::{end_of, lemma_join_split, spliced, split_lines, spot, valid, Spot};

verus! {

/// The text reads `query` from a place on: character by character the same, or the same in lower
/// case if case does not matter.
pub open spec fn reads(lines: Seq<Seq<char>>, p: Spot, query: Seq<char>, cs: bool) -> bool {
    &&& 0 <= p.0 < lines.len()
    &&& 0 <= p.1
    &&& p.1 + query.len() <= lines[p.0].len()
    &&& forall|i: int|
        0 <= i < query.len() ==> {
            let (a, b) = (lines[p.0][p.1 + i], #[trigger] query[i]);
            a == b || (!cs && lowercase(a) == lowercase(b))
        }
}

/// Where a match starts.
pub open spec fn place_of(m: SearchMatch) -> Position {
    (m.line, m.col)
}

/// The place lies in one of the matches.
pub open spec fn in_a_match(matches: Seq<SearchMatch>, p: Spot, len: nat) -> bool {
    exists|i: int|
        0 <= i < matches.len() && (#[trigger] matches[i]).line == p.0 && matches[i].col <= p.1
            < matches[i].col + len
}

/// The matches are the places where the text reads the query, from its start on: in document
/// order, none overlapping another, and each such place lies in one of them, up to the last match
/// if there are as many as the dialog keeps.
pub open spec fn lists_matches(
    lines: Seq<Seq<char>>,
    query: Seq<char>,
    cs: bool,
    matches: Seq<SearchMatch>,
) -> bool {
    &&& matches.len() <= MAX_MATCHES
    &&& forall|i: int|
        0 <= i < matches.len() ==> reads(lines, spot(place_of(#[trigger] matches[i])), query, cs)
    &&& forall|i: int, j: int|
        0 <= i < j < matches.len() ==> (#[trigger] matches[i]).line < (#[trigger] matches[j]).line
            || (matches[i].line == matches[j].line && matches[i].col + query.len()
            <= matches[j].col)
    &&& forall|p: Position|
        #[trigger] reads(lines, spot(p), query, cs) ==> matches.len() > 0 && !before(
            p,
            place_of(matches[0]),
        ) && (matches.len() < MAX_MATCHES || before(p, place_of(matches.last())) ==> in_a_match(
            matches,
            spot(p),
            query.len(),
        ))
}

/// What is found is what is to be listed.
proof fn lemma_lists_matches(lines: Seq<Seq<char>>, query: Seq<char>, cs: bool)
    requires
        countable(lines),
        query.len() > 0,
    ensures
        lists_matches(lines, query, cs, limited(found(lines, query, cs), Some(MAX_MATCHES))),
{
    let all = found(lines, query, cs);
    let matches = limited(all, Some(MAX_MATCHES));
    assert forall|i: int| 0 <= i < matches.len() implies reads(
        lines,
        spot(place_of(#[trigger] matches[i])),
        query,
        cs,
    ) by {
        law_matches_stand_in_the_text(lines, query, cs, i);
        assert(stands(lines, query, cs, all[i]));
        assert(matches[i] == all[i]);
    }
    assert forall|i: int, j: int| 0 <= i < j < matches.len() implies (
    #[trigger] matches[i]).line < (#[trigger] matches[j]).line || (matches[i].line
        == matches[j].line && matches[i].col + query.len() <= matches[j].col) by {
        law_matches_come_in_order(lines, query, cs, i, j);
        assert(matches[i] == all[i] && matches[j] == all[j]);
    }
    assert forall|p: Position| #[trigger] reads(lines, spot(p), query, cs) implies matches.len() > 0
        && !before(p, place_of(matches[0])) && (matches.len() < MAX_MATCHES || before(
        p,
        place_of(matches.last()),
    ) ==> in_a_match(matches, spot(p), query.len())) by {
        let i = law_no_occurrence_is_missed(lines, query, cs, p.0 as int, p.1 as int);
        if i > 0 {
            law_matches_come_in_order(lines, query, cs, 0, i);
        }
        if i < matches.len() {
            assert(matches[i].line == p.0);
        } else {
            law_matches_come_in_order(lines, query, cs, matches.len() - 1, i);
        }
    }
}

/// Something is found exactly if the text reads the query somewhere.
pub(crate) proof fn lemma_found_somewhere(lines: Seq<Seq<char>>, query: Seq<char>, cs: bool)
    requires
        countable(lines),
        query.len() > 0,
    ensures
        found(lines, query, cs).len() > 0 <==> exists|p: Position| #[trigger]
            reads(lines, spot(p), query, cs),
{
    let all = found(lines, query, cs);
    lemma_lists_matches(lines, query, cs);
    let matches = limited(all, Some(MAX_MATCHES));
    if all.len() > 0 {
        assert(reads(lines, spot(place_of(matches[0])), query, cs));
    }
}

/// What the messages of the input fields do.
proof fn lemma_field_steps(e: Editor, text: String)
    ensures
        e.step(Message::SearchQueryChanged(text)) == e.query_changed(text@),
        e.step(Message::ReplaceQueryChanged(text)) == e.replacement_changed(text@),
{
    reveal(Editor::search_step);
}

/// What the other messages of the dialog do.
proof fn lemma_search_steps(e: Editor)
    ensures
        e.step(Message::ToggleCaseSensitive) == e.case_toggled(),
        e.step(Message::FindNext) == e.next_found(),
        e.step(Message::FindPrevious) == e.previous_found(),
        e.step(Message::ReplaceNext) == e.next_replaced(),
        e.step(Message::ReplaceAll) == e.all_replaced(),
        e.step(Message::OpenSearch) == e.search_opened(false),
        e.step(Message::OpenSearchReplace) == e.search_opened(true),
        e.step(Message::CloseSearch) == e.search_closed(),
        e.step(Message::SearchDialogTab) == e.field_switched(),
        e.step(Message::SearchDialogShiftTab) == e.field_switched(),
{
    reveal(Editor::search_step);
}

impl Editor {
    /// The cursors are those of `e`, but the primary caret stands at `p`, and nothing is selected.
    pub open spec fn caret_went_to(self, e: Editor, p: Position) -> bool {
        &&& self.cursors.primary == e.cursors.primary
        &&& self.cursors.list.len() == e.cursors.list.len()
        &&& self.cursors.list[self.cursors.primary].position == p
        &&& forall|i: int|
            0 <= i < self.cursors.list.len() ==> (#[trigger] self.cursors.list[i]).anchor is None
                && (i != self.cursors.primary ==> self.cursors.list[i].position
                == e.cursors.list[i].position)
    }
}

/// A new query, and making case matter or not, search the whole text anew. The primary caret goes
/// to the first place where the text reads the query, and nothing is selected; if it reads it
/// nowhere, the cursors stay as they are. An empty query is found nowhere.
pub proof fn law_a_new_search_leads_to_its_first_match(e: Editor, query: String)
    requires
        e.cursors.wf(),
        countable(e.buffer),
    ensures
        ({
            let f = e.step(Message::SearchQueryChanged(query));
            &&& f.search.query == query@
            &&& f.search.case_sensitive == e.search.case_sensitive
            &&& f.buffer == e.buffer
            &&& query@.len() > 0 ==> search_begins(e, f)
            &&& query@.len() == 0 ==> f.search.matches.len() == 0 && f.cursors == e.cursors
        }),
        ({
            let f = e.step(Message::ToggleCaseSensitive);
            &&& f.search.query == e.search.query
            &&& f.search.case_sensitive != e.search.case_sensitive
            &&& f.buffer == e.buffer
            &&& e.search.query.len() > 0 ==> search_begins(e, f)
            &&& e.search.query.len() == 0 ==> f.search.matches.len() == 0 && f.cursors
                == e.cursors
        }),
{
    lemma_search_steps(e);
    lemma_field_steps(e, query);
    lemma_nothing_found(e.buffer, Seq::empty(), true, e.buffer.len() as int);
    lemma_nothing_found(e.buffer, Seq::empty(), false, e.buffer.len() as int);
    if query@.len() == 0 {
        assert(query@ =~= Seq::empty());
    }
    if e.search.query.len() == 0 {
        assert(e.search.query =~= Seq::empty());
    }
    if query@.len() > 0 {
        lemma_lists_matches(e.buffer, query@, e.search.case_sensitive);
        lemma_begins(e, e.query_changed(query@));
    }
    if e.search.query.len() > 0 {
        lemma_lists_matches(e.buffer, e.search.query, !e.search.case_sensitive);
        lemma_begins(e, e.case_toggled());
    }
}

/// The search of `f` has begun at its first match, in the text of `e`.
pub open spec fn search_begins(e: Editor, f: Editor) -> bool {
    let (query, cs) = (f.search.query, f.search.case_sensitive);
    &&& lists_matches(e.buffer, query, cs, f.search.matches)
    &&& f.search.matches.len() > 0 ==> {
        let p = f.cursors.list[f.cursors.primary].position;
        &&& f.search.current == Some(0int)
        &&& f.caret_went_to(e, p)
        &&& reads(e.buffer, spot(p), query, cs)
        &&& forall|q: Position| #[trigger] reads(e.buffer, spot(q), query, cs) ==> !before(q, p)
    }
    &&& f.search.matches.len() == 0 ==> f.search.current is None && f.cursors == e.cursors
}

proof fn lemma_begins(e: Editor, f: Editor)
    requires
        e.cursors.wf(),
        lists_matches(e.buffer, f.search.query, f.search.case_sensitive, f.search.matches),
        f.search.matches.len() > 0 ==> f.search.current == Some(0int) && f.cursors
            == e.caret_placed(place_of(f.search.matches[0])).cursors,
        f.search.matches.len() == 0 ==> f.search.current is None && f.cursors == e.cursors,
    ensures
        search_begins(e, f),
{
    if f.search.matches.len() > 0 {
        let m = f.search.matches[0];
        assert(reads(
            e.buffer,
            spot(place_of(f.search.matches[0])),
            f.search.query,
            f.search.case_sensitive,
        ));
    }
}

/// The next match comes after the current one, and after the last one the first; the previous
/// match the other way round. The primary caret goes to it, and nothing is selected. Without
/// matches nothing happens.
pub proof fn law_next_and_previous_lead_to_their_match(e: Editor)
    requires
        e.cursors.wf(),
        e.search.wf(),
    ensures
        ({
            let f = e.step(Message::FindNext);
            let n = e.search.matches.len();
            &&& f.buffer == e.buffer
            &&& f.search == (Search { current: f.search.current, ..e.search })
            &&& n == 0 ==> f.cursors == e.cursors && f.search == e.search
            &&& n > 0 ==> {
                let j = f.search.current->0;
                &&& f.search.current is Some
                &&& 0 <= j < n
                &&& f.caret_went_to(e, place_of(e.search.matches[j]))
                &&& e.search.current matches Some(i) ==> j == i + 1 || (j == 0 && i == n - 1)
                &&& e.search.current is None ==> j == 0
            }
        }),
        ({
            let f = e.step(Message::FindPrevious);
            let n = e.search.matches.len();
            &&& f.buffer == e.buffer
            &&& f.search == (Search { current: f.search.current, ..e.search })
            &&& n == 0 ==> f.cursors == e.cursors && f.search == e.search
            &&& n > 0 ==> {
                let j = f.search.current->0;
                &&& f.search.current is Some
                &&& 0 <= j < n
                &&& f.caret_went_to(e, place_of(e.search.matches[j]))
                &&& e.search.current matches Some(i) ==> j == i - 1 || (j == n - 1 && i == 0)
                &&& e.search.current is None ==> j == n - 1
            }
        }),
{
    lemma_search_steps(e);
}

/// Replacing the current match, whichever it is: the characters that the text reads the query
/// with, and no others, give way to the replacement. Then the match that has the same number in
/// the new text is the current one, the first one if there is none with that number; the primary
/// caret goes to it, or behind the replacement if no match is left. Without a current match
/// nothing happens.
pub proof fn law_replacing_replaces_the_current_match(e: Editor)
    requires
        e.wf(),
        countable(e.buffer),
        e.search.current matches Some(i) ==> reads(
            e.buffer,
            spot(place_of(e.search.matches[i])),
            e.search.query,
            e.search.case_sensitive,
        ),
    ensures
        ({
            let f = e.step(Message::ReplaceNext);
            &&& e.search.current is None ==> f.buffer == e.buffer && f.cursors == e.cursors
            &&& e.search.current matches Some(i) ==> {
                let s = spot(place_of(e.search.matches[i]));
                let o = offset(e.buffer, s);
                let n = e.search.query.len();
                &&& f.buffer == spliced(
                    e.buffer,
                    s,
                    (s.0, s.1 + n),
                    split_lines(e.search.replace_with),
                )
                &&& flat(f.buffer) == flat(e.buffer).take(o) + e.search.replace_with + flat(
                    e.buffer,
                ).skip(o + n)
                &&& f.search.current matches Some(j) ==> {
                    &&& 0 <= j < f.search.matches.len()
                    &&& j == i || (j == 0 && i >= f.search.matches.len())
                    &&& f.caret_went_to(e, place_of(f.search.matches[j]))
                }
                &&& f.search.current is None ==> {
                    let t = end_of(s, split_lines(e.search.replace_with));
                    &&& f.search.matches.len() == 0
                    &&& f.caret_went_to(e, (t.0 as usize, t.1 as usize))
                }
            }
        }),
{
    lemma_search_steps(e);
    if let Some(i) = e.search.current {
        let m = e.search.matches[i];
        let text = e.search.replace_with;
        let edit = replacement(m, e.search.query, text, e.cursors.primary_cursor().position);
        let s = spot(place_of(m));
        assert(e.buffer[m.line as int].len() <= usize::MAX);
        assert(edit.start == s && edit.end == (s.0, s.1 + e.search.query.len()));
        lemma_join_split(text);
        lemma_flat_edit(edit, e.buffer);
        law_lines_hold_their_text(e.buffer, text);
        assert(edit.from(e.buffer) == s);
        let g = e.search.updated(edit.result(e.buffer));
        assert(g.updated(edit.result(e.buffer)) == g);
    }
}

/// Replacing all matches leaves no cursor with a selection, and the matches listed are those of
/// the new text.
pub proof fn law_replacing_lists_the_matches_anew(e: Editor, m: Message)
    requires
        e.wf(),
        e.search.query.len() > 0,
        m is ReplaceNext || m is ReplaceAll,
        countable(e.step(m).buffer),
        e.step(m).buffer != e.buffer,
    ensures
        lists_matches(
            e.step(m).buffer,
            e.search.query,
            e.search.case_sensitive,
            e.step(m).search.matches,
        ),
        e.step(m).search.query == e.search.query,
        e.step(m).search.case_sensitive == e.search.case_sensitive,
        forall|i: int|
            0 <= i < e.step(m).cursors.list.len() ==> (#[trigger] e.step(
                m,
            ).cursors.list[i]).anchor is None,
{
    lemma_search_steps(e);
    lemma_lists_matches(e.step(m).buffer, e.search.query, e.search.case_sensitive);
}

/// Opening the dialog shows it, for replacing or not, and asks for the focus on the query, which
/// is selected. Nothing else happens.
pub proof fn law_the_dialog_opens(e: Editor)
    ensures
        ({
            let f = e.step(Message::OpenSearch);
            &&& f.search.is_open && !f.search.is_replace_mode
            &&& opened_only(e, f)
        }),
        ({
            let f = e.step(Message::OpenSearchReplace);
            &&& f.search.is_open && f.search.is_replace_mode
            &&& opened_only(e, f)
        }),
        e.reply(Message::OpenSearch) == Reply::FocusAndSelectSearchInput,
        e.reply(Message::OpenSearchReplace) == Reply::FocusAndSelectSearchInput,
{
    lemma_search_steps(e);
    reveal(Editor::search_reply);
}

/// Opening the dialog keeps its contents, the text and the cursors.
pub open spec fn opened_only(e: Editor, f: Editor) -> bool {
    &&& f.search.focused == SearchFocusedField::Search
    &&& f.search.query == e.search.query
    &&& f.search.replace_with == e.search.replace_with
    &&& f.search.case_sensitive == e.search.case_sensitive
    &&& f.search.matches == e.search.matches
    &&& f.search.current == e.search.current
    &&& f.buffer == e.buffer
    &&& f.cursors == e.cursors
    &&& f.history == e.history
}

/// Escape closes an open dialog and leaves the cursors alone. With the dialog closed it leaves
/// the primary cursor alone, as it is.
pub proof fn law_escape_leaves_the_primary_cursor(e: Editor)
    requires
        e.cursors.wf(),
    ensures
        ({
            let f = e.step(Message::CloseSearch);
            &&& !f.search.is_open
            &&& f.search == (Search { is_open: false, ..e.search })
            &&& f.buffer == e.buffer
            &&& f.history == e.history
            &&& e.search.is_open ==> f.cursors == e.cursors
            &&& !e.search.is_open ==> f.cursors.list == seq![e.cursors.list[e.cursors.primary]]
                && f.cursors.primary == 0
        }),
{
    lemma_search_steps(e);
    let f = e.step(Message::CloseSearch);
    if e.cursors.list.len() == 1 {
        assert(e.cursors.list =~= seq![e.cursors.list[0]]);
    }
}

/// Another replacement is kept, and nothing else happens. Tab and Shift+Tab change between the
/// two fields of the dialog, and ask for the focus on the other one.
pub proof fn law_the_fields_of_the_dialog(e: Editor, text: String)
    ensures
        ({
            let f = e.step(Message::ReplaceQueryChanged(text));
            &&& f.search == (Search { replace_with: text@, ..e.search })
            &&& f.buffer == e.buffer
            &&& f.cursors == e.cursors
        }),
        ({
            let f = e.step(Message::SearchDialogTab);
            &&& f.search.focused != e.search.focused
            &&& f.search == (Search { focused: f.search.focused, ..e.search })
            &&& f.buffer == e.buffer
            &&& f.cursors == e.cursors
            &&& e.step(Message::SearchDialogShiftTab) == f
            &&& e.reply(Message::SearchDialogTab) == (if f.search.focused
                == SearchFocusedField::Search {
                Reply::FocusSearchInput
            } else {
                Reply::FocusReplaceInput
            })
            &&& e.reply(Message::SearchDialogShiftTab) == e.reply(Message::SearchDialogTab)
        }),
{
    lemma_search_steps(e);
    lemma_field_steps(e, text);
    reveal(Editor::search_reply);
}

/// While matches are replaced from the last one to the first, the text up to the end of each match
/// that is left stays as it was.
proof fn lemma_matches_left(
    lines: Seq<Seq<char>>,
    query: Seq<char>,
    text: Seq<char>,
    cs: bool,
    caret: Position,
    k: int,
    i: int,
)
    requires
        countable(lines),
        query.len() > 0,
        0 <= k,
        0 <= i < found(lines, query, cs).len() - k,
    ensures
        ({
            let all = found(lines, query, cs);
            let h = run_all(replacements(all, query, text, caret).take(k), lines, caret).lines;
            let m = all[i];
            same_before(h, lines, (m.line as int, m.col + query.len()))
        }),
    decreases k,
{
    let all = found(lines, query, cs);
    let edits = replacements(all, query, text, caret);
    let n = all.len() as int;
    let m = all[i];
    let p: Spot = (m.line as int, m.col + query.len());
    law_matches_stand_in_the_text(lines, query, cs, i);
    if k == 0 {
        assert(edits.take(0) =~= Seq::empty());
    } else {
        lemma_matches_left(lines, query, text, cs, caret, k - 1, i);
        let j = n - k;
        lemma_matches_left(lines, query, text, cs, caret, k - 1, j);
        assert(edits.take(k).drop_last() =~= edits.take(k - 1));
        let h = run_all(edits.take(k - 1), lines, caret).lines;
        let edit = edits[k - 1];
        assert(edit == replacement(all[j], query, text, caret));
        law_matches_stand_in_the_text(lines, query, cs, j);
        law_matches_come_in_order(lines, query, cs, i, j);
        let s = spot(place_of(all[j]));
        let e: Spot = (s.0, s.1 + query.len());
        assert(lines[s.0].len() <= usize::MAX);
        assert(edit.start == s && edit.end == e);
        assert(edit.from(h) == s && edit.to(h) == e);
        lemma_join_split(text);
        lemma_front_kept(h, s, e, split_lines(text), p);
        let next = edit.result(h);
        assert forall|r: int| 0 <= r < p.0 implies #[trigger] next[r] == lines[r] by {
            assert(h[r] == lines[r]);
        }
    }
}

/// Replacing all matches leaves the primary caret behind the replacement of the first one, which
/// is `p`. (The characters of the new text must be countable.)
pub proof fn law_replacing_all_leaves_the_caret_behind_the_first(e: Editor, p: Position)
    requires
        e.wf(),
        countable(e.buffer),
        e.search.query.len() > 0,
        reads(e.buffer, spot(p), e.search.query, e.search.case_sensitive),
        forall|q: Position|
            #[trigger] reads(e.buffer, spot(q), e.search.query, e.search.case_sensitive)
                ==> !before(q, p),
        flat(e.step(Message::ReplaceAll).buffer).len() <= usize::MAX,
    ensures
        ({
            let f = e.step(Message::ReplaceAll);
            let now = f.cursors.list[f.cursors.primary].position;
            &&& f.caret_went_to(e, now)
            &&& valid(f.buffer, spot(now))
            &&& offset(f.buffer, spot(now)) == offset(e.buffer, spot(p))
                + e.search.replace_with.len()
        }),
{
    lemma_search_steps(e);
    let (lines, query, cs) = (e.buffer, e.search.query, e.search.case_sensitive);
    let text = e.search.replace_with;
    let caret = e.cursors.primary_cursor().position;
    let all = found(lines, query, cs);
    let edits = replacements(all, query, text, caret);
    lemma_found_somewhere(lines, query, cs);
    lemma_lists_matches(lines, query, cs);
    let first = limited(all, Some(MAX_MATCHES))[0];
    assert(reads(lines, spot(place_of(first)), query, cs));
    assert(place_of(first) == p);
    let n = all.len() as int;
    assert(edits.drop_last() =~= edits.take(n - 1));
    lemma_matches_left(lines, query, text, cs, caret, n - 1, 0);
    let head = run_all(edits.drop_last(), lines, caret).lines;
    let edit = edits.last();
    assert(edit == replacement(all[0], query, text, caret));
    let (s, t) = (spot(p), (p.0 as int, p.1 + query.len()));
    assert(lines[s.0].len() <= usize::MAX);
    assert(edit.start == s && edit.end == t);
    assert(edit.from(head) == s && edit.to(head) == t);
    lemma_same_earlier(head, lines, t, s);
    lemma_same_offset(head, lines, s);
    lemma_join_split(text);
    law_lines_hold_their_text(lines, text);
    lemma_flat_end(head, s, t, split_lines(text));
    let c = end_of(s, split_lines(text));
    lemma_offset_order(edit.result(head), c, c);
    law_an_offset_finds_its_character(edit.result(head), c);
}

} // verus!
