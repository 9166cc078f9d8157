//! The laws of typing at several cursors: the text appears at every caret.
use vstd::prelude::*;

use crate::batch::Batch;
use crate::command::Edit;
use crate::cursor_set::{carets, Cursor};
use crate::editor::Editor;
use crate::key_laws::{carets_distinct, lemma_later_before};
use crate::message::{IndentStyle, Message};
use crate::order::{is_order, lemma_order_exists, lemma_order_lists_all, lemma_order_of_one};
use crate::position::{before, capped, Position};
use crate::text_buffer::{glued, spot, valid};

verus! {

/// The first `n` characters of a line, with `text` before each of them whose column is in `cols`.
pub open spec fn typed_prefix(line: Seq<char>, cols: Set<int>, text: Seq<char>, n: int) -> Seq<
    char,
>
    decreases n,
{
    if n <= 0 {
        Seq::empty()
    } else if cols.contains(n - 1) {
        (typed_prefix(line, cols, text, n - 1) + text).push(line[n - 1])
    } else {
        typed_prefix(line, cols, text, n - 1).push(line[n - 1])
    }
}

/// A line with `text` inserted at each column of `cols`.
pub open spec fn typed_line(line: Seq<char>, cols: Set<int>, text: Seq<char>) -> Seq<char> {
    let body = typed_prefix(line, cols, text, line.len() as int);
    if cols.contains(line.len() as int) {
        body + text
    } else {
        body
    }
}

/// The columns of the carets that stand on a line.
pub open spec fn caret_columns(list: Seq<Cursor>, line: int) -> Set<int> {
    Set::new(
        |c: int|
            exists|i: int|
                0 <= i < list.len() && spot((#[trigger] list[i]).position) == (line, c),
    )
}

/// Every cursor is a bare caret in the text, no two of them at the same place.
pub open spec fn bare_carets(lines: Seq<Seq<char>>, list: Seq<Cursor>) -> bool {
    &&& forall|i: int|
        0 <= i < list.len() ==> (#[trigger] list[i]).anchor is None && valid(
            lines,
            spot(list[i].position),
        )
    &&& carets_distinct(list)
}

/// The lines stay short enough for their columns to be counted when `size` characters are
/// inserted at every caret.
pub open spec fn room_for(lines: Seq<Seq<char>>, list: Seq<Cursor>, size: nat) -> bool {
    forall|l: int|
        0 <= l < lines.len() ==> (#[trigger] lines[l]).len() + list.len() * size <= usize::MAX
}

/// What the Tab key inserts.
pub open spec fn tab_text(style: IndentStyle) -> Seq<char> {
    match style {
        IndentStyle::Spaces(n) => Seq::new(n as nat, |i: int| ' '),
        IndentStyle::Tab => seq!['\t'],
    }
}

impl Editor {
    /// `text` was inserted at every caret, and nothing else happened to the text: each line has
    /// it at the column of every caret that stood on the line. Every caret ends up behind its
    /// own: behind what stood before it, with what was inserted there, and then `text`.
    pub open spec fn has_text_at_carets_of(self, e: Editor, text: Seq<char>) -> bool {
        &&& self.buffer.len() == e.buffer.len()
        &&& forall|l: int|
            0 <= l < e.buffer.len() ==> #[trigger] self.buffer[l] == typed_line(
                e.buffer[l],
                caret_columns(e.cursors.list, l),
                text,
            )
        &&& self.cursors.list.len() == e.cursors.list.len()
        &&& forall|i: int|
            0 <= i < e.cursors.list.len() ==> {
                let was = e.cursors.list[i].position;
                let now = (#[trigger] self.cursors.list[i]).position;
                let l = was.0 as int;
                let cols = caret_columns(e.cursors.list, l);
                &&& self.cursors.list[i].anchor is None
                &&& now.0 == was.0
                &&& now.1 == typed_prefix(e.buffer[l], cols, text, was.1 as int).len()
                    + text.len()
                &&& was.1 + text.len() <= now.1 <= self.buffer[l].len()
                &&& self.buffer[l].subrange(now.1 - text.len(), now.1 as int) == text
            }
    }
}

/// A line with `text` inserted at a column.
pub(crate) open spec fn with_text(line: Seq<char>, c: int, text: Seq<char>) -> Seq<char> {
    line.take(c) + text + line.skip(c)
}

/// Before the first column of `cols` a line is as it was.
pub(crate) proof fn lemma_prefix_plain(
    line: Seq<char>,
    cols: Set<int>,
    text: Seq<char>,
    c: int,
    n: int,
)
    requires
        0 <= n <= line.len(),
        n <= c + 1,
        forall|d: int| #[trigger] cols.contains(d) ==> d > c,
    ensures
        typed_prefix(line, cols, text, n) == line.take(n),
    decreases n,
{
    if n > 0 {
        lemma_prefix_plain(line, cols, text, c, n - 1);
        assert(line.take(n - 1).push(line[n - 1]) =~= line.take(n));
    } else {
        assert(line.take(0) =~= Seq::empty());
    }
}

/// One more column before all others is the text inserted there once more.
pub(crate) proof fn lemma_prefix_insert(
    line: Seq<char>,
    cols: Set<int>,
    text: Seq<char>,
    c: int,
    n: int,
)
    requires
        0 <= c < n <= line.len(),
        forall|d: int| #[trigger] cols.contains(d) ==> d > c,
    ensures
        typed_prefix(line, cols.insert(c), text, n) == with_text(
            typed_prefix(line, cols, text, n),
            c,
            text,
        ),
        typed_prefix(line, cols, text, n).len() >= n,
    decreases n,
{
    let more = cols.insert(c);
    if n == c + 1 {
        lemma_prefix_plain(line, cols, text, c, n);
        assert(typed_prefix(line, more, text, c) == line.take(c)) by {
            lemma_prefix_plain(line, more, text, c - 1, c);
        }
        assert((line.take(c) + text).push(line[c]) =~= with_text(line.take(n), c, text));
    } else {
        lemma_prefix_insert(line, cols, text, c, n - 1);
        let p = typed_prefix(line, cols, text, n - 1);
        let q = with_text(p, c, text);
        if cols.contains(n - 1) {
            assert((q + text).push(line[n - 1]) =~= with_text(
                (p + text).push(line[n - 1]),
                c,
                text,
            ));
        } else {
            assert(q.push(line[n - 1]) =~= with_text(p.push(line[n - 1]), c, text));
        }
    }
}

pub(crate) proof fn lemma_line_insert(line: Seq<char>, cols: Set<int>, text: Seq<char>, c: int)
    requires
        0 <= c <= line.len(),
        forall|d: int| #[trigger] cols.contains(d) ==> d > c,
    ensures
        typed_line(line, cols.insert(c), text) == with_text(typed_line(line, cols, text), c, text),
        typed_line(line, cols, text).len() >= line.len(),
{
    let n = line.len() as int;
    if c < n {
        lemma_prefix_insert(line, cols, text, c, n);
        let p = typed_prefix(line, cols, text, n);
        if cols.contains(n) {
            assert(with_text(p, c, text) + text =~= with_text(p + text, c, text));
        }
    } else {
        lemma_prefix_plain(line, cols, text, c, n);
        lemma_prefix_plain(line, cols.insert(c), text, c - 1, n);
        assert(line.take(n) =~= line);
        assert(line + text =~= with_text(line, c, text));
        assert(!cols.contains(n));
    }
}

/// Nothing typed.
pub(crate) proof fn lemma_line_untouched(line: Seq<char>, cols: Set<int>, text: Seq<char>)
    requires
        forall|d: int| !#[trigger] cols.contains(d),
    ensures
        typed_line(line, cols, text) == line,
{
    lemma_prefix_plain(line, cols, text, line.len() as int, line.len() as int);
    assert(line.take(line.len() as int) =~= line);
}

/// The columns on a line of the carets that come first in an order.
spec fn first_columns(list: Seq<Cursor>, order: Seq<usize>, k: int, line: int) -> Set<int> {
    Set::new(
        |c: int|
            exists|j: int|
                0 <= j < k && spot(list[(#[trigger] order[j]) as int].position) == (line, c),
    )
}

/// A text was inserted at one caret, which ends up behind it; the carets behind it on the same
/// line move along.
spec fn inserted_at_one(h: Batch, idx: int, text: Seq<char>, b: Batch) -> bool {
    let pos = h.list[idx].position;
    &&& b.lines == h.lines.update(
        pos.0 as int,
        with_text(h.lines[pos.0 as int], pos.1 as int, text),
    )
    &&& b.list.len() == h.list.len()
    &&& b.list[idx] == Cursor { position: (pos.0, (pos.1 + text.len()) as usize), anchor: None }
    &&& others_follow(h.list, idx, pos, text.len() as int, b.list)
}

/// The bare carets other than `idx` moved by `n` columns where they stand behind `pos` on the
/// same line.
spec fn others_follow(
    list: Seq<Cursor>,
    idx: int,
    pos: Position,
    n: int,
    next: Seq<Cursor>,
) -> bool {
    forall|j: int|
        0 <= j < list.len() && j != idx && list[j].anchor is None ==> #[trigger] next[j]
            == follower(list[j], pos, n)
}

/// A bare caret after `n` characters were inserted at `pos`.
spec fn follower(c: Cursor, pos: Position, n: int) -> Cursor {
    Cursor {
        position: if c.position.0 == pos.0 && c.position.1 >= pos.1 {
            (c.position.0, capped(c.position.1 + n))
        } else {
            c.position
        },
        anchor: None,
    }
}

/// How far the insertion has come after the first `k` carets of the order.
spec fn typed_so_far(
    lines: Seq<Seq<char>>,
    list: Seq<Cursor>,
    order: Seq<usize>,
    k: int,
    text: Seq<char>,
    b: Batch,
) -> bool {
    &&& b.lines.len() == lines.len()
    &&& b.list.len() == list.len()
    &&& forall|l: int|
        0 <= l < lines.len() ==> #[trigger] b.lines[l] == typed_line(
            lines[l],
            first_columns(list, order, k, l),
            text,
        )
    &&& forall|l: int|
        0 <= l < lines.len() ==> lines[l].len() <= (#[trigger] b.lines[l]).len()
            <= lines[l].len() + k * text.len()
    &&& forall|j: int|
        k <= j < order.len() ==> b.list[(#[trigger] order[j]) as int] == list[order[j] as int]
    &&& forall|j: int|
        0 <= j < k ==> follows_its_text(
            lines,
            first_columns(list, order, k, list[(#[trigger] order[j]) as int].position.0 as int),
            list[order[j] as int].position,
            text,
            b,
            b.list[order[j] as int],
        )
}

/// A caret that was at `was` stands behind the text that was inserted there.
spec fn follows_its_text(
    lines: Seq<Seq<char>>,
    cols: Set<int>,
    was: Position,
    text: Seq<char>,
    b: Batch,
    c: Cursor,
) -> bool {
    let l = was.0 as int;
    &&& c.anchor is None
    &&& c.position.0 == was.0
    &&& c.position.1 == typed_prefix(lines[l], cols, text, was.1 as int).len() + text.len()
    &&& was.1 + text.len() <= c.position.1 <= b.lines[l].len()
    &&& b.lines[l].subrange(c.position.1 - text.len(), c.position.1 as int) == text
}

/// Inserting a character into a text.
proof fn lemma_insert_char(lines: Seq<Seq<char>>, pos: Position, ch: char)
    requires
        valid(lines, spot(pos)),
    ensures
        ({
            let edit = Edit::replace(spot(pos), spot(pos), seq![seq![ch]], pos);
            &&& edit.result(lines) == lines.update(
                pos.0 as int,
                lines[pos.0 as int].insert(pos.1 as int, ch),
            )
            &&& edit.caret_after(lines) == (pos.0, (pos.1 + 1) as usize)
        }),
{
    let (l, c) = (pos.0 as int, pos.1 as int);
    let edit = Edit::replace(spot(pos), spot(pos), seq![seq![ch]], pos);
    let g = glued(lines[l].take(c), seq![seq![ch]], lines[l].skip(c));
    assert(g[0] =~= lines[l].insert(c, ch));
    assert(edit.result(lines) =~= lines.update(l, lines[l].insert(c, ch)));
}

/// Typing a character at one caret.
proof fn lemma_typed_at_one(h: Batch, idx: int, ch: char)
    requires
        0 <= idx < h.list.len(),
        h.list[idx].anchor is None,
        valid(h.lines, spot(h.list[idx].position)),
    ensures
        inserted_at_one(h, idx, seq![ch], h.typed_at(idx, ch)),
{
    let pos = h.list[idx].position;
    let line = h.lines[pos.0 as int];
    lemma_insert_char(h.lines, pos, ch);
    assert(line.insert(pos.1 as int, ch) =~= with_text(line, pos.1 as int, seq![ch]));
}

/// Inserting spaces from the column of a caret on.
proof fn lemma_spaces_at_one(h: Batch, idx: int, n: int)
    requires
        0 <= n,
        0 <= idx < h.list.len(),
        valid(h.lines, spot(h.list[idx].position)),
        h.lines[h.list[idx].position.0 as int].len() + n <= usize::MAX,
    ensures
        ({
            let pos = h.list[idx].position;
            let (b, c) = h.spaced(idx, pos.0, pos, n);
            &&& b.lines == h.lines.update(
                pos.0 as int,
                with_text(
                    h.lines[pos.0 as int],
                    pos.1 as int,
                    Seq::new(n as nat, |i: int| ' '),
                ),
            )
            &&& b.list.len() == h.list.len()
            &&& b.list[idx] == h.list[idx]
            &&& c == (pos.0, (pos.1 + n) as usize)
            &&& others_follow(h.list, idx, pos, n, b.list)
        }),
    decreases n,
{
    let pos = h.list[idx].position;
    let (l, c) = (pos.0 as int, pos.1 as int);
    let line = h.lines[l];
    let spaces = Seq::new(n as nat, |i: int| ' ');
    if n == 0 {
        assert(with_text(line, c, spaces) =~= line);
        assert(h.lines.update(l, line) =~= h.lines);
    } else {
        lemma_spaces_at_one(h, idx, n - 1);
        let fewer = Seq::new((n - 1) as nat, |i: int| ' ');
        let (a, d) = h.spaced(idx, pos.0, pos, n - 1);
        let b = h.spaced(idx, pos.0, pos, n).0;
        assert(a.lines[l] == with_text(line, c, fewer));
        lemma_insert_char(a.lines, d, ' ');
        assert(with_text(line, c, fewer).insert(c + n - 1, ' ') =~= with_text(line, c, spaces));
        assert(b.lines =~= h.lines.update(l, with_text(line, c, spaces)));
        assert forall|j: int|
            0 <= j < h.list.len() && j != idx && h.list[j].anchor is None implies
            #[trigger] b.list[j] == follower(h.list[j], pos, n) by {
            assert(a.list[j] == follower(h.list[j], pos, n - 1));
        }
    }
}

/// Tab at one caret.
proof fn lemma_tabbed_at_one(h: Batch, idx: int, style: IndentStyle)
    requires
        0 <= idx < h.list.len(),
        h.list[idx].anchor is None,
        valid(h.lines, spot(h.list[idx].position)),
        h.lines[h.list[idx].position.0 as int].len() + tab_text(style).len() <= usize::MAX,
    ensures
        inserted_at_one(h, idx, tab_text(style), h.tabbed_at(idx, style)),
{
    let pos = h.list[idx].position;
    match style {
        IndentStyle::Spaces(n) => {
            lemma_spaces_at_one(h, idx, n as int);
            let (b, c) = h.spaced(idx, pos.0, pos, n as int);
            let done = b.placed(idx, c);
            assert forall|j: int|
                0 <= j < h.list.len() && j != idx && h.list[j].anchor is None implies
                #[trigger] done.list[j] == follower(h.list[j], pos, n as int) by {
                assert(b.list[j] == follower(h.list[j], pos, n as int));
            }
        },
        IndentStyle::Tab => {
            let line = h.lines[pos.0 as int];
            lemma_insert_char(h.lines, pos, '\t');
            assert(line.insert(pos.1 as int, '\t') =~= with_text(line, pos.1 as int, seq!['\t']));
        },
    }
}

/// The text and the caret after Tab at one cursor, whatever it selects.
pub(crate) proof fn lemma_tabbed_lines(h: Batch, idx: int, style: IndentStyle)
    requires
        0 <= idx < h.list.len(),
        valid(h.lines, spot(h.list[idx].position)),
        h.lines[h.list[idx].position.0 as int].len() + tab_text(style).len() <= usize::MAX,
    ensures
        ({
            let pos = h.list[idx].position;
            let b = h.tabbed_at(idx, style);
            &&& b.lines == h.lines.update(
                pos.0 as int,
                with_text(h.lines[pos.0 as int], pos.1 as int, tab_text(style)),
            )
            &&& b.list.len() == h.list.len()
            &&& b.list[idx].position == (pos.0, (pos.1 + tab_text(style).len()) as usize)
        }),
{
    let pos = h.list[idx].position;
    match style {
        IndentStyle::Spaces(n) => lemma_spaces_at_one(h, idx, n as int),
        IndentStyle::Tab => {
            let line = h.lines[pos.0 as int];
            lemma_insert_char(h.lines, pos, '\t');
            assert(line.insert(pos.1 as int, '\t') =~= with_text(line, pos.1 as int, seq!['\t']));
        },
    }
}

/// Nothing inserted yet.
proof fn lemma_none_so_far(
    lines: Seq<Seq<char>>,
    list: Seq<Cursor>,
    order: Seq<usize>,
    text: Seq<char>,
)
    ensures
        typed_so_far(lines, list, order, 0, text, Batch::start(lines, list)),
{
    let start = Batch::start(lines, list);
    assert forall|l: int| 0 <= l < lines.len() implies #[trigger] start.lines[l] == typed_line(
        lines[l],
        first_columns(list, order, 0, l),
        text,
    ) by {
        lemma_line_untouched(lines[l], first_columns(list, order, 0, l), text);
    }
}

/// The columns on a line once the next caret of the order was served: its own is one more, before
/// all others.
proof fn lemma_columns_grow(list: Seq<Cursor>, order: Seq<usize>, k: int, l: int)
    requires
        carets_distinct(list),
        is_order(order, carets(list), true),
        0 < k <= order.len(),
    ensures
        ({
            let pos = list[order[k - 1] as int].position;
            let cols = first_columns(list, order, k - 1, l);
            let more = first_columns(list, order, k, l);
            &&& l == pos.0 ==> more == cols.insert(pos.1 as int)
            &&& l == pos.0 ==> forall|d: int| #[trigger] cols.contains(d) ==> d > pos.1
            &&& l != pos.0 ==> more == cols
        }),
{
    let pos = list[order[k - 1] as int].position;
    let cols = first_columns(list, order, k - 1, l);
    let more = first_columns(list, order, k, l);
    if l == pos.0 {
        let c = pos.1 as int;
        assert forall|d: int| more.contains(d) == cols.insert(c).contains(d) by {
            if d == c {
                assert(spot(list[order[k - 1] as int].position) == (l, d));
            }
        }
        assert(more =~= cols.insert(c));
        assert forall|d: int| #[trigger] cols.contains(d) implies d > c by {
            let j = choose|j: int|
                0 <= j < k - 1 && spot(list[(#[trigger] order[j]) as int].position) == (l, d);
            lemma_later_before(list, order, j, k - 1);
        }
    } else {
        assert forall|d: int| more.contains(d) == cols.contains(d) by {
            if more.contains(d) {
                let j = choose|j: int|
                    0 <= j < k && spot(list[(#[trigger] order[j]) as int].position) == (l, d);
                assert(j < k - 1);
            }
        }
        assert(more =~= cols);
    }
}

/// A caret that was served before keeps behind its text when the next one is served.
proof fn lemma_still_follows(
    lines: Seq<Seq<char>>,
    list: Seq<Cursor>,
    order: Seq<usize>,
    k: int,
    text: Seq<char>,
    h: Batch,
    b: Batch,
    j: int,
)
    requires
        bare_carets(lines, list),
        is_order(order, carets(list), true),
        0 <= j < k - 1,
        k <= order.len(),
        typed_so_far(lines, list, order, k - 1, text, h),
        inserted_at_one(h, order[k - 1] as int, text, b),
        forall|l: int|
            0 <= l < lines.len() ==> (#[trigger] h.lines[l]).len() + text.len() <= usize::MAX,
    ensures
        follows_its_text(
            lines,
            first_columns(list, order, k, list[order[j] as int].position.0 as int),
            list[order[j] as int].position,
            text,
            b,
            b.list[order[j] as int],
        ),
{
    let was = list[order[j] as int].position;
    let pos = list[order[k - 1] as int].position;
    let l = was.0 as int;
    let n = text.len() as int;
    assert(h.list[order[k - 1] as int] == list[order[k - 1] as int]);
    lemma_later_before(list, order, j, k - 1);
    lemma_columns_grow(list, order, k, l);
    assert(valid(lines, spot(list[order[j] as int].position)));
    let cols = first_columns(list, order, k - 1, l);
    let q = h.list[order[j] as int];
    assert(follows_its_text(lines, cols, was, text, h, q));
    assert(b.list[order[j] as int] == follower(q, pos, n));
    if was.0 == pos.0 {
        let c = pos.1 as int;
        assert(valid(lines, spot(list[order[k - 1] as int].position)));
        lemma_prefix_insert(lines[l], cols, text, c, was.1 as int);
        let to = q.position.1 as int;
        assert(h.lines[l].len() + n <= usize::MAX);
        assert(b.lines[l] == with_text(h.lines[l], c, text));
        assert(b.lines[l].subrange(to, to + n) =~= h.lines[l].subrange(to - n, to));
    }
}

/// Serving the next caret of the order.
proof fn lemma_one_more(
    lines: Seq<Seq<char>>,
    list: Seq<Cursor>,
    order: Seq<usize>,
    k: int,
    text: Seq<char>,
    h: Batch,
    b: Batch,
)
    requires
        bare_carets(lines, list),
        is_order(order, carets(list), true),
        0 < k <= order.len(),
        typed_so_far(lines, list, order, k - 1, text, h),
        inserted_at_one(h, order[k - 1] as int, text, b),
        forall|l: int|
            0 <= l < lines.len() ==> (#[trigger] h.lines[l]).len() + text.len() <= usize::MAX,
    ensures
        typed_so_far(lines, list, order, k, text, b),
{
    let idx = order[k - 1] as int;
    let pos = list[idx].position;
    let (l, c) = (pos.0 as int, pos.1 as int);
    assert(h.list[order[k - 1] as int] == list[order[k - 1] as int]);
    assert(valid(lines, spot(list[idx].position)));
    assert((k - 1) * text.len() + text.len() == k * text.len()) by (nonlinear_arith);
    assert forall|m: int| 0 <= m < lines.len() implies #[trigger] b.lines[m] == typed_line(
        lines[m],
        first_columns(list, order, k, m),
        text,
    ) && lines[m].len() <= b.lines[m].len() <= lines[m].len() + k * text.len() by {
        let cols = first_columns(list, order, k - 1, m);
        lemma_columns_grow(list, order, k, m);
        assert(h.lines[m] == typed_line(lines[m], cols, text));
        if m == l {
            lemma_line_insert(lines[m], cols, text, c);
        } else {
            assert(b.lines[m] == h.lines[m]);
        }
    }
    assert forall|j: int| k <= j < order.len() implies b.list[(#[trigger] order[j]) as int]
        == list[order[j] as int] by {
        lemma_later_before(list, order, k - 1, j);
        assert(h.list[order[j] as int] == list[order[j] as int]);
        assert(list[order[j] as int].anchor is None);
        assert(b.list[order[j] as int] == follower(
            h.list[order[j] as int],
            pos,
            text.len() as int,
        ));
    }
    assert forall|j: int| 0 <= j < k implies follows_its_text(
        lines,
        first_columns(list, order, k, list[(#[trigger] order[j]) as int].position.0 as int),
        list[order[j] as int].position,
        text,
        b,
        b.list[order[j] as int],
    ) by {
        if j < k - 1 {
            lemma_still_follows(lines, list, order, k, text, h, b, j);
        } else {
            let cols = first_columns(list, order, k, l);
            lemma_columns_grow(list, order, k, l);
            lemma_prefix_plain(lines[l], cols, text, c - 1, c);
            assert(h.lines[l].len() >= lines[l].len());
            assert(b.lines[l] == with_text(h.lines[l], c, text));
            assert(b.lines[l].subrange(c, c + text.len()) =~= text);
        }
    }
}

/// The line at the next caret still has room.
proof fn lemma_room_left(
    lines: Seq<Seq<char>>,
    list: Seq<Cursor>,
    order: Seq<usize>,
    k: int,
    text: Seq<char>,
    h: Batch,
)
    requires
        bare_carets(lines, list),
        is_order(order, carets(list), true),
        0 < k <= order.len(),
        room_for(lines, list, text.len()),
        typed_so_far(lines, list, order, k - 1, text, h),
    ensures
        forall|l: int|
            0 <= l < lines.len() ==> (#[trigger] h.lines[l]).len() + text.len() <= usize::MAX,
        h.list[order[k - 1] as int] == list[order[k - 1] as int],
        h.list[order[k - 1] as int].anchor is None,
        valid(h.lines, spot(h.list[order[k - 1] as int].position)),
{
    let n = text.len();
    assert((k - 1) * n + n <= list.len() * n) by (nonlinear_arith)
        requires
            k <= list.len(),
            n >= 0,
    ;
    assert forall|l: int| 0 <= l < lines.len() implies (#[trigger] h.lines[l]).len() + n
        <= usize::MAX by {
        assert(lines[l].len() + list.len() * n <= usize::MAX);
    }
    let pos = list[order[k - 1] as int].position;
    assert(valid(lines, spot(list[order[k - 1] as int].position)));
    assert(h.lines[pos.0 as int].len() >= lines[pos.0 as int].len());
}

proof fn lemma_typed_so_far(
    lines: Seq<Seq<char>>,
    list: Seq<Cursor>,
    order: Seq<usize>,
    k: int,
    ch: char,
)
    requires
        bare_carets(lines, list),
        is_order(order, carets(list), true),
        0 <= k <= order.len(),
        room_for(lines, list, 1),
    ensures
        typed_so_far(
            lines,
            list,
            order,
            k,
            seq![ch],
            Batch::start(lines, list).typed(order.take(k), ch),
        ),
    decreases k,
{
    let start = Batch::start(lines, list);
    if k == 0 {
        assert(order.take(0) =~= Seq::empty());
        lemma_none_so_far(lines, list, order, seq![ch]);
    } else {
        lemma_typed_so_far(lines, list, order, k - 1, ch);
        assert(order.take(k).drop_last() =~= order.take(k - 1));
        let h = start.typed(order.take(k - 1), ch);
        let b = start.typed(order.take(k), ch);
        assert(b == h.typed_at(order[k - 1] as int, ch));
        lemma_room_left(lines, list, order, k, seq![ch], h);
        lemma_typed_at_one(h, order[k - 1] as int, ch);
        lemma_one_more(lines, list, order, k, seq![ch], h, b);
    }
}

proof fn lemma_tabbed_so_far(
    lines: Seq<Seq<char>>,
    list: Seq<Cursor>,
    order: Seq<usize>,
    k: int,
    style: IndentStyle,
)
    requires
        bare_carets(lines, list),
        is_order(order, carets(list), true),
        0 <= k <= order.len(),
        room_for(lines, list, tab_text(style).len()),
    ensures
        typed_so_far(
            lines,
            list,
            order,
            k,
            tab_text(style),
            Batch::start(lines, list).tabbed(order.take(k), style),
        ),
    decreases k,
{
    let start = Batch::start(lines, list);
    let text = tab_text(style);
    if k == 0 {
        assert(order.take(0) =~= Seq::empty());
        lemma_none_so_far(lines, list, order, text);
    } else {
        lemma_tabbed_so_far(lines, list, order, k - 1, style);
        assert(order.take(k).drop_last() =~= order.take(k - 1));
        let h = start.tabbed(order.take(k - 1), style);
        let b = start.tabbed(order.take(k), style);
        assert(b == h.tabbed_at(order[k - 1] as int, style));
        lemma_room_left(lines, list, order, k, text, h);
        let pos = h.list[order[k - 1] as int].position;
        assert(h.lines[pos.0 as int].len() + text.len() <= usize::MAX);
        lemma_tabbed_at_one(h, order[k - 1] as int, style);
        lemma_one_more(lines, list, order, k, text, h, b);
    }
}

/// When every caret of the order was served, every caret was.
proof fn lemma_all_served(e: Editor, f: Editor, text: Seq<char>, b: Batch)
    requires
        e.cursors.list.len() <= usize::MAX,
        f.buffer == b.lines,
        f.cursors.list == b.list,
        typed_so_far(
            e.buffer,
            e.cursors.list,
            e.descending(),
            e.descending().len() as int,
            text,
            b,
        ),
    ensures
        f.has_text_at_carets_of(e, text),
{
    let (lines, list, order) = (e.buffer, e.cursors.list, e.descending());
    let n = order.len() as int;
    lemma_order_exists(carets(list), true);
    assert forall|l: int| #[trigger] caret_columns(list, l) == first_columns(
        list,
        order,
        n,
        l,
    ) by {
        let all = caret_columns(list, l);
        let listed = first_columns(list, order, n, l);
        assert forall|c: int| all.contains(c) == listed.contains(c) by {
            if all.contains(c) {
                let i = choose|i: int|
                    0 <= i < list.len() && spot((#[trigger] list[i]).position) == (l, c);
                lemma_order_lists_all(order, carets(list), true, i as usize);
                let j = choose|j: int| 0 <= j < order.len() && order[j] == i as usize;
                assert(spot(list[order[j] as int].position) == (l, c));
            }
            if listed.contains(c) {
                let j = choose|j: int|
                    0 <= j < n && spot(list[(#[trigger] order[j]) as int].position) == (l, c);
                assert(spot(list[order[j] as int].position) == (l, c));
            }
        }
        assert(all =~= listed);
    }
    assert forall|i: int| 0 <= i < list.len() implies {
        let was = list[i].position;
        let l = was.0 as int;
        follows_its_text(lines, caret_columns(list, l), was, text, b, #[trigger] b.list[i])
    } by {
        lemma_order_lists_all(order, carets(list), true, i as usize);
        let j = choose|j: int| 0 <= j < order.len() && order[j] == i as usize;
        let l = list[order[j] as int].position.0 as int;
        assert(caret_columns(list, l) == first_columns(list, order, n, l));
    }
}

/// Typing a character at bare carets, no two of them at the same place, inserts it at the column
/// of every caret, and every caret ends up behind its own character. (The lines must stay short
/// enough for their columns to be counted.)
pub proof fn law_typing_reaches_every_caret(e: Editor, ch: char)
    requires
        e.focused(),
        bare_carets(e.buffer, e.cursors.list),
        e.cursors.list.len() <= usize::MAX,
        room_for(e.buffer, e.cursors.list, 1),
    ensures
        e.step(Message::CharacterInput(ch)).has_text_at_carets_of(e, seq![ch]),
{
    let order = e.descending();
    lemma_order_exists(carets(e.cursors.list), true);
    lemma_typed_so_far(e.buffer, e.cursors.list, order, order.len() as int, ch);
    assert(order.take(order.len() as int) =~= order);
    lemma_typed_parts(e, ch);
    lemma_all_served(
        e,
        e.step(Message::CharacterInput(ch)),
        seq![ch],
        e.batch().typed(order, ch),
    );
}

/// Tab at bare carets, no two of them at the same place, inserts the indentation at the column of
/// every caret, and every caret ends up behind its own. (The lines must stay short enough for
/// their columns to be counted.)
pub proof fn law_tab_reaches_every_caret(e: Editor)
    requires
        bare_carets(e.buffer, e.cursors.list),
        e.cursors.list.len() <= usize::MAX,
        room_for(e.buffer, e.cursors.list, tab_text(e.indenting.style).len()),
    ensures
        e.step(Message::Tab).has_text_at_carets_of(e, tab_text(e.indenting.style)),
{
    let (order, style) = (e.descending(), e.indenting.style);
    lemma_order_exists(carets(e.cursors.list), true);
    lemma_tabbed_so_far(e.buffer, e.cursors.list, order, order.len() as int, style);
    assert(order.take(order.len() as int) =~= order);
    lemma_tabbed_parts(e);
    lemma_all_served(
        e,
        e.step(Message::Tab),
        tab_text(style),
        e.batch().tabbed(order, style),
    );
}

/// The text and the cursors after Tab.
pub(crate) proof fn lemma_tabbed_parts(e: Editor)
    ensures
        ({
            let b = e.batch().tabbed(e.descending(), e.indenting.style);
            let f = e.step(Message::Tab);
            f.buffer == b.lines && f.cursors.list == b.list
        }),
{
    reveal(Editor::edit_step);
    let g = e.grouping_started("Tab"@);
    assert(g.batch() == e.batch());
}

/// The text and the cursors after a character was typed.
pub(crate) proof fn lemma_typed_parts(e: Editor, ch: char)
    requires
        e.focused(),
    ensures
        ({
            let b = e.batch().typed(e.descending(), ch);
            let f = e.step(Message::CharacterInput(ch));
            f.buffer == b.lines && f.cursors.list == b.list
        }),
{
    reveal(Editor::edit_step);
    let g = e.grouping_started("Typing"@);
    assert(g.batch() == e.batch());
}

/// Typing a character at a single bare caret and pressing Backspace leaves the text, and the
/// caret, as they were.
pub proof fn law_backspace_takes_back_a_typed_character(e: Editor, ch: char)
    requires
        e.focused(),
        e.cursors.list.len() == 1,
        e.cursors.list[0].anchor is None,
        valid(e.buffer, spot(e.cursors.list[0].position)),
        e.cursors.list[0].position.1 < usize::MAX,
    ensures
        ({
            let f = e.step(Message::CharacterInput(ch)).step(Message::Backspace);
            f.buffer == e.buffer && f.cursors.list == e.cursors.list
        }),
{
    let pos = e.cursors.list[0].position;
    let (l, c) = (pos.0 as int, pos.1 as int);
    let f = e.step(Message::CharacterInput(ch));
    lemma_typed_parts(e, ch);
    lemma_order_of_one(carets(e.cursors.list), true);
    lemma_insert_char(e.buffer, pos, ch);
    let b = e.batch().typed(seq![0usize], ch);
    assert(seq![0usize].drop_last() =~= Seq::empty());
    assert(e.batch().typed(seq![0usize].drop_last(), ch) == e.batch());
    assert(b == e.batch().typed_at(0, ch));
    let after: Position = (pos.0, (pos.1 + 1) as usize);
    assert(f.cursors.list =~= seq![Cursor { position: after, anchor: None }]);
    let line = e.buffer[l].insert(c, ch);
    assert(f.buffer == e.buffer.update(l, line));
    assert(!f.cursors.any_selected());
    lemma_erased_parts(f);
    lemma_order_of_one(carets(f.cursors.list), true);
    let h = f.batch();
    assert(h.erased(seq![0usize].drop_last()) == h);
    assert(h.erased(seq![0usize]) == h.erased_at(0));
    let edit = Edit::replace((l, c), spot(after), seq![Seq::empty()], after);
    let g = glued(line.take(c), seq![Seq::empty()], line.skip(c + 1));
    assert(g[0] =~= e.buffer[l]);
    assert(edit.result(f.buffer) =~= e.buffer);
    assert(f.step(Message::Backspace).cursors.list =~= e.cursors.list);
}

/// The text and the cursors after Backspace without a selection.
proof fn lemma_erased_parts(e: Editor)
    requires
        !e.cursors.any_selected(),
    ensures
        ({
            let b = e.batch().erased(e.descending());
            let f = e.step(Message::Backspace);
            f.buffer == b.lines && f.cursors.list == b.list
        }),
{
    reveal(Editor::edit_step);
    let g = e.grouping_ended();
    assert(g.batch() == e.batch());
}

} // verus!
