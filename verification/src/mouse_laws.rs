//! Laws of the mouse: a selection runs from where the button was pressed to where the pointer is.
use vstd::prelude::*;

use crate::cursor_laws::lemma_mouse_steps;
use crate::cursor_set::Cursor;
use crate::editor::Editor;
use crate::message::Message;
use crate::position::Position;

verus! {

/// The mouse was moved to a place of the text, with its button held or not.
pub open spec fn moves_to(m: Message, p: Position) -> bool {
    m == Message::MouseDrag(Some(p)) || m == Message::MouseHover(Some(p))
}

/// A click takes the focus, ends what was being typed, and leaves a single cursor, at which a
/// selection starts: where the text was clicked, or where the primary caret is if none was hit.
pub proof fn law_a_click_starts_a_selection(e: Editor, hit: Option<Position>)
    requires
        e.cursors.wf(),
    ensures
        ({
            let f = e.step(Message::MouseClick(hit));
            let p = match hit {
                Some(p) => p,
                None => e.cursors.list[e.cursors.primary].position,
            };
            &&& f.cursors.list == seq![Cursor { position: p, anchor: Some(p) }]
            &&& f.cursors.primary == 0
            &&& f.is_dragging
            &&& f.focus.is_focused
            &&& f.focus.has_canvas_focus
            &&& f.focus.show_cursor
            &&& f.focus.cursor_visible
            &&& f.focus.last_blink == e.focus.clock
            &&& !f.is_grouping
            &&& f.buffer == e.buffer
        }),
{
    lemma_mouse_steps(e, hit);
    let p = match hit {
        Some(p) => p,
        None => e.cursors.list[e.cursors.primary].position,
    };
    assert(e.clicked(hit).cursors.list =~= seq![Cursor { position: p, anchor: Some(p) }]);
}

/// While a selection is being made, moving the mouse to a place of the text takes the primary
/// caret there, whatever is selected already; the fixed end of the selection and all other
/// cursors stay. Otherwise moving the mouse changes nothing.
pub proof fn law_a_drag_moves_the_caret_alone(e: Editor, m: Message, p: Position)
    requires
        e.cursors.wf(),
        moves_to(m, p),
    ensures
        ({
            let f = e.step(m);
            let i = e.cursors.primary;
            &&& e.is_dragging ==> {
                &&& f.is_dragging
                &&& f.cursors.primary == i
                &&& f.cursors.list == e.cursors.list.update(
                    i,
                    Cursor { position: p, anchor: e.cursors.list[i].anchor },
                )
                &&& e.cursors.list[i].position != p ==> !f.caches.overlay_cache.valid
            }
            &&& !e.is_dragging ==> f == e
            &&& f.buffer == e.buffer
        }),
        e.step(Message::MouseDrag(None)) == e,
        e.step(Message::MouseHover(None)) == e,
{
    lemma_mouse_steps(e, Some(p));
    lemma_mouse_steps(e, None);
    let i = e.cursors.primary;
    let c = Cursor { position: p, anchor: e.cursors.list[i].anchor };
    if e.cursors.list[i].position == p {
        assert(e.cursors.list.update(i, c) =~= e.cursors.list);
    }
}

/// A selection that is being made follows the mouse all the way: after a click and any number of
/// movements it runs from where the mouse was clicked to where it was moved to last. When the
/// button is released it stays, or leaves a bare caret if it is empty; after that the mouse moves
/// without changing it.
pub proof fn law_a_selection_follows_the_mouse(
    e: Editor,
    from: Position,
    messages: Seq<Message>,
    path: Seq<Position>,
    later: Message,
    elsewhere: Position,
)
    requires
        e.cursors.wf(),
        messages.len() == path.len(),
        path.len() > 0,
        forall|i: int| 0 <= i < path.len() ==> moves_to(#[trigger] messages[i], path[i]),
        moves_to(later, elsewhere),
    ensures
        ({
            let f = e.step(Message::MouseClick(Some(from))).stepped(messages);
            let g = f.step(Message::MouseRelease);
            let to = path.last();
            &&& f.is_dragging
            &&& f.cursors.primary == 0
            &&& f.cursors.list == seq![Cursor { position: to, anchor: Some(from) }]
            &&& !g.is_dragging
            &&& g.cursors.primary == 0
            &&& to != from ==> g.cursors.list == f.cursors.list
            &&& to == from ==> g.cursors.list == seq![Cursor { position: to, anchor: None }]
            &&& g.step(later) == g
        }),
{
    let f0 = e.step(Message::MouseClick(Some(from)));
    law_a_click_starts_a_selection(e, Some(from));
    lemma_drags(f0, from, messages, path);
    let f = f0.stepped(messages);
    lemma_mouse_steps(f, None);
    let g = f.step(Message::MouseRelease);
    let to = path.last();
    assert(g.cursors.list =~= seq![
        Cursor {
            position: to,
            anchor: if to == from {
                None
            } else {
                Some(from)
            },
        },
    ]);
    law_a_drag_moves_the_caret_alone(g, later, elsewhere);
}

proof fn lemma_drags(f: Editor, from: Position, messages: Seq<Message>, path: Seq<Position>)
    requires
        f.is_dragging,
        f.cursors.primary == 0,
        f.cursors.list == seq![Cursor { position: from, anchor: Some(from) }],
        messages.len() == path.len(),
        forall|i: int| 0 <= i < path.len() ==> moves_to(#[trigger] messages[i], path[i]),
    ensures
        ({
            let g = f.stepped(messages);
            let to = if path.len() == 0 {
                from
            } else {
                path.last()
            };
            &&& g.is_dragging
            &&& g.cursors.primary == 0
            &&& g.cursors.list == seq![Cursor { position: to, anchor: Some(from) }]
        }),
    decreases path.len(),
{
    if path.len() > 0 {
        let n = path.len() - 1;
        assert forall|i: int| 0 <= i < n implies moves_to(
            #[trigger] messages.drop_last()[i],
            path.drop_last()[i],
        ) by {
            assert(moves_to(messages[i], path[i]));
        }
        lemma_drags(f, from, messages.drop_last(), path.drop_last());
        let h = f.stepped(messages.drop_last());
        assert(moves_to(messages[n], path[n]));
        law_a_drag_moves_the_caret_alone(h, messages[n], path[n]);
        assert(f.stepped(messages) == h.step(messages[n]));
        assert(f.stepped(messages).cursors.list =~= seq![
            Cursor { position: path[n], anchor: Some(from) },
        ]);
    }
}

} // verus!
