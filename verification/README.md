# iced-code-editor

The editing core of a code editor for the Iced GUI framework, written in Verus: text, cursors,
selections, undo history, search and replace, clipboard, focus and the window of drawn lines. What
every message does to an editor is stated in contracts and proved.

- `src/` is the verified library. `CodeEditor::update` takes a message and returns the action that
  is to be performed outside; its contract is `Editor::step` and `Editor::reply`. The modules whose
  names end in `_laws` prove what holds of the editor as a whole: that the history always belongs to
  the text, that undo and redo take each other back, that typing reaches every caret, where every
  caret ends up, that replacing all matches replaces every match and nothing else, and more.
- `app/` is the widget around the library: it turns the events of Iced into messages, and actions
  into tasks. Lengths in pixels are calculated there.
- `tests/` runs the library on concrete texts.

The transitions that `Editor::step` is made of are opaque by group. A proof about a message reveals
the group that the message belongs to, such as `Editor::edit_step`.
