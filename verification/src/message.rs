//! What an editor is told, and what it asks for in return.
use vstd::prelude::*;

use crate::position::Position;

verus! {

/// Direction of an arrow key.
#[derive(Clone, Copy, Debug, PartialEq, Eq)]
pub enum ArrowDirection {
    Up,
    Down,
    Left,
    Right,
}

/// What the Tab key inserts.
#[derive(Clone, Copy, Debug, PartialEq, Eq)]
pub enum IndentStyle {
    /// This many spaces.
    Spaces(u8),
    /// One tab character.
    Tab,
}

/// A length in pixels: the bits of an `f32`. The editor keeps such lengths and hands them back;
/// it never calculates with them. No bits set means zero.
#[derive(Clone, Copy, Debug, PartialEq, Eq)]
pub struct Pixels {
    pub bits: u32,
}

/// The visible part of the text after a scroll, in pixels and in lines.
#[derive(Clone, Copy, Debug, PartialEq, Eq)]
pub struct ScrollViewport {
    /// Vertical offset.
    pub scroll: Pixels,
    pub height: Pixels,
    pub width: Pixels,
    /// Whole lines above the visible part.
    pub first_visible_line: usize,
    /// Lines that fit into the height; a part of a line counts as one.
    pub lines_in_view: usize,
    /// The offset differs from the former one by more than a tenth of a pixel.
    pub scroll_changed: bool,
    /// The height or the width differs from the former one by more than a pixel.
    pub size_changed: bool,
}

/// The horizontal offset after a scroll.
#[derive(Clone, Copy, Debug, PartialEq, Eq)]
pub struct HorizontalViewport {
    pub offset: Pixels,
    /// The offset differs from the former one by more than a tenth of a pixel.
    pub changed: bool,
}

/// An event of the editor. A mouse event holds the position of the text under the pointer, if
/// there is one.
#[derive(Clone, Debug)]
pub enum Message {
    /// A character was typed.
    CharacterInput(char),
    /// Tab was pressed.
    Tab,
    /// Enter was pressed.
    Enter,
    /// Backspace was pressed.
    Backspace,
    /// Delete was pressed.
    Delete,
    /// Shift+Delete was pressed.
    DeleteSelection,
    /// An arrow key was pressed, with Shift or without.
    ArrowKey(ArrowDirection, bool),
    /// Home was pressed, with Shift or without.
    Home(bool),
    /// End was pressed, with Shift or without.
    End(bool),
    /// Ctrl+Home was pressed.
    CtrlHome,
    /// Ctrl+End was pressed.
    CtrlEnd,
    /// Go to a line and a column.
    GotoPosition(usize, usize),
    /// Page Up was pressed.
    PageUp,
    /// Page Down was pressed.
    PageDown,
    /// The mouse was clicked.
    MouseClick(Option<Position>),
    /// The mouse was moved with its button held.
    MouseDrag(Option<Position>),
    /// The mouse was moved.
    MouseHover(Option<Position>),
    /// The mouse button was released.
    MouseRelease,
    /// Copy the selection.
    Copy,
    /// Paste a text; an empty one asks for the clipboard.
    Paste(String),
    /// Undo the latest entry of the history.
    Undo,
    /// Redo the entry that was undone last.
    Redo,
    /// Open the search dialog.
    OpenSearch,
    /// Open the search and replace dialog.
    OpenSearchReplace,
    /// Close the search dialog, or collapse the cursors.
    CloseSearch,
    /// The query was edited.
    SearchQueryChanged(String),
    /// The replacement was edited.
    ReplaceQueryChanged(String),
    /// Make case matter or not.
    ToggleCaseSensitive,
    /// Go to the next match.
    FindNext,
    /// Go to the previous match.
    FindPrevious,
    /// Replace the current match.
    ReplaceNext,
    /// Replace all matches.
    ReplaceAll,
    /// Tab was pressed in the search dialog.
    SearchDialogTab,
    /// Shift+Tab was pressed in the search dialog.
    SearchDialogShiftTab,
    /// Tab was pressed to leave the editor.
    FocusNavigationTab,
    /// Shift+Tab was pressed to leave the editor.
    FocusNavigationShiftTab,
    /// The canvas gained the focus.
    CanvasFocusGained,
    /// The canvas lost the focus.
    CanvasFocusLost,
    /// An input method was opened.
    ImeOpened,
    /// An input method shows a text that is not committed yet, with a range of bytes selected.
    ImePreedit(String, Option<std::ops::Range<usize>>),
    /// An input method committed a text.
    ImeCommit(String),
    /// An input method was closed.
    ImeClosed,
    /// Time to blink, perhaps.
    Tick,
    /// The text was scrolled.
    Scrolled(ScrollViewport),
    /// The text was scrolled sideways.
    HorizontalScrolled(HorizontalViewport),
    /// Ctrl+Click.
    JumpClick(Option<Position>),
    /// Alt+Click.
    AltClick(Option<Position>),
    /// Add a cursor on the line above.
    AddCursorAbove,
    /// Add a cursor on the line below.
    AddCursorBelow,
    /// Select the word, or add a cursor at the next occurrence of the selection.
    SelectNextOccurrence,
}

/// What is to be done outside the editor after an update.
#[derive(Clone, Debug, PartialEq, Eq)]
pub enum Action {
    /// Nothing is to be done.
    Nothing,
    /// Scroll until the primary cursor is visible.
    ScrollToCursor,
    /// Read the clipboard and paste what it holds.
    ReadClipboard,
    /// Put a text on the clipboard.
    WriteClipboard(String),
    /// Focus the search field.
    FocusSearchInput,
    /// Focus the replace field.
    FocusReplaceInput,
    /// Focus the search field and select all of it.
    FocusAndSelectSearchInput,
}

/// An action, with its text as characters.
pub enum Reply {
    Nothing,
    ScrollToCursor,
    ReadClipboard,
    WriteClipboard(Seq<char>),
    FocusSearchInput,
    FocusReplaceInput,
    FocusAndSelectSearchInput,
}

impl View for Action {
    type V = Reply;

    open spec fn view(&self) -> Reply {
        match self {
            Action::Nothing => Reply::Nothing,
            Action::ScrollToCursor => Reply::ScrollToCursor,
            Action::ReadClipboard => Reply::ReadClipboard,
            Action::WriteClipboard(text) => Reply::WriteClipboard(text@),
            Action::FocusSearchInput => Reply::FocusSearchInput,
            Action::FocusReplaceInput => Reply::FocusReplaceInput,
            Action::FocusAndSelectSearchInput => Reply::FocusAndSelectSearchInput,
        }
    }
}

} // verus!
