//! The editing core of a multi-cursor code editor.
//!
//! An editor is told what happens by messages and asks for what is to be done in return. What each
//! message does is stated over a mathematical model of the editor, and proved.
//!
//! # Features
//!
//! - Text selection via mouse drag and keyboard, with any number of cursors
//! - Clipboard operations (copy, paste)
//! - Focus management for multiple editors
//! - Search and replace
//! - Undo and redo with a command history
//!
//! # Layout
//!
//! - [`text_buffer`], [`position`], [`order`], [`cursor_set`], [`command`], [`history`] and
//!   [`search`] are the parts of an editor.
//! - [`editor`] puts them together; [`message`] is what goes in and out.
//! - [`text_input`], [`deletion`], [`navigation`], [`mouse`], [`clipboard`], [`undo_redo`],
//!   [`find_replace`], [`focus`], [`viewport`] and [`multi_cursor`] handle the messages;
//!   [`batch`] and [`multi_edit`] edit at all cursors at once; [`update`] hands each message to
//!   its handler.
//! - The modules whose names end in `_laws` state what holds of the editor as a whole.
//! - [`wrapping`] finds places of the text on the rows of wrapped lines.
//! - [`syntax`] keeps the syntax definitions that all editors share.
use vstd::prelude::*;

pub mod batch;
pub mod caret_laws;
pub mod chars;
pub mod clipboard;
pub mod clipboard_laws;
pub mod command;
pub mod cursor_laws;
pub mod cursor_set;
pub mod deletion;
pub mod edit_laws;
pub mod editor;
pub mod entry_laws;
pub mod find_laws;
pub mod find_replace;
pub mod flat_laws;
pub mod focus;
pub mod frame_laws;
pub mod history;
pub mod history_laws;
pub mod key_laws;
pub mod message;
pub mod motion_laws;
pub mod mouse;
pub mod mouse_laws;
pub mod multi_cursor;
pub mod multi_cursor_laws;
pub mod multi_edit;
pub mod navigation;
pub mod navigation_laws;
pub mod order;
pub mod position;
pub mod replace_laws;
pub mod reply_laws;
pub mod save_laws;
pub mod search;
pub mod search_laws;
pub mod selection_laws;
pub mod spread_laws;
pub mod syntax;
pub mod text_buffer;
pub mod text_input;
pub mod text_laws;
pub mod typing_laws;
pub mod undo_laws;
pub mod undo_redo;
pub mod update;
pub mod view_laws;
pub mod viewport;
pub mod wrapping;

pub use crate::editor::CodeEditor;
pub use crate::history::CommandHistory;
pub use crate::message::{ArrowDirection, IndentStyle, Message};
pub use crate::syntax::set_syntax_set;

verus! {

} // verus!
