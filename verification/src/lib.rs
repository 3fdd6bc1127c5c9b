//! The editing core of a terminal text-entry widget: a styled, multi-line
//! buffer addressed by a (column, row) cursor.
//!
//! `model` holds the mathematical description of the buffer and of every key
//! press, `plain` the same editor with runs and styles forgotten. `line` and
//! `editor` hold the executable types, each proved to follow that
//! description; `source` breaks the initial text into rows; `laws` states
//! what holds of the model, from one key press to the next.

pub mod model;
pub mod plain;
pub mod laws;
pub mod line;
pub mod source;
pub mod editor;

pub use editor::{Cursor, Document, TextEdit};
pub use line::{Line, Location, Span};
pub use model::{Key, Style};
