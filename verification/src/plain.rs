//! The editor seen as plain text: rows of characters and a cursor, with no
//! runs or styles. This is what a user of the widget reads off the screen.

use vstd::prelude::*;
use crate::model::{line_text, max_width, EditorView, Key, SpanView};

verus! {

/// Rows of characters together with a cursor.
pub struct PlainView {
    pub rows: Seq<Seq<char>>,
    pub x: int,
    pub y: int,
}

/// The text of each line of a document.
pub open spec fn document_text(lines: Seq<Seq<SpanView>>) -> Seq<Seq<char>> {
    lines.map_values(|l: Seq<SpanView>| line_text(l))
}

/// What is left of an editor when runs and styles are forgotten.
pub open spec fn flatten(s: EditorView) -> PlainView {
    PlainView { rows: document_text(s.lines), x: s.x, y: s.y }
}

/// The cursor moved to row `y`, its column pulled in to that row's length.
pub open spec fn plain_go_to_row(p: PlainView, y: int) -> PlainView {
    let w = p.rows[y].len();
    PlainView { rows: p.rows, x: if p.x <= w { p.x } else { w as int }, y }
}

/// One tick of a plain-text editor.
pub open spec fn plain_step(p: PlainView, key: Option<Key>) -> PlainView {
    let row = p.rows[p.y];
    match key {
        Some(Key::Char(c)) => if row.len() >= max_width() {
            p
        } else {
            PlainView { rows: p.rows.update(p.y, row.insert(p.x, c)), x: p.x + 1, y: p.y }
        },
        Some(Key::Enter) => if p.x >= row.len() {
            PlainView { rows: p.rows.insert(p.y + 1, seq![' ']), x: 0, y: p.y + 1 }
        } else {
            PlainView {
                rows: p.rows.update(p.y, row.take(p.x)).insert(p.y + 1, row.skip(p.x)),
                x: 0,
                y: p.y + 1,
            }
        },
        Some(Key::Backspace) => if p.x > 0 {
            PlainView { rows: p.rows.update(p.y, row.remove(p.x - 1)), x: p.x - 1, y: p.y }
        } else if p.y > 0 && p.rows[p.y - 1].len() + row.len() <= max_width() {
            PlainView {
                rows: p.rows.update(p.y - 1, p.rows[p.y - 1] + row).remove(p.y),
                x: p.rows[p.y - 1].len() as int,
                y: p.y - 1,
            }
        } else {
            p
        },
        Some(Key::Delete) => if p.x < row.len() {
            PlainView { rows: p.rows.update(p.y, row.remove(p.x)), x: p.x, y: p.y }
        } else if p.y + 1 < p.rows.len() && row.len() + p.rows[p.y + 1].len() <= max_width() {
            PlainView {
                rows: p.rows.update(p.y, row + p.rows[p.y + 1]).remove(p.y + 1),
                x: p.x,
                y: p.y,
            }
        } else {
            p
        },
        Some(Key::Left) => if p.x > 0 {
            PlainView { rows: p.rows, x: p.x - 1, y: p.y }
        } else {
            p
        },
        Some(Key::Right) => if p.x < row.len() {
            PlainView { rows: p.rows, x: p.x + 1, y: p.y }
        } else {
            p
        },
        Some(Key::Up) => if p.y > 0 {
            plain_go_to_row(p, p.y - 1)
        } else {
            p
        },
        Some(Key::Down) => if p.y + 1 < p.rows.len() {
            plain_go_to_row(p, p.y + 1)
        } else {
            p
        },
        Some(Key::Other) => p,
        None => p,
    }
}

} // verus!
