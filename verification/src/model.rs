//! The buffer as mathematics: lines are sequences of styled runs, the editor
//! is a document with a cursor, and a key press is a function between editors.

use vstd::prelude::*;

verus! {

/// How a run of text is painted.
#[derive(Clone, Copy, PartialEq, Eq, Debug, Structural)]
pub enum Style {
    /// Ordinary text.
    Normal,
    /// The cell under the cursor.
    Highlight,
}

/// One key press, as the widget understands it.
#[derive(Clone, Copy, PartialEq, Eq, Debug, Structural)]
pub enum Key {
    Char(char),
    Enter,
    Backspace,
    Delete,
    Left,
    Right,
    Up,
    Down,
    /// Any key the widget has no use for.
    Other,
}

/// A styled run of characters.
pub struct SpanView {
    pub content: Seq<char>,
    pub style: Style,
}

/// Where a column falls inside a line: which run, and how far into it.
pub struct LocationView {
    pub span: int,
    pub offset: int,
}

/// A document together with its cursor.
pub struct EditorView {
    pub lines: Seq<Seq<SpanView>>,
    pub x: int,
    pub y: int,
}

/// The widest line the cursor column can address.
pub open spec fn max_width() -> int {
    usize::MAX as int
}

/// Number of characters in a line.
pub open spec fn line_width(l: Seq<SpanView>) -> nat
    decreases l.len(),
{
    if l.len() == 0 {
        0
    } else {
        l[0].content.len() + line_width(l.drop_first())
    }
}

/// The characters of a line, run after run.
pub open spec fn line_text(l: Seq<SpanView>) -> Seq<char>
    decreases l.len(),
{
    if l.len() == 0 {
        Seq::empty()
    } else {
        l[0].content + line_text(l.drop_first())
    }
}

/// The run that holds column `x`, scanning from the left: the first run whose
/// end lies beyond `x`, or the end of the last run when there is none.
pub open spec fn locate(l: Seq<SpanView>, x: int) -> LocationView
    decreases l.len(),
{
    if l.len() == 0 {
        LocationView { span: 0, offset: 0 }
    } else if x < l[0].content.len() {
        LocationView { span: 0, offset: x }
    } else if l.len() == 1 {
        LocationView { span: 0, offset: l[0].content.len() as int }
    } else {
        let rest = locate(l.drop_first(), x - l[0].content.len());
        LocationView { span: rest.span + 1, offset: rest.offset }
    }
}

/// A line the editor can hold: at least one run, none of them highlighted,
/// and a width the cursor column can reach.
pub open spec fn line_ok(l: Seq<SpanView>) -> bool {
    &&& l.len() >= 1
    &&& line_width(l) <= max_width()
    &&& forall|j: int| 0 <= j < l.len() ==> (#[trigger] l[j]).style == Style::Normal
}

/// A document the editor can hold: at least one line, each of them in order.
pub open spec fn document_ok(lines: Seq<Seq<SpanView>>) -> bool {
    &&& lines.len() >= 1
    &&& forall|i: int| 0 <= i < lines.len() ==> line_ok(#[trigger] lines[i])
}

/// The cursor lies on a line of the document, at or before that line's end.
pub open spec fn editor_ok(s: EditorView) -> bool {
    &&& document_ok(s.lines)
    &&& 0 <= s.y < s.lines.len()
    &&& 0 <= s.x <= line_width(s.lines[s.y])
}

/// An offset pulled back into a run.
pub open spec fn clamp_offset(sp: SpanView, o: int) -> int {
    if o < 0 {
        0
    } else if o > sp.content.len() {
        sp.content.len() as int
    } else {
        o
    }
}

/// What stands before offset `o` of a run.
pub open spec fn split_left(sp: SpanView, o: int) -> SpanView {
    SpanView { content: sp.content.take(clamp_offset(sp, o)), style: sp.style }
}

/// What stands from offset `o` of a run on.
pub open spec fn split_right(sp: SpanView, o: int) -> SpanView {
    SpanView { content: sp.content.skip(clamp_offset(sp, o)), style: sp.style }
}

/// The one highlighted cell at offset `o`: the character there, or a space
/// where the run has ended.
pub open spec fn cursor_cell(sp: SpanView, o: int) -> SpanView {
    SpanView {
        content: if 0 <= o < sp.content.len() {
            seq![sp.content[o]]
        } else {
            seq![' ']
        },
        style: Style::Highlight,
    }
}

/// What stands behind the character at offset `o` of a run.
pub open spec fn after_cell(sp: SpanView, o: int) -> SpanView {
    SpanView {
        content: if 0 <= o < sp.content.len() {
            sp.content.skip(o + 1)
        } else {
            Seq::empty()
        },
        style: sp.style,
    }
}

/// The line with the content of run `i` replaced and its style kept.
pub open spec fn with_content(l: Seq<SpanView>, i: int, content: Seq<char>) -> Seq<SpanView> {
    l.update(i, SpanView { content, style: l[i].style })
}

/// The cursor put at `(x, y)`, pulled onto the nearest line and column that
/// the document has.
pub open spec fn place_cursor(lines: Seq<Seq<SpanView>>, x: int, y: int) -> EditorView {
    let row = if y < lines.len() {
        y
    } else {
        lines.len() - 1
    };
    let w = line_width(lines[row]);
    EditorView { lines, x: if x <= w { x } else { w as int }, y: row }
}

/// A single unstyled run.
pub open spec fn plain_line(content: Seq<char>) -> Seq<SpanView> {
    seq![SpanView { content, style: Style::Normal }]
}

/// The document made of the given rows, one run each; one empty row where
/// none is given.
pub open spec fn document_of(rows: Seq<Seq<char>>) -> Seq<Seq<SpanView>> {
    if rows.len() == 0 {
        seq![plain_line(Seq::empty())]
    } else {
        Seq::new(rows.len(), |i: int| plain_line(rows[i]))
    }
}

/// The line with `c` put in at column `x`: it enters the run that holds `x`.
pub open spec fn with_char(l: Seq<SpanView>, x: int, c: char) -> Seq<SpanView> {
    let loc = locate(l, x);
    with_content(l, loc.span, l[loc.span].content.insert(loc.offset, c))
}

/// The line without the character in column `x`: it leaves the run that
/// holds `x`.
pub open spec fn without_char(l: Seq<SpanView>, x: int) -> Seq<SpanView> {
    let loc = locate(l, x);
    with_content(l, loc.span, l[loc.span].content.remove(loc.offset))
}

/// Typing `c`: it enters the run under the cursor, and the cursor moves on.
/// A line that is already as wide as a column can count stays as it is.
pub open spec fn insert_char(s: EditorView, c: char) -> EditorView {
    let l = s.lines[s.y];
    if line_width(l) >= max_width() {
        s
    } else {
        EditorView { lines: s.lines.update(s.y, with_char(l, s.x, c)), x: s.x + 1, y: s.y }
    }
}

/// Enter: the line breaks at the cursor. The run under the cursor is cut in
/// two; what follows the cut opens a new line below. At the end of a line
/// the new line holds a single space.
pub open spec fn press_enter(s: EditorView) -> EditorView {
    let l = s.lines[s.y];
    let loc = locate(l, s.x);
    let sp = l[loc.span];
    if s.x >= line_width(l) {
        EditorView {
            lines: s.lines.insert(s.y + 1, seq![SpanView { content: seq![' '], style: sp.style }]),
            x: 0,
            y: s.y + 1,
        }
    } else {
        let before = l.take(loc.span).push(split_left(sp, loc.offset));
        let after = seq![split_right(sp, loc.offset)] + l.skip(loc.span + 1);
        EditorView { lines: s.lines.update(s.y, before).insert(s.y + 1, after), x: 0, y: s.y + 1 }
    }
}

/// Two neighbouring lines fit into one.
pub open spec fn can_join(a: Seq<SpanView>, b: Seq<SpanView>) -> bool {
    line_width(a) + line_width(b) <= max_width()
}

/// Lines `y` and `y + 1` made one.
pub open spec fn join_lines(lines: Seq<Seq<SpanView>>, y: int) -> Seq<Seq<SpanView>> {
    lines.update(y, lines[y] + lines[y + 1]).remove(y + 1)
}

/// Backspace: the character before the cursor goes; at the start of a line
/// the line joins the one above, and the cursor stands where they meet.
pub open spec fn press_backspace(s: EditorView) -> EditorView {
    let l = s.lines[s.y];
    if s.x > 0 {
        EditorView { lines: s.lines.update(s.y, without_char(l, s.x - 1)), x: s.x - 1, y: s.y }
    } else if s.y > 0 && can_join(s.lines[s.y - 1], l) {
        EditorView {
            lines: join_lines(s.lines, s.y - 1),
            x: line_width(s.lines[s.y - 1]) as int,
            y: s.y - 1,
        }
    } else {
        s
    }
}

/// Delete: the character under the cursor goes; at the end of a line the
/// line below joins it. The cursor stays.
pub open spec fn press_delete(s: EditorView) -> EditorView {
    let l = s.lines[s.y];
    if s.x < line_width(l) {
        EditorView { lines: s.lines.update(s.y, without_char(l, s.x)), x: s.x, y: s.y }
    } else if s.y + 1 < s.lines.len() && can_join(l, s.lines[s.y + 1]) {
        EditorView { lines: join_lines(s.lines, s.y), x: s.x, y: s.y }
    } else {
        s
    }
}

/// The cursor moved to row `y`, its column pulled in to that row's width.
pub open spec fn go_to_row(s: EditorView, y: int) -> EditorView {
    let w = line_width(s.lines[y]);
    EditorView { lines: s.lines, x: if s.x <= w { s.x } else { w as int }, y }
}

/// An arrow key: one step, never past an edge.
pub open spec fn move_cursor(s: EditorView, k: Key) -> EditorView {
    match k {
        Key::Left => if s.x > 0 {
            EditorView { lines: s.lines, x: s.x - 1, y: s.y }
        } else {
            s
        },
        Key::Right => if s.x < line_width(s.lines[s.y]) {
            EditorView { lines: s.lines, x: s.x + 1, y: s.y }
        } else {
            s
        },
        Key::Up => if s.y > 0 {
            go_to_row(s, s.y - 1)
        } else {
            s
        },
        Key::Down => if s.y + 1 < s.lines.len() {
            go_to_row(s, s.y + 1)
        } else {
            s
        },
        _ => s,
    }
}

/// The editor after one tick, with or without a key press.
pub open spec fn step(s: EditorView, key: Option<Key>) -> EditorView {
    match key {
        Some(Key::Char(c)) => insert_char(s, c),
        Some(Key::Enter) => press_enter(s),
        Some(Key::Backspace) => press_backspace(s),
        Some(Key::Delete) => press_delete(s),
        Some(Key::Other) => s,
        Some(k) => move_cursor(s, k),
        None => s,
    }
}

/// A line as it is painted with the cursor at column `x`: the run under the
/// cursor gives way to what precedes the cell, the cell, and what follows.
pub open spec fn render_line(l: Seq<SpanView>, x: int) -> Seq<SpanView> {
    let loc = locate(l, x);
    let sp = l[loc.span];
    l.take(loc.span) + seq![
        split_left(sp, loc.offset),
        cursor_cell(sp, loc.offset),
        after_cell(sp, loc.offset),
    ] + l.skip(loc.span + 1)
}

/// The document as it is painted: the cursor's line marked, the rest as is.
pub open spec fn render(s: EditorView) -> Seq<Seq<SpanView>> {
    s.lines.update(s.y, render_line(s.lines[s.y], s.x))
}

/// How many highlighted characters a painted line holds.
pub open spec fn highlighted_cells(l: Seq<SpanView>) -> nat
    decreases l.len(),
{
    if l.len() == 0 {
        0
    } else {
        (if l[0].style == Style::Highlight {
            l[0].content.len()
        } else {
            0
        }) + highlighted_cells(l.drop_first())
    }
}

} // verus!
