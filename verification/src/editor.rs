//! The document, the cursor and the widget that edits one with the other.

use vstd::prelude::*;
use crate::laws::{lemma_width_single, step_keeps_cursor_inside};
use crate::line::{copy_chars, Line, Span};
use crate::model::{
    can_join, document_of, document_ok, editor_ok, go_to_row, insert_char, join_lines, line_ok, line_width,
    move_cursor, place_cursor, plain_line, press_backspace, press_delete, press_enter, render,
    split_left, split_right, step, with_content, without_char, EditorView, Key, SpanView,
};
use crate::source::{raw_text_rows, rows_view, text_rows};

verus! {

/// The lines of a vector, each as the model sees it.
pub open spec fn lines_view(lines: Seq<Line>) -> Seq<Seq<SpanView>> {
    lines.map_values(|l: Line| l@)
}

/// The text being edited: one line at least, each with one run at least.
#[derive(Clone, Debug)]
pub struct Document {
    lines: Vec<Line>,
}

impl View for Document {
    type V = Seq<Seq<SpanView>>;

    closed spec fn view(&self) -> Seq<Seq<SpanView>> {
        lines_view(self.lines@)
    }
}

/// The insertion point: a column and a row.
#[derive(Clone, Copy, Debug, PartialEq, Eq)]
pub struct Cursor {
    pub x: usize,
    pub y: usize,
}

impl Document {
    /// What every document satisfies.
    pub open spec fn wf(&self) -> bool {
        document_ok(self@)
    }

    /// A document of one empty line.
    pub fn empty() -> (doc: Document)
        ensures
            doc.wf(),
            doc@ == document_of(Seq::empty()),
    {
        let mut lines: Vec<Line> = Vec::new();
        lines.push(Line::plain(Vec::new()));
        let doc = Document { lines };
        proof {
            lemma_width_single(plain_line(Seq::empty())[0]);
            assert(doc@ =~= document_of(Seq::empty()));
        }
        doc
    }

    /// The document whose lines are the given rows, one unstyled run each.
    /// Without rows it is a single empty line.
    pub fn from_rows(rows: &Vec<Vec<char>>) -> (doc: Document)
        ensures
            doc.wf(),
            doc@ == document_of(rows_view(rows@)),
    {
        let n = rows.len();
        if n == 0 {
            assert(rows_view(rows@) =~= Seq::empty());
            return Document::empty();
        }
        let mut lines: Vec<Line> = Vec::new();
        let mut i: usize = 0;
        while i < n
            invariant
                n == rows@.len(),
                i <= n,
                lines@.len() == i,
                forall|k: int|
                    0 <= k < i ==> (#[trigger] lines@[k])@ == plain_line(rows@[k]@)
                        && rows@[k]@.len() <= usize::MAX,
            decreases n - i,
        {
            let len = rows[i].len();
            let content = copy_chars(&rows[i], 0, len);
            assert(content@ =~= rows@[i as int]@);
            let line = Line::plain(content);
            let ghost before = lines@;
            lines.push(line);
            assert(forall|k: int| 0 <= k < i ==> lines@[k] == before[k]);
            assert(lines@[i as int] == line);
            assert(rows@[i as int]@.len() == len);
            i = i + 1;
        }
        let doc = Document { lines };
        proof {
            assert(doc@ =~= document_of(rows_view(rows@)));
            assert forall|k: int| 0 <= k < doc@.len() implies line_ok(#[trigger] doc@[k]) by {
                lemma_width_single(plain_line(rows@[k]@)[0]);
                assert(doc@[k] == doc.lines@[k]@);
            }
        }
        doc
    }

    /// Number of lines.
    pub fn line_count(&self) -> (n: usize)
        ensures
            n == self@.len(),
    {
        self.lines.len()
    }

    /// The line in row `y`, if the document has that many lines.
    pub fn line(&self, y: usize) -> (line: Option<&Line>)
        ensures
            line.is_some() == (y < self@.len()),
            line.is_some() ==> line.unwrap()@ == self@[y as int],
    {
        if y < self.lines.len() {
            Some(&self.lines[y])
        } else {
            None
        }
    }
}

/// The text-entry widget: a document and the cursor that edits it.
#[derive(Clone, Debug)]
pub struct TextEdit {
    doc: Document,
    cursor: Cursor,
}

impl View for TextEdit {
    type V = EditorView;

    closed spec fn view(&self) -> EditorView {
        EditorView { lines: self.doc@, x: self.cursor.x as int, y: self.cursor.y as int }
    }
}

impl Default for TextEdit {
    /// One empty line, the cursor at its start.
    fn default() -> (edit: TextEdit)
        ensures
            edit.wf(),
            edit@ == (EditorView { lines: document_of(Seq::empty()), x: 0, y: 0 }),
    {
        TextEdit { doc: Document::empty(), cursor: Cursor { x: 0, y: 0 } }
    }
}

/// The cursor nearest to `(x, y)` that the document has a place for.
fn nearest_cursor(doc: &Document, x: usize, y: usize) -> (cursor: Cursor)
    requires
        doc.wf(),
    ensures
        place_cursor(doc@, x as int, y as int) == (EditorView {
            lines: doc@,
            x: cursor.x as int,
            y: cursor.y as int,
        }),
        editor_ok(place_cursor(doc@, x as int, y as int)),
{
    let n = doc.lines.len();
    let row = if y < n {
        y
    } else {
        n - 1
    };
    assert(line_ok(doc@[row as int]));
    let column = match doc.lines[row].width() {
        Some(w) => if x <= w {
            x
        } else {
            w
        },
        None => x,
    };
    Cursor { x: column, y: row }
}

impl TextEdit {
    /// What every widget satisfies: the cursor lies on a line of the
    /// document, at or before that line's end.
    pub open spec fn wf(&self) -> bool {
        editor_ok(self@)
    }

    /// The widget with its text replaced by the lines of `text`, one
    /// unstyled run each; the cursor is pulled into the new text.
    pub fn text(self, text: String) -> (edit: TextEdit)
        ensures
            edit.wf(),
            edit@ == place_cursor(
                document_of(raw_text_rows(text@)),
                self@.x,
                self@.y,
            ),
    {
        let rows = text_rows(text);
        self.rows(&rows)
    }

    /// The widget with its text replaced by the given rows, one unstyled
    /// run each, or by one empty line where there are none; the cursor is
    /// pulled into the new text.
    pub fn rows(self, rows: &Vec<Vec<char>>) -> (edit: TextEdit)
        ensures
            edit.wf(),
            edit@ == place_cursor(document_of(rows_view(rows@)), self@.x, self@.y),
    {
        let doc = Document::from_rows(rows);
        let cursor = nearest_cursor(&doc, self.cursor.x, self.cursor.y);
        TextEdit { doc, cursor }
    }

    /// The widget with its cursor at `(x, y)`, or at the nearest place the
    /// document has: a row past the last line becomes the last line, a
    /// column past the end of the line becomes the end of the line.
    pub fn cursor(self, x: usize, y: usize) -> (edit: TextEdit)
        requires
            self.wf(),
        ensures
            edit.wf(),
            edit@ == place_cursor(self@.lines, x as int, y as int),
    {
        let cursor = nearest_cursor(&self.doc, x, y);
        TextEdit { doc: self.doc, cursor }
    }

    /// Where the cursor stands.
    pub fn position(&self) -> (cursor: Cursor)
        ensures
            cursor.x == self@.x,
            cursor.y == self@.y,
    {
        self.cursor
    }

    /// The text as it stands.
    pub fn document(&self) -> (doc: &Document)
        ensures
            doc@ == self@.lines,
    {
        &self.doc
    }

    /// Types `c` at the cursor.
    fn insert_char(&mut self, c: char)
        requires
            old(self).wf(),
        ensures
            final(self)@ == insert_char(old(self)@, c),
    {
        let x = self.cursor.x;
        let y = self.cursor.y;
        assert(line_ok(self.doc@[y as int]));
        let ghost l = self.doc@[y as int];
        match self.doc.lines[y].width() {
            Some(w) => {
                if w < usize::MAX {
                    let loc = self.doc.lines[y].locate(x);
                    self.doc.lines[y].spans[loc.span].content.insert(loc.offset, c);
                    self.cursor.x = x + 1;
                    proof {
                        let grown = l[loc.span as int].content.insert(loc.offset as int, c);
                        assert(self.doc.lines@[y as int]@ =~= with_content(l, loc.span as int, grown));
                        assert(self.doc@ =~= old(self).doc@.update(
                            y as int,
                            with_content(l, loc.span as int, grown),
                        ));
                    }
                }
            },
            None => {},
        }
    }

    /// Removes the character at column `x` of the cursor's line.
    fn remove_char(&mut self, x: usize)
        requires
            old(self).wf(),
            x < line_width(old(self)@.lines[old(self)@.y]),
        ensures
            final(self)@.x == old(self)@.x,
            final(self)@.y == old(self)@.y,
            final(self)@.lines == old(self)@.lines.update(
                old(self)@.y,
                without_char(old(self)@.lines[old(self)@.y], x as int),
            ),
    {
        let y = self.cursor.y;
        assert(line_ok(self.doc@[y as int]));
        let ghost l = self.doc@[y as int];
        let loc = self.doc.lines[y].locate(x);
        self.doc.lines[y].spans[loc.span].content.remove(loc.offset);
        proof {
            let shrunk = l[loc.span as int].content.remove(loc.offset as int);
            assert(self.doc.lines@[y as int]@ =~= with_content(l, loc.span as int, shrunk));
            assert(self.doc@ =~= old(self).doc@.update(
                y as int,
                with_content(l, loc.span as int, shrunk),
            ));
        }
    }

    /// Whether the line in row `y` and the one below it fit into one line;
    /// if so, the width of the upper one.
    fn joint(&self, y: usize) -> (upper: Option<usize>)
        requires
            y + 1 < self@.lines.len(),
        ensures
            upper.is_some() == can_join(self@.lines[y as int], self@.lines[y + 1]),
            upper.is_some() ==> upper.unwrap() == line_width(self@.lines[y as int]),
    {
        let n = self.doc.lines.len();
        assert(self@.lines.len() == n);
        match (self.doc.lines[y].width(), self.doc.lines[y + 1].width()) {
            (Some(a), Some(b)) => if b <= usize::MAX - a {
                Some(a)
            } else {
                None
            },
            _ => None,
        }
    }

    /// Makes one line of the line in row `y` and the one below it.
    fn join(&mut self, y: usize)
        requires
            y + 1 < old(self)@.lines.len(),
        ensures
            final(self)@.lines == join_lines(old(self)@.lines, y as int),
            final(self).cursor == old(self).cursor,
    {
        let n = self.doc.lines.len();
        assert(self@.lines.len() == n);
        let mut lower = self.doc.lines.remove(y + 1);
        let ghost upper = self.doc.lines@[y as int];
        self.doc.lines[y].spans.append(&mut lower.spans);
        proof {
            assert(self.doc.lines@[y as int]@ =~= old(self).doc@[y as int] + old(self).doc@[y + 1]);
            assert(self.doc@ =~= join_lines(old(self).doc@, y as int));
        }
    }

    /// Breaks the cursor's line at the cursor.
    fn press_enter(&mut self)
        requires
            old(self).wf(),
        ensures
            final(self)@ == press_enter(old(self)@),
    {
        let x = self.cursor.x;
        let y = self.cursor.y;
        let n = self.doc.lines.len();
        assert(line_ok(self.doc@[y as int]));
        let ghost l = self.doc@[y as int];
        let loc = self.doc.lines[y].locate(x);
        let at_end = match self.doc.lines[y].width() {
            Some(w) => x >= w,
            None => false,
        };
        let style = self.doc.lines[y].spans[loc.span].style;
        if at_end {
            let mut content: Vec<char> = Vec::new();
            content.push(' ');
            let mut spans: Vec<Span> = Vec::new();
            spans.push(Span { content, style });
            let fresh = Line { spans };
            proof {
                assert(content@ =~= seq![' ']);
                assert(fresh@ =~= seq![SpanView { content: seq![' '], style: l[loc.span as int].style }]);
            }
            self.doc.lines.insert(y + 1, fresh);
            proof {
                assert(self.doc@ =~= old(self).doc@.insert(y + 1, fresh@));
            }
        } else {
            let m = self.doc.lines[y].spans.len();
            assert(l.len() == m);
            let mut rest = self.doc.lines[y].spans.split_off(loc.span + 1);
            let right = self.doc.lines[y].spans[loc.span].content.split_off(loc.offset);
            rest.insert(0, Span { content: right, style });
            let below = Line { spans: rest };
            proof {
                let sp = l[loc.span as int];
                let before = l.take(loc.span as int).push(split_left(sp, loc.offset as int));
                let after = seq![split_right(sp, loc.offset as int)] + l.skip(loc.span + 1);
                assert(self.doc.lines@[y as int]@ =~= before);
                assert(below@ =~= after);
            }
            self.doc.lines.insert(y + 1, below);
            proof {
                let sp = l[loc.span as int];
                let before = l.take(loc.span as int).push(split_left(sp, loc.offset as int));
                assert(self.doc@ =~= old(self).doc@.update(y as int, before).insert(y + 1, below@));
            }
        }
        self.cursor = Cursor { x: 0, y: y + 1 };
    }

    /// Removes the character before the cursor, or joins the cursor's line
    /// to the one above.
    fn press_backspace(&mut self)
        requires
            old(self).wf(),
        ensures
            final(self)@ == press_backspace(old(self)@),
    {
        let x = self.cursor.x;
        let y = self.cursor.y;
        if x > 0 {
            self.remove_char(x - 1);
            self.cursor.x = x - 1;
        } else if y > 0 {
            match self.joint(y - 1) {
                Some(w) => {
                    self.join(y - 1);
                    self.cursor = Cursor { x: w, y: y - 1 };
                },
                None => {},
            }
        }
    }

    /// Removes the character under the cursor, or joins the line below to
    /// the cursor's line.
    fn press_delete(&mut self)
        requires
            old(self).wf(),
        ensures
            final(self)@ == press_delete(old(self)@),
    {
        let x = self.cursor.x;
        let y = self.cursor.y;
        let n = self.doc.lines.len();
        assert(line_ok(self.doc@[y as int]));
        let inside = match self.doc.lines[y].width() {
            Some(w) => x < w,
            None => true,
        };
        if inside {
            self.remove_char(x);
        } else if y + 1 < n {
            match self.joint(y) {
                Some(_) => {
                    self.join(y);
                },
                None => {},
            }
        }
    }

    /// Moves the cursor to row `y`, its column pulled in to that row.
    fn go_to_row(&mut self, y: usize)
        requires
            old(self).wf(),
            y < old(self)@.lines.len(),
        ensures
            final(self)@ == go_to_row(old(self)@, y as int),
    {
        assert(line_ok(self.doc@[y as int]));
        match self.doc.lines[y].width() {
            Some(w) => {
                if self.cursor.x > w {
                    self.cursor.x = w;
                }
            },
            None => {},
        }
        self.cursor.y = y;
    }

    /// Moves the cursor one step for an arrow key.
    fn move_cursor(&mut self, key: Key)
        requires
            old(self).wf(),
        ensures
            final(self)@ == move_cursor(old(self)@, key),
    {
        let x = self.cursor.x;
        let y = self.cursor.y;
        let n = self.doc.lines.len();
        assert(line_ok(self.doc@[y as int]));
        match key {
            Key::Left => {
                if x > 0 {
                    self.cursor.x = x - 1;
                }
            },
            Key::Right => {
                match self.doc.lines[y].width() {
                    Some(w) => {
                        if x < w {
                            self.cursor.x = x + 1;
                        }
                    },
                    None => {},
                }
            },
            Key::Up => {
                if y > 0 {
                    self.go_to_row(y - 1);
                }
            },
            Key::Down => {
                if y + 1 < n {
                    self.go_to_row(y + 1);
                }
            },
            _ => {},
        }
    }

    /// Takes the key of one tick, if there was one, and edits the text or
    /// moves the cursor as that key asks. A key that cannot act where the
    /// cursor stands, and a key the widget does not know, change nothing.
    pub fn edit(&mut self, key: Option<Key>)
        requires
            old(self).wf(),
        ensures
            final(self).wf(),
            final(self)@ == step(old(self)@, key),
    {
        proof {
            step_keeps_cursor_inside(self@, key);
        }
        match key {
            Some(Key::Char(c)) => self.insert_char(c),
            Some(Key::Enter) => self.press_enter(),
            Some(Key::Backspace) => self.press_backspace(),
            Some(Key::Delete) => self.press_delete(),
            Some(Key::Other) => {},
            Some(k) => self.move_cursor(k),
            None => {},
        }
    }

    /// The lines to paint: the document as it stands, with the run under
    /// the cursor cut around the cursor's cell and that cell highlighted.
    /// The document itself stays as it is.
    pub fn render(&self) -> (frame: Vec<Line>)
        requires
            self.wf(),
        ensures
            lines_view(frame@) == render(self@),
    {
        let n = self.doc.lines.len();
        let mut frame: Vec<Line> = Vec::new();
        let mut i: usize = 0;
        assert(line_ok(self.doc@[self.cursor.y as int]));
        while i < n
            invariant
                n == self.doc.lines@.len(),
                i <= n,
                self.cursor.y < n,
                self.doc.lines@[self.cursor.y as int]@.len() >= 1,
                frame@.len() == i,
                forall|k: int| 0 <= k < i ==> (#[trigger] frame@[k])@ == render(self@)[k],
            decreases n - i,
        {
            let line = if i == self.cursor.y {
                self.doc.lines[i].render(self.cursor.x)
            } else {
                self.doc.lines[i].duplicate()
            };
            let ghost before = frame@;
            frame.push(line);
            assert(forall|k: int| 0 <= k < i ==> frame@[k] == before[k]);
            i = i + 1;
        }
        assert(lines_view(frame@) =~= render(self@));
        frame
    }
}

} // verus!
