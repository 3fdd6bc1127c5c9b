//! What holds of the model: facts about widths and locations, and the laws
//! that relate one key press to the next.

use vstd::prelude::*;
use crate::plain::{flatten, plain_step};
use crate::model::{
    after_cell, can_join, cursor_cell, document_ok, editor_ok, highlighted_cells, insert_char,
    join_lines, line_ok, line_text, line_width, locate, max_width, press_backspace, press_enter,
    render, render_line, split_left, split_right, step, with_char, with_content, without_char,
    EditorView, Key, SpanView, Style,
};

verus! {

/// A line of one run is as wide as that run.
pub proof fn lemma_width_single(sp: SpanView)
    ensures
        line_width(seq![sp]) == sp.content.len(),
{
    let l = seq![sp];
    assert(l.drop_first() =~= Seq::empty());
    assert(line_width(l.drop_first()) == 0);
}

/// Widths add up when lines are put end to end.
pub proof fn lemma_width_concat(a: Seq<SpanView>, b: Seq<SpanView>)
    ensures
        line_width(a + b) == line_width(a) + line_width(b),
    decreases a.len(),
{
    if a.len() == 0 {
        assert(a + b =~= b);
    } else {
        assert((a + b).drop_first() =~= a.drop_first() + b);
        lemma_width_concat(a.drop_first(), b);
    }
}

/// A line's width is that of one run plus what stands on either side of it.
pub proof fn lemma_width_around(l: Seq<SpanView>, i: int)
    requires
        0 <= i < l.len(),
    ensures
        line_width(l) == line_width(l.take(i)) + l[i].content.len() + line_width(l.skip(i + 1)),
{
    assert(l =~= l.take(i) + (seq![l[i]] + l.skip(i + 1)));
    lemma_width_concat(l.take(i), seq![l[i]] + l.skip(i + 1));
    lemma_width_concat(seq![l[i]], l.skip(i + 1));
    lemma_width_single(l[i]);
}

/// Replacing one run changes the width by the difference of the two runs.
pub proof fn lemma_width_update(l: Seq<SpanView>, i: int, sp: SpanView)
    requires
        0 <= i < l.len(),
    ensures
        line_width(l.update(i, sp)) == line_width(l) - l[i].content.len() + sp.content.len(),
{
    let m = l.update(i, sp);
    lemma_width_around(l, i);
    lemma_width_around(m, i);
    assert(m.take(i) =~= l.take(i));
    assert(m.skip(i + 1) =~= l.skip(i + 1));
}

/// A location names a run of the line and a place in it; before the end of
/// the line it names a character, and at or past the end it names the end of
/// the last run. The runs to its left and its offset add up to the column.
pub proof fn lemma_locate(l: Seq<SpanView>, x: int)
    requires
        l.len() >= 1,
        0 <= x,
    ensures
        0 <= locate(l, x).span < l.len(),
        0 <= locate(l, x).offset <= l[locate(l, x).span].content.len(),
        x < line_width(l) ==> locate(l, x).offset < l[locate(l, x).span].content.len(),
        x <= line_width(l) ==> line_width(l.take(locate(l, x).span)) + locate(l, x).offset == x,
        x >= line_width(l) ==> locate(l, x).span == l.len() - 1 && locate(l, x).offset
            == l.last().content.len(),
    decreases l.len(),
{
    let rest = l.drop_first();
    if x < l[0].content.len() {
        assert(l.take(0) =~= Seq::empty());
    } else if l.len() == 1 {
        assert(rest =~= Seq::empty());
        assert(l.take(0) =~= Seq::empty());
    } else {
        let x1 = x - l[0].content.len();
        lemma_locate(rest, x1);
        let r = locate(rest, x1);
        let t = l.take(r.span + 1);
        assert(t.drop_first() =~= rest.take(r.span));
        assert(t[0] == l[0]);
        assert(line_width(t) == l[0].content.len() + line_width(rest.take(r.span)));
    }
}

/// A character typed at a column is found again at that column.
pub proof fn lemma_locate_after_insert(l: Seq<SpanView>, x: int, c: char)
    requires
        l.len() >= 1,
        0 <= x <= line_width(l),
    ensures
        locate(with_char(l, x, c), x) == locate(l, x),
    decreases l.len(),
{
    let loc = locate(l, x);
    let m = with_content(l, loc.span, l[loc.span].content.insert(loc.offset, c));
    lemma_locate(l, x);
    if x < l[0].content.len() {
    } else if l.len() == 1 {
        assert(l.drop_first() =~= Seq::empty());
    } else {
        let rest = l.drop_first();
        let x1 = x - l[0].content.len();
        lemma_locate(rest, x1);
        lemma_locate_after_insert(rest, x1, c);
        let r = locate(rest, x1);
        assert(m.drop_first() =~= with_content(rest, r.span, rest[r.span].content.insert(r.offset, c)));
    }
}

/// Putting a line into a document in order leaves it in order.
pub proof fn lemma_document_insert(lines: Seq<Seq<SpanView>>, i: int, l: Seq<SpanView>)
    requires
        document_ok(lines),
        line_ok(l),
        0 <= i <= lines.len(),
    ensures
        document_ok(lines.insert(i, l)),
{
    let d = lines.insert(i, l);
    assert forall|k: int| 0 <= k < d.len() implies line_ok(#[trigger] d[k]) by {
        if k < i {
            assert(d[k] == lines[k]);
        } else if k == i {
            assert(d[k] == l);
        } else {
            assert(d[k] == lines[k - 1]);
        }
    }
}

/// Two lines that fit into one give a line in order.
pub proof fn lemma_join_ok(lines: Seq<Seq<SpanView>>, y: int)
    requires
        document_ok(lines),
        0 <= y,
        y + 1 < lines.len(),
        can_join(lines[y], lines[y + 1]),
    ensures
        document_ok(join_lines(lines, y)),
        line_width(join_lines(lines, y)[y]) == line_width(lines[y]) + line_width(lines[y + 1]),
{
    let a = lines[y];
    let b = lines[y + 1];
    let d = join_lines(lines, y);
    lemma_width_concat(a, b);
    assert(line_ok(a));
    assert(line_ok(b));
    assert(line_ok(a + b)) by {
        assert forall|j: int| 0 <= j < (a + b).len() implies (#[trigger] (a + b)[j]).style
            == Style::Normal by {
            if j < a.len() {
                assert((a + b)[j] == a[j]);
            } else {
                assert((a + b)[j] == b[j - a.len()]);
            }
        }
    }
    assert forall|k: int| 0 <= k < d.len() implies line_ok(#[trigger] d[k]) by {
        if k < y {
            assert(d[k] == lines[k]);
        } else if k == y {
            assert(d[k] == a + b);
        } else {
            assert(d[k] == lines[k + 1]);
        }
    }
}

/// Replacing the content of one run of one line by content that keeps the
/// line within bounds leaves the document in order.
pub proof fn lemma_edit_run_ok(lines: Seq<Seq<SpanView>>, y: int, i: int, content: Seq<char>)
    requires
        document_ok(lines),
        0 <= y < lines.len(),
        0 <= i < lines[y].len(),
        line_width(lines[y]) - lines[y][i].content.len() + content.len() <= max_width(),
    ensures
        document_ok(lines.update(y, with_content(lines[y], i, content))),
        line_width(with_content(lines[y], i, content)) == line_width(lines[y])
            - lines[y][i].content.len() + content.len(),
{
    let l = lines[y];
    let m = with_content(l, i, content);
    lemma_width_update(l, i, SpanView { content, style: l[i].style });
    assert(line_ok(l));
    assert(line_ok(m));
}

/// Every key press takes an editor whose cursor lies inside its document to
/// another such editor.
pub proof fn step_keeps_cursor_inside(s: EditorView, key: Option<Key>)
    requires
        editor_ok(s),
    ensures
        editor_ok(step(s, key)),
{
    let l = s.lines[s.y];
    assert(line_ok(l));
    match key {
        Some(Key::Char(c)) => {
            lemma_locate(l, s.x);
            if line_width(l) < max_width() {
                let loc = locate(l, s.x);
                lemma_edit_run_ok(s.lines, s.y, loc.span, l[loc.span].content.insert(loc.offset, c));
            }
        },
        Some(Key::Enter) => {
            lemma_locate(l, s.x);
            let loc = locate(l, s.x);
            let sp = l[loc.span];
            if s.x >= line_width(l) {
                let fresh = seq![SpanView { content: seq![' '], style: sp.style }];
                lemma_width_single(fresh[0]);
                assert(line_ok(fresh));
                lemma_document_insert(s.lines, s.y + 1, fresh);
            } else {
                let left = split_left(sp, loc.offset);
                let right = split_right(sp, loc.offset);
                let before = l.take(loc.span).push(left);
                let after = seq![right] + l.skip(loc.span + 1);
                lemma_width_around(l, loc.span);
                assert(before =~= l.take(loc.span) + seq![left]);
                lemma_width_concat(l.take(loc.span), seq![left]);
                lemma_width_concat(seq![right], l.skip(loc.span + 1));
                lemma_width_single(left);
                lemma_width_single(right);
                assert(line_ok(before));
                assert(line_ok(after));
                let d = s.lines.update(s.y, before);
                assert(document_ok(d));
                lemma_document_insert(d, s.y + 1, after);
            }
        },
        Some(Key::Backspace) => {
            if s.x > 0 {
                lemma_locate(l, s.x - 1);
                let loc = locate(l, s.x - 1);
                lemma_edit_run_ok(s.lines, s.y, loc.span, l[loc.span].content.remove(loc.offset));
            } else if s.y > 0 && can_join(s.lines[s.y - 1], l) {
                lemma_join_ok(s.lines, s.y - 1);
            }
        },
        Some(Key::Delete) => {
            if s.x < line_width(l) {
                lemma_locate(l, s.x);
                let loc = locate(l, s.x);
                lemma_edit_run_ok(s.lines, s.y, loc.span, l[loc.span].content.remove(loc.offset));
            } else if s.y + 1 < s.lines.len() && can_join(l, s.lines[s.y + 1]) {
                lemma_join_ok(s.lines, s.y);
            }
        },
        _ => {},
    }
}

/// Typing a character and then pressing Backspace gives back the editor as
/// it was: every run of every line, and the cursor.
pub proof fn insert_then_backspace(s: EditorView, c: char)
    requires
        editor_ok(s),
        line_width(s.lines[s.y]) < max_width(),
    ensures
        step(step(s, Some(Key::Char(c))), Some(Key::Backspace)) == s,
{
    let l = s.lines[s.y];
    assert(line_ok(l));
    lemma_locate(l, s.x);
    lemma_locate_after_insert(l, s.x, c);
    let loc = locate(l, s.x);
    let grown = l[loc.span].content.insert(loc.offset, c);
    let m = with_content(l, loc.span, grown);
    let s1 = insert_char(s, c);
    assert(s1.lines[s.y] == m);
    assert(grown.remove(loc.offset) =~= l[loc.span].content);
    assert(with_content(m, loc.span, grown.remove(loc.offset)) =~= l);
    let s2 = press_backspace(s1);
    assert(s2.lines =~= s.lines);
}

/// An arrow key pressed against the edge it points to changes nothing: Left
/// in the first column, Right at the end of the line, Up on the first line,
/// Down on the last.
pub proof fn arrow_at_edge_stays(s: EditorView)
    requires
        editor_ok(s),
    ensures
        s.x == 0 ==> step(s, Some(Key::Left)) == s,
        s.x == line_width(s.lines[s.y]) ==> step(s, Some(Key::Right)) == s,
        s.y == 0 ==> step(s, Some(Key::Up)) == s,
        s.y == s.lines.len() - 1 ==> step(s, Some(Key::Down)) == s,
{
}

/// The text of two lines put end to end is the text of the first followed by
/// the text of the second.
pub proof fn lemma_text_concat(a: Seq<SpanView>, b: Seq<SpanView>)
    ensures
        line_text(a + b) == line_text(a) + line_text(b),
    decreases a.len(),
{
    if a.len() == 0 {
        assert(a + b =~= b);
        assert(line_text(a) + line_text(b) =~= line_text(b));
    } else {
        assert((a + b).drop_first() =~= a.drop_first() + b);
        lemma_text_concat(a.drop_first(), b);
        assert(a[0].content + (line_text(a.drop_first()) + line_text(b)) =~= (a[0].content
            + line_text(a.drop_first())) + line_text(b));
    }
}

/// The text of a line of one run is that run's content.
pub proof fn lemma_text_single(sp: SpanView)
    ensures
        line_text(seq![sp]) == sp.content,
{
    let l = seq![sp];
    assert(l.drop_first() =~= Seq::empty());
    assert(sp.content + line_text(l.drop_first()) =~= sp.content);
}

/// The width of a line is the number of characters of its text.
pub proof fn width_is_text_length(l: Seq<SpanView>)
    ensures
        line_text(l).len() == line_width(l),
    decreases l.len(),
{
    if l.len() > 0 {
        width_is_text_length(l.drop_first());
    }
}

/// Breaking a line before one of its characters and pressing Backspace on
/// the new line brings back the text of every line, and the cursor. (At the
/// end of a line Enter opens a line that holds a space, which Backspace then
/// joins to the line above.)
pub proof fn enter_then_backspace(s: EditorView)
    requires
        editor_ok(s),
        s.x < line_width(s.lines[s.y]),
    ensures
        step(step(s, Some(Key::Enter)), Some(Key::Backspace)).x == s.x,
        step(step(s, Some(Key::Enter)), Some(Key::Backspace)).y == s.y,
        step(step(s, Some(Key::Enter)), Some(Key::Backspace)).lines.len() == s.lines.len(),
        forall|k: int|
            0 <= k < s.lines.len() ==> line_text(
                #[trigger] step(step(s, Some(Key::Enter)), Some(Key::Backspace)).lines[k],
            ) == line_text(s.lines[k]),
{
    let l = s.lines[s.y];
    assert(line_ok(l));
    lemma_locate(l, s.x);
    let loc = locate(l, s.x);
    let sp = l[loc.span];
    let left = split_left(sp, loc.offset);
    let right = split_right(sp, loc.offset);
    let before = l.take(loc.span).push(left);
    let after = seq![right] + l.skip(loc.span + 1);
    let s1 = press_enter(s);
    assert(s1.lines[s.y] == before);
    assert(s1.lines[s.y + 1] == after);
    // widths
    lemma_width_around(l, loc.span);
    assert(before =~= l.take(loc.span) + seq![left]);
    lemma_width_concat(l.take(loc.span), seq![left]);
    lemma_width_concat(seq![right], l.skip(loc.span + 1));
    lemma_width_single(left);
    lemma_width_single(right);
    assert(line_width(before) == s.x);
    assert(can_join(before, after));
    let s2 = press_backspace(s1);
    assert(s2.lines == join_lines(s1.lines, s.y));
    assert(s2.lines[s.y] == before + after);
    // texts
    lemma_text_concat(before, after);
    lemma_text_concat(l.take(loc.span), seq![left]);
    lemma_text_concat(seq![right], l.skip(loc.span + 1));
    lemma_text_single(left);
    lemma_text_single(right);
    assert(l =~= l.take(loc.span) + (seq![sp] + l.skip(loc.span + 1)));
    lemma_text_concat(l.take(loc.span), seq![sp] + l.skip(loc.span + 1));
    lemma_text_concat(seq![sp], l.skip(loc.span + 1));
    lemma_text_single(sp);
    assert(left.content + right.content =~= sp.content);
    let head = line_text(l.take(loc.span));
    let tail = line_text(l.skip(loc.span + 1));
    assert((head + left.content) + (right.content + tail) =~= head + ((left.content
        + right.content) + tail));
    assert(line_text(before + after) == line_text(l));
    assert forall|k: int| 0 <= k < s.lines.len() implies line_text(#[trigger] s2.lines[k])
        == line_text(s.lines[k]) by {
        if k != s.y {
            assert(s2.lines[k] == s.lines[k]);
        }
    }
}

/// Highlighted cells add up when lines are put end to end.
pub proof fn lemma_cells_concat(a: Seq<SpanView>, b: Seq<SpanView>)
    ensures
        highlighted_cells(a + b) == highlighted_cells(a) + highlighted_cells(b),
    decreases a.len(),
{
    if a.len() == 0 {
        assert(a + b =~= b);
    } else {
        assert((a + b).drop_first() =~= a.drop_first() + b);
        lemma_cells_concat(a.drop_first(), b);
    }
}

/// A line without a highlighted run has no highlighted cell.
pub proof fn lemma_cells_none(l: Seq<SpanView>)
    requires
        forall|j: int| 0 <= j < l.len() ==> (#[trigger] l[j]).style == Style::Normal,
    ensures
        highlighted_cells(l) == 0,
    decreases l.len(),
{
    if l.len() > 0 {
        let rest = l.drop_first();
        assert forall|j: int| 0 <= j < rest.len() implies (#[trigger] rest[j]).style
            == Style::Normal by {
            assert(rest[j] == l[j + 1]);
        }
        lemma_cells_none(rest);
    }
}

/// A painted frame holds exactly one highlighted cell, on the cursor's line.
/// It shows the text of the document, followed by one space on the cursor's
/// line where the cursor stands at the end of that line.
pub proof fn frame_marks_one_cell(s: EditorView)
    requires
        editor_ok(s),
    ensures
        render(s).len() == s.lines.len(),
        forall|k: int|
            0 <= k < s.lines.len() ==> highlighted_cells(#[trigger] render(s)[k]) == (if k == s.y {
                1nat
            } else {
                0nat
            }),
        forall|k: int|
            0 <= k < s.lines.len() ==> line_text(#[trigger] render(s)[k]) == (if k == s.y && s.x
                == line_width(s.lines[s.y]) {
                line_text(s.lines[k]) + seq![' ']
            } else {
                line_text(s.lines[k])
            }),
{
    let l = s.lines[s.y];
    assert(line_ok(l));
    lemma_locate(l, s.x);
    let loc = locate(l, s.x);
    let sp = l[loc.span];
    let left = split_left(sp, loc.offset);
    let cell = cursor_cell(sp, loc.offset);
    let right = after_cell(sp, loc.offset);
    let head = l.take(loc.span);
    let tail = l.skip(loc.span + 1);
    let mid = seq![left, cell, right];
    let painted = render_line(l, s.x);
    assert(painted == (head + mid) + tail);
    // cells
    lemma_cells_concat(head + mid, tail);
    lemma_cells_concat(head, mid);
    lemma_cells_none(head);
    lemma_cells_none(tail);
    assert(mid =~= seq![left] + (seq![cell] + seq![right]));
    lemma_cells_concat(seq![left], seq![cell] + seq![right]);
    lemma_cells_concat(seq![cell], seq![right]);
    lemma_cells_none(seq![left]);
    lemma_cells_none(seq![right]);
    assert(seq![cell].drop_first() =~= Seq::empty());
    assert(highlighted_cells(seq![cell].drop_first()) == 0);
    assert(highlighted_cells(seq![cell]) == 1);
    // text
    lemma_text_concat(head + mid, tail);
    lemma_text_concat(head, mid);
    lemma_text_concat(seq![left], seq![cell] + seq![right]);
    lemma_text_concat(seq![cell], seq![right]);
    lemma_text_single(left);
    lemma_text_single(cell);
    lemma_text_single(right);
    assert(l =~= head + (seq![sp] + tail));
    lemma_text_concat(head, seq![sp] + tail);
    lemma_text_concat(seq![sp], tail);
    lemma_text_single(sp);
    let h = line_text(head);
    let t = line_text(tail);
    if s.x < line_width(l) {
        assert(left.content + (cell.content + right.content) =~= sp.content);
        assert((h + (left.content + (cell.content + right.content))) + t =~= h + (sp.content + t));
    } else {
        assert(tail =~= Seq::empty());
        assert(left.content + (cell.content + right.content) =~= sp.content + seq![' ']);
        assert((h + (left.content + (cell.content + right.content))) + t =~= (h + (sp.content
            + t)) + seq![' ']);
    }
    assert forall|k: int| 0 <= k < s.lines.len() implies highlighted_cells(
        #[trigger] render(s)[k],
    ) == (if k == s.y {
        1nat
    } else {
        0nat
    }) by {
        if k != s.y {
            assert(line_ok(s.lines[k]));
            lemma_cells_none(s.lines[k]);
        }
    }
}

/// Putting a character into a line puts it into the line's text, at the
/// same column.
pub proof fn lemma_text_with_char(l: Seq<SpanView>, x: int, c: char)
    requires
        l.len() >= 1,
        0 <= x <= line_width(l),
    ensures
        line_text(with_char(l, x, c)) == line_text(l).insert(x, c),
    decreases l.len(),
{
    let m = with_char(l, x, c);
    let rest = l.drop_first();
    let first = l[0].content;
    lemma_locate(l, x);
    width_is_text_length(rest);
    if x < first.len() || l.len() == 1 {
        assert(m.drop_first() =~= rest);
        if l.len() == 1 {
            assert(rest =~= Seq::empty());
        }
        assert(first.insert(x, c) + line_text(rest) =~= (first + line_text(rest)).insert(x, c));
    } else {
        let x1 = x - first.len();
        lemma_locate(rest, x1);
        lemma_text_with_char(rest, x1, c);
        assert(m.drop_first() =~= with_char(rest, x1, c));
        assert(first + line_text(rest).insert(x1, c) =~= (first + line_text(rest)).insert(x, c));
    }
}

/// Taking a character out of a line takes it out of the line's text, at the
/// same column.
pub proof fn lemma_text_without_char(l: Seq<SpanView>, x: int)
    requires
        l.len() >= 1,
        0 <= x < line_width(l),
    ensures
        line_text(without_char(l, x)) == line_text(l).remove(x),
    decreases l.len(),
{
    let m = without_char(l, x);
    let rest = l.drop_first();
    let first = l[0].content;
    lemma_locate(l, x);
    width_is_text_length(rest);
    if x < first.len() {
        assert(m.drop_first() =~= rest);
        assert(first.remove(x) + line_text(rest) =~= (first + line_text(rest)).remove(x));
    } else if l.len() == 1 {
        assert(rest =~= Seq::empty());
    } else {
        let x1 = x - first.len();
        lemma_locate(rest, x1);
        lemma_text_without_char(rest, x1);
        assert(m.drop_first() =~= without_char(rest, x1));
        assert(first + line_text(rest).remove(x1) =~= (first + line_text(rest)).remove(x));
    }
}

/// Cutting a line at a column before its end cuts its text at that column.
pub proof fn lemma_text_cut(l: Seq<SpanView>, x: int)
    requires
        l.len() >= 1,
        0 <= x < line_width(l),
    ensures
        line_text(l.take(locate(l, x).span).push(split_left(l[locate(l, x).span], locate(l, x).offset)))
            == line_text(l).take(x),
        line_text(
            seq![split_right(l[locate(l, x).span], locate(l, x).offset)] + l.skip(
                locate(l, x).span + 1,
            ),
        ) == line_text(l).skip(x),
{
    lemma_locate(l, x);
    let loc = locate(l, x);
    let sp = l[loc.span];
    let left = split_left(sp, loc.offset);
    let right = split_right(sp, loc.offset);
    let head = l.take(loc.span);
    let tail = l.skip(loc.span + 1);
    assert(head.push(left) =~= head + seq![left]);
    lemma_text_concat(head, seq![left]);
    lemma_text_concat(seq![right], tail);
    lemma_text_single(left);
    lemma_text_single(right);
    assert(l =~= head + (seq![sp] + tail));
    lemma_text_concat(head, seq![sp] + tail);
    lemma_text_concat(seq![sp], tail);
    lemma_text_single(sp);
    width_is_text_length(head);
    width_is_text_length(tail);
    let h = line_text(head);
    let t = line_text(tail);
    assert(h + left.content =~= (h + (sp.content + t)).take(x));
    assert(right.content + t =~= (h + (sp.content + t)).skip(x));
}

/// The editor, read as plain text, is a plain-text editor: forgetting runs
/// and styles after a key press gives what the key does to the rows of
/// characters and the cursor alone.
pub proof fn step_edits_the_text(s: EditorView, key: Option<Key>)
    requires
        editor_ok(s),
    ensures
        flatten(step(s, key)) == plain_step(flatten(s), key),
{
    let l = s.lines[s.y];
    let p = flatten(s);
    let q = plain_step(p, key);
    let t = step(s, key);
    assert(line_ok(l));
    assert forall|k: int| 0 <= k < s.lines.len() implies line_width(#[trigger] s.lines[k])
        == p.rows[k].len() by {
        width_is_text_length(s.lines[k]);
    }
    assert(p.rows[s.y] == line_text(l));
    match key {
        Some(Key::Char(c)) => {
            if line_width(l) < max_width() {
                lemma_text_with_char(l, s.x, c);
                assert(flatten(t).rows =~= q.rows);
            }
        },
        Some(Key::Enter) => {
            lemma_locate(l, s.x);
            let loc = locate(l, s.x);
            let sp = l[loc.span];
            if s.x >= line_width(l) {
                let fresh = seq![SpanView { content: seq![' '], style: sp.style }];
                lemma_text_single(fresh[0]);
                assert(flatten(t).rows =~= q.rows);
            } else {
                lemma_text_cut(l, s.x);
                assert(flatten(t).rows =~= q.rows);
            }
        },
        Some(Key::Backspace) => {
            if s.x > 0 {
                lemma_text_without_char(l, s.x - 1);
                assert(flatten(t).rows =~= q.rows);
            } else if s.y > 0 {
                assert(p.rows[s.y - 1] == line_text(s.lines[s.y - 1]));
                if can_join(s.lines[s.y - 1], l) {
                    lemma_text_concat(s.lines[s.y - 1], l);
                    assert(flatten(t).rows =~= q.rows);
                }
            }
        },
        Some(Key::Delete) => {
            if s.x < line_width(l) {
                lemma_text_without_char(l, s.x);
                assert(flatten(t).rows =~= q.rows);
            } else if s.y + 1 < s.lines.len() {
                assert(p.rows[s.y + 1] == line_text(s.lines[s.y + 1]));
                if can_join(l, s.lines[s.y + 1]) {
                    lemma_text_concat(l, s.lines[s.y + 1]);
                    assert(flatten(t).rows =~= q.rows);
                }
            }
        },
        Some(Key::Up) => {
            if s.y > 0 {
                assert(p.rows[s.y - 1] == line_text(s.lines[s.y - 1]));
            }
        },
        Some(Key::Down) => {
            if s.y + 1 < s.lines.len() {
                assert(p.rows[s.y + 1] == line_text(s.lines[s.y + 1]));
            }
        },
        _ => {},
    }
}

} // verus!
