//! Runs and lines as they are stored, with the operations that find a column
//! in a line, cut a run in two and mark the cell under the cursor.

use vstd::prelude::*;
use crate::model::{
    after_cell, cursor_cell, line_text, line_width, locate, max_width, render_line,
    split_left, split_right, LocationView, SpanView, Style,
};
use crate::laws::lemma_locate;

verus! {

/// A styled run of characters.
#[derive(Clone, Debug, PartialEq, Eq)]
pub struct Span {
    pub content: Vec<char>,
    pub style: Style,
}

impl View for Span {
    type V = SpanView;

    open spec fn view(&self) -> SpanView {
        SpanView { content: self.content@, style: self.style }
    }
}

/// The runs of a vector, each as the model sees it.
pub open spec fn spans_view(spans: Seq<Span>) -> Seq<SpanView> {
    spans.map_values(|s: Span| s@)
}

/// One row of the document: its runs from left to right.
#[derive(Clone, Debug, PartialEq, Eq)]
pub struct Line {
    pub spans: Vec<Span>,
}

impl View for Line {
    type V = Seq<SpanView>;

    open spec fn view(&self) -> Seq<SpanView> {
        spans_view(self.spans@)
    }
}

/// A place in a line: the index of a run and an offset into it.
#[derive(Clone, Copy, Debug, PartialEq, Eq)]
pub struct Location {
    pub span: usize,
    pub offset: usize,
}

impl View for Location {
    type V = LocationView;

    open spec fn view(&self) -> LocationView {
        LocationView { span: self.span as int, offset: self.offset as int }
    }
}

/// The characters of `src` from `from` up to `to`.
pub(crate) fn copy_chars(src: &Vec<char>, from: usize, to: usize) -> (out: Vec<char>)
    requires
        from <= to <= src@.len(),
    ensures
        out@ == src@.subrange(from as int, to as int),
{
    let mut out: Vec<char> = Vec::new();
    let mut i: usize = from;
    while i < to
        invariant
            from <= i <= to <= src@.len(),
            out@ == src@.subrange(from as int, i as int),
        decreases to - i,
    {
        out.push(src[i]);
        i = i + 1;
        assert(out@ =~= src@.subrange(from as int, i as int));
    }
    out
}

/// Appends copies of the runs of `src` from `from` up to `to` to `out`.
pub(crate) fn copy_spans(src: &Vec<Span>, from: usize, to: usize, out: &mut Vec<Span>)
    requires
        from <= to <= src@.len(),
    ensures
        spans_view(final(out)@) == spans_view(old(out)@) + spans_view(src@).subrange(
            from as int,
            to as int,
        ),
{
    let mut i: usize = from;
    assert(spans_view(out@) =~= spans_view(old(out)@) + spans_view(src@).subrange(
        from as int,
        i as int,
    ));
    while i < to
        invariant
            from <= i <= to <= src@.len(),
            spans_view(out@) == spans_view(old(out)@) + spans_view(src@).subrange(
                from as int,
                i as int,
            ),
        decreases to - i,
    {
        let ghost before = out@;
        let copy = src[i].duplicate();
        out.push(copy);
        assert(spans_view(out@) =~= spans_view(before).push(copy@));
        i = i + 1;
        assert(spans_view(out@) =~= spans_view(old(out)@) + spans_view(src@).subrange(
            from as int,
            i as int,
        ));
    }
}

impl Span {
    /// Number of characters in the run.
    pub fn width(&self) -> (w: usize)
        ensures
            w == self@.content.len(),
    {
        self.content.len()
    }

    /// A run with the same characters and style.
    pub fn duplicate(&self) -> (out: Span)
        ensures
            out@ == self@,
    {
        let content = copy_chars(&self.content, 0, self.content.len());
        assert(content@ =~= self.content@);
        Span { content, style: self.style }
    }

    /// Cuts the run in two at `offset`; an offset past the end cuts at the
    /// end. Both halves keep the style.
    pub fn split(&self, offset: usize) -> (halves: (Span, Span))
        ensures
            halves.0@ == split_left(self@, offset as int),
            halves.1@ == split_right(self@, offset as int),
    {
        let len = self.content.len();
        let at = if offset < len {
            offset
        } else {
            len
        };
        let left = copy_chars(&self.content, 0, at);
        let right = copy_chars(&self.content, at, len);
        (Span { content: left, style: self.style }, Span { content: right, style: self.style })
    }

    /// Cuts the run in three around the character at `offset`: what stands
    /// before it, the character itself in highlight, and what follows. At
    /// or past the end the highlighted part is a single space.
    pub fn split_for_highlight(&self, offset: usize) -> (parts: (Span, Span, Span))
        ensures
            parts.0@ == split_left(self@, offset as int),
            parts.1@ == cursor_cell(self@, offset as int),
            parts.2@ == after_cell(self@, offset as int),
    {
        let len = self.content.len();
        let mut cell: Vec<char> = Vec::new();
        if offset < len {
            let left = copy_chars(&self.content, 0, offset);
            cell.push(self.content[offset]);
            let right = copy_chars(&self.content, offset + 1, len);
            assert(cell@ =~= seq![self.content@[offset as int]]);
            (
                Span { content: left, style: self.style },
                Span { content: cell, style: Style::Highlight },
                Span { content: right, style: self.style },
            )
        } else {
            let left = copy_chars(&self.content, 0, len);
            cell.push(' ');
            let right: Vec<char> = Vec::new();
            assert(cell@ =~= seq![' ']);
            assert(right@ =~= Seq::<char>::empty());
            (
                Span { content: left, style: self.style },
                Span { content: cell, style: Style::Highlight },
                Span { content: right, style: self.style },
            )
        }
    }
}

impl Line {
    /// A line of one unstyled run.
    pub fn plain(content: Vec<char>) -> (line: Line)
        ensures
            line@ == crate::model::plain_line(content@),
    {
        let mut spans: Vec<Span> = Vec::new();
        spans.push(Span { content, style: Style::Normal });
        let line = Line { spans };
        assert(line@ =~= crate::model::plain_line(content@));
        line
    }

    /// Number of characters in the line, where a `usize` can hold it.
    pub fn width(&self) -> (w: Option<usize>)
        ensures
            match w {
                Some(n) => n == line_width(self@),
                None => line_width(self@) > max_width(),
            },
    {
        let n = self.spans.len();
        let mut acc: usize = 0;
        let mut i: usize = 0;
        assert(self@.skip(0) =~= self@);
        while i < n
            invariant
                n == self.spans@.len(),
                i <= n,
                acc + line_width(self@.skip(i as int)) == line_width(self@),
            decreases n - i,
        {
            let len = self.spans[i].content.len();
            assert(self@.skip(i as int).drop_first() =~= self@.skip(i + 1));
            assert(self@.skip(i as int)[0] == self@[i as int]);
            if len > usize::MAX - acc {
                return None;
            }
            acc = acc + len;
            i = i + 1;
        }
        Some(acc)
    }

    /// The characters of the line, run after run.
    pub fn text(&self) -> (out: Vec<char>)
        ensures
            out@ == line_text(self@),
    {
        let n = self.spans.len();
        let mut out: Vec<char> = Vec::new();
        let mut i: usize = 0;
        assert(self@.skip(0) =~= self@);
        assert(out@ + line_text(self@) =~= line_text(self@));
        while i < n
            invariant
                n == self.spans@.len(),
                i <= n,
                out@ + line_text(self@.skip(i as int)) == line_text(self@),
            decreases n - i,
        {
            let ghost done = out@;
            let ghost run = self@[i as int].content;
            let len = self.spans[i].content.len();
            let mut j: usize = 0;
            assert(out@ =~= done + run.take(0));
            while j < len
                invariant
                    i < n,
                    n == self.spans@.len(),
                    len == self.spans@[i as int].content@.len(),
                    run == self.spans@[i as int].content@,
                    j <= len,
                    out@ == done + run.take(j as int),
                decreases len - j,
            {
                out.push(self.spans[i].content[j]);
                j = j + 1;
                assert(out@ =~= done + run.take(j as int));
            }
            assert(run.take(len as int) =~= run);
            assert(self@.skip(i as int).drop_first() =~= self@.skip(i + 1));
            assert(self@.skip(i as int)[0] == self@[i as int]);
            assert((done + run) + line_text(self@.skip(i + 1)) =~= done + (run + line_text(
                self@.skip(i + 1),
            )));
            i = i + 1;
        }
        assert(out@ + Seq::<char>::empty() =~= out@);
        out
    }

    /// Finds the run that holds column `x` and the offset of `x` in it. A
    /// column on the border of two runs belongs to the later one; a column
    /// at or past the end of the line is the end of the last run.
    pub fn locate(&self, x: usize) -> (loc: Location)
        requires
            self@.len() >= 1,
        ensures
            loc@ == locate(self@, x as int),
            loc.span < self@.len(),
            loc.offset <= self@[loc.span as int].content.len(),
            x < line_width(self@) ==> loc.offset < self@[loc.span as int].content.len(),
            x <= line_width(self@) ==> line_width(self@.take(loc.span as int)) + loc.offset == x,
    {
        let n = self.spans.len();
        let mut i: usize = 0;
        let mut rem: usize = x;
        assert(self@.skip(0) =~= self@);
        while i + 1 < n && rem >= self.spans[i].content.len()
            invariant
                n == self.spans@.len(),
                n == self@.len(),
                i < n,
                locate(self@, x as int).span == i + locate(self@.skip(i as int), rem as int).span,
                locate(self@, x as int).offset == locate(self@.skip(i as int), rem as int).offset,
            decreases n - i,
        {
            assert(self@.skip(i as int).drop_first() =~= self@.skip(i + 1));
            assert(self@.skip(i as int)[0] == self@[i as int]);
            rem = rem - self.spans[i].content.len();
            i = i + 1;
        }
        let len = self.spans[i].content.len();
        assert(self@.skip(i as int)[0] == self@[i as int]);
        proof {
            lemma_locate(self@, x as int);
        }
        Location {
            span: i,
            offset: if rem < len {
                rem
            } else {
                len
            },
        }
    }

    /// A line with the same runs.
    pub fn duplicate(&self) -> (out: Line)
        ensures
            out@ == self@,
    {
        let mut spans: Vec<Span> = Vec::new();
        copy_spans(&self.spans, 0, self.spans.len(), &mut spans);
        assert(spans_view(spans@) =~= self@);
        Line { spans }
    }

    /// The line as it is painted with the cursor at column `x`: the run
    /// under the cursor is cut around the cursor's cell, which alone is
    /// highlighted.
    pub fn render(&self, x: usize) -> (out: Line)
        requires
            self@.len() >= 1,
        ensures
            out@ == render_line(self@, x as int),
    {
        let loc = self.locate(x);
        let n = self.spans.len();
        assert(self@.len() == n);
        let mut spans: Vec<Span> = Vec::new();
        copy_spans(&self.spans, 0, loc.span, &mut spans);
        let (left, cell, right) = self.spans[loc.span].split_for_highlight(loc.offset);
        let ghost head = spans@;
        spans.push(left);
        spans.push(cell);
        spans.push(right);
        let ghost mid = spans@;
        copy_spans(&self.spans, loc.span + 1, n, &mut spans);
        assert(spans_view(mid) =~= spans_view(head) + seq![left@, cell@, right@]);
        assert(spans_view(head) =~= self@.take(loc.span as int));
        assert(spans_view(self.spans@).subrange(loc.span + 1, self.spans@.len() as int)
            =~= self@.skip(loc.span + 1));
        Line { spans }
    }
}

} // verus!
