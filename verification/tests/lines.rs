use textedit::{Key, Line, Location, Span, Style, TextEdit};

fn run(text: &str) -> Span {
    Span { content: text.chars().collect(), style: Style::Normal }
}

fn line_of(runs: &[&str]) -> Line {
    Line { spans: runs.iter().map(|r| run(r)).collect() }
}

fn word(span: &Span) -> String {
    span.content.iter().collect()
}

#[test]
fn locate_inside_a_run() {
    let line = line_of(&["ab", "cde"]);
    assert_eq!(line.locate(0), Location { span: 0, offset: 0 });
    assert_eq!(line.locate(1), Location { span: 0, offset: 1 });
    assert_eq!(line.locate(3), Location { span: 1, offset: 1 });
    assert_eq!(line.locate(4), Location { span: 1, offset: 2 });
}

#[test]
fn locate_on_a_border_takes_the_later_run() {
    let line = line_of(&["ab", "cde"]);
    assert_eq!(line.locate(2), Location { span: 1, offset: 0 });
    let line = line_of(&["ab", "", "cd"]);
    assert_eq!(line.locate(2), Location { span: 2, offset: 0 });
}

#[test]
fn locate_at_or_past_the_end_is_end_of_last_run() {
    let line = line_of(&["ab", "cde"]);
    assert_eq!(line.locate(5), Location { span: 1, offset: 3 });
    assert_eq!(line.locate(50), Location { span: 1, offset: 3 });
    let line = line_of(&["ab", ""]);
    assert_eq!(line.locate(2), Location { span: 1, offset: 0 });
    let line = line_of(&[""]);
    assert_eq!(line.locate(0), Location { span: 0, offset: 0 });
    assert_eq!(line.locate(3), Location { span: 0, offset: 0 });
}

#[test]
fn width_and_text_run_over_all_runs() {
    let line = line_of(&["ab", "", "cde"]);
    assert_eq!(line.width(), Some(5));
    assert_eq!(line.text().into_iter().collect::<String>(), "abcde");
    let none = Line { spans: Vec::new() };
    assert_eq!(none.width(), Some(0));
    assert!(none.text().is_empty());
    assert_eq!(run("héllo").width(), 5);
}

#[test]
fn plain_line_has_one_normal_run() {
    let line = Line::plain("abc".chars().collect());
    assert_eq!(line, line_of(&["abc"]));
}

#[test]
fn duplicate_is_equal() {
    let line = line_of(&["ab", "", "cde"]);
    assert_eq!(line.duplicate(), line);
    assert_eq!(run("xyz").duplicate(), run("xyz"));
}

#[test]
fn split_cuts_at_the_offset() {
    let span = Span { content: "hello".chars().collect(), style: Style::Highlight };
    let (left, right) = span.split(2);
    assert_eq!(word(&left), "he");
    assert_eq!(word(&right), "llo");
    assert_eq!(left.style, Style::Highlight);
    assert_eq!(right.style, Style::Highlight);
    let (left, right) = run("hello").split(0);
    assert_eq!((word(&left), word(&right)), (String::new(), "hello".to_owned()));
    let (left, right) = run("hello").split(5);
    assert_eq!((word(&left), word(&right)), ("hello".to_owned(), String::new()));
}

#[test]
fn split_past_the_end_cuts_at_the_end() {
    let (left, right) = run("hello").split(9);
    assert_eq!(word(&left), "hello");
    assert_eq!(word(&right), "");
    assert_eq!(left.style, Style::Normal);
}

#[test]
fn split_for_highlight_carves_one_char() {
    let (left, cell, right) = run("hello").split_for_highlight(1);
    assert_eq!(word(&left), "h");
    assert_eq!(word(&cell), "e");
    assert_eq!(word(&right), "llo");
    assert_eq!(left.style, Style::Normal);
    assert_eq!(cell.style, Style::Highlight);
    assert_eq!(right.style, Style::Normal);
}

#[test]
fn split_for_highlight_at_the_end_makes_a_space() {
    let (left, cell, right) = run("hello").split_for_highlight(5);
    assert_eq!(word(&left), "hello");
    assert_eq!(word(&cell), " ");
    assert_eq!(word(&right), "");
    assert_eq!(cell.style, Style::Highlight);
    let (left, cell, right) = run("").split_for_highlight(3);
    assert_eq!((word(&left), word(&cell), word(&right)), (String::new(), " ".to_owned(), String::new()));
}

#[test]
fn render_line_marks_the_cursor_cell() {
    let line = line_of(&["ab", "cd"]);
    let painted = line.render(2);
    let words: Vec<String> = painted.spans.iter().map(word).collect();
    assert_eq!(words, vec!["ab", "", "c", "d"]);
    let styles: Vec<Style> = painted.spans.iter().map(|s| s.style).collect();
    assert_eq!(styles, vec![Style::Normal, Style::Normal, Style::Highlight, Style::Normal]);
}

#[test]
fn frame_has_one_highlighted_cell() {
    let rows: Vec<Vec<char>> = vec!["ab".chars().collect(), "cdef".chars().collect()];
    let edit = TextEdit::default().rows(&rows).cursor(1, 1);
    let frame = edit.render();
    assert_eq!(frame.len(), 2);
    assert_eq!(frame[0], line_of(&["ab"]));
    let words: Vec<String> = frame[1].spans.iter().map(word).collect();
    assert_eq!(words, vec!["c", "d", "ef"]);
    let marked: usize = frame
        .iter()
        .flat_map(|l| l.spans.iter())
        .filter(|s| s.style == Style::Highlight)
        .map(|s| s.content.len())
        .sum();
    assert_eq!(marked, 1);
    // painting leaves the document as it was
    assert_eq!(edit.document().line(1).unwrap(), &line_of(&["cdef"]));
}

#[test]
fn frame_at_line_end_shows_a_space() {
    let rows: Vec<Vec<char>> = vec!["ab".chars().collect()];
    let mut edit = TextEdit::default().rows(&rows).cursor(2, 0);
    let frame = edit.render();
    let words: Vec<String> = frame[0].spans.iter().map(word).collect();
    assert_eq!(words, vec!["ab", " ", ""]);
    assert_eq!(frame[0].spans[1].style, Style::Highlight);
    edit.edit(Some(Key::Left));
    let frame = edit.render();
    let words: Vec<String> = frame[0].spans.iter().map(word).collect();
    assert_eq!(words, vec!["a", "b", ""]);
}
