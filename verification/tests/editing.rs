use textedit::{Cursor, Key, TextEdit};

fn rows(lines: &[&str]) -> Vec<Vec<char>> {
    lines.iter().map(|l| l.chars().collect()).collect()
}

fn shown(edit: &TextEdit) -> Vec<String> {
    let doc = edit.document();
    (0..doc.line_count()).map(|y| doc.line(y).unwrap().text().into_iter().collect()).collect()
}

fn at(edit: &TextEdit) -> (usize, usize) {
    let Cursor { x, y } = edit.position();
    (x, y)
}

fn inside(edit: &TextEdit) -> bool {
    let doc = edit.document();
    let (x, y) = at(edit);
    doc.line_count() >= 1 && y < doc.line_count() && Some(x) <= doc.line(y).unwrap().width()
}

#[test]
fn default_is_one_empty_line() {
    let edit = TextEdit::default();
    assert_eq!(shown(&edit), vec![String::new()]);
    assert_eq!(at(&edit), (0, 0));
    assert_eq!(edit.document().line(0).unwrap().spans.len(), 1);
}

#[test]
fn typing_at_origin_puts_char_first() {
    let mut edit = TextEdit::default().text("Hello World!".to_owned()).cursor(0, 0);
    edit.edit(Some(Key::Char('X')));
    assert_eq!(shown(&edit), vec!["XHello World!".to_owned()]);
    assert_eq!(at(&edit), (1, 0));
}

#[test]
fn typing_in_the_middle_and_at_the_end() {
    let mut edit = TextEdit::default().rows(&rows(&["abc"])).cursor(1, 0);
    edit.edit(Some(Key::Char('-')));
    assert_eq!(shown(&edit), vec!["a-bc".to_owned()]);
    assert_eq!(at(&edit), (2, 0));
    let mut edit = edit.cursor(4, 0);
    edit.edit(Some(Key::Char('!')));
    assert_eq!(shown(&edit), vec!["a-bc!".to_owned()]);
    assert_eq!(at(&edit), (5, 0));
}

#[test]
fn typing_into_an_empty_document() {
    let mut edit = TextEdit::default();
    edit.edit(Some(Key::Char('h')));
    edit.edit(Some(Key::Char('i')));
    assert_eq!(shown(&edit), vec!["hi".to_owned()]);
    assert_eq!(at(&edit), (2, 0));
}

#[test]
fn enter_at_end_opens_line_with_space() {
    let mut edit = TextEdit::default().rows(&rows(&["ab"])).cursor(2, 0);
    edit.edit(Some(Key::Enter));
    assert_eq!(shown(&edit), vec!["ab".to_owned(), " ".to_owned()]);
    assert_eq!(at(&edit), (0, 1));
}

#[test]
fn enter_on_empty_line_keeps_a_run_on_both_lines() {
    let mut edit = TextEdit::default();
    edit.edit(Some(Key::Enter));
    assert_eq!(shown(&edit), vec![String::new(), " ".to_owned()]);
    assert_eq!(at(&edit), (0, 1));
    assert!(edit.document().line(0).unwrap().spans.len() >= 1);
    assert!(edit.document().line(1).unwrap().spans.len() >= 1);
}

#[test]
fn enter_in_the_middle_then_backspace_rejoins() {
    let mut edit = TextEdit::default().rows(&rows(&["ab"])).cursor(1, 0);
    edit.edit(Some(Key::Enter));
    assert_eq!(shown(&edit), vec!["a".to_owned(), "b".to_owned()]);
    assert_eq!(at(&edit), (0, 1));
    edit.edit(Some(Key::Backspace));
    assert_eq!(shown(&edit), vec!["ab".to_owned()]);
    assert_eq!(at(&edit), (1, 0));
}

#[test]
fn enter_at_line_start_moves_whole_line_down() {
    let mut edit = TextEdit::default().rows(&rows(&["ab", "cd"])).cursor(0, 0);
    edit.edit(Some(Key::Enter));
    assert_eq!(shown(&edit), vec![String::new(), "ab".to_owned(), "cd".to_owned()]);
    assert_eq!(at(&edit), (0, 1));
}

#[test]
fn backspace_at_line_start_joins_lines() {
    let mut edit = TextEdit::default().rows(&rows(&["foo", "bar"])).cursor(0, 1);
    edit.edit(Some(Key::Backspace));
    assert_eq!(shown(&edit), vec!["foobar".to_owned()]);
    assert_eq!(at(&edit), (3, 0));
    assert_eq!(edit.document().line(0).unwrap().spans.len(), 2);
}

#[test]
fn backspace_removes_char_before_cursor() {
    let mut edit = TextEdit::default().rows(&rows(&["abc"])).cursor(2, 0);
    edit.edit(Some(Key::Backspace));
    assert_eq!(shown(&edit), vec!["ac".to_owned()]);
    assert_eq!(at(&edit), (1, 0));
}

#[test]
fn backspace_at_origin_does_nothing() {
    let mut edit = TextEdit::default().rows(&rows(&["abc", "d"])).cursor(0, 0);
    edit.edit(Some(Key::Backspace));
    assert_eq!(shown(&edit), vec!["abc".to_owned(), "d".to_owned()]);
    assert_eq!(at(&edit), (0, 0));
}

#[test]
fn backspace_across_a_run_border() {
    let mut edit = TextEdit::default().rows(&rows(&["foo", "bar"])).cursor(0, 1);
    edit.edit(Some(Key::Backspace));
    // the cursor now stands on the border of the two runs
    edit.edit(Some(Key::Backspace));
    assert_eq!(shown(&edit), vec!["fobar".to_owned()]);
    assert_eq!(at(&edit), (2, 0));
    edit.edit(Some(Key::Right));
    edit.edit(Some(Key::Backspace));
    assert_eq!(shown(&edit), vec!["foar".to_owned()]);
    assert_eq!(at(&edit), (2, 0));
}

#[test]
fn delete_past_last_char_of_last_line_does_nothing() {
    let mut edit = TextEdit::default().rows(&rows(&["test"])).cursor(4, 0);
    edit.edit(Some(Key::Delete));
    assert_eq!(shown(&edit), vec!["test".to_owned()]);
    assert_eq!(at(&edit), (4, 0));
}

#[test]
fn delete_removes_char_under_cursor() {
    let mut edit = TextEdit::default().rows(&rows(&["test"])).cursor(1, 0);
    edit.edit(Some(Key::Delete));
    assert_eq!(shown(&edit), vec!["tst".to_owned()]);
    assert_eq!(at(&edit), (1, 0));
}

#[test]
fn delete_at_line_end_pulls_next_line_up() {
    let mut edit = TextEdit::default().rows(&rows(&["foo", "bar", "baz"])).cursor(3, 0);
    edit.edit(Some(Key::Delete));
    assert_eq!(shown(&edit), vec!["foobar".to_owned(), "baz".to_owned()]);
    assert_eq!(at(&edit), (3, 0));
}

#[test]
fn cursor_out_of_range_is_pulled_in() {
    let edit = TextEdit::default().rows(&rows(&["ab", "cdef"])).cursor(5, 0);
    assert_eq!(at(&edit), (2, 0));
    let edit = edit.cursor(1, 9);
    assert_eq!(at(&edit), (1, 1));
    let edit = edit.cursor(9, 9);
    assert_eq!(at(&edit), (4, 1));
}

#[test]
fn new_text_pulls_the_cursor_in() {
    let edit = TextEdit::default().rows(&rows(&["ab", "cdef"])).cursor(4, 1);
    let edit = edit.rows(&rows(&["xy"]));
    assert_eq!(shown(&edit), vec!["xy".to_owned()]);
    assert_eq!(at(&edit), (2, 0));
}

#[test]
fn no_rows_give_one_empty_line() {
    let edit = TextEdit::default().rows(&Vec::new());
    assert_eq!(shown(&edit), vec![String::new()]);
    assert_eq!(at(&edit), (0, 0));
}

#[test]
fn text_is_broken_into_lines() {
    let edit = TextEdit::default().text("foo\nbar".to_owned());
    assert_eq!(shown(&edit), vec!["foo".to_owned(), "bar".to_owned()]);
    assert_eq!(edit.document().line(0).unwrap().spans.len(), 1);
    assert_eq!(edit.document().line(1).unwrap().spans.len(), 1);
}

#[test]
fn empty_text_is_one_empty_line() {
    let edit = TextEdit::default().text(String::new());
    assert_eq!(shown(&edit), vec![String::new()]);
    assert_eq!(at(&edit), (0, 0));
}

#[test]
fn text_with_blank_line_keeps_it() {
    let edit = TextEdit::default().text("a\n\nb".to_owned());
    assert_eq!(shown(&edit), vec!["a".to_owned(), String::new(), "b".to_owned()]);
    assert!(edit.document().line(1).unwrap().spans.len() >= 1);
}

#[test]
fn arrows_at_the_edges_change_nothing() {
    let mut edit = TextEdit::default().rows(&rows(&["ab", "cd"])).cursor(0, 0);
    edit.edit(Some(Key::Left));
    assert_eq!(at(&edit), (0, 0));
    edit.edit(Some(Key::Up));
    assert_eq!(at(&edit), (0, 0));
    let mut edit = edit.cursor(2, 1);
    edit.edit(Some(Key::Right));
    assert_eq!(at(&edit), (2, 1));
    edit.edit(Some(Key::Down));
    assert_eq!(at(&edit), (2, 1));
    assert_eq!(shown(&edit), vec!["ab".to_owned(), "cd".to_owned()]);
}

#[test]
fn left_and_right_move_one_column() {
    let mut edit = TextEdit::default().rows(&rows(&["ab", "cd"])).cursor(1, 0);
    edit.edit(Some(Key::Right));
    assert_eq!(at(&edit), (2, 0));
    edit.edit(Some(Key::Right));
    assert_eq!(at(&edit), (2, 0));
    edit.edit(Some(Key::Left));
    edit.edit(Some(Key::Left));
    assert_eq!(at(&edit), (0, 0));
}

#[test]
fn up_and_down_snap_the_column_and_forget_it() {
    let mut edit = TextEdit::default().rows(&rows(&["abcdef", "xy"])).cursor(5, 0);
    edit.edit(Some(Key::Down));
    assert_eq!(at(&edit), (2, 1));
    edit.edit(Some(Key::Up));
    assert_eq!(at(&edit), (2, 0));
}

#[test]
fn unknown_key_and_idle_tick_change_nothing() {
    let mut edit = TextEdit::default().rows(&rows(&["ab"])).cursor(1, 0);
    edit.edit(Some(Key::Other));
    edit.edit(None);
    assert_eq!(shown(&edit), vec!["ab".to_owned()]);
    assert_eq!(at(&edit), (1, 0));
}

#[test]
fn typing_then_backspace_restores_everything() {
    let mut edit = TextEdit::default().rows(&rows(&["foo", "bar"])).cursor(0, 1);
    edit.edit(Some(Key::Backspace));
    for x in 0..=6 {
        let mut e = TextEdit::default().rows(&rows(&["foo", "bar"])).cursor(0, 1);
        e.edit(Some(Key::Backspace));
        let mut e = e.cursor(x, 0);
        let spans_before = e.document().line(0).unwrap().spans.clone();
        e.edit(Some(Key::Char('#')));
        assert_eq!(at(&e), (x + 1, 0));
        assert_eq!(e.document().line(0).unwrap().width(), Some(7));
        e.edit(Some(Key::Backspace));
        assert_eq!(at(&e), (x, 0));
        assert_eq!(e.document().line(0).unwrap().spans, spans_before);
    }
    assert_eq!(shown(&edit), vec!["foobar".to_owned()]);
}

#[test]
fn cursor_stays_inside_through_a_run_of_keys() {
    let keys = [
        Key::Down, Key::Right, Key::Right, Key::Enter, Key::Char('q'), Key::Up, Key::Up,
        Key::Backspace, Key::Backspace, Key::Delete, Key::Delete, Key::Delete, Key::Down,
        Key::Down, Key::Down, Key::Enter, Key::Enter, Key::Backspace, Key::Left, Key::Left,
        Key::Backspace, Key::Other, Key::Up, Key::Right, Key::Delete, Key::Backspace,
        Key::Backspace, Key::Backspace, Key::Backspace, Key::Backspace, Key::Delete,
        Key::Delete, Key::Delete, Key::Delete, Key::Delete, Key::Delete, Key::Delete,
    ];
    let mut edit = TextEdit::default().rows(&rows(&["ab", "", "cdef"])).cursor(1, 0);
    assert!(inside(&edit));
    for k in keys {
        edit.edit(Some(k));
        assert!(inside(&edit));
        for y in 0..edit.document().line_count() {
            assert!(edit.document().line(y).unwrap().spans.len() >= 1);
        }
    }
}

#[test]
fn a_copy_of_the_widget_is_edited_alone() {
    let edit = TextEdit::default().rows(&rows(&["ab"])).cursor(1, 0);
    let mut copy = edit.clone();
    copy.edit(Some(Key::Char('x')));
    assert_eq!(shown(&copy), vec!["axb".to_owned()]);
    assert_eq!(shown(&edit), vec!["ab".to_owned()]);
    assert_eq!(at(&edit), (1, 0));
}

#[test]
fn keys_act_on_the_text_as_on_plain_rows() {
    let mut edit = TextEdit::default().rows(&rows(&["foo", "bar"])).cursor(0, 1);
    edit.edit(Some(Key::Backspace));
    edit.edit(Some(Key::Char('-')));
    assert_eq!(shown(&edit), vec!["foo-bar".to_owned()]);
    edit.edit(Some(Key::Delete));
    assert_eq!(shown(&edit), vec!["foo-ar".to_owned()]);
    edit.edit(Some(Key::Left));
    edit.edit(Some(Key::Left));
    edit.edit(Some(Key::Enter));
    assert_eq!(shown(&edit), vec!["fo".to_owned(), "o-ar".to_owned()]);
    assert_eq!(at(&edit), (0, 1));
}
