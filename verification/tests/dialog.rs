use pdft::tui::dialog::{char_len_utf8, InputDialog};

#[test]
fn new_dialog_is_closed_and_empty() {
    let d = InputDialog::new("Save", "Save as:");
    assert_eq!(d.title, "Save");
    assert_eq!(d.prompt, "Save as:");
    assert_eq!(d.input, "");
    assert_eq!(d.cursor, 0);
    assert!(!d.active);
}

#[test]
fn open_clears_previous_input() {
    let mut d = InputDialog::new("t", "p");
    d.open_with("old.pdf");
    d.open();
    assert_eq!(d.input, "");
    assert_eq!(d.cursor, 0);
    assert!(d.active);
}

#[test]
fn open_with_puts_cursor_at_end_in_bytes() {
    let mut d = InputDialog::new("t", "p");
    d.open_with("résumé.pdf");
    assert_eq!(d.input, "résumé.pdf");
    assert_eq!(d.cursor, "résumé.pdf".len());
    assert!(d.active);
}

#[test]
fn typing_and_backspace_edit_at_the_cursor() {
    let mut d = InputDialog::new("t", "p");
    d.open();
    d.insert_char('a');
    d.insert_char('é');
    d.insert_char('b');
    assert_eq!(d.input, "aéb");
    assert_eq!(d.cursor, 4);
    d.backspace();
    assert_eq!(d.input, "aé");
    assert_eq!(d.cursor, 3);
    d.backspace();
    assert_eq!(d.input, "a");
    assert_eq!(d.cursor, 1);
}

#[test]
fn backspace_at_start_does_nothing() {
    let mut d = InputDialog::new("t", "p");
    d.open_with("x");
    d.cursor = 0;
    d.backspace();
    assert_eq!(d.input, "x");
    assert_eq!(d.cursor, 0);
}

#[test]
fn insert_in_the_middle() {
    let mut d = InputDialog::new("t", "p");
    d.open_with("ac");
    d.cursor = 1;
    d.insert_char('b');
    assert_eq!(d.input, "abc");
    assert_eq!(d.cursor, 2);
}

#[test]
fn backspace_undoes_a_typed_character() {
    let mut d = InputDialog::new("t", "p");
    d.open_with("ab€");
    d.cursor = 2;
    d.insert_char('€');
    d.backspace();
    assert_eq!(d.input, "ab€");
    assert_eq!(d.cursor, 2);
}

#[test]
fn take_input_closes_and_empties() {
    let mut d = InputDialog::new("t", "p");
    d.open_with("out.pdf");
    let s = d.take_input();
    assert_eq!(s, "out.pdf");
    assert_eq!(d.input, "");
    assert!(!d.active);
}

#[test]
fn close_keeps_input() {
    let mut d = InputDialog::new("t", "p");
    d.open_with("x");
    d.close();
    assert!(!d.active);
    assert_eq!(d.input, "x");
}

#[test]
fn utf8_widths() {
    assert_eq!(char_len_utf8('a'), 1);
    assert_eq!(char_len_utf8('é'), 2);
    assert_eq!(char_len_utf8('€'), 3);
    assert_eq!(char_len_utf8('😀'), 4);
}

#[test]
fn prompt_line_shows_everything_when_it_fits() {
    let mut d = InputDialog::new("t", "Go:");
    d.open_with("12");
    let (p, before, cur, after) = d.prompt_line(20);
    assert_eq!(p, "Go: ");
    assert_eq!(before, "12");
    assert_eq!(cur, ' ');
    assert_eq!(after, "");
}

#[test]
fn prompt_line_cursor_inside_text() {
    let mut d = InputDialog::new("t", "Go:");
    d.open_with("abcd");
    d.cursor = 1;
    let (_, before, cur, after) = d.prompt_line(20);
    assert_eq!(before, "a");
    assert_eq!(cur, 'b');
    assert_eq!(after, "cd");
}

#[test]
fn prompt_line_scrolls_to_keep_cursor_visible() {
    // "Go: " takes 4 cells, one is kept free: 5 cells for the text.
    let mut d = InputDialog::new("t", "Go:");
    d.open_with("abcdefghij");
    let (_, before, cur, after) = d.prompt_line(10);
    assert_eq!(before, "ghij");
    assert_eq!(cur, ' ');
    assert_eq!(after, "");
}

#[test]
fn prompt_line_cuts_the_rest_after_the_cursor() {
    let mut d = InputDialog::new("t", "Go:");
    d.open_with("abcdefghij");
    d.cursor = 0;
    let (_, before, cur, after) = d.prompt_line(10);
    assert_eq!(before, "");
    assert_eq!(cur, 'a');
    assert_eq!(after, "bcde");
}
