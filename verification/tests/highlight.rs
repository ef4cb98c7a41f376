use pdft::tui::page_view::highlight_line;

fn spans(line: &str, query: &str) -> Vec<(String, bool)> {
    highlight_line(line, query).expect("the lower-cased line keeps its positions")
}

fn spans_text(line: &str, query: &str) -> Vec<String> {
    spans(line, query).into_iter().map(|s| s.0).collect()
}

#[test]
fn highlight_no_query() {
    let line = spans("hello world", "");
    assert_eq!(line.len(), 1);
    assert_eq!(line[0].0, "hello world");
}

#[test]
fn highlight_no_match() {
    let line = spans("hello world", "xyz");
    assert_eq!(line.len(), 1);
}

#[test]
fn highlight_single_match() {
    assert_eq!(spans_text("hello world", "world"), vec!["hello ", "world"]);
}

#[test]
fn highlight_multiple_matches() {
    assert_eq!(spans_text("abcabc", "abc"), vec!["abc", "abc"]);
}

#[test]
fn highlight_case_insensitive() {
    assert_eq!(spans_text("Hello HELLO", "hello"), vec!["Hello", " ", "HELLO"]);
}

#[test]
fn highlight_ascii_safe() {
    assert_eq!(spans_text("foo bar baz", "bar"), vec!["foo ", "bar", " baz"]);
}

#[test]
fn highlight_multibyte_utf8() {
    let line = spans("café résumé", "é");
    assert!(line.len() > 1);
}

#[test]
fn highlight_at_start() {
    assert_eq!(spans_text("abc def", "abc"), vec!["abc", " def"]);
}

#[test]
fn highlight_marks_only_matches() {
    let line = spans("foo bar baz", "bar");
    let marks: Vec<bool> = line.iter().map(|s| s.1).collect();
    assert_eq!(marks, vec![false, true, false]);
}

#[test]
fn highlight_spans_rebuild_the_line() {
    let line = spans("Résumé of the résumé", "RÉSUMÉ");
    let joined: String = line.iter().map(|s| s.0.clone()).collect();
    assert_eq!(joined, "Résumé of the résumé");
    assert_eq!(line.iter().filter(|s| s.1).count(), 2);
}

#[test]
fn highlight_query_of_only_uppercase_matches_lowercase_text() {
    assert_eq!(spans_text("grand", "AND"), vec!["gr", "and"]);
}
