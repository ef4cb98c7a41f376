use pdft::render::text_layout::{
    count_matches_exec, extract_text, find_match_positions, page_match_count, text_grid,
    PlacedChar, POINT,
};

fn glyphs(x_pt: f64, y_pt: f64, advance_pt: f64, text: &str) -> Vec<PlacedChar> {
    let unit = POINT as f64;
    let mut out = Vec::new();
    let mut x = x_pt;
    for c in text.chars() {
        out.push(PlacedChar {
            x: (x * unit).round() as i64,
            y: (y_pt * unit).round() as i64,
            next_x: ((x + advance_pt) * unit).round() as i64,
            ch: c.to_string(),
        });
        x += advance_pt;
    }
    out
}

#[test]
fn counts_non_overlapping_matches() {
    assert_eq!(count_matches_exec("abab ab", "ab"), 3);
    assert_eq!(count_matches_exec("aaa", "aa"), 1);
    assert_eq!(count_matches_exec("abc", "x"), 0);
    assert_eq!(count_matches_exec("abc", "abcd"), 0);
}

#[test]
fn empty_query_matches_between_all_characters() {
    assert_eq!(count_matches_exec("abc", ""), "abc".matches("").count());
    assert_eq!(count_matches_exec("", ""), 1);
}

#[test]
fn plain_text_in_reading_order() {
    let mut chars = glyphs(10.0, 50.0, 6.0, "second");
    chars.extend(glyphs(10.0, 20.0, 6.0, "first"));
    assert_eq!(extract_text(&chars), "firstsecond");
}

#[test]
fn plain_text_orders_a_line_left_to_right() {
    let mut chars = glyphs(100.0, 20.0, 6.0, "right");
    chars.extend(glyphs(10.0, 20.0, 6.0, "left"));
    assert_eq!(extract_text(&chars), "leftright");
}

#[test]
fn page_matches_ignore_case() {
    let mut chars = glyphs(10.0, 20.0, 6.0, "Hello hello");
    chars.extend(glyphs(10.0, 40.0, 6.0, "HELLO"));
    assert_eq!(page_match_count(&chars, "hello"), 3);
    assert_eq!(page_match_count(&chars, "bye"), 0);
}

#[test]
fn match_positions_are_line_fractions() {
    let unit = POINT as i64;
    let mut chars = glyphs(10.0, 100.0, 6.0, "alpha beta");
    chars.extend(glyphs(10.0, 200.0, 6.0, "gamma"));
    chars.extend(glyphs(10.0, 300.0, 6.0, "Beta again"));
    let positions = find_match_positions(&mut chars, 400 * unit, "BETA");
    assert_eq!(positions, vec![250_000, 750_000]);
}

#[test]
fn match_positions_of_empty_query() {
    let mut chars = glyphs(10.0, 100.0, 6.0, "alpha");
    assert!(find_match_positions(&mut chars, 400 * POINT as i64, "").is_empty());
}

#[test]
fn match_positions_stay_within_the_page() {
    let unit = POINT as i64;
    let mut chars = glyphs(10.0, 500.0, 6.0, "low");
    assert_eq!(find_match_positions(&mut chars, 400 * unit, "low"), vec![1_000_000]);
}

#[test]
fn grid_of_an_empty_page() {
    let mut chars: Vec<PlacedChar> = Vec::new();
    let rows = text_grid(&mut chars, 80);
    assert!(rows.iter().all(|r| r.trim().is_empty()));
}

#[test]
fn grid_keeps_words_of_a_line_apart() {
    let mut chars = glyphs(72.0, 72.0, 6.0, "left");
    chars.extend(glyphs(300.0, 72.0, 6.0, "right"));
    let rows = text_grid(&mut chars, 80);
    let line = rows.iter().find(|r| r.contains("left")).unwrap();
    assert!(line.contains("right"));
    let l = line.find("left").unwrap();
    let r = line.find("right").unwrap();
    assert!(r > l + 5, "words run together in {line:?}");
}

#[test]
fn grid_rows_fit_the_width() {
    let mut chars = glyphs(10.0, 20.0, 6.0, "a line that runs on well past the right edge of a narrow grid");
    chars.extend(glyphs(400.0, 40.0, 6.0, "far right"));
    let rows = text_grid(&mut chars, 20);
    assert!(!rows.is_empty());
    assert!(rows.iter().all(|r| r.chars().count() <= 20), "{rows:?}");
}
