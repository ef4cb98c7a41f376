use pdft::tui::page_view::{match_tick_cells, PageViewState};

fn view_with_lines(n: usize) -> PageViewState {
    let mut v = PageViewState::new();
    v.text_lines = Some((0, (0..n).map(|i| format!("{i}")).collect()));
    v
}

#[test]
fn new_view_is_empty() {
    let v = PageViewState::new();
    assert!(v.protocol.is_none());
    assert!(v.text_lines.is_none());
    assert_eq!(v.text_scroll, 0);
}

#[test]
fn scroll_down_stops_at_last_screen() {
    let mut v = view_with_lines(30);
    v.scroll_down(5, 10);
    assert_eq!(v.text_scroll, 5);
    v.scroll_down(100, 10);
    assert_eq!(v.text_scroll, 20);
}

#[test]
fn scroll_down_without_text_does_nothing() {
    let mut v = PageViewState::new();
    v.scroll_down(5, 10);
    assert_eq!(v.text_scroll, 0);
}

#[test]
fn short_text_does_not_scroll() {
    let mut v = view_with_lines(5);
    v.scroll_down(3, 10);
    assert_eq!(v.text_scroll, 0);
}

#[test]
fn scroll_up_stops_at_top() {
    let mut v = view_with_lines(30);
    v.text_scroll = 4;
    v.scroll_up(3);
    assert_eq!(v.text_scroll, 1);
    v.scroll_up(3);
    assert_eq!(v.text_scroll, 0);
}

#[test]
fn ticks_beside_the_image() {
    // Image drawn at column 10, rows 2..42 of an area starting at column 0, row 0.
    let cells = match_tick_cells(&[0, 250_000, 1_000_000], 0, 0, 50, 10, 2, 40);
    assert_eq!(cells, vec![(9, 2), (9, 12), (9, 42)]);
}

#[test]
fn ticks_round_to_the_nearest_row() {
    let cells = match_tick_cells(&[512_500, 512_499], 0, 0, 50, 0, 0, 10);
    assert_eq!(cells, vec![(0, 5), (0, 5)]);
    let cells = match_tick_cells(&[550_000], 0, 0, 50, 0, 0, 10);
    assert_eq!(cells, vec![(0, 6)]);
}

#[test]
fn ticks_outside_the_area_are_dropped() {
    let cells = match_tick_cells(&[0, 1_000_000], 0, 5, 10, 3, 0, 40);
    assert_eq!(cells, vec![]);
    assert!(match_tick_cells(&[500_000], 0, 0, 50, 3, 0, 0).is_empty());
}
