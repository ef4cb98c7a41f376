use pdft::app::{App, LayoutMode, SearchState, TextScroll, ViewMode};
use pdft::model::page_ref::{PageRef, PageSlot};
use pdft::tui::event_loop::{
    apply_text_scroll, area_to_pixels, main_view_size, needs_search, refresh_after_key,
    scroll_to_match, search_matches, show_search_results, snapshot, status_line,
    text_visible_rows, Refresh,
};
use pdft::tui::page_view::PageViewState;

fn app_with_pages(n: usize) -> App {
    let mut app = App::new();
    for i in 0..n {
        app.workspace.pages.push(PageSlot {
            source: PageRef { doc_id: 0, page_num: i },
            output_target: None,
            marked_for_delete: false,
        });
    }
    app
}

fn search(query: &str, matches: Vec<(usize, usize)>) -> SearchState {
    SearchState {
        query: query.to_string(),
        matches,
        current_match: 0,
        current_page_match_positions: Vec::new(),
    }
}

fn view_with_lines(n: usize) -> PageViewState {
    let mut v = PageViewState::new();
    v.text_lines = Some((0, (0..n).map(|i| format!("line {i}")).collect()));
    v
}

#[test]
fn pixels_of_an_area() {
    assert_eq!(area_to_pixels(80, 24, (8, 16)), (640, 384));
    assert_eq!(area_to_pixels(0, 24, (8, 16)), (1, 384));
    assert_eq!(area_to_pixels(10000, 10000, (100, 100)), (65535, 65535));
}

#[test]
fn view_sizes() {
    assert_eq!(main_view_size(LayoutMode::Normal, 100, 40), (86, 29));
    assert_eq!(main_view_size(LayoutMode::NoThumbnails, 100, 40), (86, 37));
    assert_eq!(main_view_size(LayoutMode::Normal, 10, 5), (0, 0));
    assert_eq!(text_visible_rows(40), 28);
    assert_eq!(text_visible_rows(3), 0);
}

#[test]
fn a_new_query_needs_a_search() {
    let mut app = app_with_pages(3);
    assert!(!needs_search(&app));
    app.search = Some(search("abc", Vec::new()));
    assert!(needs_search(&app));
    app.search = Some(search("abc", vec![(1, 2)]));
    assert!(!needs_search(&app));
    app.search = Some(search("", Vec::new()));
    assert!(!needs_search(&app));
}

#[test]
fn search_without_matches_reports_it() {
    let mut app = app_with_pages(3);
    app.workspace.selected_page = 1;
    show_search_results(&mut app, search("zz", Vec::new()));
    assert_eq!(app.status_message.as_deref(), Some("No matches for 'zz'"));
    assert_eq!(app.workspace.selected_page, 1);
    assert!(app.search.is_some());
}

#[test]
fn search_goes_to_first_match_from_current_page() {
    let mut app = app_with_pages(10);
    app.workspace.selected_page = 4;
    show_search_results(&mut app, search("x", vec![(1, 1), (5, 3), (8, 1)]));
    assert_eq!(app.workspace.selected_page, 5);
    assert_eq!(app.search.as_ref().unwrap().current_match, 1);
    assert_eq!(app.status_message.as_deref(), Some("Match 2/3 for 'x'"));
    assert!(app.scroll_to_match);
}

#[test]
fn search_wraps_to_first_match_when_none_after() {
    let mut app = app_with_pages(10);
    app.workspace.selected_page = 9;
    show_search_results(&mut app, search("x", vec![(1, 1), (5, 3)]));
    assert_eq!(app.workspace.selected_page, 1);
    assert_eq!(app.search.as_ref().unwrap().current_match, 0);
    assert_eq!(app.status_message.as_deref(), Some("Match 1/2 for 'x'"));
}

#[test]
fn text_scroll_lines_and_bounds() {
    let mut app = app_with_pages(1);
    let mut view = view_with_lines(50);
    // 40 rows of terminal leave 28 for text: at most 22 lines of scroll.
    app.text_scroll = TextScroll::Lines(5);
    apply_text_scroll(&mut app, &mut view, 40);
    assert_eq!(view.text_scroll, 5);
    assert_eq!(app.text_scroll, TextScroll::NoScroll);
    app.text_scroll = TextScroll::Bottom;
    apply_text_scroll(&mut app, &mut view, 40);
    assert_eq!(view.text_scroll, 22);
    app.text_scroll = TextScroll::Lines(-30);
    apply_text_scroll(&mut app, &mut view, 40);
    assert_eq!(view.text_scroll, 0);
    view.text_scroll = 7;
    app.text_scroll = TextScroll::Top;
    apply_text_scroll(&mut app, &mut view, 40);
    assert_eq!(view.text_scroll, 0);
}

#[test]
fn no_pending_scroll_changes_nothing() {
    let mut app = app_with_pages(1);
    let mut view = view_with_lines(50);
    view.text_scroll = 3;
    apply_text_scroll(&mut app, &mut view, 40);
    assert_eq!(view.text_scroll, 3);
}

#[test]
fn scroll_to_match_centres_the_match() {
    let mut app = app_with_pages(1);
    app.view_mode = ViewMode::Text;
    app.scroll_to_match = true;
    let mut s = search("x", vec![(0, 1)]);
    s.current_page_match_positions = vec![500_000];
    app.search = Some(s);
    let mut view = view_with_lines(100);
    // Match at half of 100 lines: line 50; 28 visible rows: offset 50 - 14.
    scroll_to_match(&mut app, &mut view, 40);
    assert_eq!(view.text_scroll, 36);
    assert!(!app.scroll_to_match);
}

#[test]
fn scroll_to_match_only_in_text_view() {
    let mut app = app_with_pages(1);
    app.scroll_to_match = true;
    let mut s = search("x", vec![(0, 1)]);
    s.current_page_match_positions = vec![500_000];
    app.search = Some(s);
    let mut view = view_with_lines(100);
    scroll_to_match(&mut app, &mut view, 40);
    assert_eq!(view.text_scroll, 0);
    assert!(!app.scroll_to_match);
}

#[test]
fn status_line_without_documents() {
    let app = App::new();
    let l = status_line(&app, 60);
    assert_eq!(l.filename, " pdft ");
    assert_eq!(l.page_info, " no pages ");
    assert_eq!(l.mode, " [image] ");
    assert_eq!(l.deleted, "");
    assert_eq!(l.search, "");
    assert_eq!(l.status, "");
    assert_eq!(l.padding, 60 - (6 + 1 + 10 + 1 + 9));
}

#[test]
fn status_line_with_marks_search_and_message() {
    let mut app = app_with_pages(4);
    app.workspace.selected_page = 2;
    app.workspace.pages[0].marked_for_delete = true;
    app.workspace.pages[3].marked_for_delete = true;
    app.view_mode = ViewMode::Text;
    let mut s = search("foo", vec![(0, 1), (2, 4)]);
    s.current_match = 1;
    app.search = Some(s);
    app.status_message = Some("Saved".to_string());
    let l = status_line(&app, 10);
    assert_eq!(l.page_info, " page 3/4 ");
    assert_eq!(l.mode, " [text] ");
    assert_eq!(l.deleted, " 2 marked for delete ");
    assert_eq!(l.search, " /foo [2/2, 4 on page]");
    assert_eq!(l.status, " Saved");
    assert_eq!(l.padding, 0);
}

#[test]
fn status_line_search_states() {
    let mut app = app_with_pages(4);
    app.search = Some(search("foo", vec![(2, 4)]));
    assert_eq!(status_line(&app, 80).search, " /foo [1/1]");
    app.search = Some(search("foo", Vec::new()));
    assert_eq!(status_line(&app, 80).search, " /foo [no matches]");
}

#[test]
fn matches_keep_pages_with_hits() {
    assert_eq!(search_matches(&[0, 2, 0, 1]), vec![(1, 2), (3, 1)]);
    assert!(search_matches(&[0, 0]).is_empty());
}

#[test]
fn nothing_to_redo_when_nothing_changed() {
    let app = app_with_pages(3);
    let s = snapshot(&app, false);
    assert_eq!(
        refresh_after_key(s, s),
        Refresh {
            load_documents_from: None,
            clear_screen: false,
            clear_images: false,
            rerender: false,
            reset_scroll: false,
        }
    );
}

#[test]
fn page_change_rerenders_and_resets_scroll() {
    let mut app = app_with_pages(3);
    let before = snapshot(&app, false);
    app.next_page();
    let r = refresh_after_key(before, snapshot(&app, false));
    assert!(r.rerender);
    assert!(r.reset_scroll);
    assert!(!r.clear_screen);
}

#[test]
fn closing_a_dialog_clears_the_screen() {
    let app = app_with_pages(3);
    let r = refresh_after_key(snapshot(&app, true), snapshot(&app, false));
    assert!(r.clear_screen);
    assert!(r.rerender);
    assert!(!r.reset_scroll);
}

#[test]
fn marking_a_page_rerenders() {
    let mut app = app_with_pages(3);
    let before = snapshot(&app, false);
    app.workspace.toggle_delete(0);
    let r = refresh_after_key(before, snapshot(&app, false));
    assert!(r.rerender);
    assert!(!r.clear_images);
}

#[test]
fn of_a_burst_of_keys_the_last_is_handled_and_a_resize_remembered() {
    let k = |c: char| pdft::tui::input::KeyEvent { code: pdft::tui::input::KeyCode::Char(c), ctrl: false };
    let p = pdft::tui::event_loop::coalesce_input(k('j'), &vec![]);
    assert_eq!(p.key, k('j'));
    assert!(!p.resized);
    let p = pdft::tui::event_loop::coalesce_input(k('j'), &vec![pdft::tui::event_loop::QueuedInput::Key(k('k')), pdft::tui::event_loop::QueuedInput::Resize, pdft::tui::event_loop::QueuedInput::Other]);
    assert_eq!(p.key, k('k'));
    assert!(p.resized);
    let p = pdft::tui::event_loop::coalesce_input(k('j'), &vec![pdft::tui::event_loop::QueuedInput::Other, pdft::tui::event_loop::QueuedInput::Key(k('x')), pdft::tui::event_loop::QueuedInput::Key(k('d'))]);
    assert_eq!(p.key, k('d'));
    assert!(!p.resized);
}
