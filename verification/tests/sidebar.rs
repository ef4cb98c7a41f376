use pdft::app::{App, SearchState};
use pdft::model::page_ref::{PageRef, PageSlot};
use pdft::tui::sidebar::{sidebar_item, sidebar_title, ItemStyle};

fn app_with_pages(n: usize) -> App {
    let mut app = App::new();
    for i in 0..n {
        app.workspace.pages.push(PageSlot {
            source: PageRef { doc_id: 0, page_num: i },
            output_target: None,
            marked_for_delete: false,
        });
    }
    app
}

#[test]
fn current_page_line() {
    let app = app_with_pages(3);
    assert_eq!(sidebar_item(&app, 0), (">   1".to_string(), ItemStyle::Selected));
    assert_eq!(sidebar_item(&app, 2), ("    3".to_string(), ItemStyle::Normal));
}

#[test]
fn marks_and_groups_on_the_line() {
    let mut app = app_with_pages(120);
    let id = app.get_or_create_group('q');
    app.workspace.pages[5].output_target = Some(id);
    app.workspace.pages[7].marked_for_delete = true;
    assert_eq!(sidebar_item(&app, 5), ("    6 q".to_string(), ItemStyle::Normal));
    assert_eq!(sidebar_item(&app, 7), (" ×  8".to_string(), ItemStyle::Deleted));
    assert_eq!(sidebar_item(&app, 119).0, "  120");
}

#[test]
fn visual_selection_and_search_styles() {
    let mut app = app_with_pages(6);
    app.visual_anchor = Some(1);
    app.workspace.selected_page = 3;
    app.workspace.pages[2].marked_for_delete = true;
    app.search = Some(SearchState {
        query: "x".to_string(),
        matches: vec![(5, 2)],
        current_match: 0,
        current_page_match_positions: Vec::new(),
    });
    assert_eq!(sidebar_item(&app, 2).1, ItemStyle::Visual);
    assert_eq!(sidebar_item(&app, 3).1, ItemStyle::Selected);
    assert_eq!(sidebar_item(&app, 5).1, ItemStyle::SearchMatch);
    assert_eq!(sidebar_item(&app, 0).1, ItemStyle::Normal);
    assert_eq!(sidebar_title(&app), " Visual ");
    app.visual_anchor = None;
    assert_eq!(sidebar_item(&app, 2).1, ItemStyle::Deleted);
    assert_eq!(sidebar_title(&app), " Pages ");
}
