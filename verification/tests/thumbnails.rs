use pdft::app::{App, LayoutMode};
use pdft::model::page_ref::{PageRef, PageSlot};
use pdft::tui::thumbnail_bar::{
    grid_layout, group_label, strip_layout, thumb_cell_width, thumb_title, visible_thumb_range,
    ThumbnailBarState, THUMB_CELL_HEIGHT,
};

fn app_with_pages(n: usize) -> App {
    let mut app = App::new();
    for i in 0..n {
        app.workspace.pages.push(PageSlot {
            source: PageRef { doc_id: 0, page_num: i },
            output_target: None,
            marked_for_delete: false,
        });
    }
    app
}

#[test]
fn cell_width_is_seven_fifths_rounded_up() {
    assert_eq!(thumb_cell_width(THUMB_CELL_HEIGHT), 12);
    assert_eq!(thumb_cell_width(10), 14);
    assert_eq!(thumb_cell_width(5), 7);
    assert_eq!(thumb_cell_width(0), 0);
    assert_eq!(thumb_cell_width(1), 2);
}

#[test]
fn cell_width_matches_float_formula() {
    for h in 0u16..2000 {
        let expected = ((h as f32) * 1.4).ceil() as u16;
        assert_eq!(thumb_cell_width(h), expected, "height {h}");
    }
}

#[test]
fn strip_starts_at_first_page() {
    let cells = strip_layout(0, 80, 10, 0, 20);
    assert_eq!(cells, vec![(0, 0, 14), (1, 15, 14), (2, 30, 14), (3, 45, 14), (4, 60, 14)]);
}

#[test]
fn strip_centres_current_page() {
    let cells = strip_layout(0, 80, 10, 10, 20);
    let pages: Vec<usize> = cells.iter().map(|c| c.0).collect();
    assert_eq!(pages, vec![8, 9, 10, 11, 12]);
}

#[test]
fn strip_fills_up_at_the_end() {
    let cells = strip_layout(0, 80, 10, 19, 20);
    let pages: Vec<usize> = cells.iter().map(|c| c.0).collect();
    assert_eq!(pages, vec![15, 16, 17, 18, 19]);
}

#[test]
fn strip_needs_room_and_pages() {
    assert!(strip_layout(0, 9, 10, 0, 20).is_empty());
    assert!(strip_layout(0, 80, 2, 0, 20).is_empty());
    assert!(strip_layout(0, 80, 10, 0, 0).is_empty());
}

#[test]
fn strip_cuts_the_last_cell_at_the_edge() {
    // Two thumbnails of width 14 and their gaps fit across 38 columns.
    let cells = strip_layout(2, 38, 10, 0, 5);
    assert_eq!(cells, vec![(0, 2, 14), (1, 17, 14)]);
}

#[test]
fn grid_fills_rows_of_the_current_screen() {
    let cells = grid_layout(0, 0, 40, 16, 0, 20);
    assert_eq!(
        cells,
        vec![(0, 0, 0), (1, 13, 0), (2, 26, 0), (3, 0, 8), (4, 13, 8), (5, 26, 8)]
    );
    let next = grid_layout(0, 0, 40, 16, 7, 20);
    let pages: Vec<usize> = next.iter().map(|c| c.0).collect();
    assert_eq!(pages, vec![6, 7, 8, 9, 10, 11]);
}

#[test]
fn grid_stops_at_last_page() {
    let cells = grid_layout(1, 1, 40, 16, 19, 20);
    let pages: Vec<usize> = cells.iter().map(|c| c.0).collect();
    assert_eq!(pages, vec![18, 19]);
    assert_eq!(cells[0].1, 1);
    assert_eq!(cells[0].2, 1);
}

#[test]
fn titles() {
    assert_eq!(thumb_title(0, false, None), " 1 ");
    assert_eq!(thumb_title(4, true, None), " 5 × ");
    assert_eq!(thumb_title(4, true, Some("A")), " 5 ×A ");
    assert_eq!(thumb_title(9, false, Some("b")), " 10 b ");
}

#[test]
fn group_label_of_assigned_page() {
    let mut app = app_with_pages(3);
    let id = app.get_or_create_group('a');
    app.workspace.pages[1].output_target = Some(id);
    assert_eq!(group_label(&app, 1), Some("a".to_string()));
    assert_eq!(group_label(&app, 0), None);
    assert_eq!(group_label(&app, 7), None);
}

#[test]
fn visible_range_around_current_page() {
    assert_eq!(visible_thumb_range(LayoutMode::Normal, 10, 100, 80, 24), (6, 15));
    assert_eq!(visible_thumb_range(LayoutMode::Normal, 2, 4, 80, 24), (0, 4));
}

#[test]
fn visible_range_of_grid_screen() {
    // 80 columns less the sidebar: 5 columns; 24 rows less 2: 3 rows.
    assert_eq!(visible_thumb_range(LayoutMode::ThumbnailsOnly, 20, 100, 80, 26), (15, 30));
    assert_eq!(visible_thumb_range(LayoutMode::ThumbnailsOnly, 20, 22, 80, 26), (15, 22));
}

#[test]
fn bar_state_grows_and_clears() {
    let mut s = ThumbnailBarState::new();
    s.ensure_capacity(4);
    assert_eq!(s.images.len(), 4);
    assert!(s.images.iter().all(|i| i.is_none()));
    s.ensure_capacity(2);
    assert_eq!(s.images.len(), 4);
    s.clear();
    assert!(s.images.is_empty());
}

#[test]
fn protocol_made_only_for_cached_images() {
    let picker = ratatui_image::picker::Picker::halfblocks();
    let mut s = ThumbnailBarState::new();
    s.ensure_capacity(3);
    s.images[1] = Some(image::DynamicImage::new_rgba8(4, 4));
    assert!(s.get_protocol(1, &picker).is_some());
    assert!(s.get_protocol(1, &picker).is_some());
    assert!(s.get_protocol(0, &picker).is_none());
    assert!(s.get_protocol(5, &picker).is_none());
}
