use pdft::app::{App, LayoutMode, Mode, SearchState, TextScroll, ViewMode};
use pdft::model::page_ref::{PageRef, PageSlot};
use pdft::tui::dialog::InputDialog;
use pdft::tui::input::{
    continue_save_input, finish_group_save, finish_merge, handle_key, save_failed, IoRequest,
    KeyCode, KeyEvent,
};

fn app_with_pages(n: usize) -> App {
    let mut app = App::new();
    for i in 0..n {
        app.workspace.pages.push(PageSlot {
            source: PageRef { doc_id: 0, page_num: i },
            output_target: None,
            marked_for_delete: false,
        });
    }
    app
}

fn key(c: char) -> KeyEvent {
    KeyEvent { code: KeyCode::Char(c), ctrl: false }
}

fn code(code: KeyCode) -> KeyEvent {
    KeyEvent { code, ctrl: false }
}

fn dialog() -> InputDialog {
    InputDialog::new("", "")
}

fn press(app: &mut App, d: &mut InputDialog, k: KeyEvent) -> bool {
    let h = handle_key(app, k, d);
    assert!(h.request.is_none());
    h.consumed
}

fn type_text(app: &mut App, d: &mut InputDialog, s: &str) {
    for c in s.chars() {
        press(app, d, key(c));
    }
}

#[test]
fn ctrl_c_quits_even_in_a_dialog() {
    let mut app = app_with_pages(2);
    let mut d = dialog();
    d.open();
    assert!(press(&mut app, &mut d, KeyEvent { code: KeyCode::Char('c'), ctrl: true }));
    assert!(app.should_quit);
}

#[test]
fn q_quits_and_esc_leaves_visual_mode_first() {
    let mut app = app_with_pages(2);
    let mut d = dialog();
    press(&mut app, &mut d, key('v'));
    assert_eq!(app.visual_anchor, Some(0));
    press(&mut app, &mut d, code(KeyCode::Esc));
    assert_eq!(app.visual_anchor, None);
    assert!(!app.should_quit);
    press(&mut app, &mut d, code(KeyCode::Esc));
    assert!(app.should_quit);
    let mut app = app_with_pages(2);
    press(&mut app, &mut d, key('q'));
    assert!(app.should_quit);
}

#[test]
fn movement_keys() {
    let mut app = app_with_pages(5);
    let mut d = dialog();
    press(&mut app, &mut d, key('j'));
    press(&mut app, &mut d, code(KeyCode::Down));
    assert_eq!(app.current_page(), 2);
    press(&mut app, &mut d, key('k'));
    assert_eq!(app.current_page(), 1);
    press(&mut app, &mut d, key('G'));
    assert_eq!(app.current_page(), 4);
    press(&mut app, &mut d, key('g'));
    assert!(app.pending_g);
    press(&mut app, &mut d, key('g'));
    assert_eq!(app.current_page(), 0);
    press(&mut app, &mut d, code(KeyCode::End));
    assert_eq!(app.current_page(), 4);
    press(&mut app, &mut d, code(KeyCode::Home));
    assert_eq!(app.current_page(), 0);
}

#[test]
fn g_then_other_key_is_swallowed() {
    let mut app = app_with_pages(5);
    let mut d = dialog();
    app.workspace.selected_page = 3;
    press(&mut app, &mut d, key('g'));
    assert!(press(&mut app, &mut d, key('j')));
    assert_eq!(app.current_page(), 3);
    assert!(!app.pending_g);
}

#[test]
fn text_scroll_keys_only_in_text_view() {
    let mut app = app_with_pages(2);
    let mut d = dialog();
    press(&mut app, &mut d, key('l'));
    assert_eq!(app.text_scroll, TextScroll::NoScroll);
    press(&mut app, &mut d, key('t'));
    assert_eq!(app.view_mode, ViewMode::Text);
    press(&mut app, &mut d, key('l'));
    assert_eq!(app.text_scroll, TextScroll::Lines(3));
    press(&mut app, &mut d, key('h'));
    assert_eq!(app.text_scroll, TextScroll::Lines(-3));
    press(&mut app, &mut d, code(KeyCode::PageDown));
    assert_eq!(app.text_scroll, TextScroll::Lines(20));
    press(&mut app, &mut d, code(KeyCode::PageUp));
    assert_eq!(app.text_scroll, TextScroll::Lines(-20));
}

#[test]
fn unknown_key_is_not_consumed() {
    let mut app = app_with_pages(2);
    let mut d = dialog();
    assert!(!press(&mut app, &mut d, key('z')));
    assert!(!press(&mut app, &mut d, code(KeyCode::Other)));
    assert!(press(&mut app, &mut d, key('w')));
    assert_eq!(app.layout_mode, LayoutMode::NoThumbnails);
}

#[test]
fn help_is_closed_by_any_key() {
    let mut app = app_with_pages(2);
    let mut d = dialog();
    press(&mut app, &mut d, key('?'));
    assert!(app.show_help);
    press(&mut app, &mut d, key('j'));
    assert!(!app.show_help);
    assert_eq!(app.current_page(), 0);
}

#[test]
fn d_marks_the_visual_range_and_clears_groups() {
    let mut app = app_with_pages(5);
    let mut d = dialog();
    press(&mut app, &mut d, key('a'));
    press(&mut app, &mut d, key('b'));
    assert!(app.workspace.pages[0].output_target.is_some());
    app.workspace.selected_page = 1;
    press(&mut app, &mut d, key('v'));
    press(&mut app, &mut d, key('j'));
    press(&mut app, &mut d, key('j'));
    app.workspace.selected_page = 0;
    press(&mut app, &mut d, key('x'));
    let marks: Vec<bool> = app.workspace.pages.iter().map(|p| p.marked_for_delete).collect();
    assert_eq!(marks, vec![true, true, false, false, false]);
    assert!(app.workspace.pages[0].output_target.is_none());
    assert_eq!(app.visual_anchor, None);
}

#[test]
fn assign_group_then_toggle_it_off() {
    let mut app = app_with_pages(3);
    let mut d = dialog();
    press(&mut app, &mut d, key('d'));
    assert!(app.workspace.pages[0].marked_for_delete);
    press(&mut app, &mut d, key('a'));
    assert_eq!(app.status_message.as_deref(), Some("Assign to group: a-z"));
    press(&mut app, &mut d, key('c'));
    assert_eq!(app.status_message.as_deref(), Some("Assigned 1 page(s) to group 'c'"));
    assert!(!app.workspace.pages[0].marked_for_delete);
    let id = app.workspace.pages[0].output_target.unwrap();
    assert_eq!(app.workspace.output_targets[id].label, "c");
    press(&mut app, &mut d, key('a'));
    press(&mut app, &mut d, key('c'));
    assert_eq!(app.status_message.as_deref(), Some("Cleared group 'c' from 1 page(s)"));
    assert!(app.workspace.pages[0].output_target.is_none());
}

#[test]
fn assign_cancelled_by_other_key() {
    let mut app = app_with_pages(3);
    let mut d = dialog();
    press(&mut app, &mut d, key('a'));
    press(&mut app, &mut d, key('Z'));
    assert_eq!(app.status_message.as_deref(), Some("Assign cancelled"));
    assert!(!app.pending_assign);
    assert!(app.workspace.output_targets.is_empty());
}

#[test]
fn undo_with_nothing_to_undo() {
    let mut app = app_with_pages(3);
    let mut d = dialog();
    press(&mut app, &mut d, key('u'));
    assert_eq!(app.status_message.as_deref(), Some("Nothing to undo"));
    press(&mut app, &mut d, key('d'));
    press(&mut app, &mut d, key('u'));
    assert!(!app.workspace.pages[0].marked_for_delete);
}

#[test]
fn goto_page_dialog() {
    let mut app = app_with_pages(10);
    let mut d = dialog();
    press(&mut app, &mut d, key(':'));
    assert_eq!(app.mode, Mode::GotoPage);
    assert!(d.active);
    assert_eq!(d.prompt, "Page:");
    type_text(&mut app, &mut d, " 7 ");
    press(&mut app, &mut d, code(KeyCode::Enter));
    assert_eq!(app.current_page(), 6);
    assert_eq!(app.mode, Mode::Normal);
    assert!(!d.active);
}

#[test]
fn goto_page_errors() {
    let mut app = app_with_pages(10);
    let mut d = dialog();
    press(&mut app, &mut d, key(':'));
    type_text(&mut app, &mut d, "11");
    press(&mut app, &mut d, code(KeyCode::Enter));
    assert_eq!(app.status_message.as_deref(), Some("Page 11 out of range (1-10)"));
    press(&mut app, &mut d, key(':'));
    type_text(&mut app, &mut d, "x");
    press(&mut app, &mut d, code(KeyCode::Enter));
    assert_eq!(app.status_message.as_deref(), Some("Invalid page number"));
}

#[test]
fn dialog_editing_and_escape() {
    let mut app = app_with_pages(10);
    let mut d = dialog();
    press(&mut app, &mut d, key(':'));
    type_text(&mut app, &mut d, "12");
    press(&mut app, &mut d, code(KeyCode::Backspace));
    assert_eq!(d.input, "1");
    press(&mut app, &mut d, code(KeyCode::Esc));
    assert!(!d.active);
    assert_eq!(app.mode, Mode::Normal);
    assert_eq!(app.current_page(), 0);
}

#[test]
fn search_dialog_sets_and_clears_query() {
    let mut app = app_with_pages(3);
    let mut d = dialog();
    press(&mut app, &mut d, key('/'));
    assert_eq!(app.mode, Mode::SearchInput);
    type_text(&mut app, &mut d, " foo ");
    press(&mut app, &mut d, code(KeyCode::Enter));
    assert_eq!(app.search.as_ref().unwrap().query, "foo");
    assert!(app.search.as_ref().unwrap().matches.is_empty());
    press(&mut app, &mut d, key('/'));
    press(&mut app, &mut d, code(KeyCode::Enter));
    assert!(app.search.is_none());
    assert_eq!(app.status_message.as_deref(), Some("Search cleared"));
}

fn with_matches(app: &mut App, matches: Vec<(usize, usize)>) {
    app.search = Some(SearchState {
        query: "x".to_string(),
        matches,
        current_match: 0,
        current_page_match_positions: Vec::new(),
    });
}

#[test]
fn next_and_previous_match() {
    let mut app = app_with_pages(10);
    let mut d = dialog();
    with_matches(&mut app, vec![(1, 2), (4, 1), (8, 3)]);
    app.workspace.selected_page = 4;
    press(&mut app, &mut d, key('n'));
    assert_eq!(app.current_page(), 8);
    assert_eq!(app.status_message.as_deref(), Some("Match 3/3"));
    assert!(app.scroll_to_match);
    press(&mut app, &mut d, key('n'));
    assert_eq!(app.current_page(), 1);
    press(&mut app, &mut d, key('N'));
    assert_eq!(app.current_page(), 8);
    press(&mut app, &mut d, key('N'));
    assert_eq!(app.current_page(), 4);
    assert_eq!(app.search.as_ref().unwrap().current_match, 1);
}

#[test]
fn next_match_without_results() {
    let mut app = app_with_pages(3);
    let mut d = dialog();
    press(&mut app, &mut d, key('n'));
    assert_eq!(app.status_message.as_deref(), Some("No search results"));
}

#[test]
fn save_without_documents() {
    let mut app = app_with_pages(3);
    let mut d = dialog();
    press(&mut app, &mut d, key('s'));
    assert_eq!(app.status_message.as_deref(), Some("No documents loaded"));
    assert!(!d.active);
}

#[test]
fn merge_asks_for_the_file() {
    let mut app = app_with_pages(1);
    let mut d = dialog();
    press(&mut app, &mut d, key('m'));
    assert_eq!(app.mode, Mode::MergeInput);
    assert_eq!(d.title, "Merge PDF");
    type_text(&mut app, &mut d, " more.pdf ");
    let h = handle_key(&mut app, code(KeyCode::Enter), &mut d);
    match h.request {
        Some(IoRequest::Merge(p)) => assert_eq!(p, "more.pdf"),
        _ => panic!("expected a merge request"),
    }
    assert_eq!(app.mode, Mode::Normal);
    finish_merge(&mut app, "more.pdf", Err("failed to read more.pdf".to_string()));
    assert_eq!(app.status_message.as_deref(), Some("Merge error: failed to read more.pdf"));
}

#[test]
fn save_path_flow_with_overwrite_question() {
    let mut app = app_with_pages(1);
    let mut d = dialog();
    app.mode = Mode::SaveInput;
    d.open_with(" out.pdf ");
    let h = handle_key(&mut app, code(KeyCode::Enter), &mut d);
    let path = match h.request {
        Some(IoRequest::CheckSavePath(p)) => p,
        _ => panic!("expected a path check"),
    };
    assert_eq!(path, "out.pdf");
    assert!(continue_save_input(&mut app, &mut d, &path, true).is_none());
    assert_eq!(app.mode, Mode::SaveConfirm);
    assert_eq!(d.prompt, "File exists. Overwrite? (y/n)");
    assert!(d.active);
    type_text(&mut app, &mut d, "YES");
    let h = handle_key(&mut app, code(KeyCode::Enter), &mut d);
    match h.request {
        Some(IoRequest::Save(p)) => assert_eq!(p, "out.pdf"),
        _ => panic!("expected a save"),
    }
    assert_eq!(app.mode, Mode::Normal);
    assert!(app.pending_save_path.is_none());
    save_failed(&mut app, "disk full");
    assert_eq!(app.status_message.as_deref(), Some("Save error: disk full"));
}

#[test]
fn save_confirm_refused() {
    let mut app = app_with_pages(1);
    let mut d = dialog();
    app.mode = Mode::SaveConfirm;
    app.pending_save_path = Some("out.pdf".to_string());
    d.open();
    type_text(&mut app, &mut d, "n");
    press(&mut app, &mut d, code(KeyCode::Enter));
    assert_eq!(app.status_message.as_deref(), Some("Save cancelled"));
    assert!(app.pending_save_path.is_none());
    assert_eq!(app.mode, Mode::Normal);
}

#[test]
fn new_save_path_goes_straight_to_saving() {
    let mut app = app_with_pages(1);
    let mut d = dialog();
    app.mode = Mode::SaveInput;
    match continue_save_input(&mut app, &mut d, "new.pdf", false) {
        Some(IoRequest::Save(p)) => assert_eq!(p, "new.pdf"),
        _ => panic!("expected a save"),
    }
    assert_eq!(app.mode, Mode::Normal);
}

#[test]
fn group_saves_prompt_one_after_another() {
    let mut app = app_with_pages(4);
    let mut d = dialog();
    app.pending_group_saves = vec![
        ("a".to_string(), vec![1, 2], "doc_a.pdf".to_string()),
        ("b".to_string(), vec![4], "doc_b.pdf".to_string()),
    ];
    app.workspace.pages[2].marked_for_delete = true;
    app.mode = Mode::SaveGroupInput;
    d.open_with("doc_a.pdf");
    let h = handle_key(&mut app, code(KeyCode::Enter), &mut d);
    match h.request {
        Some(IoRequest::SaveGroup(pages, p)) => {
            assert_eq!(pages, vec![1, 2]);
            assert_eq!(p, "doc_a.pdf");
        }
        _ => panic!("expected a group save"),
    }
    finish_group_save(&mut app, &mut d, "doc_a.pdf", Ok(()));
    assert_eq!(app.status_message.as_deref(), Some("Saved a (2 pages) → doc_a.pdf"));
    assert_eq!(app.pending_group_saves.len(), 1);
    assert_eq!(app.mode, Mode::SaveGroupInput);
    assert_eq!(d.prompt, "Save b (1 pages):");
    assert_eq!(d.input, "doc_b.pdf");
    finish_group_save(&mut app, &mut d, "doc_b.pdf", Ok(()));
    assert!(app.pending_group_saves.is_empty());
    assert!(!app.workspace.pages[2].marked_for_delete);
    assert_eq!(app.mode, Mode::Normal);
}

#[test]
fn failed_group_save_drops_the_rest() {
    let mut app = app_with_pages(4);
    let mut d = dialog();
    app.pending_group_saves = vec![
        ("a".to_string(), vec![1], "doc_a.pdf".to_string()),
        ("b".to_string(), vec![2], "doc_b.pdf".to_string()),
    ];
    app.mode = Mode::SaveGroupInput;
    finish_group_save(&mut app, &mut d, "doc_a.pdf", Err("denied".to_string()));
    assert_eq!(app.status_message.as_deref(), Some("Save error: denied"));
    assert!(app.pending_group_saves.is_empty());
    assert_eq!(app.mode, Mode::Normal);
}

#[test]
fn no_key_leaves_a_page_both_marked_and_grouped() {
    let mut app = app_with_pages(4);
    let mut d = dialog();
    let exclusive = |app: &App| app.workspace.pages.iter().all(|p| !(p.marked_for_delete && p.output_target.is_some()));
    // mark pages 0 and 1, then put 1 and 2 in group 'a', then delete 2 and 3
    for k in [key('v'), key('j'), key('d'), key('a'), key('a'), key('v'), key('j'), key('d'), key('j'), key('a'), key('b')] {
        press(&mut app, &mut d, k);
        assert!(exclusive(&app));
    }
    assert!(app.workspace.pages[0].marked_for_delete);
}

#[test]
fn undo_keeps_marks_and_groups_apart_when_it_restores_neither_onto_the_other() {
    let mut app = app_with_pages(3);
    let mut d = dialog();
    let exclusive = |app: &App| app.workspace.pages.iter().all(|p| !(p.marked_for_delete && p.output_target.is_some()));
    // mark page 0, then undo both steps of the deletion
    press(&mut app, &mut d, key('d'));
    assert!(app.workspace.pages[0].marked_for_delete);
    press(&mut app, &mut d, key('u'));
    assert!(exclusive(&app));
    assert!(!app.workspace.pages[0].marked_for_delete);
    press(&mut app, &mut d, key('u'));
    assert!(exclusive(&app));
    // group page 1, then undo the assignment
    press(&mut app, &mut d, key('j'));
    press(&mut app, &mut d, key('a'));
    press(&mut app, &mut d, key('c'));
    assert!(app.workspace.pages[1].output_target.is_some());
    press(&mut app, &mut d, key('u'));
    assert!(exclusive(&app));
    assert!(app.workspace.pages[1].output_target.is_none());
}

#[test]
fn undo_after_grouping_a_marked_page_can_mark_it_again() {
    let mut app = app_with_pages(1);
    let mut d = dialog();
    // delete page 0, then group it (which clears its mark, as a step of its own)
    for k in [key('d'), key('a'), key('b')] {
        press(&mut app, &mut d, k);
    }
    assert!(!app.workspace.pages[0].marked_for_delete);
    assert!(app.workspace.pages[0].output_target.is_some());
    // undoing that clearing marks the grouped page again
    press(&mut app, &mut d, key('u'));
    assert!(app.workspace.pages[0].marked_for_delete && app.workspace.pages[0].output_target.is_some());
}
