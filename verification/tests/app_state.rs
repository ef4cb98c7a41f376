use lopdf::{Dictionary, Object};
use pdft::app::{App, LayoutMode, ViewMode};
use pdft::model::page_ref::{PageRef, PageSlot};

fn app_with_pages(n: usize) -> App {
    let mut app = App::new();
    for i in 0..n {
        app.workspace.pages.push(PageSlot {
            source: PageRef { doc_id: 0, page_num: i },
            output_target: None,
            marked_for_delete: false,
        });
    }
    app
}

#[test]
fn next_page_clamps_at_end() {
    let mut app = app_with_pages(3);
    app.workspace.selected_page = 2;
    app.next_page();
    assert_eq!(app.current_page(), 2);
}

#[test]
fn prev_page_clamps_at_zero() {
    let mut app = app_with_pages(3);
    app.workspace.selected_page = 0;
    app.prev_page();
    assert_eq!(app.current_page(), 0);
}

#[test]
fn navigation_through_pages() {
    let mut app = app_with_pages(5);
    assert_eq!(app.current_page(), 0);
    app.next_page();
    assert_eq!(app.current_page(), 1);
    app.next_page();
    assert_eq!(app.current_page(), 2);
    app.prev_page();
    assert_eq!(app.current_page(), 1);
}

#[test]
fn selected_range_without_visual() {
    let mut app = app_with_pages(5);
    app.workspace.selected_page = 3;
    assert_eq!(app.selected_range(), (3, 3));
}

#[test]
fn selected_range_with_visual_anchor() {
    let mut app = app_with_pages(5);
    app.visual_anchor = Some(1);
    app.workspace.selected_page = 3;
    assert_eq!(app.selected_range(), (1, 3));

    // Anchor after cursor
    app.visual_anchor = Some(4);
    app.workspace.selected_page = 2;
    assert_eq!(app.selected_range(), (2, 4));
}

#[test]
fn is_selected_in_visual_range() {
    let mut app = app_with_pages(5);
    app.visual_anchor = Some(1);
    app.workspace.selected_page = 3;
    assert!(!app.is_selected(0));
    assert!(app.is_selected(1));
    assert!(app.is_selected(2));
    assert!(app.is_selected(3));
    assert!(!app.is_selected(4));
}

#[test]
fn toggle_view_mode() {
    let mut app = App::new();
    assert_eq!(app.view_mode, ViewMode::Image);
    app.toggle_view_mode();
    assert_eq!(app.view_mode, ViewMode::Text);
    app.toggle_view_mode();
    assert_eq!(app.view_mode, ViewMode::Image);
}

#[test]
fn cycle_layout() {
    let mut app = App::new();
    assert_eq!(app.layout_mode, LayoutMode::Normal);
    app.cycle_layout();
    assert_eq!(app.layout_mode, LayoutMode::NoThumbnails);
    app.cycle_layout();
    assert_eq!(app.layout_mode, LayoutMode::ThumbnailsOnly);
    app.cycle_layout();
    assert_eq!(app.layout_mode, LayoutMode::Normal);
}

#[test]
fn get_or_create_group_reuses_existing() {
    let mut app = app_with_pages(3);
    let id1 = app.get_or_create_group('a');
    let id2 = app.get_or_create_group('a');
    assert_eq!(id1, id2);

    let id3 = app.get_or_create_group('b');
    assert_ne!(id1, id3);
}

#[test]
fn save_without_documents_fails() {
    let app = app_with_pages(2);
    match app.save_copy() {
        Err(e) => assert_eq!(e, "no documents loaded"),
        Ok(_) => panic!("a save needs a document"),
    }
    assert_eq!(app.begin_save().err().unwrap(), "no documents loaded");
}

#[test]
fn finish_save_reports_and_clears_marks() {
    let mut app = app_with_pages(4);
    app.workspace.pages[1].marked_for_delete = true;
    app.workspace.pages[3].marked_for_delete = true;
    app.finish_save("/tmp/out.pdf", &[1, 3]);
    assert_eq!(app.status_message.as_deref(), Some("Saved 2 pages → /tmp/out.pdf"));
    assert!(app.workspace.pages.iter().all(|p| !p.marked_for_delete));
}

#[test]
fn group_pages_to_delete_keeps_listed_pages() {
    let app = app_with_pages(5);
    assert_eq!(app.group_pages_to_delete(&[2, 4]), vec![1, 3, 5]);
    assert_eq!(app.group_pages_to_delete(&[]), vec![1, 2, 3, 4, 5]);
}

#[test]
fn prepare_group_saves_one_entry_per_group() {
    let mut app = app_with_pages(4);
    let a = app.get_or_create_group('a');
    app.workspace.pages[0].output_target = Some(a);
    app.workspace.pages[2].output_target = Some(a);
    app.workspace.pages[3].marked_for_delete = true;
    app.prepare_group_saves("/docs/report.pdf");
    let saves = &app.pending_group_saves;
    assert_eq!(saves.len(), 2);
    assert_eq!(saves[0].0, "unassigned");
    assert_eq!(saves[0].1, vec![2]);
    assert_eq!(saves[0].2, "/docs/report.pdf");
    assert_eq!(saves[1].0, "group 'a'");
    assert_eq!(saves[1].1, vec![1, 3]);
    assert_eq!(saves[1].2, "/docs/report_a.pdf");
}

#[test]
fn opening_at_a_page_clamps_to_the_document() {
    let mut app = app_with_pages(5);
    app.open_at_page(3);
    assert_eq!(app.current_page(), 2);
    app.open_at_page(40);
    assert_eq!(app.current_page(), 4);
    app.open_at_page(0);
    assert_eq!(app.current_page(), 0);
    let mut empty = App::new();
    empty.open_at_page(2);
    assert_eq!(empty.current_page(), 0);
}

fn pdf_bytes(n: usize) -> Vec<u8> {
    let mut doc = lopdf::Document::with_version("1.5");
    let pages_id = doc.new_object_id();
    let mut kids = Vec::new();
    for _ in 0..n {
        let mut page = Dictionary::new();
        page.set("Type", Object::Name(b"Page".to_vec()));
        page.set("Parent", Object::Reference(pages_id));
        kids.push(Object::Reference(doc.add_object(Object::Dictionary(page))));
    }
    let mut pages = Dictionary::new();
    pages.set("Type", Object::Name(b"Pages".to_vec()));
    pages.set("Count", Object::Integer(n as i64));
    pages.set("Kids", Object::Array(kids));
    doc.objects.insert(pages_id, Object::Dictionary(pages));
    let mut catalog = Dictionary::new();
    catalog.set("Type", Object::Name(b"Catalog".to_vec()));
    catalog.set("Pages", Object::Reference(pages_id));
    let catalog_id = doc.add_object(Object::Dictionary(catalog));
    doc.trailer.set("Root", Object::Reference(catalog_id));
    let mut out = Vec::new();
    doc.save_to(&mut out).unwrap();
    out
}

fn app_with_document(n: usize) -> App {
    let mut app = App::new();
    let doc = pdft::model::document::PdfDocument::from_bytes("/tmp/in.pdf", pdf_bytes(n)).unwrap();
    app.open_document(doc, "/tmp/in.pdf");
    app
}

#[test]
fn group_saves_of_the_example_workspace() {
    let mut app = app_with_pages(4);
    app.workspace.output_targets = vec![pdft::model::page_ref::OutputTarget { path: String::new(), label: "a".into() }];
    app.workspace.pages[1].output_target = Some(0);
    app.workspace.pages[3].output_target = Some(0);
    app.workspace.pages[2].marked_for_delete = true;
    app.prepare_group_saves("/tmp/out.pdf");
    assert_eq!(
        app.pending_group_saves,
        vec![
            ("unassigned".to_string(), vec![1u32], "/tmp/out.pdf".to_string()),
            ("group 'a'".to_string(), vec![2u32, 4], "/tmp/out_a.pdf".to_string()),
        ]
    );
}

#[test]
fn save_writes_one_file_per_group() {
    let mut app = app_with_document(4);
    let ids: Vec<_> = app.workspace.documents[0].lopdf().get_pages().into_values().collect();
    let a = app.get_or_create_group('a');
    app.workspace.pages[1].output_target = Some(a);
    app.workspace.pages[3].output_target = Some(a);
    app.workspace.pages[2].marked_for_delete = true;
    let (deleted, files) = app.save_files("/tmp/base.pdf").unwrap();
    assert_eq!(deleted, vec![2]);
    assert_eq!(files.len(), 2);
    assert_eq!(files[0].0, "/tmp/base.pdf");
    assert_eq!(files[0].1.get_pages().into_values().collect::<Vec<_>>(), vec![ids[0]]);
    assert_eq!(files[1].0, "/tmp/base_a.pdf");
    assert_eq!(files[1].1.get_pages().into_values().collect::<Vec<_>>(), vec![ids[1], ids[3]]);
}

#[test]
fn save_without_groups_writes_the_unmarked_pages() {
    let mut app = app_with_document(3);
    let ids: Vec<_> = app.workspace.documents[0].lopdf().get_pages().into_values().collect();
    app.workspace.pages[1].marked_for_delete = true;
    let (deleted, files) = app.save_files("/tmp/one.pdf").unwrap();
    assert_eq!(deleted, vec![1]);
    assert_eq!(files.len(), 1);
    assert_eq!(files[0].0, "/tmp/one.pdf");
    assert_eq!(files[0].1.get_pages().into_values().collect::<Vec<_>>(), vec![ids[0], ids[2]]);
    assert_eq!(App::new().save_files("/tmp/x.pdf").err(), Some("no documents loaded".to_string()));
}
