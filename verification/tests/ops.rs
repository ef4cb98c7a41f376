use lopdf::{Dictionary, Object};
use pdft::model::document::PdfDocument;
use pdft::model::page_ref::{OutputTarget, PageRef, PageSlot};
use pdft::model::workspace::Workspace;
use pdft::ops::delete::{delete_from_document, delete_plan, insert_sorted_u32};
use pdft::ops::save::{group_active_pages, save_workspace_plan};
use pdft::ops::split::{split_document, split_plan, unkept_list};

fn name(s: &str) -> Object {
    Object::Name(s.as_bytes().to_vec())
}

fn pdf_with_pages(n: usize) -> lopdf::Document {
    let mut doc = lopdf::Document::with_version("1.5");
    let pages_id = doc.new_object_id();
    let mut kids = Vec::new();
    for _ in 0..n {
        let mut page = Dictionary::new();
        page.set("Type", name("Page"));
        page.set("Parent", Object::Reference(pages_id));
        kids.push(Object::Reference(doc.add_object(Object::Dictionary(page))));
    }
    let mut pages = Dictionary::new();
    pages.set("Type", name("Pages"));
    pages.set("Count", Object::Integer(n as i64));
    pages.set("Kids", Object::Array(kids));
    doc.objects.insert(pages_id, Object::Dictionary(pages));
    let mut catalog = Dictionary::new();
    catalog.set("Type", name("Catalog"));
    catalog.set("Pages", Object::Reference(pages_id));
    let catalog_id = doc.add_object(Object::Dictionary(catalog));
    doc.trailer.set("Root", Object::Reference(catalog_id));
    doc
}

fn pdf_bytes(n: usize) -> Vec<u8> {
    let mut doc = pdf_with_pages(n);
    let mut out = Vec::new();
    doc.save_to(&mut out).unwrap();
    out
}

fn slot(i: usize, target: Option<usize>, deleted: bool) -> PageSlot {
    PageSlot {
        source: PageRef { doc_id: 0, page_num: i },
        output_target: target,
        marked_for_delete: deleted,
    }
}

#[test]
fn insert_sorted_keeps_order_without_duplicates() {
    let mut v = vec![2, 5, 9];
    insert_sorted_u32(&mut v, 7);
    insert_sorted_u32(&mut v, 1);
    insert_sorted_u32(&mut v, 5);
    assert_eq!(v, vec![1, 2, 5, 7, 9]);
}

#[test]
fn delete_plan_numbers_valid_pages() {
    assert_eq!(delete_plan(&[3, 0, 3, 10], 5), Ok(vec![1, 4]));
}

#[test]
fn delete_plan_errors() {
    assert_eq!(delete_plan(&[7, 8], 5), Err("no valid pages to delete".to_string()));
    assert_eq!(delete_plan(&[], 5), Err("no valid pages to delete".to_string()));
    assert_eq!(delete_plan(&[0, 1, 2], 3), Err("cannot delete all pages from a document".to_string()));
}

#[test]
fn delete_from_document_removes_pages() {
    let mut doc = pdf_with_pages(5);
    assert_eq!(delete_from_document(&mut doc, &[0, 2]), Ok(2));
    assert_eq!(doc.get_pages().len(), 3);
    assert_eq!(
        delete_from_document(&mut doc, &[0, 1, 2]),
        Err("cannot delete all pages from a document".to_string())
    );
    assert_eq!(doc.get_pages().len(), 3);
}

#[test]
fn split_plan_lists_pages_to_drop() {
    assert_eq!(split_plan(&[0, 2], 4), Ok(vec![2, 4]));
    assert_eq!(split_plan(&[0, 1, 2, 3], 4), Ok(vec![]));
    assert_eq!(unkept_list(3, &[]), vec![1, 2, 3]);
}

#[test]
fn split_plan_refuses_page_outside_document() {
    assert_eq!(
        split_plan(&[1, 9, 12], 4),
        Err("page 10 out of range (document has 4 pages)".to_string())
    );
}

#[test]
fn split_document_keeps_listed_pages() {
    let doc = pdf_with_pages(6);
    let out = split_document(&doc, &[1, 3, 5]).unwrap();
    assert_eq!(out.get_pages().len(), 3);
    assert_eq!(doc.get_pages().len(), 6);
    assert!(split_document(&doc, &[6]).is_err());
}

#[test]
fn groups_of_active_pages() {
    let pages = vec![
        slot(0, Some(1), false),
        slot(1, None, false),
        slot(2, Some(0), false),
        slot(3, None, true),
        slot(4, Some(1), false),
    ];
    let groups = group_active_pages(&pages);
    assert_eq!(groups, vec![(None, vec![1]), (Some(0), vec![2]), (Some(1), vec![0, 4])]);
}

#[test]
fn groups_of_nothing() {
    let pages = vec![slot(0, None, true)];
    assert!(group_active_pages(&pages).is_empty());
}

fn workspace_with_document(n: usize) -> Workspace {
    let mut ws = Workspace::new();
    let doc = PdfDocument::from_bytes("in.pdf", pdf_bytes(n)).unwrap();
    ws.open_document(doc);
    ws
}

#[test]
fn save_plan_writes_each_group() {
    let mut ws = workspace_with_document(4);
    let a = ws.add_output_target(OutputTarget { path: "a.pdf".to_string(), label: "a".to_string() });
    ws.pages[1].output_target = Some(a);
    ws.pages[3].marked_for_delete = true;
    let plan = save_workspace_plan(&ws, "out.pdf").unwrap();
    assert_eq!(plan.len(), 2);
    assert_eq!(plan[0].0, "out.pdf");
    assert_eq!(plan[0].2, 2);
    assert_eq!(plan[0].1.get_pages().len(), 2);
    assert_eq!(plan[1].0, "a.pdf");
    assert_eq!(plan[1].2, 1);
    assert_eq!(plan[1].1.get_pages().len(), 1);
}

#[test]
fn save_plan_needs_pages() {
    let mut ws = workspace_with_document(2);
    ws.toggle_delete_batch(&[0, 1]);
    assert_eq!(
        save_workspace_plan(&ws, "out.pdf").err(),
        Some("no pages remaining after deletions".to_string())
    );
}

#[test]
fn save_plan_refuses_several_documents() {
    let mut ws = workspace_with_document(1);
    ws.open_document(PdfDocument::from_bytes("b.pdf", pdf_bytes(1)).unwrap());
    assert_eq!(
        save_workspace_plan(&ws, "out.pdf").err(),
        Some("save with multiple source documents not yet supported in non-interactive mode".to_string())
    );
}

fn page_tree_root(doc: &lopdf::Document) -> lopdf::ObjectId {
    doc.catalog().unwrap().get(b"Pages").unwrap().as_reference().unwrap()
}

#[test]
fn delete_from_document_keeps_the_other_pages_in_order() {
    let mut doc = pdf_with_pages(5);
    let ids: Vec<_> = doc.get_pages().into_values().collect();
    assert_eq!(delete_from_document(&mut doc, &[4, 1, 9]), Ok(2));
    let kept: Vec<_> = doc.get_pages().into_values().collect();
    assert_eq!(kept, vec![ids[0], ids[2], ids[3]]);
}

#[test]
fn delete_refuses_a_parent_cycle() {
    let mut doc = pdf_with_pages(3);
    let root = page_tree_root(&doc);
    doc.get_dictionary_mut(root).unwrap().set("Parent", Object::Reference(root));
    assert_eq!(delete_from_document(&mut doc, &[0]), Err("malformed page tree".to_string()));
    assert_eq!(doc.get_pages().len(), 3);
}

#[test]
fn delete_refuses_a_count_at_the_bottom_of_i64() {
    let mut doc = pdf_with_pages(3);
    let root = page_tree_root(&doc);
    doc.get_dictionary_mut(root).unwrap().set("Count", Object::Integer(i64::MIN));
    assert_eq!(delete_from_document(&mut doc, &[1]), Err("malformed page tree".to_string()));
    assert_eq!(doc.get_pages().len(), 3);
}

#[test]
fn split_document_keeps_listed_pages_in_document_order() {
    let doc = pdf_with_pages(6);
    let ids: Vec<_> = doc.get_pages().into_values().collect();
    let out = split_document(&doc, &[5, 1, 3]).unwrap();
    let kept: Vec<_> = out.get_pages().into_values().collect();
    assert_eq!(kept, vec![ids[1], ids[3], ids[5]]);
}

#[test]
fn split_refuses_a_parent_cycle() {
    let mut doc = pdf_with_pages(3);
    let root = page_tree_root(&doc);
    doc.get_dictionary_mut(root).unwrap().set("Parent", Object::Reference(root));
    assert_eq!(split_document(&doc, &[0]).err(), Some("malformed page tree".to_string()));
    assert_eq!(split_document(&doc, &[0, 1, 2]).unwrap().get_pages().len(), 3);
}

#[test]
fn merge_appends_the_pages_of_each_document() {
    let a = pdf_with_pages(2);
    let b = pdf_with_pages(3);
    let c = pdf_with_pages(1);
    let first: Vec<_> = a.get_pages().into_values().collect();
    let merged = pdft::ops::merge::merge_documents(&[a, b, c]).unwrap();
    let pages: Vec<_> = merged.get_pages().into_values().collect();
    assert_eq!(pages.len(), 6);
    assert_eq!(&pages[..2], first.as_slice());
    let root = page_tree_root(&merged);
    assert_eq!(merged.get_dictionary(root).unwrap().get(b"Count").unwrap(), &Object::Integer(6));
    for id in &pages[2..] {
        assert_eq!(merged.get_dictionary(*id).unwrap().get(b"Parent").unwrap(), &Object::Reference(root));
    }
}

#[test]
fn merge_of_one_document_is_a_copy() {
    let a = pdf_with_pages(4);
    let ids: Vec<_> = a.get_pages().into_values().collect();
    let merged = pdft::ops::merge::merge_documents(&[a]).unwrap();
    assert_eq!(merged.get_pages().into_values().collect::<Vec<_>>(), ids);
}

#[test]
fn merge_needs_a_catalog() {
    let mut a = pdf_with_pages(1);
    a.trailer.remove(b"Root");
    assert_eq!(
        pdft::ops::merge::merge_documents(&[a, pdf_with_pages(1)]).err(),
        Some("no catalog".to_string())
    );
}

#[test]
fn merge_numbers_objects_past_the_highest() {
    let merged = pdft::ops::merge::merge_documents(&[pdf_with_pages(2), pdf_with_pages(2)]).unwrap();
    assert_eq!(merged.max_id, merged.objects.keys().map(|k| k.0).max().unwrap());
    assert_eq!(pdft::ops::merge::highest_number_exec(&vec![(3, 0), (9, 1), (4, 0)]), 9);
    assert_eq!(pdft::ops::merge::highest_number_exec(&vec![]), 0);
}

fn mark_pages(doc: &mut lopdf::Document, base: i64) {
    let ids: Vec<_> = doc.get_pages().into_values().collect();
    for (k, id) in ids.iter().enumerate() {
        doc.get_dictionary_mut(*id).unwrap().set("Mark", Object::Integer(base + k as i64));
    }
}

#[test]
fn merge_keeps_each_documents_pages_in_order() {
    let mut a = pdf_with_pages(2);
    let mut b = pdf_with_pages(3);
    let mut c = pdf_with_pages(2);
    mark_pages(&mut a, 0);
    mark_pages(&mut b, 10);
    mark_pages(&mut c, 20);
    let merged = pdft::ops::merge::merge_documents(&[a, b, c]).unwrap();
    let marks: Vec<i64> = merged
        .get_pages()
        .into_values()
        .map(|id| merged.get_dictionary(id).unwrap().get(b"Mark").unwrap().as_i64().unwrap())
        .collect();
    assert_eq!(marks, vec![0, 1, 10, 11, 12, 20, 21]);
}

#[test]
fn merge_needs_a_pages_reference() {
    let mut a = pdf_with_pages(1);
    let catalog = a.trailer.get(b"Root").unwrap().as_reference().unwrap();
    a.get_dictionary_mut(catalog).unwrap().remove(b"Pages");
    assert_eq!(
        pdft::ops::merge::merge_documents(&[a, pdf_with_pages(1)]).err(),
        Some("failed to find Pages reference in catalog".to_string())
    );
}

#[test]
fn merge_needs_the_pages_object() {
    let mut a = pdf_with_pages(1);
    let root = page_tree_root(&a);
    a.objects.remove(&root);
    assert_eq!(
        pdft::ops::merge::merge_documents(&[a, pdf_with_pages(1)]).err(),
        Some("Pages object not found".to_string())
    );
}

#[test]
fn merge_needs_a_kids_array() {
    let mut a = pdf_with_pages(1);
    let root = page_tree_root(&a);
    a.get_dictionary_mut(root).unwrap().remove(b"Kids");
    assert_eq!(
        pdft::ops::merge::merge_documents(&[a, pdf_with_pages(1)]).err(),
        Some("Pages has no Kids array".to_string())
    );
}

#[test]
fn merge_refuses_a_pages_root_that_is_no_dictionary() {
    let mut a = pdf_with_pages(1);
    let root = page_tree_root(&a);
    a.objects.insert(root, Object::Integer(3));
    assert!(pdft::ops::merge::merge_documents(&[a, pdf_with_pages(1)]).is_err());
}
