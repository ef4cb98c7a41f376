use lopdf::{Dictionary, Object};
use pdft::model::document::{
    date_readable_exec, escape_pdf_text, format_pdf_date, metadata_line, metadata_line_checked,
    PdfDocument,
};

fn name(s: &str) -> Object {
    Object::Name(s.as_bytes().to_vec())
}

fn pdf_with_pages(n: usize) -> Vec<u8> {
    let mut doc = lopdf::Document::with_version("1.5");
    let pages_id = doc.new_object_id();
    let mut kids = Vec::new();
    for _ in 0..n {
        let mut page = Dictionary::new();
        page.set("Type", name("Page"));
        page.set("Parent", Object::Reference(pages_id));
        page.set(
            "MediaBox",
            Object::Array(vec![
                Object::Integer(0),
                Object::Integer(0),
                Object::Integer(612),
                Object::Integer(792),
            ]),
        );
        kids.push(Object::Reference(doc.add_object(Object::Dictionary(page))));
    }
    let mut pages = Dictionary::new();
    pages.set("Type", name("Pages"));
    pages.set("Count", Object::Integer(n as i64));
    pages.set("Kids", Object::Array(kids));
    doc.objects.insert(pages_id, Object::Dictionary(pages));
    let mut catalog = Dictionary::new();
    catalog.set("Type", name("Catalog"));
    catalog.set("Pages", Object::Reference(pages_id));
    let catalog_id = doc.add_object(Object::Dictionary(catalog));
    doc.trailer.set("Root", Object::Reference(catalog_id));
    let mut out = Vec::new();
    doc.save_to(&mut out).unwrap();
    out
}

#[test]
fn opens_pdf_bytes() {
    let bytes = pdf_with_pages(3);
    let doc = PdfDocument::from_bytes("/tmp/some/report.pdf", bytes.clone()).unwrap();
    assert_eq!(doc.page_count(), 3);
    assert_eq!(doc.label_string(), "report.pdf");
    assert_eq!(doc.path_string(), "/tmp/some/report.pdf");
    assert_eq!(doc.raw_bytes(), Some(bytes.as_slice()));
}

#[test]
fn refuses_bytes_that_are_no_pdf() {
    let err = PdfDocument::from_bytes("notes.txt", b"hello".to_vec()).err().unwrap();
    assert_eq!(err, "failed to parse PDF: notes.txt");
}

#[test]
fn pruned_copy_drops_pages() {
    let doc = PdfDocument::from_bytes("a.pdf", pdf_with_pages(4)).unwrap();
    let copy = doc.pruned_copy(&[2, 4]).unwrap();
    assert_eq!(copy.get_pages().len(), 2);
    assert_eq!(doc.pruned_copy(&[]).unwrap().get_pages().len(), 4);
    assert_eq!(doc.page_count(), 4);
}

#[test]
fn refresh_bytes_reserializes_the_document() {
    let mut doc = PdfDocument::from_bytes("a.pdf", pdf_with_pages(2)).unwrap();
    doc.refresh_bytes().unwrap();
    let again = PdfDocument::from_bytes("b.pdf", doc.raw_bytes().unwrap().to_vec()).unwrap();
    assert_eq!(again.page_count(), 2);
}

#[test]
fn date_with_time() {
    assert_eq!(format_pdf_date("D:20240101120000"), "2024-01-01 12:00");
    assert_eq!(format_pdf_date("D:20231231235959+01'00'"), "2023-12-31 23:59");
}

#[test]
fn date_at_midnight_has_no_time() {
    assert_eq!(format_pdf_date("D:20240101000000"), "2024-01-01");
    assert_eq!(format_pdf_date("D:20240101"), "2024-01-01");
}

#[test]
fn date_without_prefix() {
    assert_eq!(format_pdf_date("19991231"), "1999-12-31");
}

#[test]
fn short_date_is_kept() {
    assert_eq!(format_pdf_date("D:2024"), "2024");
    assert_eq!(format_pdf_date(""), "");
}

#[test]
fn date_with_partial_time_defaults_missing_minutes() {
    assert_eq!(format_pdf_date("D:202401011"), "2024-01-01");
    assert_eq!(format_pdf_date("D:2024010113"), "2024-01-01 13:00");
}

#[test]
fn escapes_parentheses_and_backslash() {
    assert_eq!(escape_pdf_text("a(b)c\\d"), "a\\(b\\)c\\\\d");
    assert_eq!(escape_pdf_text("plain"), "plain");
    assert_eq!(escape_pdf_text(""), "");
}

#[test]
fn metadata_text_is_trimmed() {
    assert_eq!(
        metadata_line_checked("Title", "Title", b"  My Doc  "),
        Some(Some("Title: My Doc".to_string()))
    );
    assert_eq!(metadata_line("Author", "Author", b"   "), None);
}

#[test]
fn metadata_dates_are_readable() {
    assert_eq!(
        metadata_line_checked("CreationDate", "Created", b"D:20240101120000"),
        Some(Some("Created: 2024-01-01 12:00".to_string()))
    );
    assert_eq!(
        metadata_line_checked("ModDate", "Modified", b"D:20240315"),
        Some(Some("Modified: 2024-03-15".to_string()))
    );
}

#[test]
fn metadata_in_utf16() {
    let raw = [0xFE, 0xFF, 0x00, 0x48, 0x00, 0xE9, 0x00, 0x21];
    assert_eq!(metadata_line("Title", "Title", &raw), Some("Title: Hé!".to_string()));
}

#[test]
fn metadata_invalid_utf8_is_replaced() {
    assert_eq!(
        metadata_line("Producer", "Producer", b"ab\xffc"),
        Some("Producer: ab\u{fffd}c".to_string())
    );
}

#[test]
fn date_that_cannot_be_read() {
    assert!(!date_readable_exec("D:123é5678"));
    assert!(date_readable_exec("D:1234é678"));
    assert!(date_readable_exec("D:12é"));
    assert_eq!(metadata_line_checked("ModDate", "Modified", "D:123é5678".as_bytes()), None);
    assert_eq!(
        metadata_line_checked("Title", "Title", "D:123é5678".as_bytes()),
        Some(Some("Title: D:123é5678".to_string()))
    );
}

#[test]
fn info_shows_page_count() {
    let doc = PdfDocument::from_bytes("simple.pdf", pdf_with_pages(1)).unwrap();
    let text = format!("Pages: {}", doc.page_count());
    assert!(text.contains("Pages: 1"), "expected page count in: {text}");
}

#[test]
fn split_produces_smaller_file() {
    let doc = PdfDocument::from_bytes("columns.pdf", pdf_with_pages(2)).unwrap();
    let mut split = pdft::ops::split::split_document(doc.lopdf(), &[0]).unwrap();
    let mut out = Vec::new();
    split.save_to(&mut out).unwrap();
    assert!(out.len() < doc.raw_bytes().unwrap().len(), "split output is not smaller");
    assert_eq!(split.get_pages().len(), 1);
}

#[test]
fn pruned_copy_keeps_the_other_pages_in_order() {
    let doc = PdfDocument::from_bytes("a.pdf", pdf_with_pages(4)).unwrap();
    let ids: Vec<_> = doc.lopdf().get_pages().into_values().collect();
    let copy = doc.pruned_copy(&[1, 3]).unwrap();
    let kept: Vec<_> = copy.get_pages().into_values().collect();
    assert_eq!(kept, vec![ids[1], ids[3]]);
}

#[test]
fn refresh_bytes_writes_the_serialization_and_keeps_the_document() {
    let mut doc = PdfDocument::from_bytes("a.pdf", pdf_with_pages(3)).unwrap();
    let before: Vec<_> = doc.lopdf().get_pages().into_values().collect();
    doc.refresh_bytes().unwrap();
    let mut expected = Vec::new();
    doc.clone_lopdf().save_to(&mut expected).unwrap();
    assert_eq!(doc.raw_bytes().unwrap(), expected.as_slice());
    let after: Vec<_> = doc.lopdf().get_pages().into_values().collect();
    assert_eq!(before, after);
}
