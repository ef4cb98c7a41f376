use lopdf::{Dictionary, Object};
use pdft::model::stamp::embed_text_stamp;

fn name(s: &str) -> Object {
    Object::Name(s.as_bytes().to_vec())
}

/// A document with one page; `page` fills in the page dictionary, `parent` the page tree node.
fn one_page(page: impl FnOnce(&mut lopdf::Document, &mut Dictionary), parent: impl FnOnce(&mut lopdf::Document, &mut Dictionary)) -> (lopdf::Document, lopdf::ObjectId) {
    let mut doc = lopdf::Document::with_version("1.5");
    let pages_id = doc.new_object_id();
    let mut p = Dictionary::new();
    p.set("Type", name("Page"));
    p.set("Parent", Object::Reference(pages_id));
    page(&mut doc, &mut p);
    let page_id = doc.add_object(Object::Dictionary(p));
    let mut pages = Dictionary::new();
    pages.set("Type", name("Pages"));
    pages.set("Count", Object::Integer(1));
    pages.set("Kids", Object::Array(vec![Object::Reference(page_id)]));
    parent(&mut doc, &mut pages);
    doc.objects.insert(pages_id, Object::Dictionary(pages));
    let mut catalog = Dictionary::new();
    catalog.set("Type", name("Catalog"));
    catalog.set("Pages", Object::Reference(pages_id));
    let catalog_id = doc.add_object(Object::Dictionary(catalog));
    doc.trailer.set("Root", Object::Reference(catalog_id));
    (doc, page_id)
}

fn has_font(dict: &Dictionary) -> bool {
    dict.get(b"Font").and_then(Object::as_dict).map(|f| f.has(b"PdftFont")).unwrap_or(false)
}

#[test]
fn stamp_on_a_missing_page_fails() {
    let (mut doc, _) = one_page(|_, _| {}, |_, _| {});
    let err = embed_text_stamp(&mut doc, 1, b"BT ET".to_vec()).err().unwrap();
    assert_eq!(err, "page not found");
}

#[test]
fn inline_resources_take_the_font_and_a_single_content_becomes_a_pair() {
    let (mut doc, page_id) = one_page(
        |doc, p| {
            p.set("Resources", Object::Dictionary(Dictionary::new()));
            let c = doc.add_object(lopdf::Stream::new(Dictionary::new(), b"q Q".to_vec()));
            p.set("Contents", Object::Reference(c));
        },
        |_, _| {},
    );
    let old_contents = doc.get_dictionary(page_id).unwrap().get(b"Contents").unwrap().as_reference().unwrap();
    let undo = embed_text_stamp(&mut doc, 0, b"BT ET".to_vec()).unwrap();
    assert_eq!(undo.page_id, page_id);
    assert_eq!(undo.resources_obj_id, None);
    assert_eq!(undo.font_name, b"PdftFont".to_vec());
    let page = doc.get_dictionary(page_id).unwrap();
    assert!(has_font(page.get(b"Resources").unwrap().as_dict().unwrap()));
    let contents = page.get(b"Contents").unwrap().as_array().unwrap();
    assert_eq!(
        contents,
        &vec![Object::Reference(old_contents), Object::Reference(undo.content_obj_id)]
    );
}

#[test]
fn shared_resources_take_the_font_and_an_array_grows() {
    let (mut doc, page_id) = one_page(
        |doc, p| {
            let r = doc.add_object(Object::Dictionary(Dictionary::new()));
            p.set("Resources", Object::Reference(r));
            p.set("Contents", Object::Array(vec![]));
        },
        |_, _| {},
    );
    let res_id = doc.get_dictionary(page_id).unwrap().get(b"Resources").unwrap().as_reference().unwrap();
    let undo = embed_text_stamp(&mut doc, 0, b"BT ET".to_vec()).unwrap();
    assert_eq!(undo.resources_obj_id, Some(res_id));
    assert!(has_font(doc.get_dictionary(res_id).unwrap()));
    let contents = doc.get_dictionary(page_id).unwrap().get(b"Contents").unwrap().as_array().unwrap().clone();
    assert_eq!(contents, vec![Object::Reference(undo.content_obj_id)]);
    assert_eq!(undo.content_obj_id, (doc.max_id, 0));
}

#[test]
fn inherited_resources_take_the_font_and_missing_contents_are_set() {
    let (mut doc, page_id) = one_page(
        |_, _| {},
        |doc, pages| {
            let r = doc.add_object(Object::Dictionary(Dictionary::new()));
            pages.set("Resources", Object::Reference(r));
        },
    );
    let undo = embed_text_stamp(&mut doc, 0, b"BT ET".to_vec()).unwrap();
    let res_id = undo.resources_obj_id.unwrap();
    assert!(has_font(doc.get_dictionary(res_id).unwrap()));
    let page = doc.get_dictionary(page_id).unwrap();
    assert_eq!(page.get(b"Contents").unwrap(), &Object::Reference(undo.content_obj_id));
    assert!(page.get(b"Resources").is_err());
}

#[test]
fn a_text_stamp_records_its_undo() {
    let (mut doc, _) = one_page(|_, _| {}, |_, _| {});
    let mut bytes = Vec::new();
    doc.save_to(&mut bytes).unwrap();
    let mut pdoc = pdft::model::document::PdfDocument::from_bytes("a.pdf", bytes).unwrap();
    assert_eq!(pdoc.add_text_stamp(3, b"BT ET".to_vec()), Err("page not found".to_string()));
    assert!(pdoc.text_stamp_undos.is_empty());
    pdoc.add_text_stamp(0, b"BT ET".to_vec()).unwrap();
    assert_eq!(pdoc.text_stamp_undos.len(), 1);
}

#[test]
fn a_signature_adds_its_mask_and_registers_the_image() {
    let (mut doc, page_id) = one_page(
        |doc, p| {
            let mut xobjects = Dictionary::new();
            xobjects.set("Other", Object::Null);
            let x = doc.add_object(Object::Dictionary(xobjects));
            let mut res = Dictionary::new();
            res.set("XObject", Object::Reference(x));
            let r = doc.add_object(Object::Dictionary(res));
            p.set("Resources", Object::Reference(r));
        },
        |_, _| {},
    );
    let undo = pdft::model::stamp::embed_image_objects(
        &mut doc,
        0,
        vec![255; 12],
        Some(vec![0, 255, 255, 0]),
        2,
        2,
        b"q Q".to_vec(),
    )
    .unwrap();
    assert_eq!(undo.page_id, page_id);
    assert_eq!(undo.page_num, 0);
    assert_eq!(undo.xobj_name, b"PdftSig".to_vec());
    let mask = undo.smask_obj_id.unwrap();
    let image = doc.get_object(undo.img_obj_id).unwrap().as_stream().unwrap();
    assert_eq!(image.dict.get(b"SMask").unwrap(), &Object::Reference(mask));
    let res = doc.get_dictionary(undo.resources_obj_id.unwrap()).unwrap();
    let x = res.get(b"XObject").unwrap().as_reference().unwrap();
    let xobjects = doc.get_dictionary(x).unwrap();
    assert_eq!(xobjects.get(b"PdftSig").unwrap(), &Object::Reference(undo.img_obj_id));
    assert!(xobjects.has(b"Other"));
    let page = doc.get_dictionary(page_id).unwrap();
    assert_eq!(page.get(b"Contents").unwrap(), &Object::Reference(undo.content_obj_id));
}

#[test]
fn an_opaque_signature_has_no_mask_and_goes_into_inline_resources() {
    let (mut doc, page_id) = one_page(|_, _| {}, |_, _| {});
    let undo =
        pdft::model::stamp::embed_image_objects(&mut doc, 0, vec![0; 3], None, 1, 1, b"q Q".to_vec()).unwrap();
    assert_eq!(undo.smask_obj_id, None);
    assert_eq!(undo.resources_obj_id, None);
    let page = doc.get_dictionary(page_id).unwrap();
    let res = page.get(b"Resources").unwrap().as_dict().unwrap();
    let xobjects = res.get(b"XObject").unwrap().as_dict().unwrap();
    assert_eq!(xobjects.get(b"PdftSig").unwrap(), &Object::Reference(undo.img_obj_id));
    assert!(pdft::model::stamp::embed_image_objects(&mut doc, 4, vec![0; 3], None, 1, 1, vec![]).is_err());
}

fn pdf_document(doc: &mut lopdf::Document) -> pdft::model::document::PdfDocument {
    let mut bytes = Vec::new();
    doc.save_to(&mut bytes).unwrap();
    pdft::model::document::PdfDocument::from_bytes("a.pdf", bytes).unwrap()
}

fn page_contents(doc: &lopdf::Document, page: lopdf::ObjectId) -> Vec<Object> {
    doc.get_dictionary(page).unwrap().get(b"Contents").unwrap().as_array().unwrap().clone()
}

#[test]
fn undoing_a_text_stamp_takes_back_its_font_and_stream() {
    let (mut doc, _) = one_page(
        |d, p| {
            let c = d.add_object(lopdf::Stream::new(Dictionary::new(), b"q Q".to_vec()));
            p.set("Contents", Object::Array(vec![Object::Reference(c)]));
            p.set("Resources", Object::Dictionary(Dictionary::new()));
        },
        |_, _| {},
    );
    let mut pdoc = pdf_document(&mut doc);
    assert!(!pdoc.undo_text_stamp());
    pdoc.add_text_stamp(0, b"BT ET".to_vec()).unwrap();
    let page = pdoc.lopdf().get_pages()[&1];
    let stamp = pdoc.text_stamp_undos[0].content_obj_id;
    assert_eq!(page_contents(pdoc.lopdf(), page).len(), 2);
    assert!(pdoc.undo_text_stamp());
    assert!(pdoc.text_stamp_undos.is_empty());
    assert!(pdoc.lopdf().get_object(stamp).is_err());
    let contents = page_contents(pdoc.lopdf(), page);
    assert_eq!(contents.len(), 1);
    assert!(!contents.contains(&Object::Reference(stamp)));
    let res = pdoc.lopdf().get_dictionary(page).unwrap().get(b"Resources").unwrap().as_dict().unwrap().clone();
    assert!(!has_font(&res));
}

#[test]
fn undoing_a_signature_takes_back_its_image_and_name() {
    let (mut doc, _) = one_page(
        |d, p| {
            let c = d.add_object(lopdf::Stream::new(Dictionary::new(), b"q Q".to_vec()));
            p.set("Contents", Object::Array(vec![Object::Reference(c)]));
            p.set("Resources", Object::Dictionary(Dictionary::new()));
        },
        |_, _| {},
    );
    let mut pdoc = pdf_document(&mut doc);
    assert!(!pdoc.undo_signature());
    pdoc.add_signature_objects(0, vec![0, 0, 255, 0, 0, 255], Some(vec![180, 180]), 2, 1, b"q Q".to_vec()).unwrap();
    let page = pdoc.lopdf().get_pages()[&1];
    let (content, img, smask) = {
        let u = &pdoc.signature_undos[0];
        (u.content_obj_id, u.img_obj_id, u.smask_obj_id.unwrap())
    };
    assert!(pdoc.undo_signature());
    assert!(pdoc.signature_undos.is_empty());
    assert!(pdoc.lopdf().get_object(content).is_err());
    assert!(pdoc.lopdf().get_object(img).is_err());
    assert!(pdoc.lopdf().get_object(smask).is_err());
    assert_eq!(page_contents(pdoc.lopdf(), page).len(), 1);
    let res = pdoc.lopdf().get_dictionary(page).unwrap().get(b"Resources").unwrap().as_dict().unwrap().clone();
    let has_sig = res.get(b"XObject").and_then(Object::as_dict).map(|x| x.has(b"PdftSig")).unwrap_or(false);
    assert!(!has_sig);
}
