use pdft::model::document::FormFieldType;
use pdft::model::form::{collect_field_leaves, FieldLeaf, FieldNode};

fn node(num: u32, title: Option<&str>, ft: Option<&str>, kids: Option<Vec<FieldNode>>, has_rect: bool) -> FieldNode {
    FieldNode {
        obj_id: (num, 0),
        has_title: title.is_some(),
        title: title.unwrap_or("").as_bytes().to_vec(),
        field_type: ft.map(|f| f.as_bytes().to_vec()),
        kids_array: kids.is_some(),
        kids: kids.unwrap_or_default(),
        has_rect,
    }
}

fn summary(leaves: &[FieldLeaf]) -> Vec<(u32, String, FormFieldType, Option<u32>)> {
    leaves.iter().map(|l| (l.obj_id.0, l.name.clone(), l.field_type, l.field_id.map(|f| f.0))).collect()
}

#[test]
fn names_join_the_partial_names_and_types_are_inherited() {
    let tree = node(
        1,
        Some("person"),
        Some("Tx"),
        Some(vec![node(2, Some("first"), None, None, true), node(3, Some("last"), Some("Ch"), None, true)]),
        false,
    );
    let leaves = collect_field_leaves(&vec![tree]);
    assert_eq!(
        summary(&leaves),
        vec![
            (2, "person.first".to_string(), FormFieldType::Text, Some(2)),
            (3, "person.last".to_string(), FormFieldType::Choice, Some(3)),
        ]
    );
}

#[test]
fn widgets_of_one_field_give_one_leaf() {
    let tree = node(
        5,
        Some("agree"),
        Some("Btn"),
        Some(vec![node(6, None, None, None, true), node(7, None, None, None, true)]),
        false,
    );
    let leaves = collect_field_leaves(&vec![tree]);
    assert_eq!(summary(&leaves), vec![(6, "agree".to_string(), FormFieldType::Checkbox, Some(5))]);
}

#[test]
fn a_field_without_names_is_named_by_its_object() {
    let leaves = collect_field_leaves(&vec![node(7, None, Some("Tx"), None, true)]);
    assert_eq!(summary(&leaves), vec![(7, "field_7".to_string(), FormFieldType::Text, None)]);
}

#[test]
fn signatures_and_fields_without_rectangle_or_type_are_left_out() {
    let fields = vec![
        node(1, Some("sig"), Some("Sig"), None, true),
        node(2, Some("norect"), Some("Tx"), None, false),
        node(3, Some("notype"), None, None, true),
        node(4, Some("ok"), Some("Tx"), None, true),
    ];
    let leaves = collect_field_leaves(&fields);
    assert_eq!(summary(&leaves), vec![(4, "ok".to_string(), FormFieldType::Text, Some(4))]);
}

#[test]
fn an_empty_title_adds_no_name_part_but_holds_the_value() {
    let tree = node(1, Some("form"), None, Some(vec![node(2, Some(""), Some("Tx"), None, true)]), false);
    let leaves = collect_field_leaves(&vec![tree]);
    assert_eq!(summary(&leaves), vec![(2, "form".to_string(), FormFieldType::Text, Some(2))]);
}

fn field_doc(field: lopdf::Dictionary) -> (lopdf::Document, lopdf::ObjectId) {
    let mut doc = lopdf::Document::with_version("1.5");
    let id = doc.add_object(lopdf::Object::Dictionary(field));
    (doc, id)
}

#[test]
fn a_text_field_takes_its_value_as_a_string() {
    let mut f = lopdf::Dictionary::new();
    f.set("FT", lopdf::Object::Name(b"Tx".to_vec()));
    f.set("V", lopdf::Object::String(b"old".to_vec(), lopdf::StringFormat::Literal));
    let (mut doc, id) = field_doc(f);
    let (old, appearances) = pdft::model::form::write_field_value(&mut doc, id, b"new").unwrap();
    assert_eq!(old, "old");
    assert!(appearances);
    let d = doc.get_dictionary(id).unwrap();
    assert_eq!(d.get(b"V").unwrap(), &lopdf::Object::String(b"new".to_vec(), lopdf::StringFormat::Literal));
    assert!(d.get(b"AS").is_err());
    let (old, appearances) = pdft::model::form::write_field_value(&mut doc, id, b"").unwrap();
    assert_eq!(old, "new");
    assert!(!appearances);
}

#[test]
fn a_button_takes_its_value_as_a_name_and_appearance_state() {
    let mut f = lopdf::Dictionary::new();
    f.set("FT", lopdf::Object::Name(b"Btn".to_vec()));
    f.set("V", lopdf::Object::Name(b"Off".to_vec()));
    let (mut doc, id) = field_doc(f);
    let (old, appearances) = pdft::model::form::write_field_value(&mut doc, id, b"Yes").unwrap();
    assert_eq!(old, "Off");
    assert!(!appearances);
    let d = doc.get_dictionary(id).unwrap();
    assert_eq!(d.get(b"V").unwrap(), &lopdf::Object::Name(b"Yes".to_vec()));
    assert_eq!(d.get(b"AS").unwrap(), &lopdf::Object::Name(b"Yes".to_vec()));
}

#[test]
fn a_field_without_a_value_had_an_empty_one_and_a_non_dictionary_is_refused() {
    let (mut doc, id) = field_doc(lopdf::Dictionary::new());
    assert_eq!(pdft::model::form::write_field_value(&mut doc, id, b"x").unwrap().0, "");
    let n = doc.add_object(lopdf::Object::Integer(7));
    assert!(pdft::model::form::write_field_value(&mut doc, n, b"x").is_err());
}

#[test]
fn need_appearances_is_set_on_the_referred_form() {
    let mut doc = lopdf::Document::with_version("1.5");
    assert!(pdft::model::form::set_need_appearances(&mut doc).is_err());
    let form = doc.add_object(lopdf::Object::Dictionary(lopdf::Dictionary::new()));
    let mut catalog = lopdf::Dictionary::new();
    catalog.set("AcroForm", lopdf::Object::Reference(form));
    let c = doc.add_object(lopdf::Object::Dictionary(catalog));
    doc.trailer.set("Root", lopdf::Object::Reference(c));
    pdft::model::form::set_need_appearances(&mut doc).unwrap();
    assert_eq!(doc.get_dictionary(form).unwrap().get(b"NeedAppearances").unwrap(), &lopdf::Object::Boolean(true));
}

#[test]
fn an_inline_form_is_left_as_it_is() {
    let mut doc = lopdf::Document::with_version("1.5");
    let mut catalog = lopdf::Dictionary::new();
    catalog.set("AcroForm", lopdf::Object::Dictionary(lopdf::Dictionary::new()));
    let c = doc.add_object(lopdf::Object::Dictionary(catalog));
    doc.trailer.set("Root", lopdf::Object::Reference(c));
    pdft::model::form::set_need_appearances(&mut doc).unwrap();
    let form = doc.get_dictionary(c).unwrap().get(b"AcroForm").unwrap().as_dict().unwrap();
    assert!(form.get(b"NeedAppearances").is_err());
}

fn field_dict(title: &str, kids: Option<Vec<lopdf::ObjectId>>) -> lopdf::Dictionary {
    let mut d = lopdf::Dictionary::new();
    d.set("T", lopdf::Object::String(title.as_bytes().to_vec(), lopdf::StringFormat::Literal));
    if let Some(k) = kids {
        d.set("Kids", lopdf::Object::Array(k.into_iter().map(lopdf::Object::Reference).collect()));
    } else {
        d.set("FT", lopdf::Object::Name(b"Tx".to_vec()));
        d.set("Rect", lopdf::Object::Array(vec![lopdf::Object::Integer(0), lopdf::Object::Integer(0), lopdf::Object::Integer(10), lopdf::Object::Integer(10)]));
    }
    d
}

#[test]
fn the_field_tree_is_read_in_order_passing_over_a_kid_that_points_back_up() {
    let mut doc = lopdf::Document::with_version("1.5");
    let parent = doc.new_object_id();
    let a = doc.add_object(lopdf::Object::Dictionary(field_dict("a", None)));
    let b = doc.add_object(lopdf::Object::Dictionary(field_dict("b", None)));
    let n = doc.add_object(lopdf::Object::Integer(1));
    doc.objects.insert(parent, lopdf::Object::Dictionary(field_dict("p", Some(vec![a, parent, n, b]))));
    let tree = pdft::model::form::read_field_tree(&doc, parent).unwrap();
    assert!(tree.kids_array);
    assert_eq!(tree.title, b"p".to_vec());
    let kids: Vec<_> = tree.kids.iter().map(|k| k.obj_id).collect();
    assert_eq!(kids, vec![a, b]);
    assert!(tree.kids[0].has_rect && !tree.kids[0].kids_array);
    assert_eq!(tree.kids[1].field_type, Some(b"Tx".to_vec()));
    assert!(pdft::model::form::read_field_tree(&doc, n).is_none());
    let leaves = collect_field_leaves(&vec![tree]);
    assert_eq!(leaves.iter().map(|l| l.name.clone()).collect::<Vec<_>>(), vec!["p.a".to_string(), "p.b".to_string()]);
}

#[test]
fn a_leaf_shows_its_holders_value_and_offers_its_options() {
    let mut doc = lopdf::Document::with_version("1.5");
    let mut holder = lopdf::Dictionary::new();
    holder.set("V", lopdf::Object::Name(b"Yes".to_vec()));
    let h = doc.add_object(lopdf::Object::Dictionary(holder));
    let mut normal = lopdf::Dictionary::new();
    normal.set("Off", lopdf::Object::Null);
    normal.set("Yes", lopdf::Object::Null);
    let mut ap = lopdf::Dictionary::new();
    ap.set("N", lopdf::Object::Dictionary(normal));
    let mut widget = lopdf::Dictionary::new();
    widget.set("AP", lopdf::Object::Dictionary(ap));
    widget.set("V", lopdf::Object::String(b"own".to_vec(), lopdf::StringFormat::Literal));
    let w = doc.add_object(lopdf::Object::Dictionary(widget));
    assert_eq!(pdft::model::form::field_value(&doc, w, Some(h)), "Yes");
    assert_eq!(pdft::model::form::field_value(&doc, w, None), "own");
    let empty = doc.add_object(lopdf::Object::Dictionary(lopdf::Dictionary::new()));
    assert_eq!(pdft::model::form::field_value(&doc, w, Some(empty)), "own");
    assert_eq!(pdft::model::form::field_options_exec(&doc, w, FormFieldType::Checkbox), vec!["Yes".to_string()]);
    assert!(pdft::model::form::field_options_exec(&doc, w, FormFieldType::Text).is_empty());
    let mut choice = lopdf::Dictionary::new();
    choice.set(
        "Opt",
        lopdf::Object::Array(vec![
            lopdf::Object::String(b"One".to_vec(), lopdf::StringFormat::Literal),
            lopdf::Object::Array(vec![
                lopdf::Object::String(b"2".to_vec(), lopdf::StringFormat::Literal),
                lopdf::Object::String(b"Two".to_vec(), lopdf::StringFormat::Literal),
            ]),
            lopdf::Object::Integer(3),
        ]),
    );
    let c = doc.add_object(lopdf::Object::Dictionary(choice));
    assert_eq!(
        pdft::model::form::field_options_exec(&doc, c, FormFieldType::Choice),
        vec!["One".to_string(), "Two".to_string()]
    );
}

fn doc_with_catalog(catalog: lopdf::Dictionary) -> lopdf::Document {
    let mut doc = lopdf::Document::with_version("1.5");
    let c = doc.add_object(lopdf::Object::Dictionary(catalog));
    doc.trailer.set("Root", lopdf::Object::Reference(c));
    doc
}

#[test]
fn the_forms_fields_are_the_references_it_lists() {
    let mut doc = lopdf::Document::with_version("1.5");
    let a = doc.add_object(lopdf::Object::Dictionary(lopdf::Dictionary::new()));
    let b = doc.add_object(lopdf::Object::Dictionary(lopdf::Dictionary::new()));
    let mut form = lopdf::Dictionary::new();
    form.set("Fields", lopdf::Object::Array(vec![lopdf::Object::Reference(a), lopdf::Object::Integer(1), lopdf::Object::Reference(b)]));
    let f = doc.add_object(lopdf::Object::Dictionary(form));
    let mut catalog = lopdf::Dictionary::new();
    catalog.set("AcroForm", lopdf::Object::Reference(f));
    let c = doc.add_object(lopdf::Object::Dictionary(catalog));
    doc.trailer.set("Root", lopdf::Object::Reference(c));
    assert_eq!(pdft::model::form::form_field_ids(&doc), Ok(vec![a, b]));
    // a form held inline, its fields in an array object it refers to
    let list = doc.add_object(lopdf::Object::Array(vec![lopdf::Object::Reference(b)]));
    let mut inline = lopdf::Dictionary::new();
    inline.set("Fields", lopdf::Object::Reference(list));
    let mut catalog = lopdf::Dictionary::new();
    catalog.set("AcroForm", lopdf::Object::Dictionary(inline));
    doc.objects.insert(c, lopdf::Object::Dictionary(catalog));
    assert_eq!(pdft::model::form::form_field_ids(&doc), Ok(vec![b]));
}

#[test]
fn a_form_is_refused_without_a_catalog_a_form_or_fields_and_with_xfa() {
    let doc = lopdf::Document::with_version("1.5");
    assert!(pdft::model::form::form_field_ids(&doc).unwrap_err().starts_with("no catalog: "));
    let doc = doc_with_catalog(lopdf::Dictionary::new());
    assert_eq!(pdft::model::form::form_field_ids(&doc), Err("no AcroForm found in this PDF".to_string()));
    let mut form = lopdf::Dictionary::new();
    form.set("XFA", lopdf::Object::Null);
    let mut catalog = lopdf::Dictionary::new();
    catalog.set("AcroForm", lopdf::Object::Dictionary(form));
    assert_eq!(pdft::model::form::form_field_ids(&doc_with_catalog(catalog)), Err("XFA forms not supported".to_string()));
    let mut catalog = lopdf::Dictionary::new();
    catalog.set("AcroForm", lopdf::Object::Dictionary(lopdf::Dictionary::new()));
    assert_eq!(pdft::model::form::form_field_ids(&doc_with_catalog(catalog)), Err("no Fields in AcroForm".to_string()));
    let mut form = lopdf::Dictionary::new();
    form.set("Fields", lopdf::Object::Integer(2));
    let mut catalog = lopdf::Dictionary::new();
    catalog.set("AcroForm", lopdf::Object::Dictionary(form));
    assert_eq!(pdft::model::form::form_field_ids(&doc_with_catalog(catalog)), Err("Fields is not an array".to_string()));
    let mut doc = lopdf::Document::with_version("1.5");
    let n = doc.add_object(lopdf::Object::Integer(5));
    let mut catalog = lopdf::Dictionary::new();
    catalog.set("AcroForm", lopdf::Object::Reference(n));
    let c = doc.add_object(lopdf::Object::Dictionary(catalog));
    doc.trailer.set("Root", lopdf::Object::Reference(c));
    assert!(pdft::model::form::form_field_ids(&doc).unwrap_err().starts_with("AcroForm is not a dict: "));
}
