//! The objects of a lopdf document as the library sees them: the kind of the value found
//! from an object through a path of dictionary keys, the references held by an array, and
//! the small reads and writes that stamping, deleting and merging are built from. Every
//! write states what it changes and that nothing outside its path changes.
use vstd::prelude::*;
use crate::model::document::{pdf_count, pdf_object_count, pdf_page_ids};

verus! {

/// The kind of a value found in a PDF object.
#[derive(Debug, Clone, Copy)]
pub enum Entry {
    /// The key is not in the dictionary.
    Missing,
    /// A reference to another object.
    Reference((u32, u16)),
    /// A dictionary.
    Dictionary,
    /// An array.
    Array,
    /// Anything else (a name, a number, a string, a stream, ...).
    Other,
}

/// The kind of an object as stored, before any reference is followed.
#[derive(Debug, Clone, Copy)]
pub enum ObjectKind {
    Dictionary,
    Reference,
    Stream,
    Other,
}

/// The kind of the value found from object `id` (reached as `Document::get_object` does,
/// following references) through the keys of `path`, each key but the last naming a
/// dictionary held inline. With an empty path, the kind of the object itself. `None` when
/// the object cannot be reached, or when the object or a key before the last holds no
/// dictionary.
pub uninterp spec fn pdf_entry(doc: lopdf::Document, id: (u32, u16), path: Seq<Seq<u8>>) -> Option<Entry>;

/// The items of the array found as in `pdf_entry` (`Some` of the referenced id for each
/// reference, `None` for any other item); `None` when that value is not an array.
pub uninterp spec fn pdf_array_refs(doc: lopdf::Document, id: (u32, u16), path: Seq<Seq<u8>>) -> Option<Seq<Option<(u32, u16)>>>;

/// The kind of object `id` as stored in `Document::objects`; `None` when there is none.
pub uninterp spec fn pdf_object_kind(doc: lopdf::Document, id: (u32, u16)) -> Option<ObjectKind>;

/// The highest object number in use (`Document::max_id`).
pub uninterp spec fn pdf_max_id(doc: lopdf::Document) -> u32;

/// The reference under `/Root` in the trailer, when there is one.
pub uninterp spec fn pdf_trailer_root(doc: lopdf::Document) -> Option<(u32, u16)>;

/// The `/Pages` reference of the document's catalog: `None` without a catalog, `Some(None)`
/// when the catalog has no such reference.
pub uninterp spec fn pdf_catalog_pages(doc: lopdf::Document) -> Option<Option<(u32, u16)>>;

/// The `/Type` name of object `id` (`Document::get_dictionary`, `Dictionary::get_type`), when
/// it is a dictionary with one.
pub uninterp spec fn pdf_type_name(doc: lopdf::Document, id: (u32, u16)) -> Option<Seq<u8>>;

/// The document that a copy of `doc` renumbered from `start` is
/// (`Document::clone`, then `Document::renumber_objects_with`).
pub uninterp spec fn pdf_renumbered(doc: lopdf::Document, start: u32) -> lopdf::Document;

/// The empty path.
pub open spec fn p0() -> Seq<Seq<u8>> {
    Seq::empty()
}

/// The path of one key.
pub open spec fn p1(a: Seq<u8>) -> Seq<Seq<u8>> {
    seq![a]
}

/// The path of two keys.
pub open spec fn p2(a: Seq<u8>, b: Seq<u8>) -> Seq<Seq<u8>> {
    seq![a, b]
}

/// The path of three keys.
pub open spec fn p3(a: Seq<u8>, b: Seq<u8>, c: Seq<u8>) -> Seq<Seq<u8>> {
    seq![a, b, c]
}

/// Whether path `p` starts path `q`.
pub open spec fn is_prefix(p: Seq<Seq<u8>>, q: Seq<Seq<u8>>) -> bool {
    p.len() <= q.len() && q.take(p.len() as int) == p
}

/// Whether path `p` starts with a key that `Dictionary::get_type` reads.
pub open spec fn names_type(p: Seq<Seq<u8>>) -> bool {
    p.len() == 0 || p[0] == type_key() || p[0] == linearized_key()
}

/// `b` is `a` but for what lies under path `p` (in any object): every other entry and
/// array, every object's kind and the highest object number are as they were.
pub open spec fn same_outside(a: lopdf::Document, b: lopdf::Document, p: Seq<Seq<u8>>) -> bool {
    &&& forall|i: (u32, u16), q: Seq<Seq<u8>>| !is_prefix(p, q) ==> #[trigger] pdf_entry(b, i, q) == pdf_entry(a, i, q)
    &&& forall|i: (u32, u16), q: Seq<Seq<u8>>| !is_prefix(p, q) ==> #[trigger] pdf_array_refs(b, i, q) == pdf_array_refs(a, i, q)
    &&& forall|i: (u32, u16)| #[trigger] pdf_object_kind(b, i) == pdf_object_kind(a, i)
    &&& pdf_max_id(b) == pdf_max_id(a)
    &&& pdf_trailer_root(b) == pdf_trailer_root(a)
    &&& !is_prefix(p, p1(pages_key())) ==> pdf_catalog_pages(b) == pdf_catalog_pages(a)
    &&& !names_type(p) ==> forall|i: (u32, u16)| #[trigger] pdf_type_name(b, i) == pdf_type_name(a, i)
}

/// `b` is `a` with object `id` added: whatever could be found in `a` is found the same in
/// `b`, and every other object's kind is as it was.
pub open spec fn grown_by(a: lopdf::Document, b: lopdf::Document, id: (u32, u16)) -> bool {
    &&& forall|i: (u32, u16), q: Seq<Seq<u8>>| pdf_entry(a, i, q) is Some ==> #[trigger] pdf_entry(b, i, q) == pdf_entry(a, i, q)
    &&& forall|i: (u32, u16), q: Seq<Seq<u8>>| pdf_array_refs(a, i, q) is Some ==> #[trigger] pdf_array_refs(b, i, q) == pdf_array_refs(a, i, q)
    &&& forall|i: (u32, u16)| i != id ==> #[trigger] pdf_object_kind(b, i) == pdf_object_kind(a, i)
    &&& forall|i: (u32, u16)| pdf_type_name(a, i) is Some ==> #[trigger] pdf_type_name(b, i) == pdf_type_name(a, i)
    &&& pdf_trailer_root(b) == pdf_trailer_root(a)
    &&& pdf_catalog_pages(a) is Some ==> pdf_catalog_pages(b) == pdf_catalog_pages(a)
}

/// `b` is `a` with only the highest object number changed.
pub open spec fn same_but_max(a: lopdf::Document, b: lopdf::Document) -> bool {
    &&& forall|i: (u32, u16), q: Seq<Seq<u8>>| #[trigger] pdf_entry(b, i, q) == pdf_entry(a, i, q)
    &&& forall|i: (u32, u16), q: Seq<Seq<u8>>| #[trigger] pdf_array_refs(b, i, q) == pdf_array_refs(a, i, q)
    &&& forall|i: (u32, u16)| #[trigger] pdf_object_kind(b, i) == pdf_object_kind(a, i)
    &&& forall|i: (u32, u16)| #[trigger] pdf_type_name(b, i) == pdf_type_name(a, i)
    &&& forall|i: (u32, u16)| #[trigger] pdf_count(b, i) == pdf_count(a, i)
    &&& pdf_trailer_root(b) == pdf_trailer_root(a)
    &&& pdf_catalog_pages(b) == pdf_catalog_pages(a)
}

/// Whether the page tree lists exactly `kids` plainly: the trailer's `/Root` is a dictionary
/// object (the catalog) whose `/Pages` refers to another dictionary object (the root), whose
/// own `/Kids` array holds references to exactly `kids`, each once, each a dictionary object
/// of type `Page` other than the catalog and the root.
pub open spec fn pages_listed(doc: lopdf::Document, kids: Seq<(u32, u16)>) -> bool {
    &&& pdf_trailer_root(doc) matches Some(c)
    &&& pdf_object_kind(doc, c) == Some(ObjectKind::Dictionary)
    &&& pdf_catalog_pages(doc) matches Some(Some(root))
    &&& root != c
    &&& pdf_object_kind(doc, root) == Some(ObjectKind::Dictionary)
    &&& pdf_array_refs(doc, root, p1(kids_key())) == Some(kids.map_values(|i: (u32, u16)| Some(i)))
    &&& kids.no_duplicates()
    &&& forall|k: int| 0 <= k < kids.len() ==> {
        &&& pdf_object_kind(doc, #[trigger] kids[k]) == Some(ObjectKind::Dictionary)
        &&& pdf_type_name(doc, kids[k]) == Some(page_key())
        &&& kids[k] != root
        &&& kids[k] != c
    }
}

/// The id the next added object gets: one past the highest number, generation 0.
pub open spec fn next_id(doc: lopdf::Document) -> (u32, u16) {
    ((pdf_max_id(doc) + 1) as u32, 0u16)
}

// ---------------------------------------------------------------------------
// Reads
// ---------------------------------------------------------------------------

/// The kind of object `id` as `Document::get_object` finds it, references followed.
/// Claims that the result is the named one, found only for an object the document holds.
#[verifier::external_body]
pub fn lopdf_entry0(doc: &lopdf::Document, id: (u32, u16)) -> (r: Option<Entry>)
    ensures
        r == pdf_entry(*doc, id, p0()),
        r is Some ==> pdf_object_kind(*doc, id) is Some,
{
    doc.get_object(id).ok().map(|o| match o {
        lopdf::Object::Reference(r) => Entry::Reference(*r),
        lopdf::Object::Dictionary(_) => Entry::Dictionary,
        lopdf::Object::Array(_) => Entry::Array,
        _ => Entry::Other,
    })
}

/// The kind of `/k` in object `id` (`Document::get_object`, `Object::as_dict`,
/// `Dictionary::get`); a failure carries lopdf's message. Claims that it succeeds exactly
/// when the object is a dictionary, with the named kind, an array being found exactly where
/// `pdf_array_refs` finds one.
#[verifier::external_body]
pub fn lopdf_entry1(doc: &lopdf::Document, id: (u32, u16), k: &[u8]) -> (r: Result<Entry, String>)
    ensures
        r is Ok <==> pdf_entry(*doc, id, p0()) == Some(Entry::Dictionary),
        r matches Ok(e) ==> pdf_entry(*doc, id, p1(k@)) == Some(e),
        r matches Ok(e) ==> (e == Entry::Array <==> pdf_array_refs(*doc, id, p1(k@)) is Some),
        r is Err ==> pdf_entry(*doc, id, p1(k@)) is None,
{
    let d = doc.get_object(id).and_then(lopdf::Object::as_dict).map_err(|e| format!("{e}"))?;
    Ok(match d.get(k) {
        Ok(lopdf::Object::Reference(r)) => Entry::Reference(*r),
        Ok(lopdf::Object::Dictionary(_)) => Entry::Dictionary,
        Ok(lopdf::Object::Array(_)) => Entry::Array,
        Ok(_) => Entry::Other,
        Err(_) => Entry::Missing,
    })
}

/// The kind of `/k1 /k2` in object `id`, `/k1` being a dictionary held inline; a failure
/// carries lopdf's message. Claims that it succeeds exactly when `/k1` is a dictionary, with
/// the named kind.
#[verifier::external_body]
pub fn lopdf_entry2(doc: &lopdf::Document, id: (u32, u16), k1: &[u8], k2: &[u8]) -> (r: Result<Entry, String>)
    ensures
        r is Ok <==> pdf_entry(*doc, id, p1(k1@)) == Some(Entry::Dictionary),
        r matches Ok(e) ==> pdf_entry(*doc, id, p2(k1@, k2@)) == Some(e),
        r is Err ==> pdf_entry(*doc, id, p2(k1@, k2@)) is None,
{
    let d = doc.get_object(id).and_then(lopdf::Object::as_dict).and_then(|d| d.get(k1)).and_then(lopdf::Object::as_dict).map_err(|e| format!("{e}"))?;
    Ok(match d.get(k2) {
        Ok(lopdf::Object::Reference(r)) => Entry::Reference(*r),
        Ok(lopdf::Object::Dictionary(_)) => Entry::Dictionary,
        Ok(lopdf::Object::Array(_)) => Entry::Array,
        Ok(_) => Entry::Other,
        Err(_) => Entry::Missing,
    })
}

/// The kind of object `id` as stored (`BTreeMap::get` on `Document::objects`). Claims that
/// the result is the named one.
#[verifier::external_body]
pub fn lopdf_object_kind(doc: &lopdf::Document, id: (u32, u16)) -> (r: Option<ObjectKind>)
    ensures
        r == pdf_object_kind(*doc, id),
{
    doc.objects.get(&id).map(|o| match o {
        lopdf::Object::Dictionary(_) => ObjectKind::Dictionary,
        lopdf::Object::Reference(_) => ObjectKind::Reference,
        lopdf::Object::Stream(_) => ObjectKind::Stream,
        _ => ObjectKind::Other,
    })
}

/// The length of the array `/k` of object `id` (`Document::get_object`, `Object::as_dict`,
/// `Dictionary::get`, `Object::as_array`, `Vec::len`). Claims that it is the length of the
/// array that `pdf_array_refs` describes, and none when there is no such array.
#[verifier::external_body]
pub fn lopdf_array_len1(doc: &lopdf::Document, id: (u32, u16), k: &[u8]) -> (r: Option<usize>)
    ensures
        r is Some <==> pdf_array_refs(*doc, id, p1(k@)) is Some,
        r matches Some(n) ==> n == pdf_array_refs(*doc, id, p1(k@))->0.len(),
{
    doc.get_object(id).and_then(lopdf::Object::as_dict).and_then(|d| d.get(k)).and_then(lopdf::Object::as_array).map(|a| a.len()).ok()
}

/// The highest object number of the document (`Document::max_id`). Claims that the result
/// is the named one.
#[verifier::external_body]
pub fn lopdf_max_id(doc: &lopdf::Document) -> (n: u32)
    ensures
        n == pdf_max_id(*doc),
{
    doc.max_id
}

/// The trailer's `/Root` reference (`Dictionary::get`, `Object::as_reference`). Claims that
/// the result is the named one.
#[verifier::external_body]
pub fn lopdf_trailer_root(doc: &lopdf::Document) -> (r: Option<(u32, u16)>)
    ensures
        r == pdf_trailer_root(*doc),
{
    doc.trailer.get(b"Root").and_then(lopdf::Object::as_reference).ok()
}

/// Read the catalog's `/Pages` reference (`Document::catalog`, `Dictionary::get`,
/// `Object::as_reference`). Claims that the result is the named one, and none without a
/// `/Root` reference in the trailer (where `Document::catalog` starts).
#[verifier::external_body]
pub fn lopdf_catalog_pages(doc: &lopdf::Document) -> (r: Option<Option<(u32, u16)>>)
    ensures
        r == pdf_catalog_pages(*doc),
        pdf_trailer_root(*doc) is None ==> r is None,
{
    let catalog = doc.catalog().ok()?;
    Some(catalog.get(b"Pages").ok().and_then(|p| p.as_reference().ok()))
}

// ---------------------------------------------------------------------------
// Writes
// ---------------------------------------------------------------------------

/// Set `/k` in object `id` to a new empty dictionary (`Document::get_object_mut`,
/// `Object::as_dict_mut`, `Dictionary::set`).
/// Nothing else changes; a failure carries lopdf's message and changes nothing.
#[verifier::external_body]
pub fn lopdf_new_dict1(doc: &mut lopdf::Document, id: (u32, u16), k: &[u8]) -> (r: Result<(), String>)
    ensures
        r is Ok <==> pdf_entry(*old(doc), id, p0()) == Some(Entry::Dictionary),
        r is Ok ==> pdf_entry(*final(doc), id, p1(k@)) == Some(Entry::Dictionary),
        r is Ok ==> forall|x: Seq<u8>| #[trigger] pdf_entry(*final(doc), id, p2(k@, x)) == Some(Entry::Missing),
        r is Err ==> *final(doc) == *old(doc),
        same_outside(*old(doc), *final(doc), p1(k@)),
{
    let d = doc.get_object_mut(id).and_then(lopdf::Object::as_dict_mut).map_err(|e| format!("{e}"))?;
    d.set(k.to_vec(), lopdf::Dictionary::new());
    Ok(())
}

/// Set `/k` in the dictionary `/k1` of object `id` to a new empty dictionary (`Document::get_object_mut`,
/// `Object::as_dict_mut`, `Dictionary::set`).
/// Nothing else changes; a failure carries lopdf's message and changes nothing.
#[verifier::external_body]
pub fn lopdf_new_dict2(doc: &mut lopdf::Document, id: (u32, u16), k1: &[u8], k: &[u8]) -> (r: Result<(), String>)
    ensures
        r is Ok <==> pdf_entry(*old(doc), id, p1(k1@)) == Some(Entry::Dictionary),
        r is Ok ==> pdf_entry(*final(doc), id, p2(k1@, k@)) == Some(Entry::Dictionary),
        r is Ok ==> forall|x: Seq<u8>| #[trigger] pdf_entry(*final(doc), id, p3(k1@, k@, x)) == Some(Entry::Missing),
        r is Err ==> *final(doc) == *old(doc),
        same_outside(*old(doc), *final(doc), p2(k1@, k@)),
{
    let d = doc.get_object_mut(id).and_then(lopdf::Object::as_dict_mut).and_then(|d| d.get_mut(k1)).and_then(lopdf::Object::as_dict_mut).map_err(|e| format!("{e}"))?;
    d.set(k.to_vec(), lopdf::Dictionary::new());
    Ok(())
}

/// Set `/k` in the dictionary `/k1` of object `id` to the dictionary `value` (`Document::get_object_mut`,
/// `Object::as_dict_mut`, `Dictionary::set`).
/// Nothing else changes; a failure carries lopdf's message and changes nothing.
#[verifier::external_body]
pub fn lopdf_put_dict2(doc: &mut lopdf::Document, id: (u32, u16), k1: &[u8], k: &[u8], value: lopdf::Dictionary) -> (r: Result<(), String>)
    ensures
        r is Ok <==> pdf_entry(*old(doc), id, p1(k1@)) == Some(Entry::Dictionary),
        r is Ok ==> pdf_entry(*final(doc), id, p2(k1@, k@)) == Some(Entry::Dictionary),
        r is Err ==> *final(doc) == *old(doc),
        same_outside(*old(doc), *final(doc), p2(k1@, k@)),
{
    let d = doc.get_object_mut(id).and_then(lopdf::Object::as_dict_mut).and_then(|d| d.get_mut(k1)).and_then(lopdf::Object::as_dict_mut).map_err(|e| format!("{e}"))?;
    d.set(k.to_vec(), value);
    Ok(())
}

/// Set `/k` in the dictionary `/k1 /k2` of object `id` to the dictionary `value` (`Document::get_object_mut`,
/// `Object::as_dict_mut`, `Dictionary::set`).
/// Nothing else changes; a failure carries lopdf's message and changes nothing.
#[verifier::external_body]
pub fn lopdf_put_dict3(doc: &mut lopdf::Document, id: (u32, u16), k1: &[u8], k2: &[u8], k: &[u8], value: lopdf::Dictionary) -> (r: Result<(), String>)
    ensures
        r is Ok <==> pdf_entry(*old(doc), id, p2(k1@, k2@)) == Some(Entry::Dictionary),
        r is Ok ==> pdf_entry(*final(doc), id, p3(k1@, k2@, k@)) == Some(Entry::Dictionary),
        r is Err ==> *final(doc) == *old(doc),
        same_outside(*old(doc), *final(doc), p3(k1@, k2@, k@)),
{
    let d = doc.get_object_mut(id).and_then(lopdf::Object::as_dict_mut).and_then(|d| d.get_mut(k1)).and_then(lopdf::Object::as_dict_mut).and_then(|d| d.get_mut(k2)).and_then(lopdf::Object::as_dict_mut).map_err(|e| format!("{e}"))?;
    d.set(k.to_vec(), value);
    Ok(())
}

/// Set `/k` in object `id` to a reference to `target` (`Document::get_object_mut`,
/// `Object::as_dict_mut`, `Dictionary::set`).
/// Nothing else changes; a failure carries lopdf's message and changes nothing.
#[verifier::external_body]
pub fn lopdf_put_ref1(doc: &mut lopdf::Document, id: (u32, u16), k: &[u8], target: (u32, u16)) -> (r: Result<(), String>)
    ensures
        r is Ok <==> pdf_entry(*old(doc), id, p0()) == Some(Entry::Dictionary),
        r is Ok ==> pdf_entry(*final(doc), id, p1(k@)) == Some(Entry::Reference(target)),
        r is Err ==> *final(doc) == *old(doc),
        same_outside(*old(doc), *final(doc), p1(k@)),
{
    let d = doc.get_object_mut(id).and_then(lopdf::Object::as_dict_mut).map_err(|e| format!("{e}"))?;
    d.set(k.to_vec(), lopdf::Object::Reference(target));
    Ok(())
}

/// Set `/k` in the dictionary `/k1` of object `id` to a reference to `target` (`Document::get_object_mut`,
/// `Object::as_dict_mut`, `Dictionary::set`).
/// Nothing else changes; a failure carries lopdf's message and changes nothing.
#[verifier::external_body]
pub fn lopdf_put_ref2(doc: &mut lopdf::Document, id: (u32, u16), k1: &[u8], k: &[u8], target: (u32, u16)) -> (r: Result<(), String>)
    ensures
        r is Ok <==> pdf_entry(*old(doc), id, p1(k1@)) == Some(Entry::Dictionary),
        r is Ok ==> pdf_entry(*final(doc), id, p2(k1@, k@)) == Some(Entry::Reference(target)),
        r is Err ==> *final(doc) == *old(doc),
        same_outside(*old(doc), *final(doc), p2(k1@, k@)),
{
    let d = doc.get_object_mut(id).and_then(lopdf::Object::as_dict_mut).and_then(|d| d.get_mut(k1)).and_then(lopdf::Object::as_dict_mut).map_err(|e| format!("{e}"))?;
    d.set(k.to_vec(), lopdf::Object::Reference(target));
    Ok(())
}

/// Set `/k` in the dictionary `/k1 /k2` of object `id` to a reference to `target` (`Document::get_object_mut`,
/// `Object::as_dict_mut`, `Dictionary::set`).
/// Nothing else changes; a failure carries lopdf's message and changes nothing.
#[verifier::external_body]
pub fn lopdf_put_ref3(doc: &mut lopdf::Document, id: (u32, u16), k1: &[u8], k2: &[u8], k: &[u8], target: (u32, u16)) -> (r: Result<(), String>)
    ensures
        r is Ok <==> pdf_entry(*old(doc), id, p2(k1@, k2@)) == Some(Entry::Dictionary),
        r is Ok ==> pdf_entry(*final(doc), id, p3(k1@, k2@, k@)) == Some(Entry::Reference(target)),
        r is Err ==> *final(doc) == *old(doc),
        same_outside(*old(doc), *final(doc), p3(k1@, k2@, k@)),
{
    let d = doc.get_object_mut(id).and_then(lopdf::Object::as_dict_mut).and_then(|d| d.get_mut(k1)).and_then(lopdf::Object::as_dict_mut).and_then(|d| d.get_mut(k2)).and_then(lopdf::Object::as_dict_mut).map_err(|e| format!("{e}"))?;
    d.set(k.to_vec(), lopdf::Object::Reference(target));
    Ok(())
}

/// Set `/k` in object `id` to the array `[first second]` of references
/// (`Document::get_object_mut`, `Object::as_dict_mut`, `Dictionary::set`).
/// Nothing else changes; a failure carries lopdf's message and changes nothing.
#[verifier::external_body]
pub fn lopdf_put_ref_pair1(doc: &mut lopdf::Document, id: (u32, u16), k: &[u8], first: (u32, u16), second: (u32, u16)) -> (r: Result<(), String>)
    ensures
        r is Ok <==> pdf_entry(*old(doc), id, p0()) == Some(Entry::Dictionary),
        r is Ok ==> pdf_entry(*final(doc), id, p1(k@)) == Some(Entry::Array),
        r is Ok ==> pdf_array_refs(*final(doc), id, p1(k@)) == Some(seq![Some(first), Some(second)]),
        r is Err ==> *final(doc) == *old(doc),
        same_outside(*old(doc), *final(doc), p1(k@)),
{
    let d = doc.get_object_mut(id).and_then(lopdf::Object::as_dict_mut).map_err(|e| format!("{e}"))?;
    d.set(k.to_vec(), vec![lopdf::Object::Reference(first), lopdf::Object::Reference(second)]);
    Ok(())
}

/// Append a reference to `target` to the array `/k` of object `id`
/// (`Document::get_object_mut`, `Object::as_dict_mut`, `Dictionary::get_mut`,
/// `Object::as_array_mut`, `Vec::push`). Nothing else changes; a failure carries lopdf's
/// message and changes nothing.
#[verifier::external_body]
pub fn lopdf_push_ref1(doc: &mut lopdf::Document, id: (u32, u16), k: &[u8], target: (u32, u16)) -> (r: Result<(), String>)
    ensures
        r is Ok <==> pdf_entry(*old(doc), id, p1(k@)) == Some(Entry::Array),
        r is Ok ==> pdf_array_refs(*old(doc), id, p1(k@)) is Some && pdf_array_refs(*final(doc), id, p1(k@))
            == Some(pdf_array_refs(*old(doc), id, p1(k@))->0.push(Some(target))),
        r is Ok ==> pdf_entry(*final(doc), id, p1(k@)) == Some(Entry::Array),
        r is Err ==> *final(doc) == *old(doc),
        same_outside(*old(doc), *final(doc), p1(k@)),
{
    let arr = doc.get_object_mut(id).and_then(lopdf::Object::as_dict_mut).and_then(|d| d.get_mut(k)).and_then(lopdf::Object::as_array_mut).map_err(|e| format!("{e}"))?;
    arr.push(lopdf::Object::Reference(target));
    Ok(())
}

/// Set `/Count` in object `id` to the integer `value` (`Document::get_object_mut`,
/// `Object::as_dict_mut`, `Dictionary::set`). Where the object is stored as a dictionary,
/// `pdf_count` reads the value back. Nothing else changes; a failure carries lopdf's
/// message and changes nothing.
#[verifier::external_body]
pub fn lopdf_put_count(doc: &mut lopdf::Document, id: (u32, u16), value: i64) -> (r: Result<(), String>)
    ensures
        r is Ok <==> pdf_entry(*old(doc), id, p0()) == Some(Entry::Dictionary),
        r is Ok ==> pdf_entry(*final(doc), id, p1(count_key())) == Some(Entry::Other),
        r is Ok && pdf_object_kind(*old(doc), id) == Some(ObjectKind::Dictionary) ==> pdf_count(*final(doc), id) == Some(value),
        r is Err ==> *final(doc) == *old(doc),
        same_outside(*old(doc), *final(doc), p1(count_key())),
{
    let d = doc.get_object_mut(id).and_then(lopdf::Object::as_dict_mut).map_err(|e| format!("{e}"))?;
    d.set("Count", lopdf::Object::Integer(value));
    Ok(())
}

/// The ids of the document's objects (the keys of `Document::objects`). Claims that they are
/// exactly the ids that hold an object.
#[verifier::external_body]
pub fn lopdf_object_ids(doc: &lopdf::Document) -> (v: Vec<(u32, u16)>)
    ensures
        forall|i: (u32, u16)| #[trigger] pdf_object_kind(*doc, i) is Some <==> v@.contains(i),
{
    doc.objects.keys().copied().collect()
}

/// Set the highest object number (`Document::max_id`). Nothing else changes.
#[verifier::external_body]
pub fn lopdf_set_max_id(doc: &mut lopdf::Document, n: u32)
    ensures
        pdf_max_id(*final(doc)) == n,
        same_but_max(*old(doc), *final(doc)),
{
    doc.max_id = n;
}

/// No object of `from` has an id that `into` already uses.
pub open spec fn disjoint_objects(into: lopdf::Document, from: lopdf::Document) -> bool {
    forall|i: (u32, u16)| #[trigger] pdf_object_kind(from, i) is Some ==> pdf_object_kind(into, i) is None
}

/// Copy every object of `from` into `into`, one of the same id being replaced
/// (`BTreeMap::extend` on `Document::objects` with a clone of `from`'s). Claims what the
/// source shows: each object of `from` is now stored in `into`, so a dictionary of `from`
/// reads the same there; the others stay, the trailer and the highest number too; and where
/// no id was shared, whatever could be found in `into` before is found the same.
#[verifier::external_body]
pub fn lopdf_extend_objects(into: &mut lopdf::Document, from: &lopdf::Document)
    ensures
        forall|i: (u32, u16)| #[trigger] pdf_object_kind(*final(into), i) == if pdf_object_kind(*from, i) is Some {
            pdf_object_kind(*from, i)
        } else {
            pdf_object_kind(*old(into), i)
        },
        forall|i: (u32, u16), q: Seq<Seq<u8>>| pdf_object_kind(*from, i) == Some(ObjectKind::Dictionary)
            ==> #[trigger] pdf_entry(*final(into), i, q) == pdf_entry(*from, i, q),
        forall|i: (u32, u16), q: Seq<Seq<u8>>| pdf_object_kind(*from, i) == Some(ObjectKind::Dictionary)
            ==> #[trigger] pdf_array_refs(*final(into), i, q) == pdf_array_refs(*from, i, q),
        forall|i: (u32, u16)| pdf_object_kind(*from, i) == Some(ObjectKind::Dictionary)
            ==> #[trigger] pdf_type_name(*final(into), i) == pdf_type_name(*from, i),
        pdf_trailer_root(*final(into)) == pdf_trailer_root(*old(into)),
        pdf_max_id(*final(into)) == pdf_max_id(*old(into)),
        disjoint_objects(*old(into), *from) ==> {
            &&& forall|i: (u32, u16), q: Seq<Seq<u8>>| pdf_entry(*old(into), i, q) is Some
                ==> #[trigger] pdf_entry(*final(into), i, q) == pdf_entry(*old(into), i, q)
            &&& forall|i: (u32, u16), q: Seq<Seq<u8>>| pdf_array_refs(*old(into), i, q) is Some
                ==> #[trigger] pdf_array_refs(*final(into), i, q) == pdf_array_refs(*old(into), i, q)
            &&& forall|i: (u32, u16)| pdf_type_name(*old(into), i) is Some
                ==> #[trigger] pdf_type_name(*final(into), i) == pdf_type_name(*old(into), i)
            &&& pdf_catalog_pages(*old(into)) is Some ==> pdf_catalog_pages(*final(into)) == pdf_catalog_pages(*old(into))
        },
{
    into.objects.extend(from.objects.clone())
}

/// Whether every object of the document has a number no higher than its highest number.
pub open spec fn numbers_covered(doc: lopdf::Document) -> bool {
    forall|i: (u32, u16)| #[trigger] pdf_object_kind(doc, i) is Some ==> i.0 <= pdf_max_id(doc)
}

/// Whether the page tree lists the document's own pages plainly (`pages_listed`), each page
/// object having generation 0.
pub open spec fn plain_tree(doc: lopdf::Document) -> bool {
    &&& pages_listed(doc, pdf_page_ids(doc))
    &&& forall|k: int| 0 <= k < pdf_page_ids(doc).len() ==> (#[trigger] pdf_page_ids(doc)[k]).1 == 0
}

/// A copy of the document with its objects numbered afresh from `start`
/// (`Document::clone`, `Document::renumber_objects_with`). The renumbering counts the new
/// numbers up from `start` in a `u32`, one per object, counts the pages in an `i32` and
/// takes 1 from its last number, so `requires` keeps all three within range. Claims what the
/// source shows: the copy is the named one; its objects are numbered from `start` up to its
/// highest number, one number each, and there are no more of them than before; and a plain
/// page tree stays plain with as many pages (the pages take the lowest of their numbers in
/// page order, then every object takes the next number, and every reference reachable from
/// the trailer follows). Left unsaid: the renumbering collects the pages into a list sized
/// from the `/Count` entries of the page tree, so counts adding up to more than memory can
/// hold make it panic; `requires` does not exclude that.
#[verifier::external_body]
pub fn lopdf_renumbered_copy(doc: &lopdf::Document, start: u32) -> (c: lopdf::Document)
    requires
        1 <= start,
        start + pdf_object_count(*doc) <= u32::MAX,
        pdf_object_count(*doc) <= i32::MAX,
    ensures
        c == pdf_renumbered(*doc, start),
        forall|i: (u32, u16)| #[trigger] pdf_object_kind(c, i) is Some ==> start <= i.0 <= pdf_max_id(c),
        pdf_max_id(c) + 1 == start + pdf_object_count(c),
        pdf_object_count(c) <= pdf_object_count(*doc),
        plain_tree(*doc) ==> plain_tree(c) && pdf_page_ids(c).len() == pdf_page_ids(*doc).len(),
{
    let mut c = doc.clone();
    c.renumber_objects_with(start);
    c
}

/// Delete object `id` (`Document::delete_object`, which also drops references to it from
/// the objects reachable from the trailer). Claims what the source shows of the objects:
/// `id` is gone and every other object stays, of the same kind. What the dropped references
/// change inside the others is not claimed.
#[verifier::external_body]
pub fn lopdf_delete_object(doc: &mut lopdf::Document, id: (u32, u16))
    ensures
        pdf_object_kind(*final(doc), id) is None,
        forall|i: (u32, u16)| i != id ==> #[trigger] pdf_object_kind(*final(doc), i) == pdf_object_kind(*old(doc), i),
{
    doc.delete_object(id);
}

/// Remove `/k` from the dictionary `/k1` of object `id` (`Document::get_object_mut`,
/// `Object::as_dict_mut`, `Dictionary::get_mut`, `Dictionary::remove`). Nothing else
/// changes; a failure carries lopdf's message and changes nothing.
#[verifier::external_body]
pub fn lopdf_remove_key2(doc: &mut lopdf::Document, id: (u32, u16), k1: &[u8], k: &[u8]) -> (r: Result<(), String>)
    ensures
        r is Ok <==> pdf_entry(*old(doc), id, p1(k1@)) == Some(Entry::Dictionary),
        r is Ok ==> pdf_entry(*final(doc), id, p2(k1@, k@)) == Some(Entry::Missing),
        r is Err ==> *final(doc) == *old(doc),
        same_outside(*old(doc), *final(doc), p2(k1@, k@)),
{
    let d = doc.get_object_mut(id).and_then(lopdf::Object::as_dict_mut).and_then(|d| d.get_mut(k1)).and_then(lopdf::Object::as_dict_mut).map_err(|e| format!("{e}"))?;
    d.remove(k);
    Ok(())
}

/// Remove `/k` from the dictionary `/k1 /k2` of object `id` (`Document::get_object_mut`,
/// `Object::as_dict_mut`, `Dictionary::get_mut`, `Dictionary::remove`). Nothing else
/// changes; a failure carries lopdf's message and changes nothing.
#[verifier::external_body]
pub fn lopdf_remove_key3(doc: &mut lopdf::Document, id: (u32, u16), k1: &[u8], k2: &[u8], k: &[u8]) -> (r: Result<(), String>)
    ensures
        r is Ok <==> pdf_entry(*old(doc), id, p2(k1@, k2@)) == Some(Entry::Dictionary),
        r is Ok ==> pdf_entry(*final(doc), id, p3(k1@, k2@, k@)) == Some(Entry::Missing),
        r is Err ==> *final(doc) == *old(doc),
        same_outside(*old(doc), *final(doc), p3(k1@, k2@, k@)),
{
    let d = doc.get_object_mut(id).and_then(lopdf::Object::as_dict_mut).and_then(|d| d.get_mut(k1)).and_then(lopdf::Object::as_dict_mut).and_then(|d| d.get_mut(k2)).and_then(lopdf::Object::as_dict_mut).map_err(|e| format!("{e}"))?;
    d.remove(k);
    Ok(())
}

/// The items of an array of references without those to `target`.
pub open spec fn without_ref(items: Seq<Option<(u32, u16)>>, target: (u32, u16)) -> Seq<Option<(u32, u16)>> {
    items.filter(|x: Option<(u32, u16)>| x != Some(target))
}

/// Drop every reference to `target` from the array `/k` of object `id`, where there is such
/// an array (`Document::get_object_mut`, `Object::as_dict_mut`, `Dictionary::get_mut`,
/// `Vec::retain`). Nothing else changes.
#[verifier::external_body]
pub fn lopdf_drop_refs1(doc: &mut lopdf::Document, id: (u32, u16), k: &[u8], target: (u32, u16))
    ensures
        pdf_array_refs(*final(doc), id, p1(k@)) == match pdf_array_refs(*old(doc), id, p1(k@)) {
            Some(items) => Some(without_ref(items, target)),
            None => None,
        },
        pdf_entry(*final(doc), id, p1(k@)) == pdf_entry(*old(doc), id, p1(k@)),
        same_outside(*old(doc), *final(doc), p1(k@)),
{
    if let Ok(lopdf::Object::Array(arr)) = doc.get_object_mut(id).and_then(lopdf::Object::as_dict_mut).and_then(|d| d.get_mut(k)) {
        arr.retain(|o| !matches!(o, lopdf::Object::Reference(r) if *r == target));
    }
}

/// A dictionary of `lopdf`, carried through as an opaque value.
#[verifier::external_type_specification]
#[verifier::external_body]
pub struct ExLopdfDictionary(lopdf::Dictionary);

/// An empty dictionary (`Dictionary::new`).
#[verifier::external_body]
pub fn lopdf_dict_new() -> lopdf::Dictionary {
    lopdf::Dictionary::new()
}

/// Set `/k` to the name `value` (`Dictionary::set`).
#[verifier::external_body]
pub fn lopdf_dict_put_name(dict: &mut lopdf::Dictionary, k: &[u8], value: &[u8]) {
    dict.set(k.to_vec(), lopdf::Object::Name(value.to_vec()));
}

/// Set `/k` to the integer `value` (`Dictionary::set`).
#[verifier::external_body]
pub fn lopdf_dict_put_int(dict: &mut lopdf::Dictionary, k: &[u8], value: i64) {
    dict.set(k.to_vec(), lopdf::Object::Integer(value));
}

/// Set `/k` to a reference to `id` (`Dictionary::set`).
#[verifier::external_body]
pub fn lopdf_dict_put_ref(dict: &mut lopdf::Dictionary, k: &[u8], id: (u32, u16)) {
    dict.set(k.to_vec(), lopdf::Object::Reference(id));
}

/// Add a stream holding `content` with an empty dictionary (`Document::try_add_object` of
/// `Stream::new`). Claims what the source shows: it fails, changing nothing, exactly when
/// the object numbers are used up; otherwise the new stream gets the next id and raises the
/// highest number to it; where that id was free, nothing found before changes.
#[verifier::external_body]
pub fn lopdf_add_stream(doc: &mut lopdf::Document, content: Vec<u8>) -> (r: Result<(u32, u16), String>)
    ensures
        r is Ok <==> pdf_max_id(*old(doc)) < u32::MAX,
        r is Err ==> *final(doc) == *old(doc),
        r matches Ok(id) ==> {
            &&& id == next_id(*old(doc))
            &&& pdf_max_id(*final(doc)) == id.0
            &&& pdf_object_kind(*final(doc), id) == Some(ObjectKind::Stream)
            &&& pdf_object_kind(*old(doc), id) is None ==> grown_by(*old(doc), *final(doc), id)
        },
{
    doc.try_add_object(lopdf::Stream::new(lopdf::Dictionary::new(), content)).map_err(|e| format!("{e}"))
}

/// Add an image stream with this dictionary and these samples, compressed when lopdf can
/// (`Stream::new`, `Stream::compress`, `Document::try_add_object`). Claims what the source
/// shows, as for `lopdf_add_stream`.
#[verifier::external_body]
pub fn lopdf_add_image(doc: &mut lopdf::Document, dict: lopdf::Dictionary, samples: Vec<u8>) -> (r: Result<(u32, u16), String>)
    ensures
        r is Ok <==> pdf_max_id(*old(doc)) < u32::MAX,
        r is Err ==> *final(doc) == *old(doc),
        r matches Ok(id) ==> {
            &&& id == next_id(*old(doc))
            &&& pdf_max_id(*final(doc)) == id.0
            &&& pdf_object_kind(*final(doc), id) == Some(ObjectKind::Stream)
            &&& pdf_object_kind(*old(doc), id) is None ==> grown_by(*old(doc), *final(doc), id)
        },
{
    let mut stream = lopdf::Stream::new(dict, samples);
    let _ = stream.compress();
    doc.try_add_object(stream).map_err(|e| format!("{e}"))
}

// ---------------------------------------------------------------------------
// Names used as keys
// ---------------------------------------------------------------------------

/// The name `Resources`, as bytes.
pub open spec fn resources_key() -> Seq<u8> {
    seq![82u8, 101u8, 115u8, 111u8, 117u8, 114u8, 99u8, 101u8, 115u8]
}

/// The name `Resources`, as bytes.
pub fn resources_key_exec() -> (v: Vec<u8>)
    ensures
        v@ == resources_key(),
{
    let v: Vec<u8> = vec![82u8, 101u8, 115u8, 111u8, 117u8, 114u8, 99u8, 101u8, 115u8];
    assert(v@ =~= resources_key());
    v
}

/// The name `Font`, as bytes.
pub open spec fn font_key() -> Seq<u8> {
    seq![70u8, 111u8, 110u8, 116u8]
}

/// The name `Font`, as bytes.
pub fn font_key_exec() -> (v: Vec<u8>)
    ensures
        v@ == font_key(),
{
    let v: Vec<u8> = vec![70u8, 111u8, 110u8, 116u8];
    assert(v@ =~= font_key());
    v
}

/// The name `XObject`, as bytes.
pub open spec fn x_object_key() -> Seq<u8> {
    seq![88u8, 79u8, 98u8, 106u8, 101u8, 99u8, 116u8]
}

/// The name `XObject`, as bytes.
pub fn x_object_key_exec() -> (v: Vec<u8>)
    ensures
        v@ == x_object_key(),
{
    let v: Vec<u8> = vec![88u8, 79u8, 98u8, 106u8, 101u8, 99u8, 116u8];
    assert(v@ =~= x_object_key());
    v
}

/// The name `Contents`, as bytes.
pub open spec fn contents_key() -> Seq<u8> {
    seq![67u8, 111u8, 110u8, 116u8, 101u8, 110u8, 116u8, 115u8]
}

/// The name `Contents`, as bytes.
pub fn contents_key_exec() -> (v: Vec<u8>)
    ensures
        v@ == contents_key(),
{
    let v: Vec<u8> = vec![67u8, 111u8, 110u8, 116u8, 101u8, 110u8, 116u8, 115u8];
    assert(v@ =~= contents_key());
    v
}

/// The name `PdftFont`, as bytes.
pub open spec fn pdft_font_key() -> Seq<u8> {
    seq![80u8, 100u8, 102u8, 116u8, 70u8, 111u8, 110u8, 116u8]
}

/// The name `PdftFont`, as bytes.
pub fn pdft_font_key_exec() -> (v: Vec<u8>)
    ensures
        v@ == pdft_font_key(),
{
    let v: Vec<u8> = vec![80u8, 100u8, 102u8, 116u8, 70u8, 111u8, 110u8, 116u8];
    assert(v@ =~= pdft_font_key());
    v
}

/// The name `PdftSig`, as bytes.
pub open spec fn pdft_sig_key() -> Seq<u8> {
    seq![80u8, 100u8, 102u8, 116u8, 83u8, 105u8, 103u8]
}

/// The name `PdftSig`, as bytes.
pub fn pdft_sig_key_exec() -> (v: Vec<u8>)
    ensures
        v@ == pdft_sig_key(),
{
    let v: Vec<u8> = vec![80u8, 100u8, 102u8, 116u8, 83u8, 105u8, 103u8];
    assert(v@ =~= pdft_sig_key());
    v
}

/// The name `Kids`, as bytes.
pub open spec fn kids_key() -> Seq<u8> {
    seq![75u8, 105u8, 100u8, 115u8]
}

/// The name `Kids`, as bytes.
pub fn kids_key_exec() -> (v: Vec<u8>)
    ensures
        v@ == kids_key(),
{
    let v: Vec<u8> = vec![75u8, 105u8, 100u8, 115u8];
    assert(v@ =~= kids_key());
    v
}

/// The name `Parent`, as bytes.
pub open spec fn parent_key() -> Seq<u8> {
    seq![80u8, 97u8, 114u8, 101u8, 110u8, 116u8]
}

/// The name `Parent`, as bytes.
pub fn parent_key_exec() -> (v: Vec<u8>)
    ensures
        v@ == parent_key(),
{
    let v: Vec<u8> = vec![80u8, 97u8, 114u8, 101u8, 110u8, 116u8];
    assert(v@ =~= parent_key());
    v
}

/// The name `Count`, as bytes.
pub open spec fn count_key() -> Seq<u8> {
    seq![67u8, 111u8, 117u8, 110u8, 116u8]
}

/// The name `Pages`, as bytes.
pub open spec fn pages_key() -> Seq<u8> {
    seq![80u8, 97u8, 103u8, 101u8, 115u8]
}

/// The name `Type`, as bytes.
pub open spec fn type_key() -> Seq<u8> {
    seq![84u8, 121u8, 112u8, 101u8]
}

/// The name `Page`, as bytes.
pub open spec fn page_key() -> Seq<u8> {
    seq![80u8, 97u8, 103u8, 101u8]
}

/// The name `Linearized`, as bytes.
pub open spec fn linearized_key() -> Seq<u8> {
    seq![76u8, 105u8, 110u8, 101u8, 97u8, 114u8, 105u8, 122u8, 101u8, 100u8]
}

} // verus!
