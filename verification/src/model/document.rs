use vstd::prelude::*;
use crate::paths::{file_name, path_file_name};
use crate::text::{chars_of, push_char, push_str, string_from_range, trim_seq, trim_string};
use crate::model::objects::{
    kids_key, p1, pages_listed, pdf_array_refs, pdf_catalog_pages, pdf_entry, pdf_max_id, pdf_object_kind, pdf_trailer_root,
    pdf_type_name, ObjectKind,
};
use crate::tui::dialog::{char_index, is_boundary, lemma_char_index_unique, lemma_utf8_len_prefix_strict, lemma_utf8_len_take_step, utf8_len, char_len_utf8};

verus! {

/// The parsed PDF object graph of `lopdf`, carried through the library as an opaque value.
#[verifier::external_type_specification]
#[verifier::external_body]
pub struct ExLopdfDocument(lopdf::Document);

/// Object IDs added by a signature embed, for undo.
#[derive(Debug)]
pub struct SignatureUndo {
    pub page_num: usize,
    pub img_obj_id: (u32, u16),
    pub smask_obj_id: Option<(u32, u16)>,
    pub content_obj_id: (u32, u16),
    pub xobj_name: Vec<u8>,
    /// The ObjectId of the resources dict where the XObject was registered.
    pub resources_obj_id: Option<(u32, u16)>,
    /// The page ObjectId (for inline resources).
    pub page_id: (u32, u16),
}

/// Object IDs added by a text stamp, for undo.
#[derive(Debug)]
pub struct TextStampUndo {
    pub content_obj_id: (u32, u16),
    pub page_id: (u32, u16),
    pub font_name: Vec<u8>,
    pub resources_obj_id: Option<(u32, u16)>,
}

/// Type of a PDF form field.
#[derive(Debug, Clone, Copy, PartialEq, Eq, Structural)]
pub enum FormFieldType {
    Text,
    Checkbox,
    Choice,
}

/// What undoing a change of a form field's value restores.
#[derive(Debug)]
pub struct FormFieldUndo {
    pub obj_id: (u32, u16),
    pub old_value: String,
    pub field_index: usize,
}

impl Clone for SignatureUndo {
    fn clone(&self) -> (c: Self)
        ensures
            c.page_num == self.page_num,
            c.img_obj_id == self.img_obj_id,
            c.smask_obj_id == self.smask_obj_id,
            c.content_obj_id == self.content_obj_id,
            c.xobj_name@ == self.xobj_name@,
            c.resources_obj_id == self.resources_obj_id,
            c.page_id == self.page_id,
    {
        SignatureUndo {
            page_num: self.page_num,
            img_obj_id: self.img_obj_id,
            smask_obj_id: self.smask_obj_id,
            content_obj_id: self.content_obj_id,
            xobj_name: self.xobj_name.clone(),
            resources_obj_id: self.resources_obj_id,
            page_id: self.page_id,
        }
    }
}

impl Clone for TextStampUndo {
    fn clone(&self) -> (c: Self)
        ensures
            c.content_obj_id == self.content_obj_id,
            c.page_id == self.page_id,
            c.font_name@ == self.font_name@,
            c.resources_obj_id == self.resources_obj_id,
    {
        TextStampUndo {
            content_obj_id: self.content_obj_id,
            page_id: self.page_id,
            font_name: self.font_name.clone(),
            resources_obj_id: self.resources_obj_id,
        }
    }
}

/// A loaded PDF document, wrapping lopdf for manipulation.
/// Optionally retains the raw file bytes so the renderer can parse without re-reading.
pub struct PdfDocument {
    pub path: String,
    pub label: String,
    doc: lopdf::Document,
    /// Raw PDF bytes, retained for rendering.
    raw_bytes: Option<Vec<u8>>,
    /// Stack of signature undos.
    pub signature_undos: Vec<SignatureUndo>,
    /// Stack of text stamp undos.
    pub text_stamp_undos: Vec<TextStampUndo>,
}

/// An error reported by `lopdf`.
#[verifier::external_type_specification]
#[verifier::external_body]
pub struct ExLopdfError(lopdf::Error);

/// The pages of a document: the object ids that lopdf's walk of the page tree
/// (`lopdf::Document::page_iter`) yields, in order; `get_pages` numbers them from 1.
pub uninterp spec fn pdf_page_ids(doc: lopdf::Document) -> Seq<(u32, u16)>;

/// Number of pages of a loaded document (`Iterator::count` of
/// `lopdf::Document::page_iter`). Claims that it counts the pages.
#[verifier::external_body]
pub(crate) fn lopdf_page_count(doc: &lopdf::Document) -> (n: usize)
    ensures
        n == pdf_page_ids(*doc).len(),
{
    doc.page_iter().count()
}

/// The document that `lopdf::Document::load_mem` makes of these bytes, or `None` when it
/// refuses them (parsing is a function of the bytes).
pub uninterp spec fn pdf_load(bytes: Seq<u8>) -> Option<lopdf::Document>;

/// Parse a PDF held in memory (`lopdf::Document::load_mem`). Claims that the result is the
/// named parse of the bytes. Left unsaid: that the parser returns on every input; whether
/// some malformed input makes it panic could not be settled from its source.
#[verifier::external_body]
fn lopdf_load_mem(bytes: &[u8]) -> (r: Result<lopdf::Document, lopdf::Error>)
    ensures
        r is Ok <==> pdf_load(bytes@) is Some,
        r matches Ok(d) ==> pdf_load(bytes@) == Some(d),
{
    lopdf::Document::load_mem(bytes)
}

/// The `/Parent` of object `id`: the reference under that key, when the object is a
/// dictionary that has one.
pub uninterp spec fn pdf_parent(doc: lopdf::Document, id: (u32, u16)) -> Option<(u32, u16)>;

/// The `/Count` of object `id`: the integer under that key, when the object is a
/// dictionary that has one.
pub uninterp spec fn pdf_count(doc: lopdf::Document, id: (u32, u16)) -> Option<i64>;

/// How many objects the document holds (`lopdf::Document::objects`).
pub uninterp spec fn pdf_object_count(doc: lopdf::Document) -> nat;

/// The bytes that `lopdf::Document::save_to` writes for the document, or `None` when it
/// fails.
pub uninterp spec fn pdf_serialization(doc: lopdf::Document) -> Option<Seq<u8>>;

/// Look up `/Parent` of an object as `lopdf::Document::delete_pages` does
/// (`objects.get`, `Object::as_dict`, `Dictionary::get`, `Object::as_reference`).
/// Claims that the result is the named lookup.
#[verifier::external_body]
fn lopdf_parent(doc: &lopdf::Document, id: (u32, u16)) -> (r: Option<(u32, u16)>)
    ensures
        r == pdf_parent(*doc, id),
{
    doc.objects.get(&id).and_then(|o| o.as_dict().ok()).and_then(|d| d.get(b"Parent").ok()).and_then(|p| p.as_reference().ok())
}

/// Look up `/Count` of an object as `lopdf::Document::delete_pages` does
/// (`objects.get`, `Object::as_dict`, `Dictionary::get`, `Object::as_i64`).
/// Claims that the result is the named lookup.
#[verifier::external_body]
fn lopdf_count(doc: &lopdf::Document, id: (u32, u16)) -> (r: Option<i64>)
    ensures
        r == pdf_count(*doc, id),
{
    doc.objects.get(&id).and_then(|o| o.as_dict().ok()).and_then(|d| d.get(b"Count").ok()).and_then(|c| c.as_i64().ok())
}

/// Number of objects of the document (`BTreeMap::len` of `lopdf::Document::objects`).
#[verifier::external_body]
pub(crate) fn lopdf_object_count(doc: &lopdf::Document) -> (n: usize)
    ensures
        n == pdf_object_count(*doc),
{
    doc.objects.len()
}

/// The page object ids in page order (`lopdf::Document::page_iter`, each id pushed in
/// turn). Claims that the result is the named list, and what the walk's source shows of a
/// tree that `pages_listed` describes: the root's kids are pages, so the walk yields them,
/// in order (each kid being a distinct object, the walk's limit of one step per object is
/// not reached).
#[verifier::external_body]
pub(crate) fn lopdf_page_ids(doc: &lopdf::Document) -> (v: Vec<(u32, u16)>)
    ensures
        v@ == pdf_page_ids(*doc),
        forall|kids: Seq<(u32, u16)>| #[trigger] pages_listed(*doc, kids) ==> v@ == kids,
{
    let mut v = Vec::new();
    for id in doc.page_iter() {
        v.push(id);
    }
    v
}

/// A copy of the document (`lopdf::Document::clone`, derived field by field). Claims that
/// the copy reads the same as the original through every name the library has for a
/// document: its pages, objects, entries, arrays, trailer and catalog, highest number and
/// serialization.
#[verifier::external_body]
pub(crate) fn lopdf_clone(doc: &lopdf::Document) -> (c: lopdf::Document)
    ensures
        pdf_page_ids(c) == pdf_page_ids(*doc),
        pdf_object_count(c) == pdf_object_count(*doc),
        pdf_serialization(c) == pdf_serialization(*doc),
        forall|id: (u32, u16)| #[trigger] pdf_parent(c, id) == pdf_parent(*doc, id),
        forall|id: (u32, u16)| #[trigger] pdf_count(c, id) == pdf_count(*doc, id),
        forall|id: (u32, u16)| #[trigger] pdf_object_kind(c, id) == pdf_object_kind(*doc, id),
        forall|id: (u32, u16)| #[trigger] pdf_type_name(c, id) == pdf_type_name(*doc, id),
        forall|id: (u32, u16), q: Seq<Seq<u8>>| #[trigger] pdf_entry(c, id, q) == pdf_entry(*doc, id, q),
        forall|id: (u32, u16), q: Seq<Seq<u8>>| #[trigger] pdf_array_refs(c, id, q) == pdf_array_refs(*doc, id, q),
        pdf_trailer_root(c) == pdf_trailer_root(*doc),
        pdf_catalog_pages(c) == pdf_catalog_pages(*doc),
        pdf_max_id(c) == pdf_max_id(*doc),
{
    doc.clone()
}

/// Whether a `/Count` can be lowered `margin` times without leaving `i64`.
pub open spec fn count_lowerable(count: Option<i64>, margin: int) -> bool {
    match count {
        Some(c) => c >= i64::MIN + margin,
        None => true,
    }
}

/// Whether the chain of `/Parent` references from `node` ends within `fuel` steps, every
/// `/Count` on it able to go down `margin` times.
pub open spec fn parent_chain_safe(doc: lopdf::Document, node: Option<(u32, u16)>, fuel: nat, margin: int) -> bool
    decreases fuel,
{
    match node {
        None => true,
        Some(id) => if fuel == 0 {
            false
        } else {
            count_lowerable(pdf_count(doc, id), margin) && parent_chain_safe(doc, pdf_parent(doc, id), (fuel - 1) as nat, margin)
        },
    }
}

/// Whether deleting the pages of these numbers stays within what lopdf handles: from each
/// page named, the `/Parent` chain ends (no cycle) and no `/Count` on it would drop below
/// `i64::MIN` (each can go down once per page of the document).
pub open spec fn pdf_delete_safe(doc: lopdf::Document, numbers: Set<u32>) -> bool {
    let ids = pdf_page_ids(doc);
    forall|p: u32| #[trigger] numbers.contains(p) && 1 <= p <= ids.len() ==> parent_chain_safe(
        doc,
        pdf_parent(doc, ids[p - 1]),
        pdf_object_count(doc) + 1,
        ids.len() as int,
    )
}

/// The page ids whose 1-indexed number is not among `numbers`, in order.
pub open spec fn pages_without(ids: Seq<(u32, u16)>, numbers: Set<u32>) -> Seq<(u32, u16)>
    decreases ids.len(),
{
    if ids.len() == 0 {
        Seq::empty()
    } else {
        let rest = pages_without(ids.drop_last(), numbers);
        if numbers.contains(ids.len() as u32) {
            rest
        } else {
            rest.push(ids.last())
        }
    }
}

/// Two documents that agree on `/Parent` and `/Count` give the same chain verdict.
proof fn lemma_chain_safe_same(a: lopdf::Document, b: lopdf::Document, node: Option<(u32, u16)>, fuel: nat, margin: int)
    requires
        forall|id: (u32, u16)| #[trigger] pdf_parent(a, id) == pdf_parent(b, id),
        forall|id: (u32, u16)| #[trigger] pdf_count(a, id) == pdf_count(b, id),
    ensures
        parent_chain_safe(a, node, fuel, margin) == parent_chain_safe(b, node, fuel, margin),
    decreases fuel,
{
    if let Some(id) = node {
        if fuel > 0 {
            assert(pdf_parent(a, id) == pdf_parent(b, id));
            assert(pdf_count(a, id) == pdf_count(b, id));
            lemma_chain_safe_same(a, b, pdf_parent(a, id), (fuel - 1) as nat, margin);
        }
    }
}

/// A copy that agrees on pages, objects, `/Parent` and `/Count` allows the same deletions.
pub(crate) proof fn lemma_delete_safe_same(a: lopdf::Document, b: lopdf::Document, numbers: Set<u32>)
    requires
        pdf_page_ids(a) == pdf_page_ids(b),
        pdf_object_count(a) == pdf_object_count(b),
        forall|id: (u32, u16)| #[trigger] pdf_parent(a, id) == pdf_parent(b, id),
        forall|id: (u32, u16)| #[trigger] pdf_count(a, id) == pdf_count(b, id),
    ensures
        pdf_delete_safe(a, numbers) == pdf_delete_safe(b, numbers),
{
    let ids = pdf_page_ids(a);
    assert forall|p: u32| #[trigger] numbers.contains(p) && 1 <= p <= ids.len() implies (parent_chain_safe(
        a, pdf_parent(a, ids[p - 1]), pdf_object_count(a) + 1, ids.len() as int,
    ) == parent_chain_safe(b, pdf_parent(b, ids[p - 1]), pdf_object_count(b) + 1, ids.len() as int)) by {
        assert(pdf_parent(a, ids[p - 1]) == pdf_parent(b, ids[p - 1]));
        lemma_chain_safe_same(a, b, pdf_parent(a, ids[p - 1]), pdf_object_count(a) + 1, ids.len() as int);
    }
}

/// A deletion that the tree allows for every number is allowed for any numbers.
pub proof fn lemma_delete_safe_subset(doc: lopdf::Document, numbers: Set<u32>)
    requires
        pdf_delete_safe(doc, Set::full()),
    ensures
        pdf_delete_safe(doc, numbers),
{
    let ids = pdf_page_ids(doc);
    assert forall|p: u32| #[trigger] numbers.contains(p) && 1 <= p <= ids.len() implies parent_chain_safe(
        doc,
        pdf_parent(doc, ids[p - 1]),
        pdf_object_count(doc) + 1,
        ids.len() as int,
    ) by {
        assert(Set::<u32>::full().contains(p));
    }
}

/// Leaving out no numbers keeps every page.
pub proof fn lemma_pages_without_none(ids: Seq<(u32, u16)>, numbers: Set<u32>)
    requires
        numbers == Set::<u32>::empty(),
    ensures
        pages_without(ids, numbers) == ids,
    decreases ids.len(),
{
    if ids.len() > 0 {
        lemma_pages_without_none(ids.drop_last(), numbers);
        assert(ids.drop_last().push(ids.last()) =~= ids);
    }
}

/// Error text when a document's page tree cannot have pages taken out.
pub open spec fn page_tree_message() -> Seq<char> {
    "malformed page tree"@
}

/// Whether the page tree is flat and plain: the trailer's `/Root` is a dictionary object
/// (the catalog) whose `/Pages` refers to another dictionary object (the root), whose own
/// `/Kids` array holds references to exactly the pages, in order, each page once and an
/// object of the document other than the catalog and the root; and the pages can be
/// numbered in a `u32`.
pub open spec fn pdf_flat_tree(doc: lopdf::Document) -> bool {
    let ids = pdf_page_ids(doc);
    &&& pdf_trailer_root(doc) matches Some(c)
    &&& pdf_object_kind(doc, c) == Some(ObjectKind::Dictionary)
    &&& pdf_catalog_pages(doc) matches Some(Some(root))
    &&& root != c
    &&& pdf_object_kind(doc, root) == Some(ObjectKind::Dictionary)
    &&& pdf_array_refs(doc, root, p1(kids_key())) == Some(ids.map_values(|i: (u32, u16)| Some(i)))
    &&& ids.no_duplicates()
    &&& forall|k: int| 0 <= k < ids.len() ==> pdf_object_kind(doc, #[trigger] ids[k]) is Some && ids[k] != root && ids[k] != c
    &&& ids.len() <= u32::MAX
}

/// Remove the pages with these 1-indexed numbers (`lopdf::Document::delete_pages`).
/// It walks each removed page's `/Parent` chain lowering `/Count`, so `requires` keeps out a
/// cycle in that chain and a `/Count` that would leave `i64`. On a flat page tree
/// (`pdf_flat_tree`) it claims what the source shows there: each removed page's reference
/// leaves the root's `/Kids` and its object leaves the document, so the pages are the old
/// ones without those numbers, in order, and the tree stays flat. Left unsaid for other
/// trees (a page listed twice, a walk that lopdf cuts short at its object-count limit): what
/// the pages are afterwards. Left unsaid as well: `get_pages` collects lopdf's page walk into
/// a map, and std sizes that collection from the walk's size hint, which lopdf sums from the
/// page tree's `/Count` entries; counts beyond what memory can hold make it panic, and
/// `requires` does not exclude that.
#[verifier::external_body]
pub(crate) fn lopdf_delete_pages(doc: &mut lopdf::Document, page_numbers: &[u32])
    requires
        pdf_delete_safe(*old(doc), page_numbers@.to_set()),
    ensures
        pdf_flat_tree(*old(doc)) ==> pdf_flat_tree(*final(doc)) && pdf_page_ids(*final(doc)) == pages_without(
            pdf_page_ids(*old(doc)),
            page_numbers@.to_set(),
        ),
{
    doc.delete_pages(page_numbers)
}

/// Drop the objects that nothing refers to any more (`lopdf::Document::prune_objects`).
/// On a flat page tree it claims what the source shows: the catalog, the root and the pages
/// are reached from the trailer, so they stay, and so do the pages and the flat tree.
/// Nothing else is claimed.
#[verifier::external_body]
pub(crate) fn lopdf_prune_objects(doc: &mut lopdf::Document)
    ensures
        pdf_flat_tree(*old(doc)) ==> pdf_flat_tree(*final(doc)) && pdf_page_ids(*final(doc)) == pdf_page_ids(*old(doc)),
{
    doc.prune_objects();
}

/// A copy that reads the same has a flat tree exactly when the original has.
pub(crate) proof fn lemma_flat_same(a: lopdf::Document, b: lopdf::Document)
    requires
        pdf_page_ids(a) == pdf_page_ids(b),
        forall|id: (u32, u16)| #[trigger] pdf_object_kind(a, id) == pdf_object_kind(b, id),
        forall|id: (u32, u16), q: Seq<Seq<u8>>| #[trigger] pdf_array_refs(a, id, q) == pdf_array_refs(b, id, q),
        pdf_trailer_root(a) == pdf_trailer_root(b),
        pdf_catalog_pages(a) == pdf_catalog_pages(b),
    ensures
        pdf_flat_tree(a) == pdf_flat_tree(b),
{
    if let Some(Some(root)) = pdf_catalog_pages(a) {
        assert(pdf_array_refs(a, root, p1(kids_key())) == pdf_array_refs(b, root, p1(kids_key())));
    }
}

/// An error of a write (`std::io::Error`), as lopdf reports a failed serialization.
#[verifier::external_type_specification]
#[verifier::external_body]
pub struct ExIoError(std::io::Error);

/// Serialize the document into memory (`lopdf::Document::save_to` on a `Vec<u8>`).
/// Claims that it succeeds exactly when the named serialization exists, and gives its bytes.
#[verifier::external_body]
fn lopdf_save_to_vec(doc: &mut lopdf::Document) -> (r: Result<Vec<u8>, std::io::Error>)
    ensures
        r is Ok <==> pdf_serialization(*old(doc)) is Some,
        r matches Ok(b) ==> pdf_serialization(*old(doc)) == Some(b@),
{
    let mut buf = Vec::new();
    doc.save_to(&mut buf).map(|()| buf)
}

/// Whether `x` occurs in `v`.
fn contains_u32(v: &[u32], x: u32) -> (b: bool)
    ensures
        b == v@.contains(x),
{
    let mut k: usize = 0;
    while k < v.len()
        invariant
            k <= v@.len(),
            forall|q: int| 0 <= q < k ==> v@[q] != x,
        decreases v@.len() - k,
    {
        if v[k] == x {
            assert(v@[k as int] == x);
            return true;
        }
        k = k + 1;
    }
    false
}

/// Whether the `/Parent` chain from `start` is safe to walk, as `parent_chain_safe` with
/// the document's object count plus one as fuel.
fn parent_chain_safe_exec(doc: &lopdf::Document, start: Option<(u32, u16)>, margin: usize) -> (b: bool)
    ensures
        b == parent_chain_safe(*doc, start, pdf_object_count(*doc) + 1, margin as int),
{
    let total = lopdf_object_count(doc);
    let fuel: u128 = total as u128 + 1;
    let mut node = start;
    let mut used: u128 = 0;
    loop
        invariant
            used <= fuel,
            fuel == pdf_object_count(*doc) + 1,
            parent_chain_safe(*doc, start, fuel as nat, margin as int)
                == parent_chain_safe(*doc, node, (fuel - used) as nat, margin as int),
        decreases fuel - used,
    {
        match node {
            None => {
                return true;
            },
            Some(id) => {
                if used == fuel {
                    return false;
                }
                match lopdf_count(doc, id) {
                    Some(c) => {
                        if (c as i128) < (i64::MIN as i128) + (margin as i128) {
                            return false;
                        }
                    },
                    None => {},
                }
                node = lopdf_parent(doc, id);
                used = used + 1;
            },
        }
    }
}

/// Whether `lopdf_delete_pages` may be called with these numbers (`pdf_delete_safe`).
fn delete_safe_exec(doc: &lopdf::Document, ids: &Vec<(u32, u16)>, numbers: &[u32]) -> (b: bool)
    requires
        ids@ == pdf_page_ids(*doc),
    ensures
        b == pdf_delete_safe(*doc, numbers@.to_set()),
{
    let n = ids.len();
    let mut k: usize = 0;
    while k < numbers.len()
        invariant
            k <= numbers@.len(),
            n == ids@.len(),
            ids@ == pdf_page_ids(*doc),
            forall|q: int| 0 <= q < k && 1 <= #[trigger] numbers@[q] <= n ==> parent_chain_safe(
                *doc,
                pdf_parent(*doc, ids@[numbers@[q] - 1]),
                pdf_object_count(*doc) + 1,
                n as int,
            ),
        decreases numbers@.len() - k,
    {
        let p = numbers[k];
        if 1 <= p && (p as usize) <= n {
            let start = lopdf_parent(doc, ids[(p - 1) as usize]);
            if !parent_chain_safe_exec(doc, start, n) {
                proof {
                    assert(numbers@.to_set().contains(p));
                }
                return false;
            }
        }
        k = k + 1;
    }
    proof {
        assert forall|p: u32| #[trigger] numbers@.to_set().contains(p) && 1 <= p <= n implies parent_chain_safe(
            *doc,
            pdf_parent(*doc, ids@[p - 1]),
            pdf_object_count(*doc) + 1,
            n as int,
        ) by {
            let q = choose|q: int| 0 <= q < numbers@.len() && numbers@[q] == p;
            assert(numbers@[q] == p);
        }
    }
    true
}

/// The page ids whose 1-indexed number is not listed (`pages_without`).
fn pages_without_exec(ids: &Vec<(u32, u16)>, numbers: &[u32]) -> (v: Vec<(u32, u16)>)
    ensures
        v@ == pages_without(ids@, numbers@.to_set()),
{
    let mut v: Vec<(u32, u16)> = Vec::new();
    let mut i: usize = 0;
    while i < ids.len()
        invariant
            i <= ids@.len(),
            v@ == pages_without(ids@.take(i as int), numbers@.to_set()),
        decreases ids@.len() - i,
    {
        proof {
            assert(ids@.take(i + 1).drop_last() =~= ids@.take(i as int));
        }
        let num = #[verifier::truncate] ((i + 1) as u32);
        assert(ids@.take(i + 1).len() as u32 == num);
        if !contains_u32(numbers, num) {
            v.push(ids[i]);
        }
        i = i + 1;
    }
    assert(ids@.take(ids@.len() as int) =~= ids@);
    v
}

/// Take the pages of these 1-indexed numbers out of the document (numbers outside it are
/// passed over), then, with `prune`, the objects only they used. Refused, leaving the
/// document as it was, exactly when the page tree does not allow the deletion
/// (`pdf_delete_safe`: lopdf would loop or overflow). On a flat page tree the pages left are
/// the old ones without those numbers, in order, and the tree stays flat.
pub fn remove_pages(doc: &mut lopdf::Document, numbers: &[u32], prune: bool) -> (r: Result<(), String>)
    ensures
        r is Ok <==> pdf_delete_safe(*old(doc), numbers@.to_set()),
        r matches Err(e) ==> e@ == page_tree_message() && *final(doc) == *old(doc),
        r is Ok && pdf_flat_tree(*old(doc)) ==> pdf_flat_tree(*final(doc)) && pdf_page_ids(*final(doc)) == pages_without(
            pdf_page_ids(*old(doc)),
            numbers@.to_set(),
        ),
{
    let before = lopdf_page_ids(doc);
    if !delete_safe_exec(doc, &before, numbers) {
        return Err(String::from_str("malformed page tree"));
    }
    lopdf_delete_pages(doc, numbers);
    if prune {
        lopdf_prune_objects(doc);
    }
    Ok(())
}

/// The label of a document opened from `path`: its file name, or the whole path
/// when it has none.
pub open spec fn label_for(path: Seq<char>) -> Seq<char> {
    match path_file_name(path) {
        Some(n) => n,
        None => path,
    }
}

/// Error text when the bytes of `path` are not a PDF.
pub open spec fn parse_error_message(path: Seq<char>) -> Seq<char> {
    "failed to parse PDF: "@ + path
}

/// Error text when a changed document cannot be written out again.
pub open spec fn serialize_error_message() -> Seq<char> {
    "failed to serialize PDF after modification"@
}

impl PdfDocument {
    /// Parse the PDF read from `path`, keeping its bytes for rendering.
    pub fn from_bytes(path: &str, bytes: Vec<u8>) -> (r: Result<PdfDocument, String>)
        ensures
            r is Ok <==> pdf_load(bytes@) is Some,
            r matches Ok(d) ==> {
                &&& pdf_load(bytes@) == Some(d.document())
                &&& d.path_view() == path@
                &&& d.label_view() == label_for(path@)
                &&& d.raw_bytes_view() == Some(bytes@)
                &&& d.undo_counts() == (0nat, 0nat)
            },
            r matches Err(e) ==> e@ == parse_error_message(path@),
    {
        match lopdf_load_mem(bytes.as_slice()) {
            Ok(doc) => {
                let label = match file_name(path) {
                    Some(n) => n,
                    None => String::from_str(path),
                };
                Ok(PdfDocument {
                    path: String::from_str(path),
                    label,
                    doc,
                    raw_bytes: Some(bytes),
                    signature_undos: Vec::new(),
                    text_stamp_undos: Vec::new(),
                })
            },
            Err(_) => {
                let mut m = String::from_str("failed to parse PDF: ");
                push_str(&mut m, path);
                Err(m)
            },
        }
    }

    /// The document's label.
    pub closed spec fn label_view(&self) -> Seq<char> {
        self.label@
    }

    /// The recorded signature undos, oldest first.
    pub closed spec fn signature_undo_list(&self) -> Seq<SignatureUndo> {
        self.signature_undos@
    }

    /// The recorded text stamp undos, oldest first.
    pub closed spec fn text_stamp_undo_list(&self) -> Seq<TextStampUndo> {
        self.text_stamp_undos@
    }

    /// Number of signature and text stamp embeds that can be undone.
    pub closed spec fn undo_counts(&self) -> (nat, nat) {
        (self.signature_undos@.len(), self.text_stamp_undos@.len())
    }

    /// The raw PDF bytes kept for rendering, if any.
    pub closed spec fn raw_bytes_view(&self) -> Option<Seq<u8>> {
        match self.raw_bytes {
            Some(b) => Some(b@),
            None => None,
        }
    }

    /// Get the raw PDF bytes (for rendering).
    pub fn raw_bytes(&self) -> (r: Option<&[u8]>)
        ensures
            r matches Some(b) ==> self.raw_bytes_view() == Some(b@),
            r is None ==> self.raw_bytes_view() is None,
    {
        match &self.raw_bytes {
            Some(b) => Some(b.as_slice()),
            None => None,
        }
    }

    /// Clone the underlying lopdf document for manipulation: a copy with the same pages,
    /// allowing the same deletions.
    pub fn clone_lopdf(&self) -> (c: lopdf::Document)
        ensures
            pdf_page_ids(c) == pdf_page_ids(self.document()),
            forall|numbers: Set<u32>| #[trigger] pdf_delete_safe(c, numbers) == pdf_delete_safe(self.document(), numbers),
            pdf_flat_tree(c) == pdf_flat_tree(self.document()),
    {
        let c = lopdf_clone(&self.doc);
        proof {
            lemma_flat_same(c, self.doc);
            assert forall|numbers: Set<u32>| #[trigger] pdf_delete_safe(c, numbers) == pdf_delete_safe(self.document(), numbers) by {
                lemma_delete_safe_same(c, self.doc, numbers);
            }
        }
        c
    }

    /// The parsed document.
    pub closed spec fn document(&self) -> lopdf::Document {
        self.doc
    }

    /// The underlying lopdf document.
    pub fn lopdf(&self) -> (r: &lopdf::Document)
        ensures
            *r == self.document(),
    {
        &self.doc
    }

    /// The underlying lopdf document, for changes to its objects; nothing else of the
    /// document changes through it.
    pub fn lopdf_mut(&mut self) -> (r: &mut lopdf::Document)
        ensures
            *r == old(self).document(),
            final(self).document() == *final(r),
            final(self).path_view() == old(self).path_view(),
            final(self).label_view() == old(self).label_view(),
            final(self).raw_bytes_view() == old(self).raw_bytes_view(),
            final(self).undo_counts() == old(self).undo_counts(),
    {
        &mut self.doc
    }

    /// A copy of the document without the pages of these 1-indexed numbers (and the
    /// objects only they used); a plain copy, with the same pages, when there is none to
    /// delete. Fails exactly when the page tree does not allow the deletion; on a flat tree
    /// the copy's pages are the others, in order.
    pub fn pruned_copy(&self, delete: &[u32]) -> (r: Result<lopdf::Document, String>)
        ensures
            delete@.len() == 0 ==> r is Ok,
            delete@.len() > 0 ==> (r is Ok <==> pdf_delete_safe(self.document(), delete@.to_set())),
            r matches Ok(c) ==> (delete@.len() == 0 || pdf_flat_tree(self.document()) ==> pdf_page_ids(c) == pages_without(
                pdf_page_ids(self.document()),
                delete@.to_set(),
            )),
            r matches Err(e) ==> delete@.len() > 0 && e@ == page_tree_message(),
    {
        let mut doc = lopdf_clone(&self.doc);
        proof {
            lemma_delete_safe_same(doc, self.doc, delete@.to_set());
            lemma_flat_same(doc, self.doc);
        }
        if delete.len() > 0 {
            match remove_pages(&mut doc, delete, true) {
                Ok(()) => {},
                Err(e) => {
                    return Err(e);
                },
            }
        } else {
            proof {
                assert(delete@.to_set() =~= Set::<u32>::empty());
                lemma_pages_without_none(pdf_page_ids(doc), delete@.to_set());
            }
        }
        Ok(doc)
    }

    /// Re-serialize the lopdf document to update the raw bytes (for re-rendering).
    /// The document is cloned first: saving changes lopdf's internal state.
    pub fn refresh_bytes(&mut self) -> (r: Result<(), String>)
        ensures
            r is Ok <==> pdf_serialization(old(self).document()) is Some,
            r is Ok ==> final(self).raw_bytes_view() == pdf_serialization(old(self).document()),
            r matches Err(e) ==> e@ == serialize_error_message() && final(self).raw_bytes_view() == old(self).raw_bytes_view(),
            final(self).document() == old(self).document(),
            final(self).path_view() == old(self).path_view(),
            final(self).label_view() == old(self).label_view(),
            final(self).undo_counts() == old(self).undo_counts(),
    {
        let mut copy = lopdf_clone(&self.doc);
        match lopdf_save_to_vec(&mut copy) {
            Ok(buf) => {
                self.raw_bytes = Some(buf);
                Ok(())
            },
            Err(_) => Err(String::from_str("failed to serialize PDF after modification")),
        }
    }

    /// Record what undoing a signature needs.
    pub fn push_signature_undo(&mut self, undo: SignatureUndo)
        ensures
            final(self).undo_counts() == (old(self).undo_counts().0 + 1, old(self).undo_counts().1),
            final(self).document() == old(self).document(),
            final(self).path_view() == old(self).path_view(),
            final(self).label_view() == old(self).label_view(),
            final(self).raw_bytes_view() == old(self).raw_bytes_view(),
    {
        self.signature_undos.push(undo);
    }

    /// Record what undoing a text stamp needs.
    pub fn push_text_stamp_undo(&mut self, undo: TextStampUndo)
        ensures
            final(self).undo_counts() == (old(self).undo_counts().0, old(self).undo_counts().1 + 1),
            final(self).document() == old(self).document(),
            final(self).path_view() == old(self).path_view(),
            final(self).label_view() == old(self).label_view(),
            final(self).raw_bytes_view() == old(self).raw_bytes_view(),
    {
        self.text_stamp_undos.push(undo);
    }

    /// Take the last recorded signature undo, if any; nothing else changes.
    pub fn pop_signature_undo(&mut self) -> (u: Option<SignatureUndo>)
        ensures
            old(self).undo_counts().0 == 0 ==> u is None && *final(self) == *old(self),
            old(self).undo_counts().0 > 0 ==> u == Some(old(self).signature_undo_list().last()) && final(self).undo_counts() == (
                (old(self).undo_counts().0 - 1) as nat,
                old(self).undo_counts().1,
            ),
            final(self).document() == old(self).document(),
            final(self).path_view() == old(self).path_view(),
            final(self).label_view() == old(self).label_view(),
            final(self).raw_bytes_view() == old(self).raw_bytes_view(),
    {
        if self.signature_undos.len() == 0 {
            return None;
        }
        self.signature_undos.pop()
    }

    /// Take the last recorded text stamp undo, if any; nothing else changes.
    pub fn pop_text_stamp_undo(&mut self) -> (u: Option<TextStampUndo>)
        ensures
            old(self).undo_counts().1 == 0 ==> u is None && *final(self) == *old(self),
            old(self).undo_counts().1 > 0 ==> u == Some(old(self).text_stamp_undo_list().last()) && final(self).undo_counts() == (
                old(self).undo_counts().0,
                (old(self).undo_counts().1 - 1) as nat,
            ),
            final(self).document() == old(self).document(),
            final(self).path_view() == old(self).path_view(),
            final(self).label_view() == old(self).label_view(),
            final(self).raw_bytes_view() == old(self).raw_bytes_view(),
    {
        if self.text_stamp_undos.len() == 0 {
            return None;
        }
        self.text_stamp_undos.pop()
    }

    /// The path the document was opened from.
    pub closed spec fn path_view(&self) -> Seq<char> {
        self.path@
    }

    /// The document's label, as a string.
    pub fn label_string(&self) -> (l: String)
        ensures
            l@ == self.label_view(),
    {
        self.label.clone()
    }

    /// The path the document was opened from, as a string.
    pub fn path_string(&self) -> (p: String)
        ensures
            p@ == self.path_view(),
    {
        self.path.clone()
    }

    /// Number of pages in the document.
    pub fn page_count(&self) -> (n: usize)
        ensures
            n == pdf_page_ids(self.document()).len(),
    {
        lopdf_page_count(&self.doc)
    }
}

/// The characters of `s` between the byte offsets `a` and `b`, when both lie on character
/// boundaries of `s` (`str::get(a..b)`).
pub open spec fn byte_slice(s: Seq<char>, a: nat, b: nat) -> Option<Seq<char>> {
    if a <= b && b <= utf8_len(s) && is_boundary(s, a) && is_boundary(s, b) {
        Some(s.subrange(char_index(s, a), char_index(s, b)))
    } else {
        None
    }
}

/// The date text without its `D:` prefix.
pub open spec fn date_body(s: Seq<char>) -> Seq<char> {
    if s.len() >= 2 && s[0] == 'D' && s[1] == ':' {
        s.skip(2)
    } else {
        s
    }
}

/// The slice or, when it does not exist, the default.
pub open spec fn slice_or(s: Seq<char>, a: nat, b: nat, default: Seq<char>) -> Seq<char> {
    match byte_slice(s, a, b) {
        Some(t) => t,
        None => default,
    }
}

/// A PDF date (`D:YYYYMMDDHHmmSS`) in readable form: `YYYY-MM-DD`, with ` HH:mm` unless
/// the time is midnight; missing parts read as `01` (month, day) or `00` (time). Text
/// shorter than 8 bytes is returned as it is.
pub open spec fn pdf_date_spec(s: Seq<char>) -> Seq<char> {
    let t = date_body(s);
    if utf8_len(t) >= 8 {
        let year = slice_or(t, 0, 4, Seq::empty());
        let month = slice_or(t, 4, 6, "01"@);
        let day = slice_or(t, 6, 8, "01"@);
        let hour = slice_or(t, 8, 10, "00"@);
        let min = slice_or(t, 10, 12, "00"@);
        let date = year + "-"@ + month + "-"@ + day;
        if hour == "00"@ && min == "00"@ {
            date
        } else {
            date + " "@ + hour + ":"@ + min
        }
    } else {
        t
    }
}

/// Byte offsets of the character boundaries of `cs`: `offs[k]` is the length in bytes
/// of the first `k` characters.
fn boundary_offsets(cs: &Vec<char>) -> (offs: Vec<usize>)
    requires
        utf8_len(cs@) <= usize::MAX,
    ensures
        offs@.len() == cs@.len() + 1,
        forall|k: int| 0 <= k <= cs@.len() ==> #[trigger] offs@[k] == utf8_len(cs@.take(k)),
{
    let mut offs: Vec<usize> = Vec::new();
    offs.push(0);
    assert(cs@.take(0) =~= Seq::<char>::empty());
    let mut total: usize = 0;
    let mut k: usize = 0;
    while k < cs.len()
        invariant
            k <= cs@.len(),
            utf8_len(cs@) <= usize::MAX,
            offs@.len() == k + 1,
            total == utf8_len(cs@.take(k as int)),
            forall|j: int| 0 <= j <= k ==> #[trigger] offs@[j] == utf8_len(cs@.take(j)),
        decreases cs@.len() - k,
    {
        proof {
            lemma_utf8_len_take_step(cs@, k as int);
            crate::tui::dialog::lemma_utf8_len_prefix_bound(cs@, k + 1);
        }
        total = total + char_len_utf8(cs[k]);
        offs.push(total);
        k = k + 1;
    }
    offs
}

/// The characters between two byte offsets, when both are boundaries.
fn byte_slice_exec(cs: &Vec<char>, offs: &Vec<usize>, a: usize, b: usize) -> (r: Option<String>)
    requires
        offs@.len() == cs@.len() + 1,
        forall|k: int| 0 <= k <= cs@.len() ==> #[trigger] offs@[k] == utf8_len(cs@.take(k)),
    ensures
        r matches Some(t) ==> byte_slice(cs@, a as nat, b as nat) == Some(t@),
        r is None ==> byte_slice(cs@, a as nat, b as nat) is None,
{
    let ia = boundary_index(cs, offs, a);
    let ib = boundary_index(cs, offs, b);
    match (ia, ib) {
        (Some(i), Some(j)) => {
            if a <= b {
                proof {
                    if i > j {
                        lemma_utf8_len_prefix_strict(cs@, j as int, i as int);
                    }
                    crate::tui::dialog::lemma_utf8_len_prefix_bound(cs@, j as int);
                }
                Some(string_from_range(cs.as_slice(), i, j))
            } else {
                None
            }
        },
        _ => None,
    }
}

/// The character index of byte offset `b`, when it is a boundary.
fn boundary_index(cs: &Vec<char>, offs: &Vec<usize>, b: usize) -> (r: Option<usize>)
    requires
        offs@.len() == cs@.len() + 1,
        forall|k: int| 0 <= k <= cs@.len() ==> #[trigger] offs@[k] == utf8_len(cs@.take(k)),
    ensures
        r matches Some(k) ==> k <= cs@.len() && is_boundary(cs@, b as nat) && char_index(cs@, b as nat) == k,
        r is None ==> !is_boundary(cs@, b as nat),
{
    let mut k: usize = 0;
    while k < offs.len()
        invariant
            k <= offs@.len(),
            offs@.len() == cs@.len() + 1,
            forall|j: int| 0 <= j <= cs@.len() ==> #[trigger] offs@[j] == utf8_len(cs@.take(j)),
            forall|j: int| 0 <= j < k ==> utf8_len(#[trigger] cs@.take(j)) != b,
        decreases offs@.len() - k,
    {
        if offs[k] == b {
            proof {
                assert(utf8_len(cs@.take(k as int)) == b);
                lemma_char_index_unique(cs@, b as nat, k as int);
            }
            return Some(k);
        }
        assert(utf8_len(cs@.take(k as int)) != b);
        k = k + 1;
    }
    None
}

/// Whether a date can be read: its UTF-8 length fits a `usize`, and a date body of 8
/// bytes or more has a character boundary after its fourth byte (the year).
pub open spec fn date_readable(s: Seq<char>) -> bool {
    &&& utf8_len(s) <= usize::MAX
    &&& utf8_len(date_body(s)) >= 8 ==> is_boundary(date_body(s), 4)
}

/// Whether `format_pdf_date` can read `s`.
pub fn date_readable_exec(s: &str) -> (b: bool)
    ensures
        b == date_readable(s@),
{
    let cs = chars_of(s);
    let mut total: usize = 0;
    let mut k: usize = 0;
    while k < cs.len()
        invariant
            k <= cs@.len(),
            cs@ == s@,
            total == utf8_len(cs@.take(k as int)),
        decreases cs@.len() - k,
    {
        proof {
            lemma_utf8_len_take_step(cs@, k as int);
        }
        let w = char_len_utf8(cs[k]);
        if total > usize::MAX - w {
            proof {
                crate::tui::dialog::lemma_utf8_len_prefix_bound(cs@, k + 1);
            }
            return false;
        }
        total = total + w;
        k = k + 1;
    }
    assert(cs@.take(cs@.len() as int) =~= cs@);
    let start: usize = if cs.len() >= 2 && cs[0] == 'D' && cs[1] == ':' { 2 } else { 0 };
    let body_text = string_from_range(cs.as_slice(), start, cs.len());
    let body: Vec<char> = chars_of(body_text.as_str());
    proof {
        assert(body@ =~= cs@.skip(start as int));
        crate::tui::dialog::lemma_utf8_len_concat(cs@.take(start as int), cs@.skip(start as int));
        assert(cs@.take(start as int) + cs@.skip(start as int) =~= cs@);
        assert(body@ == date_body(s@));
    }
    let offs = boundary_offsets(&body);
    assert(body@.take(body@.len() as int) =~= body@);
    if offs[body.len()] >= 8 {
        match boundary_index(&body, &offs, 4) {
            Some(_) => true,
            None => false,
        }
    } else {
        true
    }
}

/// Format a PDF date string (`D:YYYYMMDDHHmmSS`) into a readable format.
pub fn format_pdf_date(s: &str) -> (r: String)
    requires
        date_readable(s@),
    ensures
        r@ == pdf_date_spec(s@),
{
    let all = chars_of(s);
    let start: usize = if all.len() >= 2 && all[0] == 'D' && all[1] == ':' { 2 } else { 0 };
    let body = string_from_range(all.as_slice(), start, all.len());
    let cs = chars_of(body.as_str());
    proof {
        assert(all@.subrange(start as int, all@.len() as int) =~= date_body(s@));
        if start == 2 {
            crate::tui::dialog::lemma_utf8_len_concat(all@.take(2), all@.skip(2));
            assert(all@.take(2) + all@.skip(2) =~= all@);
        }
    }
    let offs = boundary_offsets(&cs);
    assert(cs@.take(cs@.len() as int) =~= cs@);
    assert(cs@ == date_body(s@));
    if offs[cs.len()] < 8 {
        return body;
    }
    let year = match byte_slice_exec(&cs, &offs, 0, 4) {
        Some(y) => y,
        None => String::new(),
    };
    let month = match byte_slice_exec(&cs, &offs, 4, 6) {
        Some(v) => v,
        None => String::from_str("01"),
    };
    let day = match byte_slice_exec(&cs, &offs, 6, 8) {
        Some(v) => v,
        None => String::from_str("01"),
    };
    let hour = match byte_slice_exec(&cs, &offs, 8, 10) {
        Some(v) => v,
        None => String::from_str("00"),
    };
    let min = match byte_slice_exec(&cs, &offs, 10, 12) {
        Some(v) => v,
        None => String::from_str("00"),
    };
    let mut r = year;
    push_str(&mut r, "-");
    push_str(&mut r, month.as_str());
    push_str(&mut r, "-");
    push_str(&mut r, day.as_str());
    let midnight = hour == String::from_str("00") && min == String::from_str("00");
    if !midnight {
        push_str(&mut r, " ");
        push_str(&mut r, hour.as_str());
        push_str(&mut r, ":");
        push_str(&mut r, min.as_str());
    }
    r
}

/// Escaping of one character in a PDF literal string: `(`, `)` and `\` get a backslash.
pub open spec fn escape_char(c: char) -> Seq<char> {
    if c == '(' || c == ')' || c == '\\' {
        seq!['\\', c]
    } else {
        seq![c]
    }
}

/// Text escaped for a PDF literal string.
pub open spec fn escape_pdf_spec(s: Seq<char>) -> Seq<char>
    decreases s.len(),
{
    if s.len() == 0 {
        Seq::empty()
    } else {
        escape_pdf_spec(s.drop_last()) + escape_char(s.last())
    }
}

/// Escape the special characters of a PDF literal string.
pub fn escape_pdf_text(text: &str) -> (r: String)
    ensures
        r@ == escape_pdf_spec(text@),
{
    let cs = chars_of(text);
    let mut r = String::new();
    let mut k: usize = 0;
    while k < cs.len()
        invariant
            k <= cs@.len(),
            cs@ == text@,
            r@ == escape_pdf_spec(cs@.take(k as int)),
        decreases cs@.len() - k,
    {
        proof {
            assert(cs@.take(k + 1).drop_last() =~= cs@.take(k as int));
        }
        let c = cs[k];
        let ghost before = r@;
        if c == '(' || c == ')' || c == '\\' {
            push_char(&mut r, '\\');
            push_char(&mut r, c);
            assert(r@ =~= before + seq!['\\', c]);
        } else {
            push_char(&mut r, c);
            assert(r@ =~= before + seq![c]);
        }
        k = k + 1;
    }
    assert(cs@.take(cs@.len() as int) =~= cs@);
    r
}

// ---------------------------------------------------------------------------
// Document metadata
// ---------------------------------------------------------------------------

/// What `String::from_utf8_lossy` makes of these bytes.
pub uninterp spec fn utf8_lossy(bytes: Seq<u8>) -> Seq<char>;

/// Decode bytes as UTF-8, replacing invalid sequences (`String::from_utf8_lossy`).
/// Claims that the result is a function of the bytes, and is their decoding when they are
/// valid UTF-8, as std documents.
#[verifier::external_body]
pub(crate) fn from_utf8_lossy(bytes: &[u8]) -> (s: String)
    ensures
        s@ == utf8_lossy(bytes@),
        vstd::utf8::valid_utf8(bytes@) ==> s@ == vstd::utf8::decode_utf8(bytes@),
{
    String::from_utf8_lossy(bytes).into_owned()
}

/// What `String::from_utf16_lossy` makes of these code units.
pub uninterp spec fn utf16_lossy(units: Seq<u16>) -> Seq<char>;

/// Decode UTF-16 code units, replacing invalid ones (`String::from_utf16_lossy`).
/// Claims only that the result is a function of the units.
#[verifier::external_body]
fn from_utf16_lossy(units: &[u16]) -> (s: String)
    ensures
        s@ == utf16_lossy(units@),
{
    String::from_utf16_lossy(units)
}

/// Big-endian 16-bit units of `b`; a missing last low byte reads as 0.
pub open spec fn be_units(b: Seq<u8>) -> Seq<u16> {
    Seq::new(
        ((b.len() + 1) / 2) as nat,
        |i: int| (b[2 * i] * 256 + if 2 * i + 1 < b.len() { b[2 * i + 1] as int } else { 0 }) as u16,
    )
}

fn be_units_exec(b: &[u8]) -> (v: Vec<u16>)
    ensures
        v@ == be_units(b@),
{
    let mut v: Vec<u16> = Vec::new();
    let n: usize = b.len() / 2 + b.len() % 2;
    assert(n == (b@.len() + 1) / 2);
    let mut i: usize = 0;
    while i < n
        invariant
            i <= n,
            n == (b@.len() + 1) / 2,
            v@.len() == i,
            forall|q: int| 0 <= q < i ==> #[trigger] v@[q] == be_units(b@)[q],
        decreases n - i,
    {
        assert(2 * i < b@.len()) by (nonlinear_arith)
            requires
                i < n,
                n == (b@.len() + 1) / 2,
        ;
        let len = b.len();
        assert(2 * i < len);
        let j: usize = i + i;
        let hi = b[j] as u16;
        let lo: u16 = if j < b.len() - 1 { b[j + 1] as u16 } else { 0 };
        assert(hi * 256 + lo <= 65535);
        v.push(hi * 256 + lo);
        i = i + 1;
    }
    assert(v@ =~= be_units(b@));
    v
}

/// The text of a metadata string: UTF-16 (big-endian) after a `FE FF` mark, UTF-8
/// otherwise, without surrounding whitespace.
pub open spec fn metadata_text(raw: Seq<u8>) -> Seq<char> {
    if raw.len() >= 2 && raw[0] == 0xFE && raw[1] == 0xFF {
        trim_seq(utf16_lossy(be_units(raw.skip(2))))
    } else {
        trim_seq(utf8_lossy(raw))
    }
}

/// Whether a metadata key holds a date (`CreationDate`, `ModDate`, ...).
pub open spec fn is_date_key(key: Seq<char>) -> bool {
    (key.len() >= 5 && key.take(5) == "Creat"@) || key == "ModDate"@
}

/// The line shown for a metadata entry: `label: text`, a date in readable form; nothing
/// for an empty text.
pub open spec fn metadata_line_spec(key: Seq<char>, label: Seq<char>, raw: Seq<u8>) -> Option<Seq<char>> {
    let t = metadata_text(raw);
    if t.len() == 0 {
        None
    } else {
        Some(label + ": "@ + if is_date_key(key) { pdf_date_spec(t) } else { t })
    }
}

fn is_date_key_exec(key: &str) -> (b: bool)
    ensures
        b == is_date_key(key@),
{
    let cs = chars_of(key);
    proof {
        reveal_strlit("Creat");
        reveal_strlit("ModDate");
    }
    let creat = cs.len() >= 5 && cs[0] == 'C' && cs[1] == 'r' && cs[2] == 'e' && cs[3] == 'a' && cs[4] == 't';
    let moddate = cs.len() == 7 && cs[0] == 'M' && cs[1] == 'o' && cs[2] == 'd' && cs[3] == 'D' && cs[4] == 'a'
        && cs[5] == 't' && cs[6] == 'e';
    proof {
        if creat {
            assert(cs@.take(5) =~= "Creat"@);
        } else if cs@.len() >= 5 && cs@.take(5) == "Creat"@ {
            assert(cs@.take(5)[0] == 'C' && cs@.take(5)[1] == 'r' && cs@.take(5)[2] == 'e');
            assert(cs@.take(5)[3] == 'a' && cs@.take(5)[4] == 't');
        }
        if moddate {
            assert(cs@ =~= "ModDate"@);
        } else if cs@ == "ModDate"@ {
            assert(cs@[0] == 'M' && cs@[1] == 'o' && cs@[2] == 'd' && cs@[3] == 'D');
            assert(cs@[4] == 'a' && cs@[5] == 't' && cs@[6] == 'e');
        }
    }
    creat || moddate
}

/// The decoded, trimmed text of a metadata string.
fn metadata_text_exec(raw: &[u8]) -> (t: String)
    ensures
        t@ == metadata_text(raw@),
{
    if raw.len() >= 2 && raw[0] == 0xFE && raw[1] == 0xFF {
        let units = be_units_exec(&raw[2..raw.len()]);
        assert(raw@.subrange(2, raw@.len() as int) =~= raw@.skip(2));
        let s = from_utf16_lossy(units.as_slice());
        trim_string(s.as_str())
    } else {
        let s = from_utf8_lossy(raw);
        trim_string(s.as_str())
    }
}

/// The line shown for a metadata entry `key` (as `label`) whose string holds `raw`.
pub fn metadata_line(key: &str, label: &str, raw: &[u8]) -> (r: Option<String>)
    requires
        is_date_key(key@) ==> date_readable(metadata_text(raw@)),
    ensures
        match r {
            Some(l) => metadata_line_spec(key@, label@, raw@) == Some(l@),
            None => metadata_line_spec(key@, label@, raw@) is None,
        },
{
    let t = metadata_text_exec(raw);
    if t.as_str().unicode_len() == 0 {
        return None;
    }
    let mut line = String::from_str(label);
    push_str(&mut line, ": ");
    if is_date_key_exec(key) {
        push_str(&mut line, format_pdf_date(t.as_str()).as_str());
    } else {
        push_str(&mut line, t.as_str());
    }
    Some(line)
}

/// The line shown for a metadata entry, or `None` for a date whose text cannot be read
/// as one (no character boundary after its year).
pub fn metadata_line_checked(key: &str, label: &str, raw: &[u8]) -> (r: Option<Option<String>>)
    ensures
        r is None <==> (is_date_key(key@) && !date_readable(metadata_text(raw@))),
        match r {
            Some(Some(l)) => metadata_line_spec(key@, label@, raw@) == Some(l@),
            Some(None) => metadata_line_spec(key@, label@, raw@) is None,
            None => true,
        },
{
    if is_date_key_exec(key) {
        let t = metadata_text_exec(raw);
        if !date_readable_exec(t.as_str()) {
            return None;
        }
    }
    Some(metadata_line(key, label, raw))
}

} // verus!

