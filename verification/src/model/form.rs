//! The field tree of a PDF form (AcroForm): where the form's fields are, how the tree is
//! read, which of its nodes are fields to fill, under which full names, which node holds
//! each one's value, what value and options a field shows, and how a new value is written.
use vstd::prelude::*;
use crate::model::document::{from_utf8_lossy, utf8_lossy, FormFieldType};
use crate::text::{decimal, decimal_string, push_str};
use crate::model::objects::{
    lopdf_entry1, lopdf_entry2, lopdf_object_ids, lopdf_trailer_root, p0, p1, p2, pdf_array_refs, pdf_catalog_pages,
    pdf_entry, pdf_object_kind, pdf_trailer_root, Entry,
};

verus! {

/// A node of the field tree, as read from its dictionary.
pub struct FieldNode {
    /// The node's object id.
    pub obj_id: (u32, u16),
    /// Whether the dictionary has a `/T` (partial name) entry.
    pub has_title: bool,
    /// The bytes of `/T` when it is a string; empty otherwise.
    pub title: Vec<u8>,
    /// `/FT` (field type) when it is a name.
    pub field_type: Option<Vec<u8>>,
    /// Whether `/Kids` is (or refers to) an array.
    pub kids_array: bool,
    /// The kids that are references to dictionaries, in order.
    pub kids: Vec<FieldNode>,
    /// Whether `/Rect` is an array of at least four entries.
    pub has_rect: bool,
}

/// A field to fill: a leaf of the tree with a known type and a rectangle.
pub struct FieldLeaf {
    pub obj_id: (u32, u16),
    /// The full name: the partial names from the root down, joined with `.`; or
    /// `field_<object number>` when no node on the way has one.
    pub name: String,
    pub field_type: FormFieldType,
    /// The nearest node, this one included, that has a `/T`: the one that holds the value.
    pub field_id: Option<(u32, u16)>,
}

/// A leaf as plain values: object id, full name, type, value holder.
pub type LeafView = ((u32, u16), Seq<char>, FormFieldType, Option<(u32, u16)>);

/// The leaves as plain values.
pub open spec fn leaves_view(v: Seq<FieldLeaf>) -> Seq<LeafView> {
    v.map_values(|l: FieldLeaf| (l.obj_id, l.name@, l.field_type, l.field_id))
}

/// The field type named by `/FT`: `Tx` is text, `Btn` a checkbox, `Ch` a choice; others
/// (signatures) are not filled.
pub open spec fn field_kind(ft: Seq<u8>) -> Option<FormFieldType> {
    if ft == seq![84u8, 120u8] {
        Some(FormFieldType::Text)
    } else if ft == seq![66u8, 116u8, 110u8] {
        Some(FormFieldType::Checkbox)
    } else if ft == seq![67u8, 104u8] {
        Some(FormFieldType::Choice)
    } else {
        None
    }
}

/// The partial names above and at `node`: a non-empty `/T` is added.
pub open spec fn node_parts(node: FieldNode, parts: Seq<Seq<char>>) -> Seq<Seq<char>> {
    if node.has_title && utf8_lossy(node.title@).len() > 0 {
        parts.push(utf8_lossy(node.title@))
    } else {
        parts
    }
}

/// The field type in force at `node`: its own `/FT`, else the inherited one.
pub open spec fn node_type(node: FieldNode, inherited: Option<Seq<u8>>) -> Option<Seq<u8>> {
    match node.field_type {
        Some(f) => Some(f@),
        None => inherited,
    }
}

/// The value holder in force at `node`: itself when it has a `/T`, else the inherited one.
pub open spec fn node_holder(node: FieldNode, inherited: Option<(u32, u16)>) -> Option<(u32, u16)> {
    if node.has_title {
        Some(node.obj_id)
    } else {
        inherited
    }
}

/// The partial names joined with `.`.
pub open spec fn join_dot(parts: Seq<Seq<char>>) -> Seq<char>
    decreases parts.len(),
{
    if parts.len() == 0 {
        Seq::empty()
    } else if parts.len() == 1 {
        parts[0]
    } else {
        join_dot(parts.drop_last()) + "."@ + parts.last()
    }
}

/// The full name of a leaf.
pub open spec fn leaf_name(obj_id: (u32, u16), parts: Seq<Seq<char>>) -> Seq<char> {
    if parts.len() == 0 {
        "field_"@ + decimal(obj_id.0 as nat)
    } else {
        join_dot(parts)
    }
}

/// The fields under `node`, in tree order: a node whose `/Kids` is an array stands for its
/// kids; any other node is a field when its type (own or inherited) is known and it has a
/// rectangle.
pub open spec fn field_leaves(
    node: FieldNode,
    parts: Seq<Seq<char>>,
    ft: Option<Seq<u8>>,
    holder: Option<(u32, u16)>,
) -> Seq<LeafView>
    decreases node, 0int,
{
    let parts1 = node_parts(node, parts);
    let ft1 = node_type(node, ft);
    let holder1 = node_holder(node, holder);
    if node.kids_array {
        kids_leaves(node.kids@, node.kids@.len() as int, parts1, ft1, holder1)
    } else {
        match ft1 {
            Some(f) => match field_kind(f) {
                Some(k) => if node.has_rect {
                    seq![(node.obj_id, leaf_name(node.obj_id, parts1), k, holder1)]
                } else {
                    Seq::empty()
                },
                None => Seq::empty(),
            },
            None => Seq::empty(),
        }
    }
}

/// The fields under the first `n` of `kids`, in order.
pub open spec fn kids_leaves(
    kids: Seq<FieldNode>,
    n: int,
    parts: Seq<Seq<char>>,
    ft: Option<Seq<u8>>,
    holder: Option<(u32, u16)>,
) -> Seq<LeafView>
    decreases kids, n,
{
    if n <= 0 || n > kids.len() {
        Seq::empty()
    } else {
        kids_leaves(kids, n - 1, parts, ft, holder) + field_leaves(kids[n - 1], parts, ft, holder)
    }
}

/// The strings as character sequences.
pub open spec fn strings_view(v: Seq<String>) -> Seq<Seq<char>> {
    v.map_values(|s: String| s@)
}

/// The bytes of an optional name.
pub open spec fn bytes_view(o: Option<Vec<u8>>) -> Option<Seq<u8>> {
    match o {
        Some(v) => Some(v@),
        None => None,
    }
}

fn field_kind_exec(ft: &Vec<u8>) -> (k: Option<FormFieldType>)
    ensures
        k == field_kind(ft@),
{
    if ft.len() == 2 && ft[0] == 84 && ft[1] == 120 {
        assert(ft@ =~= seq![84u8, 120u8]);
        Some(FormFieldType::Text)
    } else if ft.len() == 3 && ft[0] == 66 && ft[1] == 116 && ft[2] == 110 {
        assert(ft@ =~= seq![66u8, 116u8, 110u8]);
        Some(FormFieldType::Checkbox)
    } else if ft.len() == 2 && ft[0] == 67 && ft[1] == 104 {
        assert(ft@ =~= seq![67u8, 104u8]);
        Some(FormFieldType::Choice)
    } else {
        proof {
            if ft@ == seq![84u8, 120u8] || ft@ == seq![66u8, 116u8, 110u8] || ft@ == seq![67u8, 104u8] {
                assert(ft@[0] == ft@[0]);
            }
        }
        None
    }
}

fn join_dot_exec(parts: &Vec<String>) -> (s: String)
    ensures
        s@ == join_dot(strings_view(parts@)),
{
    let mut s = String::new();
    let mut k: usize = 0;
    while k < parts.len()
        invariant
            k <= parts@.len(),
            s@ == join_dot(strings_view(parts@.take(k as int))),
        decreases parts@.len() - k,
    {
        proof {
            assert(strings_view(parts@.take(k + 1)).drop_last() =~= strings_view(parts@.take(k as int)));
        }
        if k > 0 {
            push_str(&mut s, ".");
        } else {
            assert(s@ =~= Seq::<char>::empty());
        }
        push_str(&mut s, parts[k].as_str());
        proof {
            reveal_strlit(".");
        }
        k = k + 1;
    }
    assert(parts@.take(parts@.len() as int) =~= parts@);
    s
}

fn opt_bytes_clone(o: &Option<Vec<u8>>) -> (c: Option<Vec<u8>>)
    ensures
        bytes_view(c) == bytes_view(*o),
{
    match o {
        Some(v) => Some(v.clone()),
        None => None,
    }
}

/// Add the fields under `node` to `out`.
fn collect_node(
    node: &FieldNode,
    parts: &Vec<String>,
    ft: &Option<Vec<u8>>,
    holder: Option<(u32, u16)>,
    out: &mut Vec<FieldLeaf>,
)
    ensures
        leaves_view(final(out)@) == leaves_view(old(out)@) + field_leaves(*node, strings_view(parts@), bytes_view(*ft), holder),
    decreases node, 0int,
{
    let mut parts1: Vec<String> = parts.clone();
    proof {
        assert(strings_view(parts1@) =~= strings_view(parts@));
    }
    if node.has_title {
        let t = from_utf8_lossy(node.title.as_slice());
        if t.as_str().unicode_len() > 0 {
            let ghost before = parts1@;
            parts1.push(t);
            assert(strings_view(parts1@) =~= strings_view(before).push(utf8_lossy(node.title@)));
        }
    }
    let ft1 = match &node.field_type {
        Some(f) => Some(f.clone()),
        None => opt_bytes_clone(ft),
    };
    let holder1 = if node.has_title { Some(node.obj_id) } else { holder };
    assert(strings_view(parts1@) == node_parts(*node, strings_view(parts@)));
    assert(bytes_view(ft1) == node_type(*node, bytes_view(*ft)));
    if node.kids_array {
        collect_kids(&node.kids, node.kids.len(), &parts1, &ft1, holder1, out);
    } else {
        match &ft1 {
            Some(f) => match field_kind_exec(f) {
                Some(k) => {
                    if node.has_rect {
                        let name = if parts1.len() == 0 {
                            let mut n = String::from_str("field_");
                            proof {
                                reveal_strlit("field_");
                            }
                            push_str(&mut n, decimal_string(node.obj_id.0 as usize).as_str());
                            n
                        } else {
                            join_dot_exec(&parts1)
                        };
                        let ghost before = out@;
                        out.push(FieldLeaf { obj_id: node.obj_id, name, field_type: k, field_id: holder1 });
                        assert(leaves_view(out@) =~= leaves_view(before) + field_leaves(
                            *node,
                            strings_view(parts@),
                            bytes_view(*ft),
                            holder,
                        ));
                    } else {
                        assert(leaves_view(out@) =~= leaves_view(out@) + Seq::<LeafView>::empty());
                    }
                },
                None => {
                    assert(leaves_view(out@) =~= leaves_view(out@) + Seq::<LeafView>::empty());
                },
            },
            None => {
                assert(leaves_view(out@) =~= leaves_view(out@) + Seq::<LeafView>::empty());
            },
        }
    }
}

/// Add the fields under the first `n` of `kids` to `out`.
fn collect_kids(
    kids: &Vec<FieldNode>,
    n: usize,
    parts: &Vec<String>,
    ft: &Option<Vec<u8>>,
    holder: Option<(u32, u16)>,
    out: &mut Vec<FieldLeaf>,
)
    requires
        n <= kids@.len(),
    ensures
        leaves_view(final(out)@) == leaves_view(old(out)@) + kids_leaves(kids@, n as int, strings_view(parts@), bytes_view(*ft), holder),
    decreases kids@, n,
{
    if n == 0 {
        assert(leaves_view(out@) =~= leaves_view(out@) + Seq::<LeafView>::empty());
        return;
    }
    let ghost start = leaves_view(out@);
    collect_kids(kids, n - 1, parts, ft, holder, out);
    collect_node(&kids[n - 1], parts, ft, holder, out);
    assert(leaves_view(out@) =~= start + kids_leaves(kids@, n as int, strings_view(parts@), bytes_view(*ft), holder));
}

/// The node that receives a leaf's value: its holder, or the leaf itself without one.
pub open spec fn value_node(l: LeafView) -> (u32, u16) {
    match l.3 {
        Some(h) => h,
        None => l.0,
    }
}

/// The leaves without those whose value node an earlier leaf already has: one widget per
/// field, the first.
pub open spec fn first_per_field(s: Seq<LeafView>) -> Seq<LeafView>
    decreases s.len(),
{
    if s.len() == 0 {
        Seq::empty()
    } else {
        let r = first_per_field(s.drop_last());
        if exists|j: int| 0 <= j < s.len() - 1 && #[trigger] value_node(s[j]) == value_node(s.last()) {
            r
        } else {
            r.push(s.last())
        }
    }
}

fn value_node_exec(l: &FieldLeaf) -> (id: (u32, u16))
    ensures
        id == value_node((l.obj_id, l.name@, l.field_type, l.field_id)),
{
    match l.field_id {
        Some(h) => h,
        None => l.obj_id,
    }
}

/// Keep the first leaf of each field (`first_per_field`).
fn first_per_field_exec(leaves: &Vec<FieldLeaf>) -> (v: Vec<FieldLeaf>)
    ensures
        leaves_view(v@) == first_per_field(leaves_view(leaves@)),
{
    let ghost lv = leaves_view(leaves@);
    let mut v: Vec<FieldLeaf> = Vec::new();
    let mut k: usize = 0;
    while k < leaves.len()
        invariant
            k <= leaves@.len(),
            lv == leaves_view(leaves@),
            leaves_view(v@) == first_per_field(lv.take(k as int)),
        decreases leaves@.len() - k,
    {
        let id = value_node_exec(&leaves[k]);
        let mut seen = false;
        let mut j: usize = 0;
        while j < k
            invariant
                j <= k,
                k < leaves@.len(),
                lv == leaves_view(leaves@),
                id == value_node(lv[k as int]),
                seen <==> exists|q: int| 0 <= q < j && #[trigger] value_node(lv[q]) == id,
            decreases k - j,
        {
            let other = value_node_exec(&leaves[j]);
            assert(other == value_node(lv[j as int]));
            if other.0 == id.0 && other.1 == id.1 {
                seen = true;
            }
            j = j + 1;
        }
        proof {
            let t = lv.take(k + 1);
            assert(t.drop_last() =~= lv.take(k as int));
            assert(t.last() == lv[k as int]);
            assert((exists|q: int| 0 <= q < t.len() - 1 && #[trigger] value_node(t[q]) == value_node(t.last()))
                <==> seen) by {
                if seen {
                    let q = choose|q: int| 0 <= q < k && #[trigger] value_node(lv[q]) == id;
                    assert(t[q] == lv[q]);
                }
                if exists|q: int| 0 <= q < t.len() - 1 && #[trigger] value_node(t[q]) == value_node(t.last()) {
                    let q = choose|q: int| 0 <= q < t.len() - 1 && #[trigger] value_node(t[q]) == value_node(t.last());
                    assert(t[q] == lv[q]);
                }
            }
        }
        if !seen {
            let l = &leaves[k];
            let ghost before = v@;
            v.push(FieldLeaf { obj_id: l.obj_id, name: l.name.clone(), field_type: l.field_type, field_id: l.field_id });
            assert(leaves_view(v@) =~= leaves_view(before).push(lv[k as int]));
        }
        k = k + 1;
    }
    assert(lv.take(leaves@.len() as int) =~= lv);
    v
}

/// The fields of a form to fill, from the nodes of its `/Fields` array: the leaves in tree
/// order, one per field (the first widget of each).
pub fn collect_field_leaves(fields: &Vec<FieldNode>) -> (v: Vec<FieldLeaf>)
    ensures
        leaves_view(v@) == first_per_field(kids_leaves(fields@, fields@.len() as int, Seq::empty(), None, None)),
{
    let mut out: Vec<FieldLeaf> = Vec::new();
    let parts: Vec<String> = Vec::new();
    assert(strings_view(parts@) =~= Seq::<Seq<char>>::empty());
    collect_kids(fields, fields.len(), &parts, &None, None, &mut out);
    assert(leaves_view(Seq::<FieldLeaf>::empty()) =~= Seq::<LeafView>::empty());
    assert(leaves_view(out@) =~= Seq::<LeafView>::empty() + kids_leaves(fields@, fields@.len() as int, Seq::empty(), None, None));
    first_per_field_exec(&out)
}

// ---------------------------------------------------------------------------
// Filling a field
// ---------------------------------------------------------------------------

/// The bytes of the string or name under `/k` in object `id` (reached as
/// `Document::get_object` does), when it holds one.
pub uninterp spec fn pdf_text_value(doc: lopdf::Document, id: (u32, u16), k: Seq<u8>) -> Option<Seq<u8>>;

/// The bytes of the name under `/k` in object `id`, when it holds one.
pub uninterp spec fn pdf_name_value(doc: lopdf::Document, id: (u32, u16), k: Seq<u8>) -> Option<Seq<u8>>;

/// The boolean under `/k` in object `id`, when it holds one.
pub uninterp spec fn pdf_bool_value(doc: lopdf::Document, id: (u32, u16), k: Seq<u8>) -> Option<bool>;

/// The reference under `/k` in the document's catalog: `None` without a catalog, `Some(None)`
/// when `/k` holds no reference.
pub uninterp spec fn pdf_catalog_ref(doc: lopdf::Document, k: Seq<u8>) -> Option<Option<(u32, u16)>>;

/// The string or name under `/k` in object `id`, and the name alone (`Document::get_object`,
/// `Object::as_dict`, `Dictionary::get`, `Object::as_name`); a failure carries lopdf's
/// message. Claims that it succeeds exactly when the object is a dictionary, with the
/// named values (and that without a dictionary there are none).
#[verifier::external_body]
fn lopdf_text_and_name(doc: &lopdf::Document, id: (u32, u16), k: &[u8]) -> (r: Result<(Option<Vec<u8>>, Option<Vec<u8>>), String>)
    ensures
        r is Ok <==> pdf_entry(*doc, id, p0()) == Some(Entry::Dictionary),
        r matches Ok((t, n)) ==> bytes_view(t) == pdf_text_value(*doc, id, k@) && bytes_view(n) == pdf_name_value(*doc, id, k@),
        r is Err ==> pdf_text_value(*doc, id, k@) is None && pdf_name_value(*doc, id, k@) is None,
{
    let d = doc.get_object(id).and_then(lopdf::Object::as_dict).map_err(|e| format!("{e}"))?;
    Ok(match d.get(k) {
        Ok(lopdf::Object::String(b, _)) => (Some(b.clone()), None),
        Ok(lopdf::Object::Name(b)) => (Some(b.clone()), Some(b.clone())),
        _ => (None, None),
    })
}

/// `b` is `a` with only `/k` of object `id` written: other values stay.
pub open spec fn values_kept(a: lopdf::Document, b: lopdf::Document, k: Seq<u8>) -> bool {
    &&& forall|i: (u32, u16), k2: Seq<u8>| k2 != k ==> #[trigger] pdf_text_value(b, i, k2) == pdf_text_value(a, i, k2)
    &&& forall|i: (u32, u16), k2: Seq<u8>| k2 != k ==> #[trigger] pdf_name_value(b, i, k2) == pdf_name_value(a, i, k2)
}

/// Set `/k` in object `id` to the name `value` (`Document::get_object_mut`,
/// `Object::as_dict_mut`, `Dictionary::set`). Nothing else changes; a failure carries
/// lopdf's message and changes nothing.
#[verifier::external_body]
fn lopdf_put_name1(doc: &mut lopdf::Document, id: (u32, u16), k: &[u8], value: &[u8]) -> (r: Result<(), String>)
    ensures
        r is Ok <==> pdf_entry(*old(doc), id, p0()) == Some(Entry::Dictionary),
        r is Ok ==> pdf_name_value(*final(doc), id, k@) == Some(value@) && pdf_text_value(*final(doc), id, k@) == Some(
            value@,
        ),
        r is Ok ==> pdf_entry(*final(doc), id, p0()) == Some(Entry::Dictionary),
        r is Err ==> *final(doc) == *old(doc),
        values_kept(*old(doc), *final(doc), k@),
{
    let d = doc.get_object_mut(id).and_then(lopdf::Object::as_dict_mut).map_err(|e| format!("{e}"))?;
    d.set(k.to_vec(), lopdf::Object::Name(value.to_vec()));
    Ok(())
}

/// Set `/k` in object `id` to the literal string `value` (`Document::get_object_mut`,
/// `Object::as_dict_mut`, `Dictionary::set`). Nothing else changes; a failure carries
/// lopdf's message and changes nothing.
#[verifier::external_body]
fn lopdf_put_string1(doc: &mut lopdf::Document, id: (u32, u16), k: &[u8], value: &[u8]) -> (r: Result<(), String>)
    ensures
        r is Ok <==> pdf_entry(*old(doc), id, p0()) == Some(Entry::Dictionary),
        r is Ok ==> pdf_text_value(*final(doc), id, k@) == Some(value@) && pdf_name_value(*final(doc), id, k@) is None,
        r is Err ==> *final(doc) == *old(doc),
        values_kept(*old(doc), *final(doc), k@),
{
    let d = doc.get_object_mut(id).and_then(lopdf::Object::as_dict_mut).map_err(|e| format!("{e}"))?;
    d.set(k.to_vec(), lopdf::Object::String(value.to_vec(), lopdf::StringFormat::Literal));
    Ok(())
}

/// The reference under `/k` in the catalog (`Document::catalog`, `Dictionary::get`); a
/// failure carries lopdf's message. Claims that it fails exactly without a catalog, with the
/// named reference otherwise.
#[verifier::external_body]
fn lopdf_catalog_ref(doc: &lopdf::Document, k: &[u8]) -> (r: Result<Option<(u32, u16)>, String>)
    ensures
        r is Ok <==> pdf_catalog_ref(*doc, k@) is Some,
        r matches Ok(o) ==> pdf_catalog_ref(*doc, k@) == Some(o),
{
    let catalog = doc.catalog().map_err(|e| format!("{e}"))?;
    Ok(match catalog.get(k) {
        Ok(lopdf::Object::Reference(id)) => Some(*id),
        _ => None,
    })
}

/// Set `/k` in object `id` to the boolean `value` (`Document::get_object_mut`,
/// `Object::as_dict_mut`, `Dictionary::set`); a failure carries lopdf's message and changes
/// nothing.
#[verifier::external_body]
fn lopdf_put_bool1(doc: &mut lopdf::Document, id: (u32, u16), k: &[u8], value: bool) -> (r: Result<(), String>)
    ensures
        r is Ok <==> pdf_entry(*old(doc), id, p0()) == Some(Entry::Dictionary),
        r is Ok ==> pdf_bool_value(*final(doc), id, k@) == Some(value),
        r is Err ==> *final(doc) == *old(doc),
{
    let d = doc.get_object_mut(id).and_then(lopdf::Object::as_dict_mut).map_err(|e| format!("{e}"))?;
    d.set(k.to_vec(), lopdf::Object::Boolean(value));
    Ok(())
}

/// The name `V` (a field's value), as bytes.
pub open spec fn value_key() -> Seq<u8> {
    seq![86u8]
}

/// The name `AS` (a button's appearance state), as bytes.
pub open spec fn state_key() -> Seq<u8> {
    seq![65u8, 83u8]
}

/// The name `FT` (a field's type), as bytes.
pub open spec fn field_type_key() -> Seq<u8> {
    seq![70u8, 84u8]
}

/// The name `Btn` (the button field type), as bytes.
pub open spec fn button_type() -> Seq<u8> {
    seq![66u8, 116u8, 110u8]
}

/// The name `AcroForm`, as bytes.
pub open spec fn acro_form_key() -> Seq<u8> {
    seq![65u8, 99u8, 114u8, 111u8, 70u8, 111u8, 114u8, 109u8]
}

/// The name `NeedAppearances`, as bytes.
pub open spec fn need_appearances_key() -> Seq<u8> {
    seq![78u8, 101u8, 101u8, 100u8, 65u8, 112u8, 112u8, 101u8, 97u8, 114u8, 97u8, 110u8, 99u8, 101u8, 115u8]
}

/// The old value a field shows: its `/V` string or name decoded, or empty.
pub open spec fn old_field_value(doc: lopdf::Document, id: (u32, u16)) -> Seq<char> {
    match pdf_text_value(doc, id, value_key()) {
        Some(b) => utf8_lossy(b),
        None => Seq::empty(),
    }
}

/// Whether the field is a button (`/FT /Btn`): a checkbox or radio.
pub open spec fn is_button_field(doc: lopdf::Document, id: (u32, u16)) -> bool {
    pdf_name_value(doc, id, field_type_key()) == Some(button_type())
}

/// Write a field's new value: a button takes it as a name in `/V` and as its appearance
/// state `/AS`; another field as a literal string in `/V`. Gives back the old value and
/// whether the field's widgets need new appearance streams (a field other than a button
/// given a value that is not empty). Fails with lopdf's message, changing nothing, exactly
/// when the field is not a dictionary.
pub fn write_field_value(doc: &mut lopdf::Document, obj_id: (u32, u16), value: &[u8]) -> (r: Result<(String, bool), String>)
    ensures
        r is Ok <==> pdf_entry(*old(doc), obj_id, p0()) == Some(Entry::Dictionary),
        r is Err ==> *final(doc) == *old(doc),
        r matches Ok((old_value, appearances)) ==> {
            &&& old_value@ == old_field_value(*old(doc), obj_id)
            &&& appearances == (!is_button_field(*old(doc), obj_id) && value@.len() > 0)
            &&& pdf_text_value(*final(doc), obj_id, value_key()) == Some(value@)
            &&& is_button_field(*old(doc), obj_id) ==> {
                &&& pdf_name_value(*final(doc), obj_id, value_key()) == Some(value@)
                &&& pdf_name_value(*final(doc), obj_id, state_key()) == Some(value@)
            }
            &&& !is_button_field(*old(doc), obj_id) ==> pdf_name_value(*final(doc), obj_id, value_key()) is None
        },
{
    let vk: Vec<u8> = vec![86u8];
    let fk: Vec<u8> = vec![70u8, 84u8];
    proof {
        assert(vk@ =~= value_key());
        assert(fk@ =~= field_type_key());
    }
    let (text, _) = lopdf_text_and_name(doc, obj_id, vk.as_slice())?;
    let old_value = match text {
        Some(b) => from_utf8_lossy(b.as_slice()),
        None => String::new(),
    };
    let (_, ft) = lopdf_text_and_name(doc, obj_id, fk.as_slice())?;
    let is_button = match &ft {
        Some(n) => n.len() == 3 && n[0] == 66u8 && n[1] == 116u8 && n[2] == 110u8,
        None => false,
    };
    proof {
        if let Some(n) = ft {
            if n@ == button_type() {
                assert(n@[0] == 66u8 && n@[1] == 116u8 && n@[2] == 110u8);
            }
            if n.len() == 3 && n@[0] == 66u8 && n@[1] == 116u8 && n@[2] == 110u8 {
                assert(n@ =~= button_type());
            }
        }
    }
    if is_button {
        let sk: Vec<u8> = vec![65u8, 83u8];
        proof {
            assert(sk@ =~= state_key());
            assert(sk@ != vk@);
        }
        lopdf_put_name1(doc, obj_id, vk.as_slice(), value)?;
        let ghost after_value = *doc;
        let _ = lopdf_put_name1(doc, obj_id, sk.as_slice(), value);
        proof {
            assert(pdf_name_value(*doc, obj_id, vk@) == pdf_name_value(after_value, obj_id, vk@));
            assert(pdf_text_value(*doc, obj_id, vk@) == pdf_text_value(after_value, obj_id, vk@));
        }
    } else {
        lopdf_put_string1(doc, obj_id, vk.as_slice(), value)?;
    }
    Ok((old_value, !is_button && value.len() > 0))
}

/// Ask viewers to draw the form's fields anew: set `/NeedAppearances true` in the form
/// dictionary the catalog's `/AcroForm` refers to. A form held inline in the catalog, or
/// none, is left as it is. Fails with lopdf's message, changing nothing, without a catalog
/// or when the referred form is not a dictionary.
pub fn set_need_appearances(doc: &mut lopdf::Document) -> (r: Result<(), String>)
    ensures
        r is Ok <==> match pdf_catalog_ref(*old(doc), acro_form_key()) {
            None => false,
            Some(None) => true,
            Some(Some(form)) => pdf_entry(*old(doc), form, p0()) == Some(Entry::Dictionary),
        },
        r is Err ==> *final(doc) == *old(doc),
        pdf_catalog_ref(*old(doc), acro_form_key()) == Some(None::<(u32, u16)>) ==> *final(doc) == *old(doc),
        r is Ok ==> (pdf_catalog_ref(*old(doc), acro_form_key()) matches Some(Some(form)) ==> pdf_bool_value(
            *final(doc),
            form,
            need_appearances_key(),
        ) == Some(true)),
{
    let ak: Vec<u8> = vec![65u8, 99u8, 114u8, 111u8, 70u8, 111u8, 114u8, 109u8];
    let nk: Vec<u8> = vec![78u8, 101u8, 101u8, 100u8, 65u8, 112u8, 112u8, 101u8, 97u8, 114u8, 97u8, 110u8, 99u8, 101u8, 115u8];
    proof {
        assert(ak@ =~= acro_form_key());
        assert(nk@ =~= need_appearances_key());
    }
    match lopdf_catalog_ref(doc, ak.as_slice())? {
        Some(form) => lopdf_put_bool1(doc, form, nk.as_slice(), true),
        None => Ok(()),
    }
}

// ---------------------------------------------------------------------------
// Reading the field tree
// ---------------------------------------------------------------------------

/// What the tree walk reads from a field's dictionary: whether it has `/T`, the bytes of
/// `/T` when it is a string (empty otherwise), `/FT` when it is a name, and the length of
/// `/Rect` when it is an array.
pub struct FieldHead {
    pub has_title: bool,
    pub title: Vec<u8>,
    pub field_type: Option<Vec<u8>>,
    pub rect_len: Option<usize>,
}

/// The head of the field dictionary of object `id` (reached as `Document::get_object` does),
/// as `FieldHead` describes it; `None` when the object is no dictionary.
pub uninterp spec fn pdf_field_head(doc: lopdf::Document, id: (u32, u16)) -> Option<(bool, Seq<u8>, Option<Seq<u8>>, Option<nat>)>;

/// The items of the field's `/Kids` when it is an array or refers to one (`Some` of the
/// referenced id for each reference, `None` for any other item); `None` otherwise.
pub uninterp spec fn pdf_field_kids(doc: lopdf::Document, id: (u32, u16)) -> Option<Seq<Option<(u32, u16)>>>;

/// A length, as a natural number.
pub open spec fn len_view(o: Option<usize>) -> Option<nat> {
    match o {
        Some(n) => Some(n as nat),
        None => None,
    }
}

/// Read the head of a field's dictionary (`Document::get_object`, `Object::as_dict`,
/// `Dictionary::has`, `Dictionary::get`, `Object::as_str`, `Object::as_name`,
/// `Object::as_array`). Claims that the result is the named one, found only for an object
/// the document holds.
#[verifier::external_body]
fn lopdf_field_head(doc: &lopdf::Document, id: (u32, u16)) -> (r: Option<FieldHead>)
    ensures
        r is None <==> pdf_field_head(*doc, id) is None,
        r matches Some(h) ==> pdf_field_head(*doc, id) == Some(
            (h.has_title, h.title@, bytes_view(h.field_type), len_view(h.rect_len)),
        ),
        r is Some ==> pdf_object_kind(*doc, id) is Some,
{
    let d = doc.get_object(id).ok()?.as_dict().ok()?;
    Some(FieldHead {
        has_title: d.has(b"T"),
        title: d.get(b"T").ok().and_then(|o| o.as_str().ok()).map(|b| b.to_vec()).unwrap_or_default(),
        field_type: d.get(b"FT").ok().and_then(|o| o.as_name().ok()).map(|b| b.to_vec()),
        rect_len: d.get(b"Rect").ok().and_then(|o| o.as_array().ok()).map(|a| a.len()),
    })
}

/// Read a field's `/Kids`, following a reference to the array (`Document::get_object`,
/// `Object::as_dict`, `Dictionary::get`, `Object::as_array`, `Object::as_reference`).
/// Claims that the result is the named one.
#[verifier::external_body]
fn lopdf_field_kids(doc: &lopdf::Document, id: (u32, u16)) -> (r: Option<Vec<Option<(u32, u16)>>>)
    ensures
        r is None <==> pdf_field_kids(*doc, id) is None,
        r matches Some(v) ==> pdf_field_kids(*doc, id) == Some(v@),
{
    let d = doc.get_object(id).ok()?.as_dict().ok()?;
    let arr = match d.get(b"Kids") {
        Ok(lopdf::Object::Array(arr)) => arr,
        Ok(lopdf::Object::Reference(r)) => doc.get_object(*r).ok()?.as_array().ok()?,
        _ => return None,
    };
    Some(arr.iter().map(|o| o.as_reference().ok()).collect())
}

/// The kid items to walk: those of `/Kids`, or none.
pub open spec fn kid_items(o: Option<Seq<Option<(u32, u16)>>>) -> Seq<Option<(u32, u16)>> {
    match o {
        Some(s) => s,
        None => Seq::empty(),
    }
}

/// Whether the walk reads a kid item: a reference to a dictionary that is not among the
/// ancestors `path` (following it back up would never end).
pub open spec fn kid_taken(doc: lopdf::Document, path: Seq<(u32, u16)>, item: Option<(u32, u16)>) -> bool {
    &&& item matches Some(k)
    &&& !path.contains(k)
    &&& pdf_field_head(doc, k) is Some
}

/// `node` is what the walk reads of object `id` below the ancestors `path`: the head of its
/// dictionary, and as kids the nodes read of the kid items it takes, in order.
pub open spec fn node_read(doc: lopdf::Document, path: Seq<(u32, u16)>, id: (u32, u16), node: FieldNode) -> bool
    decreases node, 0int,
{
    match pdf_field_head(doc, id) {
        None => false,
        Some(head) => {
            let kids = pdf_field_kids(doc, id);
            &&& node.obj_id == id
            &&& node.has_title == head.0
            &&& node.title@ == head.1
            &&& bytes_view(node.field_type) == head.2
            &&& node.has_rect == (head.3 matches Some(n) && n >= 4)
            &&& node.kids_array == kids is Some
            &&& kids_read(doc, path.push(id), kid_items(kids), kid_items(kids).len() as int, node.kids@)
        },
    }
}

/// `kids` are the nodes the walk reads of the first `n` kid items, below `path`.
pub open spec fn kids_read(
    doc: lopdf::Document,
    path: Seq<(u32, u16)>,
    items: Seq<Option<(u32, u16)>>,
    n: int,
    kids: Seq<FieldNode>,
) -> bool
    decreases kids, n,
{
    if n <= 0 || n > items.len() {
        kids.len() == 0
    } else if kid_taken(doc, path, items[n - 1]) {
        &&& kids.len() > 0
        &&& node_read(doc, path, items[n - 1]->0, kids[kids.len() - 1])
        &&& kids_read(doc, path, items, n - 1, kids.subrange(0, kids.len() - 1))
    } else {
        kids_read(doc, path, items, n - 1, kids)
    }
}

/// Whether `id` is among `path`.
fn path_contains(path: &Vec<(u32, u16)>, id: (u32, u16)) -> (b: bool)
    ensures
        b == path@.contains(id),
{
    let mut k: usize = 0;
    while k < path.len()
        invariant
            k <= path@.len(),
            forall|q: int| 0 <= q < k ==> path@[q] != id,
        decreases path@.len() - k,
    {
        if path[k].0 == id.0 && path[k].1 == id.1 {
            assert(path@[k as int] == id);
            return true;
        }
        k = k + 1;
    }
    false
}

/// Ancestors that are distinct objects of the document are no more than its objects.
proof fn lemma_path_bounded(path: Seq<(u32, u16)>, ids: Seq<(u32, u16)>)
    requires
        path.no_duplicates(),
        forall|i: (u32, u16)| path.contains(i) ==> ids.contains(i),
    ensures
        path.len() <= ids.len(),
{
    path.unique_seq_to_set();
    ids.lemma_cardinality_of_set();
    vstd::seq_lib::seq_to_set_is_finite(ids);
    assert(path.to_set().subset_of(ids.to_set()));
    vstd::set_lib::lemma_len_subset(path.to_set(), ids.to_set());
}

/// Read the field tree under `id` into plain values (`node_read`), or `None` when the object
/// is not a dictionary. `path` holds the ancestors and is as it was afterwards; `ids` holds
/// every object id of the document, which bounds how deep the walk can go.
fn read_node(doc: &lopdf::Document, id: (u32, u16), path: &mut Vec<(u32, u16)>, ids: &Vec<(u32, u16)>) -> (r: Option<FieldNode>)
    requires
        old(path)@.no_duplicates(),
        !old(path)@.contains(id),
        forall|i: (u32, u16)| old(path)@.contains(i) ==> ids@.contains(i),
        forall|i: (u32, u16)| #[trigger] pdf_object_kind(*doc, i) is Some ==> ids@.contains(i),
    ensures
        final(path)@ == old(path)@,
        r is None <==> pdf_field_head(*doc, id) is None,
        r matches Some(n) ==> node_read(*doc, old(path)@, id, n),
    decreases ids@.len() - old(path)@.len(),
{
    let head = match lopdf_field_head(doc, id) {
        None => {
            return None;
        },
        Some(h) => h,
    };
    let items = lopdf_field_kids(doc, id);
    let ghost p0 = path@;
    let mut kids: Vec<FieldNode> = Vec::new();
    match &items {
        Some(items) => {
            proof {
                assert(ids@.contains(id));
                lemma_path_bounded(p0.push(id), ids@);
            }
            path.push(id);
            let mut j: usize = 0;
            while j < items.len()
                invariant
                    j <= items@.len(),
                    p0 == old(path)@,
                    path@ == p0.push(id),
                    p0.push(id).len() <= ids@.len(),
                    p0.push(id).no_duplicates(),
                    forall|i: (u32, u16)| p0.push(id).contains(i) ==> ids@.contains(i),
                    forall|i: (u32, u16)| #[trigger] pdf_object_kind(*doc, i) is Some ==> ids@.contains(i),
                    kids_read(*doc, p0.push(id), items@, j as int, kids@),
                decreases items@.len() - j,
            {
                let ghost before = kids@;
                if let Some(k) = items[j] {
                    if !path_contains(path, k) {
                        if let Some(node) = read_node(doc, k, path, ids) {
                            kids.push(node);
                            proof {
                                assert(kids@.subrange(0, kids@.len() - 1) =~= before);
                            }
                        }
                    }
                }
                j = j + 1;
            }
            path.pop();
            proof {
                assert(path@ =~= p0);
            }
        },
        None => {},
    }
    let has_rect = match head.rect_len {
        Some(n) => n >= 4,
        None => false,
    };
    let kids_array = items.is_some();
    Some(FieldNode {
        obj_id: id,
        has_title: head.has_title,
        title: head.title,
        field_type: head.field_type,
        kids_array,
        kids,
        has_rect,
    })
}

/// Read the field tree under object `id` into plain values, the walk passing over any kid
/// that refers back to one of its ancestors (`node_read` below no ancestors); `None` when
/// the object is not a dictionary.
pub fn read_field_tree(doc: &lopdf::Document, id: (u32, u16)) -> (r: Option<FieldNode>)
    ensures
        r is None <==> pdf_field_head(*doc, id) is None,
        r matches Some(n) ==> node_read(*doc, Seq::empty(), id, n),
{
    let ids = lopdf_object_ids(doc);
    let mut path: Vec<(u32, u16)> = Vec::new();
    proof {
        assert(path@ =~= Seq::<(u32, u16)>::empty());
    }
    read_node(doc, id, &mut path, &ids)
}

// ---------------------------------------------------------------------------
// A field's value and options
// ---------------------------------------------------------------------------

/// The node whose `/V` a leaf shows: the node holding its value when that node has a `/V`
/// of any kind, else the leaf's own widget.
pub open spec fn value_source(doc: lopdf::Document, widget: (u32, u16), holder: Option<(u32, u16)>) -> (u32, u16) {
    match holder {
        Some(h) => match pdf_entry(doc, h, p1(value_key())) {
            Some(e) => if e != Entry::Missing {
                h
            } else {
                widget
            },
            None => widget,
        },
        None => widget,
    }
}

/// The value a leaf shows: the `/V` of its value source decoded when it is a string or a
/// name, or empty.
pub open spec fn shown_value(doc: lopdf::Document, widget: (u32, u16), holder: Option<(u32, u16)>) -> Seq<char> {
    match pdf_text_value(doc, value_source(doc, widget, holder), value_key()) {
        Some(b) => utf8_lossy(b),
        None => Seq::empty(),
    }
}

/// The value a leaf shows (`shown_value`).
pub fn field_value(doc: &lopdf::Document, widget: (u32, u16), holder: Option<(u32, u16)>) -> (s: String)
    ensures
        s@ == shown_value(*doc, widget, holder),
{
    let vk: Vec<u8> = vec![86u8];
    proof {
        assert(vk@ =~= value_key());
    }
    let source = match holder {
        Some(h) => match lopdf_entry1(doc, h, vk.as_slice()) {
            Ok(Entry::Missing) => widget,
            Ok(_) => h,
            Err(_) => widget,
        },
        None => widget,
    };
    match lopdf_text_and_name(doc, source, vk.as_slice()) {
        Ok((Some(b), _)) => from_utf8_lossy(b.as_slice()),
        _ => String::new(),
    }
}

/// The keys of the dictionary `/k1 /k2` of object `id` (both held inline), in order;
/// `None` when there is no such dictionary.
pub uninterp spec fn pdf_dict_keys2(doc: lopdf::Document, id: (u32, u16), k1: Seq<u8>, k2: Seq<u8>) -> Option<Seq<Seq<u8>>>;

/// The keys of the dictionary `/k1 /k2` of object `id` (`Document::get_object`,
/// `Object::as_dict`, `Dictionary::get`, `Dictionary::iter`). Claims that they are the
/// named ones.
#[verifier::external_body]
fn lopdf_dict_keys2(doc: &lopdf::Document, id: (u32, u16), k1: &[u8], k2: &[u8]) -> (r: Option<Vec<Vec<u8>>>)
    ensures
        r is None <==> pdf_dict_keys2(*doc, id, k1@, k2@) is None,
        r matches Some(v) ==> pdf_dict_keys2(*doc, id, k1@, k2@) == Some(v@.map_values(|b: Vec<u8>| b@)),
{
    let d = doc.get_object(id).ok()?.as_dict().ok()?.get(k1).ok()?.as_dict().ok()?.get(k2).ok()?.as_dict().ok()?;
    Some(d.iter().map(|(k, _)| k.clone()).collect())
}

/// An item of a choice field's `/Opt` array: a string, an array (each item's bytes when it
/// is a string), or something else.
pub enum OptItem {
    Text(Vec<u8>),
    List(Vec<Option<Vec<u8>>>),
    Other,
}

/// The view of an `/Opt` item.
pub enum OptItemView {
    Text(Seq<u8>),
    List(Seq<Option<Seq<u8>>>),
    Other,
}

/// The view of an `/Opt` item, with plain byte sequences.
pub open spec fn opt_item_view(item: OptItem) -> OptItemView {
    match item {
        OptItem::Text(b) => OptItemView::Text(b@),
        OptItem::List(v) => OptItemView::List(v@.map_values(|o: Option<Vec<u8>>| bytes_view(o))),
        OptItem::Other => OptItemView::Other,
    }
}

/// The items of the `/Opt` array of object `id` (held inline); `None` without one.
pub uninterp spec fn pdf_opt_items(doc: lopdf::Document, id: (u32, u16)) -> Option<Seq<OptItemView>>;

/// Read the items of a choice field's `/Opt` array (`Document::get_object`,
/// `Object::as_dict`, `Dictionary::get`, `Object::as_array`). Claims that they are the
/// named ones.
#[verifier::external_body]
fn lopdf_opt_items(doc: &lopdf::Document, id: (u32, u16)) -> (r: Option<Vec<OptItem>>)
    ensures
        r is None <==> pdf_opt_items(*doc, id) is None,
        r matches Some(v) ==> pdf_opt_items(*doc, id) == Some(v@.map_values(|i: OptItem| opt_item_view(i))),
{
    let arr = doc.get_object(id).ok()?.as_dict().ok()?.get(b"Opt").ok()?.as_array().ok()?;
    Some(arr.iter().map(|item| match item {
        lopdf::Object::String(b, _) => OptItem::Text(b.clone()),
        lopdf::Object::Array(a) => OptItem::List(a.iter().map(|o| o.as_str().ok().map(|b| b.to_vec())).collect()),
        _ => OptItem::Other,
    }).collect())
}

/// The label an `/Opt` item offers: a string, or the second item of an array of two or
/// more when that is a string.
pub open spec fn opt_label(item: OptItemView) -> Option<Seq<u8>> {
    match item {
        OptItemView::Text(b) => Some(b),
        OptItemView::List(v) => if v.len() >= 2 {
            v[1]
        } else {
            None
        },
        OptItemView::Other => None,
    }
}

/// The labels of these `/Opt` items, in order, decoded.
pub open spec fn opt_labels(items: Seq<OptItemView>) -> Seq<Seq<char>>
    decreases items.len(),
{
    if items.len() == 0 {
        Seq::empty()
    } else {
        let r = opt_labels(items.drop_last());
        match opt_label(items.last()) {
            Some(b) => r.push(utf8_lossy(b)),
            None => r,
        }
    }
}

/// The name `Off` (a button's off state), as bytes.
pub open spec fn off_state() -> Seq<u8> {
    seq![79u8, 102u8, 102u8]
}

/// The states of a checkbox, in order, decoded: the keys of its normal appearances other
/// than `Off`.
pub open spec fn on_states(keys: Seq<Seq<u8>>) -> Seq<Seq<char>>
    decreases keys.len(),
{
    if keys.len() == 0 {
        Seq::empty()
    } else {
        let r = on_states(keys.drop_last());
        if keys.last() == off_state() {
            r
        } else {
            r.push(utf8_lossy(keys.last()))
        }
    }
}

/// The options a field offers: for a checkbox its states (`/AP /N` keys other than `Off`),
/// for a choice field the labels of `/Opt`; none for other fields or where those are
/// missing.
pub open spec fn field_options(doc: lopdf::Document, widget: (u32, u16), kind: FormFieldType) -> Seq<Seq<char>> {
    match kind {
        FormFieldType::Checkbox => match pdf_dict_keys2(doc, widget, seq![65u8, 80u8], seq![78u8]) {
            Some(keys) => on_states(keys),
            None => Seq::empty(),
        },
        FormFieldType::Choice => match pdf_opt_items(doc, widget) {
            Some(items) => opt_labels(items),
            None => Seq::empty(),
        },
        _ => Seq::empty(),
    }
}

/// The options a field offers (`field_options`).
pub fn field_options_exec(doc: &lopdf::Document, widget: (u32, u16), kind: FormFieldType) -> (v: Vec<String>)
    ensures
        strings_view(v@) == field_options(*doc, widget, kind),
{
    let mut out: Vec<String> = Vec::new();
    match kind {
        FormFieldType::Checkbox => {
            let ap: Vec<u8> = vec![65u8, 80u8];
            let n: Vec<u8> = vec![78u8];
            proof {
                assert(ap@ =~= seq![65u8, 80u8]);
                assert(n@ =~= seq![78u8]);
            }
            if let Some(keys) = lopdf_dict_keys2(doc, widget, ap.as_slice(), n.as_slice()) {
                let ghost kv = keys@.map_values(|b: Vec<u8>| b@);
                let mut k: usize = 0;
                while k < keys.len()
                    invariant
                        k <= keys@.len(),
                        kv == keys@.map_values(|b: Vec<u8>| b@),
                        strings_view(out@) == on_states(kv.take(k as int)),
                    decreases keys@.len() - k,
                {
                    proof {
                        assert(kv.take(k + 1).drop_last() =~= kv.take(k as int));
                    }
                    let key = &keys[k];
                    let is_off = key.len() == 3 && key[0] == 79u8 && key[1] == 102u8 && key[2] == 102u8;
                    proof {
                        if key@ == off_state() {
                            assert(key@[0] == 79u8 && key@[1] == 102u8 && key@[2] == 102u8);
                        }
                        if is_off {
                            assert(key@ =~= off_state());
                        }
                    }
                    if !is_off {
                        let ghost before = out@;
                        out.push(from_utf8_lossy(key.as_slice()));
                        proof {
                            assert(strings_view(out@) =~= strings_view(before).push(utf8_lossy(key@)));
                        }
                    }
                    k = k + 1;
                }
                proof {
                    assert(kv.take(keys@.len() as int) =~= kv);
                }
            } else {
                proof {
                    assert(strings_view(out@) =~= Seq::<Seq<char>>::empty());
                }
            }
        },
        FormFieldType::Choice => {
            if let Some(items) = lopdf_opt_items(doc, widget) {
                let ghost iv = items@.map_values(|i: OptItem| opt_item_view(i));
                let mut k: usize = 0;
                while k < items.len()
                    invariant
                        k <= items@.len(),
                        iv == items@.map_values(|i: OptItem| opt_item_view(i)),
                        strings_view(out@) == opt_labels(iv.take(k as int)),
                    decreases items@.len() - k,
                {
                    proof {
                        assert(iv.take(k + 1).drop_last() =~= iv.take(k as int));
                    }
                    let label: Option<&Vec<u8>> = match &items[k] {
                        OptItem::Text(b) => Some(b),
                        OptItem::List(v) => if v.len() >= 2 {
                            match &v[1] {
                                Some(b) => Some(b),
                                None => None,
                            }
                        } else {
                            None
                        },
                        OptItem::Other => None,
                    };
                    if let Some(b) = label {
                        let ghost before = out@;
                        out.push(from_utf8_lossy(b.as_slice()));
                        proof {
                            assert(strings_view(out@) =~= strings_view(before).push(utf8_lossy(b@)));
                        }
                    }
                    k = k + 1;
                }
                proof {
                    assert(iv.take(items@.len() as int) =~= iv);
                }
            } else {
                proof {
                    assert(strings_view(out@) =~= Seq::<Seq<char>>::empty());
                }
            }
        },
        _ => {
            proof {
                assert(strings_view(out@) =~= Seq::<Seq<char>>::empty());
            }
        },
    }
    out
}

// ---------------------------------------------------------------------------
// Finding the form's fields
// ---------------------------------------------------------------------------

/// The kind of `/AcroForm` in the catalog (`Document::catalog`, `Dictionary::get`); a
/// failure carries lopdf's message. Claims that it fails exactly without a catalog, which is
/// the trailer's `/Root`, with the named kind otherwise.
#[verifier::external_body]
fn lopdf_catalog_form(doc: &lopdf::Document) -> (r: Result<Entry, String>)
    ensures
        r is Ok <==> pdf_catalog_pages(*doc) is Some,
        r matches Ok(e) ==> pdf_trailer_root(*doc) matches Some(c) && pdf_entry(*doc, c, p1(acro_form_key())) == Some(e),
{
    let catalog = doc.catalog().map_err(|e| format!("{e}"))?;
    Ok(match catalog.get(b"AcroForm") {
        Ok(lopdf::Object::Reference(r)) => Entry::Reference(*r),
        Ok(lopdf::Object::Dictionary(_)) => Entry::Dictionary,
        Ok(lopdf::Object::Array(_)) => Entry::Array,
        Ok(_) => Entry::Other,
        Err(_) => Entry::Missing,
    })
}

/// The kind of object `id` as `Document::get_object` finds it; a failure carries lopdf's
/// message. Claims that it fails exactly when the object cannot be reached, with the named
/// kind otherwise.
#[verifier::external_body]
fn lopdf_object_kind_or_error(doc: &lopdf::Document, id: (u32, u16)) -> (r: Result<Entry, String>)
    ensures
        r is Ok <==> pdf_entry(*doc, id, p0()) is Some,
        r matches Ok(e) ==> pdf_entry(*doc, id, p0()) == Some(e),
{
    let o = doc.get_object(id).map_err(|e| format!("{e}"))?;
    Ok(match o {
        lopdf::Object::Reference(r) => Entry::Reference(*r),
        lopdf::Object::Dictionary(_) => Entry::Dictionary,
        lopdf::Object::Array(_) => Entry::Array,
        _ => Entry::Other,
    })
}

/// The items of the array object `id` (`Document::get_object`, `Object::as_array`,
/// `Object::as_reference`); a failure carries lopdf's message. Claims that it succeeds
/// exactly when the object is an array, with the named items.
#[verifier::external_body]
fn lopdf_array_object(doc: &lopdf::Document, id: (u32, u16)) -> (r: Result<Vec<Option<(u32, u16)>>, String>)
    ensures
        r is Ok <==> pdf_entry(*doc, id, p0()) == Some(Entry::Array),
        r matches Ok(v) ==> pdf_array_refs(*doc, id, p0()) == Some(v@),
{
    let arr = doc.get_object(id).and_then(lopdf::Object::as_array).map_err(|e| format!("{e}"))?;
    Ok(arr.iter().map(|o| o.as_reference().ok()).collect())
}

/// The items of the array `/k` of object `id` (`Document::get_object`, `Object::as_dict`,
/// `Dictionary::get`, `Object::as_array`, `Object::as_reference`). Claims that they are the
/// named ones.
#[verifier::external_body]
fn lopdf_array_refs1(doc: &lopdf::Document, id: (u32, u16), k: &[u8]) -> (r: Option<Vec<Option<(u32, u16)>>>)
    ensures
        r is None <==> pdf_array_refs(*doc, id, p1(k@)) is None,
        r matches Some(v) ==> pdf_array_refs(*doc, id, p1(k@)) == Some(v@),
{
    let arr = doc.get_object(id).ok()?.as_dict().ok()?.get(k).ok()?.as_array().ok()?;
    Some(arr.iter().map(|o| o.as_reference().ok()).collect())
}

/// The items of the array `/k1 /k2` of object `id`, `/k1` a dictionary held inline
/// (`Document::get_object`, `Object::as_dict`, `Dictionary::get`, `Object::as_array`,
/// `Object::as_reference`). Claims that they are the named ones.
#[verifier::external_body]
fn lopdf_array_refs2(doc: &lopdf::Document, id: (u32, u16), k1: &[u8], k2: &[u8]) -> (r: Option<Vec<Option<(u32, u16)>>>)
    ensures
        r is None <==> pdf_array_refs(*doc, id, p2(k1@, k2@)) is None,
        r matches Some(v) ==> pdf_array_refs(*doc, id, p2(k1@, k2@)) == Some(v@),
{
    let arr = doc.get_object(id).ok()?.as_dict().ok()?.get(k1).ok()?.as_dict().ok()?.get(k2).ok()?.as_array().ok()?;
    Some(arr.iter().map(|o| o.as_reference().ok()).collect())
}

/// The name `XFA`, as bytes.
pub open spec fn xfa_key() -> Seq<u8> {
    seq![88u8, 70u8, 65u8]
}

/// The name `Fields`, as bytes.
pub open spec fn fields_key() -> Seq<u8> {
    seq![70u8, 105u8, 101u8, 108u8, 100u8, 115u8]
}

/// Where the form dictionary is: the object `/AcroForm` refers to (its own path empty), or
/// the catalog with the path `/AcroForm` when it is held inline; `None` when there is
/// neither (or no catalog).
pub open spec fn form_place(doc: lopdf::Document) -> Option<((u32, u16), Seq<Seq<u8>>)> {
    match pdf_trailer_root(doc) {
        Some(c) => match pdf_entry(doc, c, p1(acro_form_key())) {
            Some(Entry::Reference(id)) => Some((id, Seq::empty())),
            Some(Entry::Dictionary) => Some((c, p1(acro_form_key()))),
            _ => None,
        },
        None => None,
    }
}

/// The ids a form's `/Fields` items refer to, in order (other items are passed over).
pub open spec fn referred_ids(items: Seq<Option<(u32, u16)>>) -> Seq<(u32, u16)>
    decreases items.len(),
{
    if items.len() == 0 {
        Seq::empty()
    } else {
        let r = referred_ids(items.drop_last());
        match items.last() {
            Some(i) => r.push(i),
            None => r,
        }
    }
}

/// The fields' ids in order, given the form dictionary at `(id, path)`: `/Fields` is an
/// array there, or refers to an array object; `None` otherwise.
pub open spec fn fields_items(doc: lopdf::Document, id: (u32, u16), path: Seq<Seq<u8>>) -> Option<Seq<Option<(u32, u16)>>> {
    match pdf_entry(doc, id, path.push(fields_key())) {
        Some(Entry::Array) => pdf_array_refs(doc, id, path.push(fields_key())),
        Some(Entry::Reference(f)) => if pdf_entry(doc, f, p0()) == Some(Entry::Array) {
            pdf_array_refs(doc, f, p0())
        } else {
            None
        },
        _ => None,
    }
}

/// The top fields of the document's form (`/AcroForm /Fields`), as the ids their
/// references name, in order. Fails with "no catalog: " and lopdf's message without a
/// catalog; with "no AcroForm found in this PDF" when the catalog's `/AcroForm` is neither
/// a reference nor a dictionary; with lopdf's message when the referred form cannot be
/// reached, and "AcroForm is not a dict: " and lopdf's message when it is no dictionary;
/// with "XFA forms not supported" when the form has `/XFA`; with "no Fields in AcroForm"
/// without `/Fields`; with "Fields is not an array" when it is neither an array nor a
/// reference; and with lopdf's message when the array it refers to cannot be had.
pub fn form_field_ids(doc: &lopdf::Document) -> (r: Result<Vec<(u32, u16)>, String>)
    ensures
        pdf_catalog_pages(*doc) is None ==> r is Err,
        pdf_catalog_pages(*doc) is Some && form_place(*doc) is None ==> (r matches Err(e) && e@
            == "no AcroForm found in this PDF"@),
        pdf_catalog_pages(*doc) is Some ==> (form_place(*doc) matches Some((id, path)) ==> {
            &&& pdf_entry(*doc, id, path) != Some(Entry::Dictionary) ==> r is Err
            &&& pdf_entry(*doc, id, path) == Some(Entry::Dictionary) ==> {
                &&& pdf_entry(*doc, id, path.push(xfa_key())) != Some(Entry::Missing) ==> (r matches Err(e) && e@
                    == "XFA forms not supported"@)
                &&& pdf_entry(*doc, id, path.push(xfa_key())) == Some(Entry::Missing) ==> {
                    &&& pdf_entry(*doc, id, path.push(fields_key())) == Some(Entry::Missing) ==> (r matches Err(e) && e@
                        == "no Fields in AcroForm"@)
                    &&& (pdf_entry(*doc, id, path.push(fields_key())) matches Some(k) && k != Entry::Missing && k
                        != Entry::Array && !(k is Reference)) ==> (r matches Err(e) && e@ == "Fields is not an array"@)
                    &&& (pdf_entry(*doc, id, path.push(fields_key())) matches Some(k) && (k == Entry::Array
                        || k is Reference)) ==> (r is Ok <==> fields_items(*doc, id, path) is Some)
                    &&& r matches Ok(v) ==> v@ == referred_ids(fields_items(*doc, id, path)->0)
                }
            }
        }),
{
    let ak: Vec<u8> = vec![65u8, 99u8, 114u8, 111u8, 70u8, 111u8, 114u8, 109u8];
    let xk: Vec<u8> = vec![88u8, 70u8, 65u8];
    let fk: Vec<u8> = vec![70u8, 105u8, 101u8, 108u8, 100u8, 115u8];
    proof {
        assert(ak@ =~= acro_form_key());
        assert(xk@ =~= xfa_key());
        assert(fk@ =~= fields_key());
    }
    let form = match lopdf_catalog_form(doc) {
        Err(e) => {
            let mut m = String::from_str("no catalog: ");
            push_str(&mut m, e.as_str());
            return Err(m);
        },
        Ok(f) => f,
    };
    let c = match lopdf_trailer_root(doc) {
        Some(c) => c,
        None => {
            return Err(String::from_str("no AcroForm found in this PDF"));
        },
    };
    // The form dictionary: an object with its own entries, or the catalog's inline one.
    let (id, inline) = match form {
        Entry::Reference(id) => {
            match lopdf_object_kind_or_error(doc, id) {
                Err(e) => {
                    return Err(e);
                },
                Ok(_) => {},
            }
            (id, false)
        },
        Entry::Dictionary => (c, true),
        _ => {
            return Err(String::from_str("no AcroForm found in this PDF"));
        },
    };
    let ghost path: Seq<Seq<u8>> = if inline { p1(acro_form_key()) } else { Seq::empty() };
    let xfa = if inline {
        lopdf_entry2(doc, id, ak.as_slice(), xk.as_slice())
    } else {
        lopdf_entry1(doc, id, xk.as_slice())
    };
    let xfa = match xfa {
        Err(e) => {
            let mut m = String::from_str("AcroForm is not a dict: ");
            push_str(&mut m, e.as_str());
            return Err(m);
        },
        Ok(x) => x,
    };
    proof {
        assert(p1(acro_form_key()).push(xfa_key()) =~= p2(acro_form_key(), xfa_key()));
        assert(Seq::<Seq<u8>>::empty().push(xfa_key()) =~= p1(xfa_key()));
        assert(p1(acro_form_key()).push(fields_key()) =~= p2(acro_form_key(), fields_key()));
        assert(Seq::<Seq<u8>>::empty().push(fields_key()) =~= p1(fields_key()));
    }
    if !matches!(xfa, Entry::Missing) {
        return Err(String::from_str("XFA forms not supported"));
    }
    let fields = if inline {
        lopdf_entry2(doc, id, ak.as_slice(), fk.as_slice())
    } else {
        lopdf_entry1(doc, id, fk.as_slice())
    };
    let fields = match fields {
        Ok(f) => f,
        Err(e) => {
            return Err(e);
        },
    };
    let items = match fields {
        Entry::Missing => {
            return Err(String::from_str("no Fields in AcroForm"));
        },
        Entry::Array => {
            let found = if inline {
                lopdf_array_refs2(doc, id, ak.as_slice(), fk.as_slice())
            } else {
                lopdf_array_refs1(doc, id, fk.as_slice())
            };
            match found {
                Some(v) => v,
                None => {
                    return Err(String::from_str("Fields is not an array"));
                },
            }
        },
        Entry::Reference(f) => match lopdf_array_object(doc, f) {
            Ok(v) => v,
            Err(e) => {
                return Err(e);
            },
        },
        _ => {
            return Err(String::from_str("Fields is not an array"));
        },
    };
    let mut out: Vec<(u32, u16)> = Vec::new();
    let mut k: usize = 0;
    while k < items.len()
        invariant
            k <= items@.len(),
            out@ == referred_ids(items@.take(k as int)),
        decreases items@.len() - k,
    {
        proof {
            assert(items@.take(k + 1).drop_last() =~= items@.take(k as int));
        }
        if let Some(i) = items[k] {
            out.push(i);
        }
        k = k + 1;
    }
    assert(items@.take(items@.len() as int) =~= items@);
    Ok(out)
}

} // verus!
