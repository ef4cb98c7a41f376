//! Stamping a page with text or an image: where the font or image is registered, and how
//! the page's content list takes the new stream. Every step is a read or a write of
//! `model::objects`, so the contracts say what the page holds afterwards.
use vstd::prelude::*;
use crate::model::document::{lopdf_page_ids, pdf_page_ids, PdfDocument, SignatureUndo, TextStampUndo};
use crate::model::objects::{
    contents_key, contents_key_exec, font_key, font_key_exec, grown_by, is_prefix, lopdf_add_image,
    lopdf_add_stream, lopdf_dict_new, lopdf_dict_put_int, lopdf_dict_put_name, lopdf_dict_put_ref, lopdf_entry1,
    lopdf_entry2, lopdf_new_dict1, lopdf_new_dict2, lopdf_push_ref1, lopdf_put_dict2, lopdf_put_dict3,
    lopdf_put_ref1, lopdf_put_ref2, lopdf_put_ref3, lopdf_put_ref_pair1, next_id, pdf_array_refs, pdf_entry,
    pdf_max_id, pdf_object_kind, pdft_font_key, pdft_font_key_exec, pdft_sig_key, pdft_sig_key_exec,
    resources_key, resources_key_exec, p0, p1, p2, p3, same_outside, x_object_key, x_object_key_exec, Entry,
    lopdf_delete_object, lopdf_drop_refs1, lopdf_remove_key2, lopdf_remove_key3, without_ref,
};

verus! {

/// The `/Resources` reference of the parent of page `page_id`, when there is one.
pub uninterp spec fn pdf_inherited_resources(doc: lopdf::Document, page_id: (u32, u16)) -> Option<(u32, u16)>;

/// Read the `/Resources` reference of a page's parent (`/Parent` of the page's dictionary,
/// then `Document::get_dictionary` and `Dictionary::get`). Claims that the result is the
/// named one.
#[verifier::external_body]
fn lopdf_inherited_resources(doc: &lopdf::Document, page_id: (u32, u16)) -> (r: Option<(u32, u16)>)
    ensures
        r == pdf_inherited_resources(*doc, page_id),
{
    let parent_id = doc.get_dictionary(page_id).ok()?.get(b"Parent").ok()?.as_reference().ok()?;
    doc.get_dictionary(parent_id).ok()?.get(b"Resources").ok()?.as_reference().ok()
}

/// The resources dictionary that takes a stamp's font or image: the page's shared one when
/// `/Resources` refers to it; none (the page's own) when it is a dictionary; else the one
/// that the parent refers to, if any.
pub open spec fn resources_target(res: Entry, inherited: Option<(u32, u16)>) -> Option<(u32, u16)> {
    match res {
        Entry::Reference(id) => Some(id),
        Entry::Dictionary => None,
        _ => inherited,
    }
}

/// Which resources dictionary takes the font or image (`resources_target`).
pub fn choose_resources(res: Entry, inherited: Option<(u32, u16)>) -> (r: Option<(u32, u16)>)
    ensures
        r == resources_target(res, inherited),
{
    match res {
        Entry::Reference(id) => Some(id),
        Entry::Dictionary => None,
        _ => inherited,
    }
}

/// Whether a value is missing or a dictionary: what a sub-dictionary that is created when
/// missing may be.
pub open spec fn missing_or_dict(e: Option<Entry>) -> bool {
    e == Some(Entry::Missing) || e == Some(Entry::Dictionary)
}

/// The path of a key directly in a dictionary.
pub open spec fn path1(k: Seq<u8>) -> Seq<Seq<u8>> {
    p1(k)
}

/// Whether the font can be registered: in the shared resources, a `/Font` that is missing
/// or a dictionary; in the page's own, `/Resources` missing, or a dictionary whose `/Font`
/// is missing or a dictionary.
pub open spec fn font_step_ok(doc: lopdf::Document, page: (u32, u16), res: Entry, target: Option<(u32, u16)>) -> bool {
    match target {
        Some(r) => missing_or_dict(pdf_entry(doc, r, p1(font_key()))),
        None => res == Entry::Missing || (res == Entry::Dictionary && missing_or_dict(
            pdf_entry(doc, page, p2(resources_key(), font_key())),
        )),
    }
}

/// Whether stamping text on page `page_num` (0-indexed) goes through: the page exists and
/// is a dictionary, the font can be registered, and the next object id is free.
pub open spec fn stamp_ok(doc: lopdf::Document, page_num: int) -> bool {
    let ids = pdf_page_ids(doc);
    &&& 0 <= page_num < ids.len()
    &&& pdf_entry(doc, ids[page_num], p1(resources_key())) matches Some(res)
        && font_step_ok(doc, ids[page_num], res, resources_target(res, pdf_inherited_resources(doc, ids[page_num])))
    &&& pdf_max_id(doc) < u32::MAX
    &&& pdf_object_kind(doc, next_id(doc)) is None
}

/// Whether `doc` has the font `PdftFont` registered where the target says.
pub open spec fn font_registered(doc: lopdf::Document, page: (u32, u16), target: Option<(u32, u16)>) -> bool {
    match target {
        Some(r) => pdf_entry(doc, r, p2(font_key(), pdft_font_key())) == Some(Entry::Dictionary),
        None => pdf_entry(doc, page, p3(resources_key(), font_key(), pdft_font_key())) == Some(Entry::Dictionary),
    }
}

/// Whether the page's `/Contents` in `new` is that of `old` extended by the stream `c`: an
/// array grows by it, a single reference becomes the pair of it and `c`, anything else is
/// replaced by a reference to `c`.
pub open spec fn contents_extended(old: lopdf::Document, new: lopdf::Document, page: (u32, u16), c: (u32, u16)) -> bool {
    match pdf_entry(old, page, p1(contents_key())) {
        Some(Entry::Array) => pdf_array_refs(new, page, p1(contents_key())) == Some(
            pdf_array_refs(old, page, p1(contents_key()))->0.push(Some(c)),
        ),
        Some(Entry::Reference(e)) => pdf_array_refs(new, page, p1(contents_key())) == Some(seq![Some(e), Some(c)]),
        _ => pdf_entry(new, page, p1(contents_key())) == Some(Entry::Reference(c)),
    }
}

/// Error text for a page number outside the document.
pub open spec fn page_not_found_message() -> Seq<char> {
    "page not found"@
}

/// Paths that start with different keys do not start one another.
proof fn lemma_not_prefix(p: Seq<Seq<u8>>, q: Seq<Seq<u8>>)
    requires
        p.len() > 0,
        q.len() > 0,
        p[0] != q[0],
    ensures
        !is_prefix(p, q),
{
    if is_prefix(p, q) {
        assert(q.take(p.len() as int)[0] == p[0]);
    }
}

/// The keys used by stamps are distinct.
proof fn lemma_keys_differ()
    ensures
        font_key() != contents_key(),
        resources_key() != contents_key(),
        x_object_key() != contents_key(),
        pdft_sig_key() != contents_key(),
        pdft_font_key() != contents_key(),
        resources_key() != font_key(),
        resources_key() != x_object_key(),
{
    assert(font_key().len() != contents_key().len());
    assert(resources_key().len() != contents_key().len());
    assert(x_object_key().len() != contents_key().len());
    assert(pdft_sig_key().len() != contents_key().len());
    assert(pdft_font_key()[4] != contents_key()[4]);
    assert(resources_key().len() != font_key().len());
    assert(resources_key().len() != x_object_key().len());
}

/// The font dictionary of the standard Courier font (`/Type /Font /Subtype /Type1
/// /BaseFont /Courier`).
fn courier_font() -> lopdf::Dictionary {
    let mut d = lopdf_dict_new();
    lopdf_dict_put_name(&mut d, vec![84u8, 121u8, 112u8, 101u8].as_slice(), font_key_exec().as_slice());
    lopdf_dict_put_name(
        &mut d,
        vec![83u8, 117u8, 98u8, 116u8, 121u8, 112u8, 101u8].as_slice(),
        vec![84u8, 121u8, 112u8, 101u8, 49u8].as_slice(),
    );
    lopdf_dict_put_name(
        &mut d,
        vec![66u8, 97u8, 115u8, 101u8, 70u8, 111u8, 110u8, 116u8].as_slice(),
        vec![67u8, 111u8, 117u8, 114u8, 105u8, 101u8, 114u8].as_slice(),
    );
    d
}

/// Register `value` (a font) as `/Font /PdftFont` where `target` says: in the shared
/// resources `target`, or in the page's own `/Resources` (created when missing), the
/// `/Font` dictionary being created when missing.
fn register_font(
    doc: &mut lopdf::Document,
    page: (u32, u16),
    res: Entry,
    target: Option<(u32, u16)>,
    value: lopdf::Dictionary,
) -> (r: Result<(), String>)
    ensures
        pdf_entry(*old(doc), page, p0()) == Some(Entry::Dictionary) && pdf_entry(*old(doc), page, p1(resources_key()))
            == Some(res) && font_step_ok(*old(doc), page, res, target) ==> r is Ok,
        r is Ok ==> font_registered(*final(doc), page, target),
        pdf_max_id(*final(doc)) == pdf_max_id(*old(doc)),
        forall|i: (u32, u16)| #[trigger] pdf_object_kind(*final(doc), i) == pdf_object_kind(*old(doc), i),
        forall|i: (u32, u16)| #[trigger] pdf_entry(*final(doc), i, p0()) == pdf_entry(*old(doc), i, p0()),
        forall|i: (u32, u16), k: Seq<u8>| k != resources_key() && k != font_key() ==> #[trigger] pdf_entry(*final(doc), i, p1(k))
            == pdf_entry(*old(doc), i, p1(k)),
        forall|i: (u32, u16), k: Seq<u8>| k != resources_key() && k != font_key() ==> #[trigger] pdf_array_refs(*final(doc), i, p1(k))
            == pdf_array_refs(*old(doc), i, p1(k)),
{
    let ghost d0 = *doc;
    let fk = font_key_exec();
    let name = pdft_font_key_exec();
    let rk = resources_key_exec();
    proof {
        assert forall|k: Seq<u8>| k != resources_key() && k != font_key() implies !is_prefix(p1(font_key()), p1(k))
            && !is_prefix(p1(resources_key()), p1(k)) && !is_prefix(p2(font_key(), pdft_font_key()), p1(k))
            && !is_prefix(p2(resources_key(), font_key()), p1(k)) && !is_prefix(
            p3(resources_key(), font_key(), pdft_font_key()),
            p1(k),
        ) by {
            lemma_not_prefix(p1(font_key()), p1(k));
            lemma_not_prefix(p1(resources_key()), p1(k));
        }
    }
    match target {
        Some(t) => {
            let f = lopdf_entry1(doc, t, fk.as_slice())?;
            if let Entry::Missing = f {
                lopdf_new_dict1(doc, t, fk.as_slice())?;
            }
            lopdf_put_dict2(doc, t, fk.as_slice(), name.as_slice(), value)?;
        },
        None => {
            if let Entry::Missing = res {
                lopdf_new_dict1(doc, page, rk.as_slice())?;
            }
            let f = lopdf_entry2(doc, page, rk.as_slice(), fk.as_slice())?;
            if let Entry::Missing = f {
                lopdf_new_dict2(doc, page, rk.as_slice(), fk.as_slice())?;
            }
            lopdf_put_dict3(doc, page, rk.as_slice(), fk.as_slice(), name.as_slice(), value)?;
        },
    }
    Ok(())
}

/// Whether `contents` is what the page's `/Contents` holds, the page being a dictionary
/// (and the array's items known when it is one).
pub open spec fn contents_known(doc: lopdf::Document, page: (u32, u16), contents: Entry) -> bool {
    &&& pdf_entry(doc, page, p0()) == Some(Entry::Dictionary)
    &&& pdf_entry(doc, page, p1(contents_key())) == Some(contents)
    &&& contents == Entry::Array ==> pdf_array_refs(doc, page, p1(contents_key())) is Some
}

/// Add `content` as a stream and extend the page's `/Contents` with it, as
/// `contents_extended` says. `contents` is what `/Contents` held before.
fn append_content(doc: &mut lopdf::Document, page: (u32, u16), contents: Entry, content: Vec<u8>) -> (r: Result<(u32, u16), String>)
    ensures
        contents_known(*old(doc), page, contents) && pdf_max_id(*old(doc)) < u32::MAX && pdf_object_kind(
            *old(doc),
            next_id(*old(doc)),
        ) is None ==> r is Ok,
        r matches Ok(c) ==> c == next_id(*old(doc)),
        r matches Ok(c) ==> (pdf_object_kind(*old(doc), c) is None && contents_known(*old(doc), page, contents) ==> {
            &&& contents_extended(*old(doc), *final(doc), page, c)
            &&& forall|i: (u32, u16), q: Seq<Seq<u8>>| pdf_entry(*old(doc), i, q) is Some && !is_prefix(p1(contents_key()), q)
                ==> #[trigger] pdf_entry(*final(doc), i, q) == pdf_entry(*old(doc), i, q)
        }),
{
    let ck = contents_key_exec();
    let ghost d0 = *doc;
    let c = lopdf_add_stream(doc, content)?;
    let ghost d1 = *doc;
    proof {
        if pdf_object_kind(d0, c) is None && contents_known(d0, page, contents) {
            assert(pdf_entry(d1, page, p1(contents_key())) == pdf_entry(d0, page, p1(contents_key())));
            assert(pdf_entry(d1, page, p0()) == pdf_entry(d0, page, p0()));
            if contents == Entry::Array {
                assert(pdf_array_refs(d1, page, p1(contents_key())) == pdf_array_refs(d0, page, p1(contents_key())));
            }
        }
    }
    match contents {
        Entry::Array => {
            lopdf_push_ref1(doc, page, ck.as_slice(), c)?;
        },
        Entry::Reference(e) => lopdf_put_ref_pair1(doc, page, ck.as_slice(), e, c)?,
        _ => lopdf_put_ref1(doc, page, ck.as_slice(), c)?,
    }
    Ok(c)
}

/// Stamp a page (0-indexed) with a content stream drawing text in Courier: register the
/// font as `/Font /PdftFont` where `resources_target` says (creating `/Resources` or `/Font`
/// when missing), add the stream, and extend the page's `/Contents` with it. Gives back
/// what undoing needs. Succeeds whenever `stamp_ok` holds. Fails for a page outside the
/// document and for a page that is not a dictionary, leaving the document as it was.
pub fn embed_text_stamp(doc: &mut lopdf::Document, page_num: usize, content: Vec<u8>) -> (r: Result<TextStampUndo, String>)
    ensures
        page_num >= pdf_page_ids(*old(doc)).len() ==> (r matches Err(e) && e@ == page_not_found_message()
            && *final(doc) == *old(doc)),
        page_num < pdf_page_ids(*old(doc)).len() && pdf_entry(*old(doc), pdf_page_ids(*old(doc))[page_num as int], p0())
            != Some(Entry::Dictionary) ==> (r is Err && *final(doc) == *old(doc)),
        stamp_ok(*old(doc), page_num as int) ==> r is Ok,
        r matches Ok(u) ==> {
            let page = pdf_page_ids(*old(doc))[page_num as int];
            &&& page_num < pdf_page_ids(*old(doc)).len()
            &&& u.page_id == page
            &&& u.font_name@ == pdft_font_key()
            &&& pdf_entry(*old(doc), page, p1(resources_key())) matches Some(res)
            &&& u.resources_obj_id == resources_target(res, pdf_inherited_resources(*old(doc), page))
            &&& u.content_obj_id == next_id(*old(doc))
            &&& pdf_object_kind(*old(doc), next_id(*old(doc))) is None ==> {
                &&& font_registered(*final(doc), page, u.resources_obj_id)
                &&& contents_extended(*old(doc), *final(doc), page, u.content_obj_id)
            }
        },
{
    let ghost d0 = *doc;
    let ids = lopdf_page_ids(doc);
    if page_num >= ids.len() {
        return Err(String::from_str("page not found"));
    }
    let page = ids[page_num];
    let rk = resources_key_exec();
    let ck = contents_key_exec();
    let res = lopdf_entry1(doc, page, rk.as_slice())?;
    let contents = lopdf_entry1(doc, page, ck.as_slice())?;
    let inherited = lopdf_inherited_resources(doc, page);
    let target = choose_resources(res, inherited);
    let font = courier_font();
    proof {
        lemma_keys_differ();
    }
    register_font(doc, page, res, target, font)?;
    let ghost d1 = *doc;
    proof {
        assert(pdf_entry(d1, page, p1(contents_key())) == pdf_entry(d0, page, p1(contents_key())));
        assert(pdf_array_refs(d1, page, p1(contents_key())) == pdf_array_refs(d0, page, p1(contents_key())));
        assert(next_id(d1) == next_id(d0));
        assert(pdf_entry(d1, page, p0()) == pdf_entry(d0, page, p0()));
        assert(pdf_object_kind(d1, next_id(d0)) == pdf_object_kind(d0, next_id(d0)));
    }
    let content_obj_id = append_content(doc, page, contents, content)?;
    proof {
        let fp = match target {
            Some(t) => p2(font_key(), pdft_font_key()),
            None => p3(resources_key(), font_key(), pdft_font_key()),
        };
        let fid = match target {
            Some(t) => t,
            None => page,
        };
        lemma_not_prefix(p1(contents_key()), fp);
        if pdf_object_kind(d0, content_obj_id) is None {
            assert(pdf_entry(*doc, fid, fp) == pdf_entry(d1, fid, fp));
        }
    }
    let font_name = pdft_font_key_exec();
    Ok(TextStampUndo { content_obj_id, page_id: page, font_name, resources_obj_id: target })
}

/// Whether the image can be registered: in shared resources whose `/XObject` refers to a
/// dictionary, in that one; in shared resources otherwise (an `/XObject` dictionary being
/// made where there is none); in the page's own, `/Resources` missing, or a dictionary whose
/// `/XObject` is missing or a dictionary.
pub open spec fn xobject_step_ok(doc: lopdf::Document, page: (u32, u16), res: Entry, target: Option<(u32, u16)>) -> bool {
    match target {
        Some(t) => match pdf_entry(doc, t, p1(x_object_key())) {
            Some(Entry::Reference(x)) => pdf_entry(doc, x, p0()) == Some(Entry::Dictionary),
            Some(_) => true,
            None => false,
        },
        None => res == Entry::Missing || (res == Entry::Dictionary && missing_or_dict(
            pdf_entry(doc, page, p2(resources_key(), x_object_key())),
        )),
    }
}

/// Whether `new` has the image `img` registered as `PdftSig` where the target of `old`
/// says.
pub open spec fn image_registered(
    old: lopdf::Document,
    new: lopdf::Document,
    page: (u32, u16),
    target: Option<(u32, u16)>,
    img: (u32, u16),
) -> bool {
    match target {
        Some(t) => match pdf_entry(old, t, p1(x_object_key())) {
            Some(Entry::Reference(x)) => pdf_entry(new, x, p1(pdft_sig_key())) == Some(Entry::Reference(img)),
            _ => pdf_entry(new, t, p2(x_object_key(), pdft_sig_key())) == Some(Entry::Reference(img)),
        },
        None => pdf_entry(new, page, p3(resources_key(), x_object_key(), pdft_sig_key())) == Some(Entry::Reference(img)),
    }
}

/// The id of the `j`-th object added after `doc` (counting from 1).
pub open spec fn added_id(doc: lopdf::Document, j: int) -> (u32, u16) {
    ((pdf_max_id(doc) + j) as u32, 0u16)
}

/// Whether `count` objects can be added after `doc`, each getting a free id.
pub open spec fn ids_free(doc: lopdf::Document, count: int) -> bool {
    &&& pdf_max_id(doc) + count <= u32::MAX
    &&& forall|j: int| 1 <= j <= count ==> #[trigger] pdf_object_kind(doc, added_id(doc, j)) is None
}

/// Whether placing a signature on page `page_num` (0-indexed) goes through: the page exists
/// and is a dictionary, the image can be registered, and the ids of the mask (when
/// `masked`), the image and the content stream are free.
pub open spec fn signature_ok(doc: lopdf::Document, page_num: int, masked: bool) -> bool {
    let ids = pdf_page_ids(doc);
    &&& 0 <= page_num < ids.len()
    &&& pdf_entry(doc, ids[page_num], p1(resources_key())) matches Some(res)
        && xobject_step_ok(doc, ids[page_num], res, resources_target(res, pdf_inherited_resources(doc, ids[page_num])))
    &&& ids_free(doc, if masked { 3 } else { 2 })
}

/// Register the image `img` as `PdftSig` where `target` says: in the dictionary that the
/// shared resources' `/XObject` refers to; in their own `/XObject` dictionary (made when there
/// is none); or in the page's own `/Resources /XObject` (each created when missing).
fn register_image(
    doc: &mut lopdf::Document,
    page: (u32, u16),
    res: Entry,
    target: Option<(u32, u16)>,
    img: (u32, u16),
) -> (r: Result<(), String>)
    ensures
        pdf_entry(*old(doc), page, p0()) == Some(Entry::Dictionary) && pdf_entry(*old(doc), page, p1(resources_key()))
            == Some(res) && xobject_step_ok(*old(doc), page, res, target) ==> r is Ok,
        r is Ok ==> image_registered(*old(doc), *final(doc), page, target, img),
        pdf_max_id(*final(doc)) == pdf_max_id(*old(doc)),
        forall|i: (u32, u16)| #[trigger] pdf_object_kind(*final(doc), i) == pdf_object_kind(*old(doc), i),
        forall|i: (u32, u16)| #[trigger] pdf_entry(*final(doc), i, p0()) == pdf_entry(*old(doc), i, p0()),
        forall|i: (u32, u16), k: Seq<u8>| k != resources_key() && k != x_object_key() && k != pdft_sig_key()
            ==> #[trigger] pdf_entry(*final(doc), i, p1(k)) == pdf_entry(*old(doc), i, p1(k)),
        forall|i: (u32, u16), k: Seq<u8>| k != resources_key() && k != x_object_key() && k != pdft_sig_key()
            ==> #[trigger] pdf_array_refs(*final(doc), i, p1(k)) == pdf_array_refs(*old(doc), i, p1(k)),
{
    let xk = x_object_key_exec();
    let name = pdft_sig_key_exec();
    let rk = resources_key_exec();
    proof {
        assert forall|k: Seq<u8>| k != resources_key() && k != x_object_key() && k != pdft_sig_key() implies !is_prefix(
            p1(x_object_key()),
            p1(k),
        ) && !is_prefix(p1(resources_key()), p1(k)) && !is_prefix(p1(pdft_sig_key()), p1(k)) && !is_prefix(
            p2(x_object_key(), pdft_sig_key()),
            p1(k),
        ) && !is_prefix(p2(resources_key(), x_object_key()), p1(k)) && !is_prefix(
            p3(resources_key(), x_object_key(), pdft_sig_key()),
            p1(k),
        ) by {
            lemma_not_prefix(p1(x_object_key()), p1(k));
            lemma_not_prefix(p1(resources_key()), p1(k));
            lemma_not_prefix(p1(pdft_sig_key()), p1(k));
        }
    }
    match target {
        Some(t) => {
            let x = lopdf_entry1(doc, t, xk.as_slice())?;
            match x {
                Entry::Reference(xid) => {
                    lopdf_put_ref1(doc, xid, name.as_slice(), img)?;
                },
                Entry::Dictionary => {
                    lopdf_put_ref2(doc, t, xk.as_slice(), name.as_slice(), img)?;
                },
                _ => {
                    lopdf_new_dict1(doc, t, xk.as_slice())?;
                    lopdf_put_ref2(doc, t, xk.as_slice(), name.as_slice(), img)?;
                },
            }
        },
        None => {
            if let Entry::Missing = res {
                lopdf_new_dict1(doc, page, rk.as_slice())?;
            }
            let x = lopdf_entry2(doc, page, rk.as_slice(), xk.as_slice())?;
            if let Entry::Missing = x {
                lopdf_new_dict2(doc, page, rk.as_slice(), xk.as_slice())?;
            }
            lopdf_put_ref3(doc, page, rk.as_slice(), xk.as_slice(), name.as_slice(), img)?;
        },
    }
    Ok(())
}

/// An image XObject dictionary of `width` by `height` samples of 8 bits in the colour
/// space `color_space`.
fn image_dict(width: u32, height: u32, color_space: &[u8]) -> lopdf::Dictionary {
    let mut d = lopdf_dict_new();
    lopdf_dict_put_name(&mut d, vec![84u8, 121u8, 112u8, 101u8].as_slice(), x_object_key_exec().as_slice());
    lopdf_dict_put_name(
        &mut d,
        vec![83u8, 117u8, 98u8, 116u8, 121u8, 112u8, 101u8].as_slice(),
        vec![73u8, 109u8, 97u8, 103u8, 101u8].as_slice(),
    );
    lopdf_dict_put_int(&mut d, vec![87u8, 105u8, 100u8, 116u8, 104u8].as_slice(), width as i64);
    lopdf_dict_put_int(&mut d, vec![72u8, 101u8, 105u8, 103u8, 104u8, 116u8].as_slice(), height as i64);
    lopdf_dict_put_name(
        &mut d,
        vec![67u8, 111u8, 108u8, 111u8, 114u8, 83u8, 112u8, 97u8, 99u8, 101u8].as_slice(),
        color_space,
    );
    lopdf_dict_put_int(
        &mut d,
        vec![66u8, 105u8, 116u8, 115u8, 80u8, 101u8, 114u8, 67u8, 111u8, 109u8, 112u8, 111u8, 110u8, 101u8, 110u8, 116u8].as_slice(),
        8,
    );
    d
}

/// Place an image on a page (0-indexed): add the alpha mask (when there is one) and the RGB
/// image of `width` by `height` samples, register the image as `PdftSig` where
/// `resources_target` says, then add `content` and extend the page's `/Contents` with it.
/// Gives back what undoing needs. Succeeds whenever `signature_ok` holds; fails for a page
/// outside the document (the images are added first) and for a page that is not a
/// dictionary.
pub fn embed_image_objects(
    doc: &mut lopdf::Document,
    page_num: usize,
    rgb: Vec<u8>,
    alpha: Option<Vec<u8>>,
    width: u32,
    height: u32,
    content: Vec<u8>,
) -> (r: Result<SignatureUndo, String>)
    ensures
        page_num >= pdf_page_ids(*old(doc)).len() ==> r is Err,
        r matches Ok(u) ==> {
            let page = pdf_page_ids(*old(doc))[page_num as int];
            &&& page_num < pdf_page_ids(*old(doc)).len()
            &&& u.page_num == page_num
            &&& u.page_id == page
            &&& u.xobj_name@ == pdft_sig_key()
            &&& (u.smask_obj_id is Some <==> alpha is Some)
            &&& pdf_entry(*old(doc), page, p1(resources_key())) matches Some(res)
            &&& u.resources_obj_id == resources_target(res, pdf_inherited_resources(*old(doc), page))
        },
        signature_ok(*old(doc), page_num as int, alpha is Some) ==> r is Ok,
        signature_ok(*old(doc), page_num as int, alpha is Some) ==> (r matches Ok(u) ==> {
            let page = pdf_page_ids(*old(doc))[page_num as int];
            let masked: int = if alpha is Some { 1 } else { 0 };
            &&& u.smask_obj_id == (if alpha is Some { Some(added_id(*old(doc), 1)) } else { None })
            &&& u.img_obj_id == added_id(*old(doc), masked + 1)
            &&& u.content_obj_id == added_id(*old(doc), masked + 2)
            &&& image_registered(*old(doc), *final(doc), page, u.resources_obj_id, u.img_obj_id)
            &&& contents_extended(*old(doc), *final(doc), page, u.content_obj_id)
        }),
{
    let ghost d0 = *doc;
    let ids = lopdf_page_ids(doc);
    let rk = resources_key_exec();
    let ck = contents_key_exec();
    let page_read = if page_num < ids.len() {
        let page = ids[page_num];
        match (lopdf_entry1(doc, page, rk.as_slice()), lopdf_entry1(doc, page, ck.as_slice())) {
            (Ok(res), Ok(contents)) => Ok((page, res, contents, lopdf_inherited_resources(doc, page))),
            (Err(e), _) => Err(e),
            (_, Err(e)) => Err(e),
        }
    } else {
        Err(String::from_str("page not found"))
    };
    proof {
        lemma_keys_differ();
    }
    let smask_obj_id = match alpha {
        Some(a) => Some(lopdf_add_image(doc, image_dict(width, height, vec![68u8, 101u8, 118u8, 105u8, 99u8, 101u8, 71u8, 114u8, 97u8, 121u8].as_slice()), a)?),
        None => None,
    };
    let ghost d1 = *doc;
    let mut dict = image_dict(width, height, vec![68u8, 101u8, 118u8, 105u8, 99u8, 101u8, 82u8, 71u8, 66u8].as_slice());
    match smask_obj_id {
        Some(m) => lopdf_dict_put_ref(&mut dict, vec![83u8, 77u8, 97u8, 115u8, 107u8].as_slice(), m),
        None => {},
    }
    let img_obj_id = lopdf_add_image(doc, dict, rgb)?;
    let ghost d2 = *doc;
    let (page, res, contents, inherited) = page_read?;
    let target = choose_resources(res, inherited);
    proof {
        if signature_ok(d0, page_num as int, alpha is Some) {
            let m: int = if alpha is Some { 1 } else { 0 };
            assert(pdf_object_kind(d0, added_id(d0, 1)) is None);
            assert(pdf_object_kind(d0, added_id(d0, 2)) is None);
            if alpha is Some {
                assert(pdf_object_kind(d0, added_id(d0, 3)) is None);
                assert(added_id(d1, 1) == added_id(d0, 2));
                assert(pdf_object_kind(d1, added_id(d0, 2)) == pdf_object_kind(d0, added_id(d0, 2)));
                assert(pdf_object_kind(d1, added_id(d0, 3)) == pdf_object_kind(d0, added_id(d0, 3)));
            } else {
                assert(d1 == d0);
            }
            assert(img_obj_id == added_id(d0, m + 1));
            assert(pdf_object_kind(d2, added_id(d0, m + 2)) == pdf_object_kind(d1, added_id(d0, m + 2)));
            assert(pdf_max_id(d2) == pdf_max_id(d0) + m + 1);
            // what was read of the page before the images stays
            assert(pdf_entry(d1, page, p0()) == pdf_entry(d0, page, p0()));
            assert(pdf_entry(d2, page, p0()) == pdf_entry(d0, page, p0()));
            assert(pdf_entry(d1, page, p1(resources_key())) == pdf_entry(d0, page, p1(resources_key())));
            assert(pdf_entry(d2, page, p1(resources_key())) == pdf_entry(d0, page, p1(resources_key())));
            assert(pdf_entry(d1, page, p1(contents_key())) == pdf_entry(d0, page, p1(contents_key())));
            assert(pdf_entry(d2, page, p1(contents_key())) == pdf_entry(d0, page, p1(contents_key())));
            if contents == Entry::Array {
                assert(pdf_array_refs(d1, page, p1(contents_key())) == pdf_array_refs(d0, page, p1(contents_key())));
                assert(pdf_array_refs(d2, page, p1(contents_key())) == pdf_array_refs(d0, page, p1(contents_key())));
            }
            match target {
                Some(t) => {
                    assert(pdf_entry(d1, t, p1(x_object_key())) == pdf_entry(d0, t, p1(x_object_key())));
                    assert(pdf_entry(d2, t, p1(x_object_key())) == pdf_entry(d0, t, p1(x_object_key())));
                    if let Some(Entry::Reference(x)) = pdf_entry(d0, t, p1(x_object_key())) {
                        assert(pdf_entry(d1, x, p0()) == pdf_entry(d0, x, p0()));
                        assert(pdf_entry(d2, x, p0()) == pdf_entry(d0, x, p0()));
                    }
                },
                None => {
                    if res == Entry::Dictionary {
                        assert(pdf_entry(d1, page, p2(resources_key(), x_object_key())) == pdf_entry(
                            d0,
                            page,
                            p2(resources_key(), x_object_key()),
                        ));
                        assert(pdf_entry(d2, page, p2(resources_key(), x_object_key())) == pdf_entry(
                            d0,
                            page,
                            p2(resources_key(), x_object_key()),
                        ));
                    }
                },
            }
        }
    }
    register_image(doc, page, res, target, img_obj_id)?;
    let ghost d3 = *doc;
    proof {
        assert(pdf_entry(d3, page, p0()) == pdf_entry(d2, page, p0()));
        assert(pdf_entry(d3, page, p1(contents_key())) == pdf_entry(d2, page, p1(contents_key())));
        assert(pdf_array_refs(d3, page, p1(contents_key())) == pdf_array_refs(d2, page, p1(contents_key())));
        assert(next_id(d3) == next_id(d2));
    }
    let content_obj_id = append_content(doc, page, contents, content)?;
    proof {
        if signature_ok(d0, page_num as int, alpha is Some) {
            let m: int = if alpha is Some { 1 } else { 0 };
            assert(content_obj_id == added_id(d0, m + 2));
            let (fid, fp) = match target {
                Some(t) => match pdf_entry(d0, t, p1(x_object_key())) {
                    Some(Entry::Reference(x)) => (x, p1(pdft_sig_key())),
                    _ => (t, p2(x_object_key(), pdft_sig_key())),
                },
                None => (page, p3(resources_key(), x_object_key(), pdft_sig_key())),
            };
            lemma_not_prefix(p1(contents_key()), fp);
            assert(pdf_entry(*doc, fid, fp) == pdf_entry(d3, fid, fp));
        }
    }
    let xobj_name = pdft_sig_key_exec();
    Ok(SignatureUndo { page_num, img_obj_id, smask_obj_id, content_obj_id, xobj_name, resources_obj_id: target, page_id: page })
}

impl PdfDocument {
    /// Stamp a page (0-indexed) with a content stream drawing text (`embed_text_stamp`),
    /// recording what undoing it needs. Succeeds whenever `stamp_ok` holds of the document,
    /// which then has the font registered and the stream in the page's `/Contents`. The
    /// path, label and bytes stay as they were.
    pub fn add_text_stamp(&mut self, page_num: usize, content: Vec<u8>) -> (r: Result<(), String>)
        ensures
            page_num >= pdf_page_ids(old(self).document()).len() ==> (r matches Err(e) && e@ == page_not_found_message()
                && final(self).document() == old(self).document()),
            stamp_ok(old(self).document(), page_num as int) ==> r is Ok && {
                let d0 = old(self).document();
                let page = pdf_page_ids(d0)[page_num as int];
                &&& pdf_entry(d0, page, p1(resources_key())) matches Some(res)
                &&& font_registered(final(self).document(), page, resources_target(res, pdf_inherited_resources(d0, page)))
                &&& contents_extended(d0, final(self).document(), page, next_id(d0))
            },
            r is Ok ==> final(self).undo_counts() == (old(self).undo_counts().0, old(self).undo_counts().1 + 1),
            r is Err ==> final(self).undo_counts() == old(self).undo_counts(),
            final(self).path_view() == old(self).path_view(),
            final(self).label_view() == old(self).label_view(),
            final(self).raw_bytes_view() == old(self).raw_bytes_view(),
    {
        let stamped = embed_text_stamp(self.lopdf_mut(), page_num, content);
        match stamped {
            Ok(undo) => {
                self.push_text_stamp_undo(undo);
                Ok(())
            },
            Err(e) => Err(e),
        }
    }

    /// Place a signature image on a page (0-indexed) (`embed_image_objects`), recording
    /// what undoing it needs. Succeeds whenever `signature_ok` holds of the document, which
    /// then has the image registered as `PdftSig` and the stream in the page's `/Contents`.
    /// The path, label and bytes stay as they were.
    pub fn add_signature_objects(
        &mut self,
        page_num: usize,
        rgb: Vec<u8>,
        alpha: Option<Vec<u8>>,
        width: u32,
        height: u32,
        content: Vec<u8>,
    ) -> (r: Result<(), String>)
        ensures
            page_num >= pdf_page_ids(old(self).document()).len() ==> r is Err,
            signature_ok(old(self).document(), page_num as int, alpha is Some) ==> r is Ok && {
                let d0 = old(self).document();
                let page = pdf_page_ids(d0)[page_num as int];
                let masked: int = if alpha is Some { 1 } else { 0 };
                &&& pdf_entry(d0, page, p1(resources_key())) matches Some(res)
                &&& image_registered(
                    d0,
                    final(self).document(),
                    page,
                    resources_target(res, pdf_inherited_resources(d0, page)),
                    added_id(d0, masked + 1),
                )
                &&& contents_extended(d0, final(self).document(), page, added_id(d0, masked + 2))
            },
            r is Ok ==> final(self).undo_counts() == (old(self).undo_counts().0 + 1, old(self).undo_counts().1),
            r is Err ==> final(self).undo_counts() == old(self).undo_counts(),
            final(self).path_view() == old(self).path_view(),
            final(self).label_view() == old(self).label_view(),
            final(self).raw_bytes_view() == old(self).raw_bytes_view(),
    {
        let placed = embed_image_objects(self.lopdf_mut(), page_num, rgb, alpha, width, height, content);
        match placed {
            Ok(undo) => {
                self.push_signature_undo(undo);
                Ok(())
            },
            Err(e) => Err(e),
        }
    }
}

/// What undoing an addition leaves: the added content stream `content` is gone; the name
/// `name` is no longer in the `/k` dictionary of the resources it was registered in (`res`,
/// or the page's inline `/Resources` when `None`), where that dictionary remains; and no
/// item of the page's `/Contents` array refers to the stream.
pub open spec fn addition_undone(
    doc: lopdf::Document,
    page: (u32, u16),
    res: Option<(u32, u16)>,
    k: Seq<u8>,
    name: Seq<u8>,
    content: (u32, u16),
) -> bool {
    &&& pdf_object_kind(doc, content) is None
    &&& match res {
        Some(r) => pdf_entry(doc, r, p1(k)) == Some(Entry::Dictionary) ==> pdf_entry(doc, r, p2(k, name)) == Some(
            Entry::Missing,
        ),
        None => pdf_entry(doc, page, p2(resources_key(), k)) == Some(Entry::Dictionary) ==> pdf_entry(
            doc,
            page,
            p3(resources_key(), k, name),
        ) == Some(Entry::Missing),
    }
    &&& pdf_array_refs(doc, page, p1(contents_key())) matches Some(items) ==> !items.contains(Some(content))
}

/// An array without the references to `target` holds none.
proof fn lemma_without_ref(items: Seq<Option<(u32, u16)>>, target: (u32, u16))
    ensures
        !without_ref(items, target).contains(Some(target)),
{
    broadcast use vstd::seq_lib::group_filter_ensures;

    let out = without_ref(items, target);
    if out.contains(Some(target)) {
        let i = choose|i: int| 0 <= i < out.len() && out[i] == Some(target);
        assert(out[i] != Some(target));
    }
}

/// Take back from the document an addition under `/k` of the page's resources: delete the
/// content stream, remove `name` from the resources' `/k` dictionary, and drop the stream
/// from the page's `/Contents` array; as `addition_undone` says.
fn undo_addition(doc: &mut lopdf::Document, page: (u32, u16), res: Option<(u32, u16)>, k: &[u8], name: &[u8], content: (u32, u16))
    requires
        k@ != contents_key(),
        k@ != resources_key(),
    ensures
        addition_undone(*final(doc), page, res, k@, name@, content),
        forall|i: (u32, u16)| i != content ==> #[trigger] pdf_object_kind(*final(doc), i) == pdf_object_kind(*old(doc), i),
{
    lopdf_delete_object(doc, content);
    let ghost d1 = *doc;
    match res {
        Some(r) => {
            let _ = lopdf_remove_key2(doc, r, k, name);
        },
        None => {
            let rk = resources_key_exec();
            let _ = lopdf_remove_key3(doc, page, rk.as_slice(), k, name);
        },
    }
    let ghost d2 = *doc;
    let ck = contents_key_exec();
    lopdf_drop_refs1(doc, page, ck.as_slice(), content);
    proof {
        lemma_keys_differ();
        lemma_not_prefix(p1(contents_key()), p1(k@));
        lemma_not_prefix(p1(contents_key()), p2(k@, name@));
        lemma_not_prefix(p1(contents_key()), p2(resources_key(), k@));
        lemma_not_prefix(p1(contents_key()), p3(resources_key(), k@, name@));
        if let Some(items) = pdf_array_refs(d2, page, p1(contents_key())) {
            lemma_without_ref(items, content);
        }
    }
}

impl PdfDocument {
    /// Undo the last text stamp: take its record and remove what it added (its content
    /// stream, its font name, the stream's place in the page's `/Contents`). Gives whether
    /// there was one; without one nothing changes.
    pub fn undo_text_stamp(&mut self) -> (undone: bool)
        ensures
            undone == (old(self).undo_counts().1 > 0),
            !undone ==> *final(self) == *old(self),
            undone ==> {
                let u = old(self).text_stamp_undo_list().last();
                &&& final(self).undo_counts() == (old(self).undo_counts().0, (old(self).undo_counts().1 - 1) as nat)
                &&& addition_undone(
                    final(self).document(),
                    u.page_id,
                    u.resources_obj_id,
                    font_key(),
                    u.font_name@,
                    u.content_obj_id,
                )
            },
            final(self).path_view() == old(self).path_view(),
            final(self).label_view() == old(self).label_view(),
            final(self).raw_bytes_view() == old(self).raw_bytes_view(),
    {
        match self.pop_text_stamp_undo() {
            None => false,
            Some(undo) => {
                let fk = font_key_exec();
                proof {
                    lemma_keys_differ();
                }
                undo_addition(
                    self.lopdf_mut(),
                    undo.page_id,
                    undo.resources_obj_id,
                    fk.as_slice(),
                    undo.font_name.as_slice(),
                    undo.content_obj_id,
                );
                true
            },
        }
    }

    /// Undo the last signature: take its record and remove what it added (its content
    /// stream, its image and mask, its `PdftSig` name, the stream's place in the page's
    /// `/Contents`). Gives whether there was one; without one nothing changes.
    pub fn undo_signature(&mut self) -> (undone: bool)
        ensures
            undone == (old(self).undo_counts().0 > 0),
            !undone ==> *final(self) == *old(self),
            undone ==> {
                let u = old(self).signature_undo_list().last();
                &&& final(self).undo_counts() == ((old(self).undo_counts().0 - 1) as nat, old(self).undo_counts().1)
                &&& addition_undone(
                    final(self).document(),
                    u.page_id,
                    u.resources_obj_id,
                    x_object_key(),
                    u.xobj_name@,
                    u.content_obj_id,
                )
                &&& pdf_object_kind(final(self).document(), u.img_obj_id) is None
                &&& u.smask_obj_id matches Some(m) ==> pdf_object_kind(final(self).document(), m) is None
            },
            final(self).path_view() == old(self).path_view(),
            final(self).label_view() == old(self).label_view(),
            final(self).raw_bytes_view() == old(self).raw_bytes_view(),
    {
        match self.pop_signature_undo() {
            None => false,
            Some(undo) => {
                let xk = x_object_key_exec();
                proof {
                    lemma_keys_differ();
                }
                let doc = self.lopdf_mut();
                lopdf_delete_object(doc, undo.img_obj_id);
                if let Some(m) = undo.smask_obj_id {
                    lopdf_delete_object(doc, m);
                }
                undo_addition(doc, undo.page_id, undo.resources_obj_id, xk.as_slice(), undo.xobj_name.as_slice(), undo.content_obj_id);
                true
            },
        }
    }
}

} // verus!
