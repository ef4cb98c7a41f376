//! Merging documents: the pages of each document follow those of the ones before it.
use vstd::prelude::*;
use crate::model::document::{lopdf_clone, lopdf_object_count, lopdf_page_ids, pdf_count, pdf_object_count, pdf_page_ids};
use crate::model::objects::{
    count_key, disjoint_objects, kids_key, kids_key_exec, linearized_key, lopdf_array_len1, lopdf_catalog_pages,
    lopdf_entry0, lopdf_entry1, lopdf_extend_objects, lopdf_max_id, lopdf_object_ids, lopdf_push_ref1, lopdf_put_count,
    lopdf_put_ref1, lopdf_renumbered_copy, lopdf_set_max_id, numbers_covered, p0, p1, page_key, pages_key, pages_listed,
    parent_key, parent_key_exec, is_prefix, names_type, same_outside, same_but_max, pdf_array_refs, pdf_catalog_pages, pdf_entry, pdf_max_id, pdf_object_kind,
    pdf_renumbered, pdf_trailer_root, pdf_type_name, plain_tree, type_key, Entry, ObjectKind,
};

verus! {

/// The items of an array of references with references to `extra` appended.
pub open spec fn append_refs(a: Option<Seq<Option<(u32, u16)>>>, extra: Seq<(u32, u16)>) -> Option<Seq<Option<(u32, u16)>>> {
    match a {
        Some(s) => Some(s + extra.map_values(|i: (u32, u16)| Some(i))),
        None => None,
    }
}

/// The pages of documents `1 .. n`, each renumbered from its start in `starts`, in order.
pub open spec fn renumbered_pages(docs: Seq<lopdf::Document>, starts: Seq<u32>, n: int) -> Seq<(u32, u16)>
    decreases n,
{
    if n <= 1 {
        Seq::empty()
    } else {
        renumbered_pages(docs, starts, n - 1) + pdf_page_ids(pdf_renumbered(docs[n - 1], starts[n - 1]))
    }
}

/// How many objects documents `1 .. n` hold together.
pub open spec fn objects_after_first(docs: Seq<lopdf::Document>, n: int) -> int
    decreases n,
{
    if n <= 1 {
        0
    } else {
        objects_after_first(docs, n - 1) + pdf_object_count(docs[n - 1])
    }
}

/// Whether the object numbers suffice for the merge: the first document's highest number
/// bounds its objects, and with the objects of the others added it stays below `u32::MAX`;
/// and no document holds more objects than an `i32` counts.
pub open spec fn merge_fits(docs: Seq<lopdf::Document>) -> bool {
    &&& numbers_covered(docs[0])
    &&& pdf_max_id(docs[0]) + objects_after_first(docs, docs.len() as int) < u32::MAX
    &&& forall|i: int| 0 <= i < docs.len() ==> pdf_object_count(#[trigger] docs[i]) <= i32::MAX
}

/// Whether the first document can take the pages of others: its catalog refers to a
/// dictionary as page tree root, and that root has a `/Kids` array.
pub open spec fn merge_ready(d0: lopdf::Document) -> bool {
    &&& pdf_catalog_pages(d0) matches Some(Some(root))
    &&& pdf_entry(d0, root, p0()) == Some(Entry::Dictionary)
    &&& pdf_array_refs(d0, root, p1(kids_key())) is Some
}

/// Whether the first document shows one of the faults that stop a merge of more documents:
/// no `/Root` in the trailer, no `/Pages` reference in the catalog, a page tree root that is
/// not an object of the document (and not a number that added objects could take), one that
/// is not a dictionary, or one whose `/Kids` is not an array.
pub open spec fn merge_refused(d0: lopdf::Document) -> bool {
    ||| pdf_trailer_root(d0) is None
    ||| pdf_catalog_pages(d0) == Some(None::<(u32, u16)>)
    ||| pdf_catalog_pages(d0) matches Some(Some(root)) && {
        ||| pdf_object_kind(d0, root) is None && root.0 <= pdf_max_id(d0)
        ||| pdf_entry(d0, root, p0()) matches Some(k) && k != Entry::Dictionary
        ||| pdf_entry(d0, root, p0()) == Some(Entry::Dictionary) && (pdf_entry(d0, root, p1(kids_key())) matches Some(k)
            && k != Entry::Array)
    }
}

/// A number of kids as the `/Count` integer.
pub open spec fn count_value(n: nat) -> i64 {
    if n <= i64::MAX {
        n as i64
    } else {
        i64::MAX
    }
}

/// Whether every document's page tree is plain.
pub open spec fn all_plain(docs: Seq<lopdf::Document>) -> bool {
    forall|i: int| 0 <= i < docs.len() ==> plain_tree(#[trigger] docs[i])
}

/// `m` is what merging documents `0 .. n` made, document `j` having been renumbered from
/// `starts[j]`: it has the first document's trailer, catalog and objects; its page tree
/// root's `/Kids` are the first document's followed by the renumbered pages of the others,
/// in order, and its `/Count` says how many there are; and where the page trees are plain,
/// the merged tree lists exactly those pages, each document bringing as many as it had.
pub open spec fn merged_from(docs: Seq<lopdf::Document>, starts: Seq<u32>, n: int, m: lopdf::Document) -> bool {
    let d0 = docs[0];
    &&& starts.len() == n
    &&& numbers_covered(m)
    &&& pdf_max_id(m) <= pdf_max_id(d0) + objects_after_first(docs, n)
    &&& pdf_trailer_root(m) == pdf_trailer_root(d0)
    &&& pdf_catalog_pages(m) == pdf_catalog_pages(d0)
    &&& forall|j: (u32, u16)| pdf_object_kind(d0, j) is Some ==> #[trigger] pdf_object_kind(m, j) == pdf_object_kind(d0, j)
    &&& pdf_catalog_pages(d0) matches Some(Some(root)) ==> {
        &&& pdf_entry(m, root, p0()) == pdf_entry(d0, root, p0())
        &&& pdf_array_refs(m, root, p1(kids_key())) == append_refs(
            pdf_array_refs(d0, root, p1(kids_key())),
            renumbered_pages(docs, starts, n),
        )
        &&& n > 1 && pdf_object_kind(d0, root) == Some(ObjectKind::Dictionary) ==> pdf_count(m, root) == Some(
            count_value(pdf_array_refs(m, root, p1(kids_key()))->0.len()),
        )
    }
    &&& all_plain(docs) ==> {
        &&& pages_listed(m, pdf_page_ids(d0) + renumbered_pages(docs, starts, n))
        &&& forall|j: int| 1 <= j < n ==> (#[trigger] pdf_page_ids(pdf_renumbered(docs[j], starts[j]))).len()
            == pdf_page_ids(docs[j]).len()
    }
}

/// `m` is what merging the documents made, each having been renumbered from some start
/// (`merged_from`).
pub open spec fn merge_result(docs: Seq<lopdf::Document>, m: lopdf::Document) -> bool {
    exists|starts: Seq<u32>| #[trigger] merged_from(docs, starts, docs.len() as int, m)
}

/// The keys the merge writes differ from each other and from the keys that decide a
/// catalog's page tree and a dictionary's type.
proof fn lemma_merge_keys()
    ensures
        parent_key() != type_key(),
        parent_key() != linearized_key(),
        parent_key() != pages_key(),
        parent_key() != kids_key(),
        count_key() != type_key(),
        count_key() != linearized_key(),
        count_key() != pages_key(),
        count_key() != kids_key(),
        kids_key() != type_key(),
        kids_key() != linearized_key(),
        kids_key() != pages_key(),
{
    assert(parent_key().len() != type_key().len());
    assert(parent_key().len() != linearized_key().len());
    assert(parent_key().len() != pages_key().len());
    assert(parent_key().len() != kids_key().len());
    assert(count_key().len() != type_key().len());
    assert(count_key().len() != linearized_key().len());
    assert(count_key()[0] != pages_key()[0]);
    assert(count_key().len() != kids_key().len());
    assert(kids_key()[0] != type_key()[0]);
    assert(kids_key().len() != linearized_key().len());
    assert(kids_key().len() != pages_key().len());
}

/// Paths of one key are not prefixes of the empty path, nor of a path of another key.
proof fn lemma_one_key_paths(a: Seq<u8>, b: Seq<u8>)
    requires
        a != b,
    ensures
        !is_prefix(p1(a), p0()),
        !is_prefix(p1(a), p1(b)),
{
    if is_prefix(p1(a), p1(b)) {
        assert(p1(b).take(1)[0] == p1(a)[0]);
    }
}

/// Writing under one key other than `/Type`, `/Linearized` and `/Pages` keeps every kind,
/// type, the trailer, the catalog and the highest number.
proof fn lemma_keeps_one_key(a: lopdf::Document, b: lopdf::Document, k: Seq<u8>)
    requires
        same_outside(a, b, p1(k)),
        k != type_key(),
        k != linearized_key(),
        k != pages_key(),
    ensures
        keeps(a, b),
{
    lemma_one_key_paths(k, pages_key());
    assert(!names_type(p1(k)));
}

/// The renumbered pages of the first `n` documents depend on the first `n` starts only.
proof fn lemma_renumbered_pages_prefix(docs: Seq<lopdf::Document>, a: Seq<u32>, b: Seq<u32>, n: int)
    requires
        forall|j: int| 1 <= j < n ==> a[j] == b[j],
    ensures
        renumbered_pages(docs, a, n) == renumbered_pages(docs, b, n),
    decreases n,
{
    if n > 1 {
        lemma_renumbered_pages_prefix(docs, a, b, n - 1);
    }
}

/// Counting the objects of more documents never gives fewer.
proof fn lemma_objects_after_first_grows(docs: Seq<lopdf::Document>, i: int, n: int)
    requires
        i <= n,
    ensures
        objects_after_first(docs, i) <= objects_after_first(docs, n),
    decreases n - i,
{
    if i < n {
        lemma_objects_after_first_grows(docs, i, n - 1);
        if n > 1 {
            assert(objects_after_first(docs, n) == objects_after_first(docs, n - 1) + pdf_object_count(docs[n - 1]));
        }
    }
}

/// The highest object number among these ids, 0 without any.
pub open spec fn highest_number(ids: Seq<(u32, u16)>) -> u32
    decreases ids.len(),
{
    if ids.len() == 0 {
        0
    } else {
        let r = highest_number(ids.drop_last());
        if ids.last().0 > r {
            ids.last().0
        } else {
            r
        }
    }
}

/// The highest number is at least every number, and at most any bound on all of them.
proof fn lemma_highest_number(ids: Seq<(u32, u16)>, bound: int)
    ensures
        forall|k: int| 0 <= k < ids.len() ==> (#[trigger] ids[k]).0 <= highest_number(ids),
        (forall|k: int| 0 <= k < ids.len() ==> (#[trigger] ids[k]).0 <= bound) && bound >= 0 ==> highest_number(ids) <= bound,
    decreases ids.len(),
{
    if ids.len() > 0 {
        lemma_highest_number(ids.drop_last(), bound);
        assert forall|k: int| 0 <= k < ids.len() implies (#[trigger] ids[k]).0 <= highest_number(ids) by {
            if k < ids.len() - 1 {
                assert(ids.drop_last()[k] == ids[k]);
            }
        }
        if (forall|k: int| 0 <= k < ids.len() ==> (#[trigger] ids[k]).0 <= bound) && bound >= 0 {
            assert forall|k: int| 0 <= k < ids.drop_last().len() implies (#[trigger] ids.drop_last()[k]).0 <= bound by {
                assert(ids.drop_last()[k] == ids[k]);
            }
        }
    }
}

/// The highest object number among these ids (`highest_number`).
pub fn highest_number_exec(ids: &Vec<(u32, u16)>) -> (n: u32)
    ensures
        n == highest_number(ids@),
{
    let mut n: u32 = 0;
    let mut k: usize = 0;
    while k < ids.len()
        invariant
            k <= ids@.len(),
            n == highest_number(ids@.take(k as int)),
        decreases ids@.len() - k,
    {
        proof {
            assert(ids@.take(k + 1).drop_last() =~= ids@.take(k as int));
        }
        if ids[k].0 > n {
            n = ids[k].0;
        }
        k = k + 1;
    }
    assert(ids@.take(ids@.len() as int) =~= ids@);
    n
}

/// `b` agrees with `a` on every object's kind and type, the trailer, the catalog and the
/// highest number.
pub open spec fn keeps(a: lopdf::Document, b: lopdf::Document) -> bool {
    &&& forall|i: (u32, u16)| #[trigger] pdf_object_kind(b, i) == pdf_object_kind(a, i)
    &&& forall|i: (u32, u16)| #[trigger] pdf_type_name(b, i) == pdf_type_name(a, i)
    &&& pdf_trailer_root(b) == pdf_trailer_root(a)
    &&& pdf_catalog_pages(b) == pdf_catalog_pages(a)
    &&& pdf_max_id(b) == pdf_max_id(a)
}

/// One merge step keeps a plain listing: the pages `kids` listed before, followed by the
/// pages `added` of a renumbered copy whose objects all have numbers above those of the
/// document before, are listed after.
proof fn lemma_listed_step(
    before: lopdf::Document,
    copy: lopdf::Document,
    after: lopdf::Document,
    kids: Seq<(u32, u16)>,
    added: Seq<(u32, u16)>,
)
    requires
        pages_listed(before, kids),
        pages_listed(copy, added),
        numbers_covered(before),
        forall|i: (u32, u16)| #[trigger] pdf_object_kind(copy, i) is Some ==> pdf_max_id(before) < i.0,
        forall|i: (u32, u16)| pdf_object_kind(before, i) is Some ==> #[trigger] pdf_object_kind(after, i) == pdf_object_kind(before, i),
        forall|i: (u32, u16)| pdf_type_name(before, i) is Some ==> #[trigger] pdf_type_name(after, i) == pdf_type_name(before, i),
        forall|i: (u32, u16)| pdf_object_kind(copy, i) == Some(ObjectKind::Dictionary) ==> #[trigger] pdf_object_kind(after, i)
            == pdf_object_kind(copy, i),
        forall|i: (u32, u16)| pdf_object_kind(copy, i) == Some(ObjectKind::Dictionary) ==> #[trigger] pdf_type_name(after, i)
            == pdf_type_name(copy, i),
        pdf_trailer_root(after) == pdf_trailer_root(before),
        pdf_catalog_pages(after) == pdf_catalog_pages(before),
        pdf_array_refs(after, pdf_catalog_pages(before)->0->0, p1(kids_key())) == append_refs(
            pdf_array_refs(before, pdf_catalog_pages(before)->0->0, p1(kids_key())),
            added,
        ),
    ensures
        pages_listed(after, kids + added),
{
    let c = pdf_trailer_root(before)->0;
    let root = pdf_catalog_pages(before)->0->0;
    let all = kids + added;
    assert(kids.map_values(|i: (u32, u16)| Some(i)) + added.map_values(|i: (u32, u16)| Some(i)) =~= all.map_values(
        |i: (u32, u16)| Some(i),
    ));
    assert forall|k: int| 0 <= k < added.len() implies pdf_max_id(before) < (#[trigger] added[k]).0 by {
        assert(pdf_object_kind(copy, added[k]) == Some(ObjectKind::Dictionary));
    }
    assert forall|k: int| 0 <= k < all.len() implies {
        &&& pdf_object_kind(after, #[trigger] all[k]) == Some(ObjectKind::Dictionary)
        &&& pdf_type_name(after, all[k]) == Some(page_key())
        &&& all[k] != root
        &&& all[k] != c
    } by {
        if k < kids.len() {
            assert(all[k] == kids[k]);
        } else {
            assert(all[k] == added[k - kids.len()]);
            assert(pdf_object_kind(before, root) is Some);
            assert(pdf_object_kind(before, c) is Some);
            assert(root.0 <= pdf_max_id(before));
            assert(c.0 <= pdf_max_id(before));
        }
    }
    assert forall|a: int, b: int| 0 <= a < all.len() && 0 <= b < all.len() && a != b implies all[a] != all[b] by {
        if a < kids.len() && b < kids.len() {
            assert(all[a] == kids[a] && all[b] == kids[b]);
        } else if a >= kids.len() && b >= kids.len() {
            assert(all[a] == added[a - kids.len()] && all[b] == added[b - kids.len()]);
        } else if a < kids.len() {
            assert(pdf_object_kind(before, kids[a]) is Some);
            assert(kids[a].0 <= pdf_max_id(before));
            assert(all[b] == added[b - kids.len()]);
        } else {
            assert(pdf_object_kind(before, kids[b]) is Some);
            assert(kids[b].0 <= pdf_max_id(before));
            assert(all[a] == added[a - kids.len()]);
        }
    }
    assert(all.no_duplicates());
}

/// One merge step, from the state after `i` documents to the state after `i + 1`: the copy
/// of document `i` renumbered from `start`, added to `before` (giving `extended`), its pages
/// parented and appended and the count set (giving `counted`), and the highest number set
/// from the object ids `all_ids` (giving `merged`).
proof fn lemma_merge_step(
    d: Seq<lopdf::Document>,
    starts: Seq<u32>,
    i: int,
    start: u32,
    before: lopdf::Document,
    copy: lopdf::Document,
    extended: lopdf::Document,
    counted: lopdf::Document,
    merged: lopdf::Document,
    ids: Seq<(u32, u16)>,
    all_ids: Seq<(u32, u16)>,
    root: (u32, u16),
)
    requires
        merge_fits(d),
        merge_ready(d[0]),
        1 <= i < d.len(),
        merged_from(d, starts, i, before),
        start == pdf_max_id(before) + 1,
        copy == pdf_renumbered(d[i], start),
        forall|j: (u32, u16)| #[trigger] pdf_object_kind(copy, j) is Some ==> start <= j.0 <= pdf_max_id(copy),
        pdf_max_id(copy) + 1 == start + pdf_object_count(copy),
        pdf_object_count(copy) <= pdf_object_count(d[i]),
        plain_tree(d[i]) ==> plain_tree(copy) && pdf_page_ids(copy).len() == pdf_page_ids(d[i]).len(),
        ids == pdf_page_ids(copy),
        forall|j: (u32, u16)| #[trigger] pdf_object_kind(extended, j) == if pdf_object_kind(copy, j) is Some {
            pdf_object_kind(copy, j)
        } else {
            pdf_object_kind(before, j)
        },
        forall|j: (u32, u16)| pdf_object_kind(copy, j) == Some(ObjectKind::Dictionary) ==> #[trigger] pdf_type_name(extended, j)
            == pdf_type_name(copy, j),
        pdf_trailer_root(extended) == pdf_trailer_root(before),
        disjoint_objects(before, copy) ==> {
            &&& forall|j: (u32, u16), q: Seq<Seq<u8>>| pdf_entry(before, j, q) is Some ==> #[trigger] pdf_entry(extended, j, q)
                == pdf_entry(before, j, q)
            &&& forall|j: (u32, u16), q: Seq<Seq<u8>>| pdf_array_refs(before, j, q) is Some ==> #[trigger] pdf_array_refs(
                extended,
                j,
                q,
            ) == pdf_array_refs(before, j, q)
            &&& forall|j: (u32, u16)| pdf_type_name(before, j) is Some ==> #[trigger] pdf_type_name(extended, j)
                == pdf_type_name(before, j)
            &&& pdf_catalog_pages(before) is Some ==> pdf_catalog_pages(extended) == pdf_catalog_pages(before)
        },
        pdf_catalog_pages(extended) == Some(Some(root)),
        keeps(extended, counted),
        pdf_entry(counted, root, p0()) == pdf_entry(extended, root, p0()),
        pdf_array_refs(counted, root, p1(kids_key())) == append_refs(pdf_array_refs(extended, root, p1(kids_key())), ids),
        pdf_object_kind(extended, root) == Some(ObjectKind::Dictionary) ==> pdf_count(counted, root) == Some(
            count_value(pdf_array_refs(counted, root, p1(kids_key()))->0.len()),
        ),
        forall|j: (u32, u16)| #[trigger] pdf_object_kind(counted, j) is Some <==> all_ids.contains(j),
        pdf_max_id(merged) == highest_number(all_ids),
        same_but_max(counted, merged),
    ensures
        merged_from(d, starts.push(start), i + 1, merged),
{
    let d0 = d[0];
    let ns = starts.push(start);
    assert forall|j: (u32, u16)| #[trigger] pdf_object_kind(copy, j) is Some implies pdf_object_kind(before, j) is None by {
        if pdf_object_kind(before, j) is Some {
            assert(j.0 <= pdf_max_id(before));
        }
    }
    assert(disjoint_objects(before, copy));
    assert(root == pdf_catalog_pages(d0)->0->0);
    lemma_renumbered_pages_prefix(d, starts, ns, i);
    assert(renumbered_pages(d, ns, i + 1) == renumbered_pages(d, starts, i) + ids);
    let bound = pdf_max_id(d0) + objects_after_first(d, i + 1);
    assert forall|k: int| 0 <= k < all_ids.len() implies (#[trigger] all_ids[k]).0 <= bound by {
        let x = all_ids[k];
        assert(all_ids.contains(x));
        assert(pdf_object_kind(counted, x) is Some);
        assert(pdf_object_kind(extended, x) is Some);
        if pdf_object_kind(copy, x) is None {
            assert(pdf_object_kind(before, x) is Some);
        }
    }
    lemma_highest_number(all_ids, bound);
    assert forall|j: (u32, u16)| #[trigger] pdf_object_kind(merged, j) is Some implies j.0 <= pdf_max_id(merged) by {
        assert(pdf_object_kind(counted, j) is Some);
        assert(all_ids.contains(j));
        let k = choose|k: int| 0 <= k < all_ids.len() && all_ids[k] == j;
        assert(all_ids[k].0 <= highest_number(all_ids));
    }
    assert forall|j: (u32, u16)| pdf_object_kind(before, j) is Some implies #[trigger] pdf_object_kind(merged, j)
        == pdf_object_kind(before, j) by {
        assert(pdf_object_kind(extended, j) == pdf_object_kind(before, j));
        assert(pdf_object_kind(counted, j) == pdf_object_kind(extended, j));
    }
    assert forall|j: (u32, u16)| pdf_object_kind(d0, j) is Some implies #[trigger] pdf_object_kind(merged, j)
        == pdf_object_kind(d0, j) by {
        assert(pdf_object_kind(before, j) == pdf_object_kind(d0, j));
    }
    let a0 = pdf_array_refs(d0, root, p1(kids_key()))->0;
    let ri = renumbered_pages(d, starts, i);
    assert(pdf_array_refs(extended, root, p1(kids_key())) == pdf_array_refs(before, root, p1(kids_key())));
    assert((a0 + ri.map_values(|x: (u32, u16)| Some(x))) + ids.map_values(|x: (u32, u16)| Some(x)) =~= a0 + (ri
        + ids).map_values(|x: (u32, u16)| Some(x)));
    assert(pdf_entry(extended, root, p0()) == pdf_entry(before, root, p0()));
    if pdf_object_kind(d0, root) == Some(ObjectKind::Dictionary) {
        assert(pdf_object_kind(extended, root) == Some(ObjectKind::Dictionary));
        assert(pdf_count(merged, root) == pdf_count(counted, root));
    }
    if all_plain(d) {
        assert(plain_tree(d[i]));
        assert forall|j: (u32, u16)| pdf_type_name(before, j) is Some implies #[trigger] pdf_type_name(merged, j)
            == pdf_type_name(before, j) by {
            assert(pdf_type_name(extended, j) == pdf_type_name(before, j));
            assert(pdf_type_name(counted, j) == pdf_type_name(extended, j));
        }
        assert forall|j: (u32, u16)| pdf_object_kind(copy, j) == Some(ObjectKind::Dictionary) implies #[trigger] pdf_object_kind(
            merged,
            j,
        ) == pdf_object_kind(copy, j) by {
            assert(pdf_object_kind(counted, j) == pdf_object_kind(extended, j));
        }
        assert forall|j: (u32, u16)| pdf_object_kind(copy, j) == Some(ObjectKind::Dictionary) implies #[trigger] pdf_type_name(
            merged,
            j,
        ) == pdf_type_name(copy, j) by {
            assert(pdf_type_name(counted, j) == pdf_type_name(extended, j));
        }
        assert forall|j: (u32, u16)| #[trigger] pdf_object_kind(copy, j) is Some implies pdf_max_id(before) < j.0 by {}
        lemma_listed_step(before, copy, merged, pdf_page_ids(d0) + ri, ids);
        assert((pdf_page_ids(d0) + ri) + ids =~= pdf_page_ids(d0) + (ri + ids));
        assert forall|j: int| 1 <= j < i + 1 implies (#[trigger] pdf_page_ids(pdf_renumbered(d[j], ns[j]))).len()
            == pdf_page_ids(d[j]).len() by {
            if j < i {
                assert(ns[j] == starts[j]);
                assert(pdf_page_ids(pdf_renumbered(d[j], starts[j])).len() == pdf_page_ids(d[j]).len());
            }
        }
    }
}

/// Merge the documents into one: a copy of the first, then for each further document a copy
/// renumbered from just above the highest number so far, whose objects are added, whose pages
/// take the first document's page tree root as `/Parent` and are appended, in order, to that
/// root's `/Kids`, the root's `/Count` then being set to its number of kids and the highest
/// number to that of the objects now held.
///
/// Where the numbers suffice (`merge_fits`), a single document always merges, and more merge
/// whenever the first document's catalog refers to a dictionary as page tree root with a
/// `/Kids` array (`merge_ready`); the merged document is then as `merged_from` says. The
/// errors, in the order of the checks: no `/Root` in the first document's trailer ("no
/// catalog"), a catalog without a `/Pages` reference ("failed to find Pages reference in
/// catalog"), a root that is not an object of the document ("Pages object not found"), a
/// root that is not a dictionary (lopdf's message), and a root without a `/Kids` array
/// ("Pages has no Kids array"). Where the first document refers to an object it lacks, the
/// objects added from the others may supply it, as their numbers fall; that case is left
/// open. When the numbers do not suffice the merge stops with "object numbers used up".
#[verifier::rlimit(50)]
pub fn merge_documents(documents: &[lopdf::Document]) -> (r: Result<lopdf::Document, String>)
    requires
        documents@.len() >= 1,
    ensures
        merge_fits(documents@) && (documents@.len() == 1 || merge_ready(documents@[0])) ==> r is Ok,
        merge_fits(documents@) && documents@.len() > 1 && pdf_trailer_root(documents@[0]) is None ==> (r matches Err(
            e,
        ) && e@ == "no catalog"@),
        merge_fits(documents@) && documents@.len() > 1 && pdf_catalog_pages(documents@[0]) == Some(None::<(u32, u16)>)
            ==> (r matches Err(e) && e@ == "failed to find Pages reference in catalog"@),
        merge_fits(documents@) && documents@.len() > 1 ==> (pdf_catalog_pages(documents@[0]) matches Some(Some(root))
            ==> {
            &&& pdf_object_kind(documents@[0], root) is None && root.0 <= pdf_max_id(documents@[0]) ==> (r matches Err(e)
                && e@ == "Pages object not found"@)
            &&& (pdf_entry(documents@[0], root, p0()) matches Some(k) && k != Entry::Dictionary) ==> r is Err
            &&& pdf_entry(documents@[0], root, p0()) == Some(Entry::Dictionary) && (pdf_entry(
                documents@[0],
                root,
                p1(kids_key()),
            ) matches Some(k) && k != Entry::Array) ==> (r matches Err(e) && e@ == "Pages has no Kids array"@)
        }),
        r matches Ok(m) ==> (merge_fits(documents@) && (documents@.len() == 1 || merge_ready(documents@[0]))
            ==> merge_result(documents@, m)),
{
    let ghost d = documents@;
    let ghost fits = merge_fits(d);
    let mut merged = lopdf_clone(&documents[0]);
    let ghost mut starts: Seq<u32> = seq![0u32];
    proof {
        lemma_merge_keys();
        lemma_one_key_paths(parent_key(), kids_key());
        lemma_one_key_paths(count_key(), kids_key());
        lemma_one_key_paths(kids_key(), parent_key());
        if let Some(Some(root)) = pdf_catalog_pages(d[0]) {
            if let Some(a) = pdf_array_refs(d[0], root, p1(kids_key())) {
                assert(a + renumbered_pages(d, starts, 1).map_values(|i: (u32, u16)| Some(i)) =~= a);
            }
        }
        if all_plain(d) {
            assert(plain_tree(d[0]));
            assert(pdf_page_ids(d[0]) + renumbered_pages(d, starts, 1) =~= pdf_page_ids(d[0]));
        }
    }
    let mut i: usize = 1;
    while i < documents.len()
        invariant
            1 <= i <= d.len(),
            d == documents@,
            fits == merge_fits(d),
            starts.len() == i,
            parent_key() != type_key() && parent_key() != linearized_key() && parent_key() != pages_key(),
            count_key() != type_key() && count_key() != linearized_key() && count_key() != pages_key(),
            kids_key() != type_key() && kids_key() != linearized_key() && kids_key() != pages_key(),
            !is_prefix(p1(parent_key()), p0()) && !is_prefix(p1(parent_key()), p1(kids_key())),
            !is_prefix(p1(count_key()), p0()) && !is_prefix(p1(count_key()), p1(kids_key())),
            !is_prefix(p1(kids_key()), p0()),
            i == 1 ==> {
                &&& pdf_max_id(merged) == pdf_max_id(d[0])
                &&& forall|j: (u32, u16)| #[trigger] pdf_object_kind(merged, j) == pdf_object_kind(d[0], j)
                &&& forall|j: (u32, u16), q: Seq<Seq<u8>>| #[trigger] pdf_entry(merged, j, q) == pdf_entry(d[0], j, q)
            },
            fits && i > 1 ==> !merge_refused(d[0]),
            fits && (i == 1 || merge_ready(d[0])) ==> merged_from(d, starts, i as int, merged),
        decreases d.len() - i,
    {
        let ghost before = merged;
        let ghost tracked_state = fits && (i == 1 || merge_ready(d[0]));
        let top = lopdf_max_id(&merged);
        let count = lopdf_object_count(&documents[i]);
        proof {
            if tracked_state {
                lemma_objects_after_first_grows(d, i + 1, d.len() as int);
                assert(pdf_object_count(d[i as int]) <= i32::MAX);
            }
        }
        if top == u32::MAX || count > (u32::MAX - (top + 1)) as usize || count > i32::MAX as usize {
            return Err(String::from_str("object numbers used up"));
        }
        let start = top + 1;
        let copy = lopdf_renumbered_copy(&documents[i], start);
        let ids = lopdf_page_ids(&copy);
        proof {
            if tracked_state {
                assert(disjoint_objects(before, copy));
            }
        }
        lopdf_extend_objects(&mut merged, &copy);
        let ghost extended = merged;
        let root = match lopdf_catalog_pages(&merged) {
            None => {
                return Err(String::from_str("no catalog"));
            },
            Some(None) => {
                return Err(String::from_str("failed to find Pages reference in catalog"));
            },
            Some(Some(p)) => p,
        };
        if lopdf_entry0(&merged, root).is_none() {
            return Err(String::from_str("Pages object not found"));
        }
        proof {
            if tracked_state && pdf_object_kind(copy, root) is Some {
                assert(pdf_max_id(before) < root.0);
            }
            if fits && i == 1 {
                if pdf_entry(d[0], root, p0()) is Some {
                    assert(pdf_entry(extended, root, p0()) == pdf_entry(d[0], root, p0()));
                }
                if pdf_entry(d[0], root, p1(kids_key())) is Some {
                    assert(pdf_entry(extended, root, p1(kids_key())) == pdf_entry(d[0], root, p1(kids_key())));
                }
            }
        }
        let kk = kids_key_exec();
        match lopdf_entry1(&merged, root, kk.as_slice()) {
            Err(e) => {
                return Err(e);
            },
            Ok(Entry::Array) => {},
            Ok(_) => {
                return Err(String::from_str("Pages has no Kids array"));
            },
        }
        proof {
            if fits && i == 1 {
                assert(!merge_refused(d[0]));
            }
        }
        let pk = parent_key_exec();
        let mut k: usize = 0;
        while k < ids.len()
            invariant
                k <= ids@.len(),
                keeps(extended, merged),
                pdf_entry(merged, root, p0()) == pdf_entry(extended, root, p0()),
                pdf_entry(merged, root, p1(kids_key())) == pdf_entry(extended, root, p1(kids_key())),
                pdf_array_refs(merged, root, p1(kids_key())) == pdf_array_refs(extended, root, p1(kids_key())),
                parent_key() == pk@,
                parent_key() != type_key() && parent_key() != linearized_key() && parent_key() != pages_key(),
                !is_prefix(p1(parent_key()), p0()) && !is_prefix(p1(parent_key()), p1(kids_key())),
            decreases ids@.len() - k,
        {
            let ghost prev = merged;
            let _ = lopdf_put_ref1(&mut merged, ids[k], pk.as_slice(), root);
            proof {
                lemma_keeps_one_key(prev, merged, parent_key());
            }
            k = k + 1;
        }
        let ghost parented = merged;
        let mut k2: usize = 0;
        while k2 < ids.len()
            invariant
                k2 <= ids@.len(),
                keeps(parented, merged),
                pdf_entry(merged, root, p0()) == pdf_entry(parented, root, p0()),
                pdf_entry(merged, root, p1(kids_key())) == Some(Entry::Array),
                pdf_array_refs(parented, root, p1(kids_key())) is Some,
                pdf_array_refs(merged, root, p1(kids_key())) == append_refs(
                    pdf_array_refs(parented, root, p1(kids_key())),
                    ids@.take(k2 as int),
                ),
                kids_key() == kk@,
                kids_key() != type_key() && kids_key() != linearized_key() && kids_key() != pages_key(),
                !is_prefix(p1(kids_key()), p0()),
            decreases ids@.len() - k2,
        {
            let ghost prev = merged;
            match lopdf_push_ref1(&mut merged, root, kk.as_slice(), ids[k2]) {
                Ok(()) => {},
                Err(e) => {
                    return Err(e);
                },
            }
            proof {
                lemma_keeps_one_key(prev, merged, kids_key());
                let a = pdf_array_refs(parented, root, p1(kids_key()))->0;
                assert(ids@.take(k2 + 1) =~= ids@.take(k2 as int).push(ids@[k2 as int]));
                assert((a + ids@.take(k2 as int).map_values(|i: (u32, u16)| Some(i))).push(Some(ids@[k2 as int])) =~= a
                    + ids@.take(k2 + 1).map_values(|i: (u32, u16)| Some(i)));
            }
            k2 = k2 + 1;
        }
        proof {
            assert(ids@.take(ids@.len() as int) =~= ids@);
        }
        let n = match lopdf_array_len1(&merged, root, kk.as_slice()) {
            Some(n) => n,
            None => 0,
        };
        let n64 = n as u64;
        let kids_count: i64 = if n64 > 9223372036854775807u64 {
            i64::MAX
        } else {
            n64 as i64
        };
        let ghost pushed = merged;
        let _ = lopdf_put_count(&mut merged, root, kids_count);
        let ghost counted = merged;
        proof {
            lemma_keeps_one_key(pushed, counted, count_key());
            assert(keeps(extended, counted));
            assert(pdf_entry(counted, root, p0()) == pdf_entry(extended, root, p0()));
            assert(pdf_array_refs(counted, root, p1(kids_key())) == pdf_array_refs(pushed, root, p1(kids_key())));
            assert(pdf_array_refs(counted, root, p1(kids_key())) == append_refs(
                pdf_array_refs(extended, root, p1(kids_key())),
                ids@,
            ));
        }
        let all_ids = lopdf_object_ids(&merged);
        let highest = highest_number_exec(&all_ids);
        lopdf_set_max_id(&mut merged, highest);
        proof {
            let new_starts = starts.push(start);
            assert forall|j: int| 1 <= j < i implies starts[j] == new_starts[j] by {}
            lemma_renumbered_pages_prefix(d, starts, new_starts, i as int);
            if fits && merge_ready(d[0]) {
                lemma_merge_step(
                    d,
                    starts,
                    i as int,
                    start,
                    before,
                    copy,
                    extended,
                    counted,
                    merged,
                    ids@,
                    all_ids@,
                    root,
                );
            }
            starts = new_starts;
        }
        i = i + 1;
    }
    proof {
        if fits && (d.len() == 1 || merge_ready(d[0])) {
            assert(merged_from(d, starts, d.len() as int, merged));
            assert(merge_result(documents@, merged));
        }
    }
    Ok(merged)
}

} // verus!
