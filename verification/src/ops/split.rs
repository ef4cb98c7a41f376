//! Extracting pages of a PDF into a new document: checking the pages, and which ones go.
use vstd::prelude::*;
use crate::model::document::{
    lemma_delete_safe_same, lemma_pages_without_none, lopdf_clone, lopdf_page_count, page_tree_message,
    pages_without, pdf_delete_safe, pdf_flat_tree, pdf_page_ids, remove_pages,
};
use crate::text::{decimal, decimal_string, push_str};

verus! {

/// The first index, from position `k` on, that is not a page of a document of
/// `page_count` pages.
pub open spec fn first_out_of_range(idx: Seq<usize>, page_count: usize, k: int) -> Option<usize>
    decreases idx.len() - k,
{
    if k < 0 || k >= idx.len() {
        None
    } else if idx[k] >= page_count {
        Some(idx[k])
    } else {
        first_out_of_range(idx, page_count, k + 1)
    }
}

/// Error text for a page outside the document.
pub open spec fn out_of_range_message(page: nat, page_count: nat) -> Seq<char> {
    "page "@ + decimal(page) + " out of range (document has "@ + decimal(page_count) + " pages)"@
}

/// The numbers `1..=m` whose page (`n - 1`, 0-indexed) is not among the kept ones, ascending.
pub open spec fn unkept_numbers(m: nat, keep: Seq<usize>) -> Seq<u32>
    decreases m,
{
    if m == 0 {
        Seq::empty()
    } else {
        let r = unkept_numbers((m - 1) as nat, keep);
        if keep.contains((m - 1) as usize) {
            r
        } else {
            r.push(m as u32)
        }
    }
}

/// The pages to delete so that only the given 0-indexed pages stay: every number of
/// `1..=page_count` (as `u32`) whose page is not listed. Fails on the first index
/// outside the document.
pub fn split_plan(page_indices: &[usize], page_count: usize) -> (r: Result<Vec<u32>, String>)
    requires
        forall|k: int| 0 <= k < page_indices@.len() ==> #[trigger] page_indices@[k] < usize::MAX,
    ensures
        r is Err <==> first_out_of_range(page_indices@, page_count, 0) is Some,
        r matches Err(e) ==> (first_out_of_range(page_indices@, page_count, 0) matches Some(i)
            && e@ == out_of_range_message((i + 1) as nat, page_count as nat)),
        r matches Ok(v) ==> v@ == unkept_numbers((page_count as u32) as nat, page_indices@),
{
    let mut k: usize = 0;
    while k < page_indices.len()
        invariant
            k <= page_indices@.len(),
            forall|q: int| 0 <= q < page_indices@.len() ==> #[trigger] page_indices@[q] < usize::MAX,
            first_out_of_range(page_indices@, page_count, 0) == first_out_of_range(page_indices@, page_count, k as int),
        decreases page_indices@.len() - k,
    {
        let i = page_indices[k];
        if i >= page_count {
            let mut m = String::from_str("page ");
            push_str(&mut m, decimal_string(i + 1).as_str());
            push_str(&mut m, " out of range (document has ");
            push_str(&mut m, decimal_string(page_count).as_str());
            push_str(&mut m, " pages)");
            return Err(m);
        }
        k = k + 1;
    }
    Ok(unkept_list(page_count, page_indices))
}

/// Every number of `1..=page_count` (as `u32`) whose page (`n - 1`) is not kept, ascending.
pub fn unkept_list(page_count: usize, keep: &[usize]) -> (v: Vec<u32>)
    ensures
        v@ == unkept_numbers((page_count as u32) as nat, keep@),
{
    let pc32 = #[verifier::truncate] (page_count as u32);
    let mut v: Vec<u32> = Vec::new();
    let mut n: u32 = 0;
    while n < pc32
        invariant
            n <= pc32,
            v@ == unkept_numbers(n as nat, keep@),
        decreases pc32 - n,
    {
        let p = n as usize;
        let mut kept = false;
        let mut q: usize = 0;
        while q < keep.len()
            invariant
                q <= keep@.len(),
                kept == keep@.take(q as int).contains(p),
            decreases keep@.len() - q,
        {
            proof {
                crate::text::lemma_take_contains_step(keep@, q as int, p);
            }
            if keep[q] == p {
                kept = true;
            }
            q = q + 1;
        }
        assert(keep@.take(keep@.len() as int) =~= keep@);
        n = n + 1;
        assert(((n - 1) as nat) as usize == p);
        if !kept {
            v.push(n);
        }
    }
    v
}

/// The pages that splitting keeps: the document's page ids in order, without those whose
/// number `split_plan` lists for deletion.
pub open spec fn split_pages(doc: lopdf::Document, page_indices: Seq<usize>) -> Seq<(u32, u16)> {
    pages_without(
        pdf_page_ids(doc),
        unkept_numbers(((pdf_page_ids(doc).len() as usize) as u32) as nat, page_indices).to_set(),
    )
}

/// The page ids whose 0-indexed position is listed in `keep`, in order.
pub open spec fn kept_pages(ids: Seq<(u32, u16)>, keep: Seq<usize>) -> Seq<(u32, u16)>
    decreases ids.len(),
{
    if ids.len() == 0 {
        Seq::empty()
    } else {
        let r = kept_pages(ids.drop_last(), keep);
        if keep.contains((ids.len() - 1) as usize) {
            r.push(ids.last())
        } else {
            r
        }
    }
}

/// The numbers that splitting deletes are those of the pages not kept.
proof fn lemma_unkept_contains(m: nat, keep: Seq<usize>, j: u32)
    requires
        m <= u32::MAX,
    ensures
        unkept_numbers(m, keep).contains(j) <==> (1 <= j <= m && !keep.contains((j - 1) as usize)),
    decreases m,
{
    if m > 0 {
        lemma_unkept_contains((m - 1) as nat, keep, j);
        let r = unkept_numbers((m - 1) as nat, keep);
        if !keep.contains((m - 1) as usize) {
            let r2 = r.push(m as u32);
            assert(r2[r.len() as int] == m as u32);
            if r2.contains(j) && j != m as u32 {
                let q = choose|q: int| 0 <= q < r2.len() && #[trigger] r2[q] == j;
                assert(r[q] == j);
            }
            if r.contains(j) {
                let q = choose|q: int| 0 <= q < r.len() && #[trigger] r[q] == j;
                assert(r2[q] == j);
            }
        }
    }
}

/// The pages left after deleting the unkept numbers are the kept pages, in order.
proof fn lemma_split_pages_kept(ids: Seq<(u32, u16)>, keep: Seq<usize>, k: nat)
    requires
        ids.len() <= u32::MAX,
        k <= ids.len(),
    ensures
        pages_without(ids.take(k as int), unkept_numbers(ids.len(), keep).to_set()) == kept_pages(ids.take(k as int), keep),
    decreases k,
{
    if k > 0 {
        lemma_split_pages_kept(ids, keep, (k - 1) as nat);
        let t = ids.take(k as int);
        assert(t.drop_last() =~= ids.take(k - 1));
        lemma_unkept_contains(ids.len(), keep, k as u32);
    }
}

/// The document keeping only the given 0-indexed pages (and the objects they use). Fails as
/// `split_plan` does on the document's pages, and exactly when the page tree does not allow
/// the deletion. When every page is kept, or the page tree is flat, the result's pages are
/// the kept ones in the document's order.
pub fn split_document(doc: &lopdf::Document, page_indices: &[usize]) -> (r: Result<lopdf::Document, String>)
    requires
        forall|k: int| 0 <= k < page_indices@.len() ==> #[trigger] page_indices@[k] < usize::MAX,
    ensures
        ({
            let n = pdf_page_ids(*doc).len();
            let unkept = unkept_numbers(((n as usize) as u32) as nat, page_indices@);
            &&& first_out_of_range(page_indices@, n as usize, 0) is Some ==> (r matches Err(e)
                && first_out_of_range(page_indices@, n as usize, 0) matches Some(i)
                && e@ == out_of_range_message((i + 1) as nat, n))
            &&& first_out_of_range(page_indices@, n as usize, 0) is None ==> (r matches Err(e)
                ==> unkept.len() > 0 && e@ == page_tree_message())
            &&& (first_out_of_range(page_indices@, n as usize, 0) is None && unkept.len() == 0) ==> r is Ok
            &&& (first_out_of_range(page_indices@, n as usize, 0) is None && unkept.len() > 0) ==> (r is Ok
                <==> pdf_delete_safe(*doc, unkept.to_set()))
            &&& r matches Ok(d) ==> (unkept.len() == 0 || pdf_flat_tree(*doc) ==> pdf_page_ids(d) == split_pages(
                *doc,
                page_indices@,
            ))
            &&& n <= u32::MAX ==> (r matches Ok(d) ==> (unkept.len() == 0 || pdf_flat_tree(*doc) ==> pdf_page_ids(d)
                == kept_pages(pdf_page_ids(*doc), page_indices@)))
        }),
{
    let page_count = lopdf_page_count(doc);
    match split_plan(page_indices, page_count) {
        Ok(delete) => {
            let mut result = lopdf_clone(doc);
            proof {
                lemma_delete_safe_same(result, *doc, delete@.to_set());
                crate::model::document::lemma_flat_same(result, *doc);
            }
            if delete.len() > 0 {
                match remove_pages(&mut result, delete.as_slice(), true) {
                    Ok(()) => {},
                    Err(e) => {
                        return Err(e);
                    },
                }
            } else {
                proof {
                    assert(delete@.to_set() =~= Set::<u32>::empty());
                    lemma_pages_without_none(pdf_page_ids(result), delete@.to_set());
                }
            }
            proof {
                let ids = pdf_page_ids(*doc);
                if ids.len() <= u32::MAX {
                    lemma_split_pages_kept(ids, page_indices@, ids.len());
                    assert(ids.take(ids.len() as int) =~= ids);
                }
            }
            Ok(result)
        },
        Err(e) => Err(e),
    }
}

} // verus!
