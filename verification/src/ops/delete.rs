//! Deleting pages from a PDF: which pages go, and the document without them.
use vstd::prelude::*;
use crate::model::document::{
    lopdf_page_count, page_tree_message, pages_without, pdf_delete_safe, pdf_flat_tree, pdf_page_ids, remove_pages,
};

verus! {

/// The 1-indexed page number lopdf uses for the 0-indexed page `i` (`(i + 1) as u32`).
pub open spec fn page_number(i: usize) -> u32 {
    (i + 1) as u32
}

/// Whether index `i` names a page of a document of `page_count` pages.
pub open spec fn deletable(i: usize, page_count: usize) -> bool {
    1 <= page_number(i) <= page_count as u32
}

/// The page numbers that deleting the given 0-indexed pages removes.
pub open spec fn valid_numbers(idx: Seq<usize>, page_count: usize) -> Set<u32> {
    Set::new(|n: u32| exists|k: int| 0 <= k < idx.len() && deletable(#[trigger] idx[k], page_count) && page_number(idx[k]) == n)
}

/// Whether a sequence of numbers is strictly increasing.
pub open spec fn increasing_u32(s: Seq<u32>) -> bool {
    forall|i: int, j: int| 0 <= i < j < s.len() ==> s[i] < s[j]
}

/// Error text when none of the pages exists.
pub open spec fn no_valid_pages_message() -> Seq<char> {
    "no valid pages to delete"@
}

/// Error text when every page would go.
pub open spec fn delete_all_message() -> Seq<char> {
    "cannot delete all pages from a document"@
}

/// Insert `x` into a strictly increasing vector, keeping it strictly increasing.
pub fn insert_sorted_u32(v: &mut Vec<u32>, x: u32)
    requires
        increasing_u32(old(v)@),
    ensures
        increasing_u32(final(v)@),
        forall|y: u32| final(v)@.contains(y) <==> (old(v)@.contains(y) || y == x),
{
    let mut p: usize = v.len();
    while p > 0 && v[p - 1] >= x
        invariant
            p <= v@.len(),
            forall|q: int| p <= q < v@.len() ==> v@[q] >= x,
        decreases p,
    {
        p = p - 1;
    }
    if p < v.len() && v[p] == x {
        assert(v@[p as int] == x);
        return;
    }
    let ghost before = v@;
    assert(p > 0 ==> before[p - 1] < x);
    assert(p < before.len() ==> before[p as int] > x);
    v.insert(p, x);
    proof {
        assert(v@ == before.insert(p as int, x));
        before.insert_ensures(p as int, x);
        assert forall|i: int, j: int| 0 <= i < j < v@.len() implies v@[i] < v@[j] by {
            if i < p && j > p {
                assert(before[j - 1] > x);
            }
        }
        assert forall|y: u32| v@.contains(y) <==> (before.contains(y) || y == x) by {
            if v@.contains(y) {
                let q = choose|q: int| 0 <= q < v@.len() && v@[q] == y;
                if q < p {
                    assert(before[q] == y);
                } else if q > p {
                    assert(before[q - 1] == y);
                }
            }
            if before.contains(y) {
                let q = choose|q: int| 0 <= q < before.len() && before[q] == y;
                if q < p {
                    assert(v@[q] == y);
                } else {
                    assert(v@[q + 1] == y);
                }
            }
            if y == x {
                assert(v@[p as int] == y);
            }
        }
    }
}

/// The pages to delete: the 1-indexed numbers of the given 0-indexed pages that exist in
/// a document of `page_count` pages, ascending and each once. Fails when none exists or
/// when all pages would go.
pub fn delete_plan(page_indices: &[usize], page_count: usize) -> (r: Result<Vec<u32>, String>)
    requires
        forall|k: int| 0 <= k < page_indices@.len() ==> #[trigger] page_indices@[k] < usize::MAX,
    ensures
        valid_numbers(page_indices@, page_count).finite(),
        r is Err <==> (valid_numbers(page_indices@, page_count).len() == 0
            || valid_numbers(page_indices@, page_count).len() >= page_count),
        r matches Err(e) ==> e@ == (if valid_numbers(page_indices@, page_count).len() == 0 {
            no_valid_pages_message()
        } else {
            delete_all_message()
        }),
        r matches Ok(v) ==> increasing_u32(v@) && v@.to_set() == valid_numbers(page_indices@, page_count)
            && v@.len() == valid_numbers(page_indices@, page_count).len(),
{
    let pc32 = page_count as u32;
    let mut v: Vec<u32> = Vec::new();
    let mut k: usize = 0;
    while k < page_indices.len()
        invariant
            k <= page_indices@.len(),
            pc32 == page_count as u32,
            forall|q: int| 0 <= q < page_indices@.len() ==> #[trigger] page_indices@[q] < usize::MAX,
            increasing_u32(v@),
            forall|n: u32| v@.contains(n) <==> valid_numbers(page_indices@.take(k as int), page_count).contains(n),
        decreases page_indices@.len() - k,
    {
        let i = page_indices[k];
        let n = (i + 1) as u32;
        proof {
            let t1 = page_indices@.take(k + 1);
            let t0 = page_indices@.take(k as int);
            assert forall|m: u32| valid_numbers(t1, page_count).contains(m) <==> (valid_numbers(t0, page_count).contains(m)
                || (deletable(i, page_count) && page_number(i) == m)) by {
                if valid_numbers(t1, page_count).contains(m) {
                    let q = choose|q: int| 0 <= q < t1.len() && deletable(#[trigger] t1[q], page_count) && page_number(t1[q]) == m;
                    if q < k {
                        assert(t0[q] == t1[q]);
                    }
                }
                if valid_numbers(t0, page_count).contains(m) {
                    let q = choose|q: int| 0 <= q < t0.len() && deletable(#[trigger] t0[q], page_count) && page_number(t0[q]) == m;
                    assert(t1[q] == t0[q]);
                }
                if deletable(i, page_count) && page_number(i) == m {
                    assert(t1[k as int] == i);
                }
            }
        }
        if 1 <= n && n <= pc32 {
            insert_sorted_u32(&mut v, n);
        }
        k = k + 1;
    }
    assert(page_indices@.take(page_indices@.len() as int) =~= page_indices@);
    proof {
        let s = valid_numbers(page_indices@, page_count);
        assert(v@.to_set() =~= s);
        assert(v@.no_duplicates()) by {
            assert forall|i: int, j: int| 0 <= i < v@.len() && 0 <= j < v@.len() && i != j implies v@[i] != v@[j] by {
                if i < j {
                    assert(v@[i] < v@[j]);
                } else {
                    assert(v@[j] < v@[i]);
                }
            }
        }
        v@.unique_seq_to_set();
    }
    if v.len() == 0 {
        return Err(String::from_str("no valid pages to delete"));
    }
    if v.len() >= page_count {
        return Err(String::from_str("cannot delete all pages from a document"));
    }
    Ok(v)
}

/// Delete the given 0-indexed pages from a loaded document (and the objects only they
/// used), giving back how many pages went. Fails as `delete_plan` does on the document's
/// page count, and exactly when the page tree does not allow the deletion, leaving the
/// document as it was. On a flat page tree the pages left are the others, in order.
pub fn delete_from_document(doc: &mut lopdf::Document, page_indices: &[usize]) -> (r: Result<usize, String>)
    requires
        forall|k: int| 0 <= k < page_indices@.len() ==> #[trigger] page_indices@[k] < usize::MAX,
    ensures
        ({
            let n = pdf_page_ids(*old(doc)).len() as usize;
            let valid = valid_numbers(page_indices@, n);
            &&& valid.len() == 0 ==> (r matches Err(e) && e@ == no_valid_pages_message() && *final(doc) == *old(doc))
            &&& (valid.len() > 0 && valid.len() >= n) ==> (r matches Err(e) && e@ == delete_all_message()
                && *final(doc) == *old(doc))
            &&& (0 < valid.len() < n) ==> (r is Ok <==> pdf_delete_safe(*old(doc), valid))
            &&& (r is Ok && pdf_flat_tree(*old(doc))) ==> pdf_page_ids(*final(doc)) == pages_without(
                pdf_page_ids(*old(doc)),
                valid,
            )
            &&& (0 < valid.len() < n && !pdf_delete_safe(*old(doc), valid)) ==> *final(doc) == *old(doc)
            &&& (0 < valid.len() < n) ==> (r matches Err(e) ==> e@ == page_tree_message())
            &&& r matches Ok(k) ==> k == valid.len()
        }),
{
    let page_count = lopdf_page_count(doc);
    match delete_plan(page_indices, page_count) {
        Ok(v) => {
            match remove_pages(doc, v.as_slice(), true) {
                Ok(()) => Ok(v.len()),
                Err(e) => Err(e),
            }
        },
        Err(e) => Err(e),
    }
}

} // verus!
