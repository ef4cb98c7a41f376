//! Grouping of the working page list by output target, for saving.
use vstd::prelude::*;
use crate::model::document::{
    lemma_delete_safe_subset, lemma_pages_without_none, lopdf_page_count, page_tree_message, pages_without,
    pdf_delete_safe, pdf_flat_tree, pdf_page_ids, remove_pages,
};
use crate::model::page_ref::{OutputTargetId, PageSlot};
use crate::model::workspace::{active_entries, Workspace};

verus! {

/// Order of group keys: unassigned first, then targets by ascending id.
pub open spec fn key_lt(a: Option<OutputTargetId>, b: Option<OutputTargetId>) -> bool {
    match (a, b) {
        (None, Some(_)) => true,
        (Some(x), Some(y)) => x < y,
        _ => false,
    }
}

/// Positions of the non-deleted pages assigned to `key`, in page order.
pub open spec fn positions_with_target(pages: Seq<PageSlot>, key: Option<OutputTargetId>) -> Seq<
    usize,
>
    decreases pages.len(),
{
    if pages.len() == 0 {
        Seq::empty()
    } else {
        let r = positions_with_target(pages.drop_last(), key);
        if !pages.last().marked_for_delete && pages.last().output_target == key {
            r.push((pages.len() - 1) as usize)
        } else {
            r
        }
    }
}

/// The groups of a page list: one per output target that some non-deleted page has,
/// ordered by key, each with the positions of its pages in order.
pub open spec fn is_grouping(
    pages: Seq<PageSlot>,
    groups: Seq<(Option<OutputTargetId>, Seq<usize>)>,
) -> bool {
    &&& forall|i: int, j: int| 0 <= i < j < groups.len() ==> key_lt(groups[i].0, groups[j].0)
    &&& forall|i: int| 0 <= i < groups.len() ==> (#[trigger] groups[i]).1 == positions_with_target(pages, groups[i].0)
    &&& forall|i: int| 0 <= i < groups.len() ==> (#[trigger] groups[i]).1.len() > 0
    &&& forall|key: Option<OutputTargetId>|
        #[trigger] positions_with_target(pages, key).len() > 0 ==> exists|i: int| 0 <= i < groups.len() && (#[trigger] groups[i]).0 == key
}

/// The key and position list of each group.
pub open spec fn groups_view(g: Seq<(Option<OutputTargetId>, Vec<usize>)>) -> Seq<(Option<OutputTargetId>, Seq<usize>)> {
    g.map_values(|e: (Option<OutputTargetId>, Vec<usize>)| (e.0, e.1@))
}

/// Every listed position is a position of the page list.
pub proof fn lemma_positions_bounded(pages: Seq<PageSlot>, key: Option<OutputTargetId>)
    ensures
        forall|q: int| 0 <= q < positions_with_target(pages, key).len() ==> #[trigger] positions_with_target(pages, key)[q] < pages.len(),
    decreases pages.len(),
{
    if pages.len() > 0 {
        lemma_positions_bounded(pages.drop_last(), key);
        let r = positions_with_target(pages.drop_last(), key);
        assert forall|q: int| 0 <= q < positions_with_target(pages, key).len() implies #[trigger] positions_with_target(pages, key)[q] < pages.len() by {
            if q < r.len() {
                assert(positions_with_target(pages, key)[q] == r[q]);
            }
        }
    }
}

proof fn lemma_positions_step(pages: Seq<PageSlot>, k: int, key: Option<OutputTargetId>)
    requires
        0 <= k < pages.len(),
    ensures
        positions_with_target(pages.take(k + 1), key) == if !pages[k].marked_for_delete
            && pages[k].output_target == key {
            positions_with_target(pages.take(k), key).push(k as usize)
        } else {
            positions_with_target(pages.take(k), key)
        },
{
    assert(pages.take(k + 1).drop_last() =~= pages.take(k));
}

/// Group the non-deleted pages by output target (unassigned first, then by target id);
/// each group lists its pages' positions in order.
pub fn group_active_pages(pages: &[PageSlot]) -> (groups: Vec<(Option<OutputTargetId>, Vec<usize>)>)
    ensures
        is_grouping(pages@, groups_view(groups@)),
        forall|i: int| 0 <= i < groups@.len() ==> (#[trigger] groups@[i]).1@.len() > 0,
{
    let mut groups: Vec<(Option<OutputTargetId>, Vec<usize>)> = Vec::new();
    let mut k: usize = 0;
    while k < pages.len()
        invariant
            k <= pages@.len(),
            is_grouping(pages@.take(k as int), groups_view(groups@)),
            forall|i: int| 0 <= i < groups@.len() ==> (#[trigger] groups@[i]).1@.len() > 0,
        decreases pages@.len() - k,
    {
        let ghost before = groups_view(groups@);
        let slot = pages[k];
        proof {
            assert forall|key: Option<OutputTargetId>| true implies #[trigger] positions_with_target(
                pages@.take(k + 1),
                key,
            ) == if !pages@[k as int].marked_for_delete && pages@[k as int].output_target == key {
                positions_with_target(pages@.take(k as int), key).push(k)
            } else {
                positions_with_target(pages@.take(k as int), key)
            } by {
                lemma_positions_step(pages@, k as int, key);
            }
        }
        if !slot.marked_for_delete {
            let t = slot.output_target;
            // First group whose key is not below `t`.
            let mut p: usize = 0;
            while p < groups.len() && key_before(groups[p].0, t)
                invariant
                    p <= groups@.len(),
                    forall|q: int| 0 <= q < p ==> key_lt(groups@[q].0, t),
                decreases groups@.len() - p,
            {
                p = p + 1;
            }
            if p < groups.len() && groups[p].0 == t {
                let mut g = groups.remove(p);
                g.1.push(k);
                groups.insert(p, g);
                proof {
                    let a = groups_view(groups@);
                    assert forall|i: int| 0 <= i < a.len() implies (#[trigger] a[i]).1
                        == positions_with_target(pages@.take(k + 1), a[i].0) by {
                        if i != p {
                            assert(a[i] == before[i]);
                        }
                    }
                    assert forall|i: int, j: int| 0 <= i < j < a.len() implies key_lt(
                        a[i].0,
                        a[j].0,
                    ) by {
                        assert(a[i].0 == before[i].0);
                        assert(a[j].0 == before[j].0);
                    }
                    assert forall|key: Option<OutputTargetId>|
                        #[trigger] positions_with_target(pages@.take(k + 1), key).len()
                            > 0 implies exists|i: int| 0 <= i < a.len() && (#[trigger] a[i]).0 == key by {
                        if positions_with_target(pages@.take(k as int), key).len() > 0 {
                            let i = choose|i: int| 0 <= i < before.len() && (#[trigger] before[i]).0 == key;
                            assert(a[i].0 == key);
                        } else {
                            assert(a[p as int].0 == key);
                        }
                    }
                }
            } else {
                let mut v: Vec<usize> = Vec::new();
                v.push(k);
                let ghost og = groups@;
                let ghost entry = (t, v);
                groups.insert(p, (t, v));
                proof {
                    og.insert_ensures(p as int, entry);
                    let a = groups_view(groups@);
                    assert(a.len() == before.len() + 1);
                    assert forall|i: int| 0 <= i < p implies a[i] == before[i] by {
                        assert(groups@[i] == og[i]);
                    }
                    assert forall|i: int| p < i < a.len() implies a[i] == before[i - 1] by {
                        assert(groups@[i] == og[i - 1]);
                    }
                    assert(a[p as int] == (t, v@));
                    assert(p < before.len() ==> before[p as int].0 != t);
                    assert(p < before.len() ==> key_lt(t, before[p as int].0));
                    assert forall|q: int| p < q < before.len() implies key_lt(t, before[q].0) by {
                        assert(key_lt(before[p as int].0, before[q].0));
                    }
                    assert forall|q: int| 0 <= q < p implies key_lt(before[q].0, t) by {
                        assert(before[q].0 == og[q].0);
                    }
                    assert(positions_with_target(pages@.take(k as int), t).len() == 0) by {
                        if positions_with_target(pages@.take(k as int), t).len() > 0 {
                            let i = choose|i: int| 0 <= i < before.len() && (#[trigger] before[i]).0 == t;
                            if i < p {
                                assert(key_lt(before[i].0, t));
                            } else if i == p {
                            } else {
                                assert(key_lt(before[p as int].0, before[i].0));
                            }
                        }
                    }
                    assert(a[p as int].1 =~= positions_with_target(pages@.take(k as int), t).push(k));
                    assert forall|i: int| 0 <= i < a.len() implies (#[trigger] a[i]).1
                        == positions_with_target(pages@.take(k + 1), a[i].0) by {
                        if i < p {
                            assert(a[i] == before[i]);
                        } else if i > p {
                            assert(a[i] == before[i - 1]);
                        }
                    }
                    assert forall|i: int, j: int| 0 <= i < j < a.len() implies key_lt(
                        a[i].0,
                        a[j].0,
                    ) by {
                        if j < p {
                            assert(a[i] == before[i]);
                            assert(a[j] == before[j]);
                        } else if j == p {
                            assert(a[i] == before[i]);
                        } else if i < p {
                            assert(a[i] == before[i]);
                            assert(a[j] == before[j - 1]);
                            if p < before.len() {
                                assert(key_lt(t, before[p as int].0));
                            }
                        } else if i == p {
                            assert(a[j] == before[j - 1]);
                            assert(key_lt(t, before[p as int].0));
                        } else {
                            assert(a[i] == before[i - 1]);
                            assert(a[j] == before[j - 1]);
                        }
                    }
                    assert forall|key: Option<OutputTargetId>|
                        #[trigger] positions_with_target(pages@.take(k + 1), key).len()
                            > 0 implies exists|i: int| 0 <= i < a.len() && (#[trigger] a[i]).0 == key by {
                        if key == t {
                            assert(a[p as int].0 == key);
                        } else {
                            let i = choose|i: int| 0 <= i < before.len() && (#[trigger] before[i]).0 == key;
                            if i < p {
                                assert(a[i].0 == key);
                            } else {
                                assert(a[i + 1].0 == key);
                            }
                        }
                    }
                }
            }
        } else {
            proof {
                let a = groups_view(groups@);
                assert forall|i: int| 0 <= i < a.len() implies (#[trigger] a[i]).1
                    == positions_with_target(pages@.take(k + 1), a[i].0) by {}
            }
        }
        k = k + 1;
    }
    assert(pages@.take(pages@.len() as int) =~= pages@);
    groups
}

/// `key_lt` on executable keys.
fn key_before(a: Option<OutputTargetId>, b: Option<OutputTargetId>) -> (r: bool)
    ensures
        r == key_lt(a, b),
{
    match (a, b) {
        (None, Some(_)) => true,
        (Some(x), Some(y)) => x < y,
        _ => false,
    }
}

/// The first listed position of a key holds a non-deleted page of that key.
proof fn lemma_position_has_key(pages: Seq<PageSlot>, key: Option<OutputTargetId>, q: int)
    requires
        0 <= q < positions_with_target(pages, key).len(),
        pages.len() <= usize::MAX,
    ensures
        positions_with_target(pages, key)[q] < pages.len(),
        pages[positions_with_target(pages, key)[q] as int].output_target == key,
        !pages[positions_with_target(pages, key)[q] as int].marked_for_delete,
    decreases pages.len(),
{
    let r = positions_with_target(pages.drop_last(), key);
    if q < r.len() {
        lemma_position_has_key(pages.drop_last(), key, q);
        assert(positions_with_target(pages, key)[q] == r[q]);
        assert(pages.drop_last()[r[q] as int] == pages[r[q] as int]);
    } else {
        assert(positions_with_target(pages, key)[q] == (pages.len() - 1) as usize);
    }
}

/// Error text when every page is marked for deletion.
pub open spec fn nothing_left_message() -> Seq<char> {
    "no pages remaining after deletions"@
}

/// Error text for a workspace of several documents.
pub open spec fn multi_document_message() -> Seq<char> {
    "save with multiple source documents not yet supported in non-interactive mode"@
}

/// Where a group is written: the default output for unassigned pages, else its target's path.
pub open spec fn group_output(ws: Workspace, default_output: Seq<char>, key: Option<OutputTargetId>) -> Seq<char> {
    match key {
        None => default_output,
        Some(id) => ws.output_targets@[id as int].path@,
    }
}

/// Whether every group key names an existing output target.
pub open spec fn targets_exist(ws: Workspace) -> bool {
    forall|i: int| 0 <= i < ws.pages@.len() && !ws.pages@[i].marked_for_delete ==> (
        (#[trigger] ws.pages@[i]).output_target matches Some(id) ==> id < ws.output_targets@.len())
}

/// The source page numbers of the slots at these positions, in order.
pub open spec fn source_pages(pages: Seq<PageSlot>, positions: Seq<usize>) -> Seq<usize> {
    positions.map_values(|p: usize| pages[p as int].source.page_num)
}

/// The pages of the document written for a group: the first document's pages in order,
/// keeping those that the group's slots show.
pub open spec fn group_document_pages(ws: Workspace, positions: Seq<usize>) -> Seq<(u32, u16)> {
    let ids = pdf_page_ids(ws.documents@[0].document());
    pages_without(
        ids,
        crate::ops::split::unkept_numbers(((ids.len() as usize) as u32) as nat, source_pages(ws.pages@, positions)).to_set(),
    )
}

/// The saves of a workspace without the interactive prompts: one document per group of
/// non-deleted pages (unassigned first, then by target), to be written to the group's
/// output, with the number of pages it keeps. Fails when no page is left, and for a
/// workspace of more than one document.
pub fn save_workspace_plan(ws: &Workspace, default_output: &str) -> (r: Result<Vec<(String, lopdf::Document, usize)>, String>)
    requires
        targets_exist(*ws),
    ensures
        active_entries(ws.pages@).len() == 0 ==> (r matches Err(e) && e@ == nothing_left_message()),
        active_entries(ws.pages@).len() > 0 && ws.documents@.len() != 1 ==> (r matches Err(e) && e@ == multi_document_message()),
        active_entries(ws.pages@).len() > 0 && ws.documents@.len() == 1 ==> (r is Ok
            || (r matches Err(e) && e@ == page_tree_message())),
        active_entries(ws.pages@).len() > 0 && ws.documents@.len() == 1 && pdf_delete_safe(
            ws.documents@[0].document(),
            Set::full(),
        ) ==> r is Ok,
        r matches Ok(v) ==> exists|groups: Seq<(Option<OutputTargetId>, Seq<usize>)>| {
            &&& is_grouping(ws.pages@, groups)
            &&& v@.len() == groups.len()
            &&& forall|i: int| 0 <= i < groups.len() ==> (#[trigger] v@[i]).0@ == group_output(*ws, default_output@, groups[i].0)
                && v@[i].2 == groups[i].1.len()
                && (pdf_flat_tree(ws.documents@[0].document()) ==> pdf_page_ids(v@[i].1) == group_document_pages(
                *ws,
                groups[i].1,
            ))
        },
{
    let npages = ws.pages.len();
    let active = ws.active_pages();
    if active.len() == 0 {
        return Err(String::from_str("no pages remaining after deletions"));
    }
    let groups = group_active_pages(ws.pages.as_slice());
    if ws.documents.len() != 1 {
        return Err(String::from_str("save with multiple source documents not yet supported in non-interactive mode"));
    }
    let ghost gv = groups_view(groups@);
    proof {
        assert forall|i: int, q: int| 0 <= i < groups@.len() && 0 <= q < groups@[i].1@.len() implies #[trigger] groups@[i].1@[q] < ws.pages@.len() by {
            assert(gv[i].1 == groups@[i].1@);
            lemma_positions_bounded(ws.pages@, gv[i].0);
        }
    }
    let mut out: Vec<(String, lopdf::Document, usize)> = Vec::new();
    let mut g: usize = 0;
    while g < groups.len()
        invariant
            g <= groups@.len(),
            gv == groups_view(groups@),
            is_grouping(ws.pages@, gv),
            targets_exist(*ws),
            ws.documents@.len() == 1,
            active_entries(ws.pages@).len() > 0,
            npages == ws.pages@.len(),
            forall|i: int, q: int| 0 <= i < groups@.len() && 0 <= q < groups@[i].1@.len() ==> #[trigger] groups@[i].1@[q] < ws.pages@.len(),
            forall|i: int| 0 <= i < groups@.len() ==> (#[trigger] groups@[i]).1@.len() > 0,
            out@.len() == g,
            forall|i: int| 0 <= i < g ==> (#[trigger] out@[i]).0@ == group_output(*ws, default_output@, gv[i].0)
                && out@[i].2 == gv[i].1.len()
                && (pdf_flat_tree(ws.documents@[0].document()) ==> pdf_page_ids(out@[i].1) == group_document_pages(
                *ws,
                gv[i].1,
            )),
        decreases groups@.len() - g,
    {
        let key = groups[g].0;
        let mut page_nums: Vec<usize> = Vec::new();
        let mut q: usize = 0;
        while q < groups[g].1.len()
            invariant
                q <= groups@[g as int].1@.len(),
                g < groups@.len(),
                page_nums@ == source_pages(ws.pages@, groups@[g as int].1@.take(q as int)),
                forall|i: int, q: int| 0 <= i < groups@.len() && 0 <= q < groups@[i].1@.len() ==> #[trigger] groups@[i].1@[q] < ws.pages@.len(),
            decreases groups@[g as int].1@.len() - q,
        {
            let pos = groups[g].1[q];
            page_nums.push(ws.pages[pos].source.page_num);
            proof {
                assert(groups@[g as int].1@.take(q + 1).drop_last() =~= groups@[g as int].1@.take(q as int));
            }
            q = q + 1;
        }
        assert(groups@[g as int].1@.take(groups@[g as int].1@.len() as int) =~= groups@[g as int].1@);
        assert(gv[g as int].1 == groups@[g as int].1@);
        let path = match key {
            None => String::from_str(default_output),
            Some(id) => {
                proof {
                    let p0 = gv[g as int].1;
                    assert(p0 == positions_with_target(ws.pages@, key));
                    assert(p0.len() > 0);
                    lemma_position_has_key(ws.pages@, key, 0);
                    let pos = p0[0] as int;
                    assert(ws.pages@[pos].output_target == key);
                }
                ws.output_targets[id].path.clone()
            },
        };
        let mut doc = ws.documents[0].clone_lopdf();
        let page_count = lopdf_page_count(&doc);
        let delete = crate::ops::split::unkept_list(page_count, page_nums.as_slice());
        if delete.len() > 0 {
            match remove_pages(&mut doc, delete.as_slice(), false) {
                Ok(()) => {},
                Err(e) => {
                    proof {
                        if pdf_delete_safe(ws.documents@[0].document(), Set::full()) {
                            lemma_delete_safe_subset(ws.documents@[0].document(), delete@.to_set());
                        }
                    }
                    return Err(e);
                },
            }
        } else {
            proof {
                assert(delete@.to_set() =~= Set::<u32>::empty());
                lemma_pages_without_none(pdf_page_ids(doc), delete@.to_set());
            }
        }
        let kept = groups[g].1.len();
        out.push((path, doc, kept));
        g = g + 1;
    }
    proof {
        assert(is_grouping(ws.pages@, gv));
        assert(out@.len() == gv.len());
    }
    Ok(out)
}

} // verus!
