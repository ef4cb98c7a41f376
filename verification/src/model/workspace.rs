use vstd::prelude::*;
use crate::model::document::{pdf_page_ids, PdfDocument};
use crate::model::operation::Operation;
use crate::model::page_ref::{DocId, OutputTarget, OutputTargetId, PageRef, PageSlot};

verus! {

/// Mathematical form of an undo record.
pub enum OperationView {
    MarkForDelete { indices: Seq<usize> },
    InsertPages { at: usize, source: DocId, pages: Seq<usize> },
    AssignOutput { page_indices: Seq<usize>, target: Option<OutputTargetId>, previous: Seq<Option<OutputTargetId>> },
    AddDocument { doc_id: DocId },
}

impl View for Operation {
    type V = OperationView;

    open spec fn view(&self) -> OperationView {
        match self {
            Operation::MarkForDelete { indices } => OperationView::MarkForDelete { indices: indices@ },
            Operation::InsertPages { at, source, pages } => OperationView::InsertPages {
                at: *at,
                source: *source,
                pages: pages@,
            },
            Operation::AssignOutput { page_indices, target, previous } => OperationView::AssignOutput {
                page_indices: page_indices@,
                target: *target,
                previous: previous@,
            },
            Operation::AddDocument { doc_id } => OperationView::AddDocument { doc_id: *doc_id },
        }
    }
}

/// Mathematical form of an output target: its path and its label.
pub struct OutputTargetView {
    pub path: Seq<char>,
    pub label: Seq<char>,
}

impl View for OutputTarget {
    type V = OutputTargetView;

    open spec fn view(&self) -> OutputTargetView {
        OutputTargetView { path: self.path@, label: self.label@ }
    }
}

/// Mathematical form of a workspace: everything but the loaded documents.
pub struct WorkspaceView {
    pub pages: Seq<PageSlot>,
    pub output_targets: Seq<OutputTargetView>,
    pub history: Seq<OperationView>,
    pub selected_page: usize,
}

/// Central model tracking open documents, page assignments, and undo history.
pub struct Workspace {
    pub documents: Vec<PdfDocument>,
    pub pages: Vec<PageSlot>,
    pub output_targets: Vec<OutputTarget>,
    pub history: Vec<Operation>,
    pub selected_page: usize,
}

impl View for Workspace {
    type V = WorkspaceView;

    open spec fn view(&self) -> WorkspaceView {
        WorkspaceView {
            pages: self.pages@,
            output_targets: self.output_targets@.map_values(|t: OutputTarget| t@),
            history: self.history@.map_values(|o: Operation| o@),
            selected_page: self.selected_page,
        }
    }
}

/// Whether page `j` is toggled an odd number of times by the index list `idx`.
pub open spec fn toggle_parity(idx: Seq<usize>, j: int) -> bool
    decreases idx.len(),
{
    if idx.len() == 0 {
        false
    } else {
        toggle_parity(idx.drop_last(), j) != (idx.last() == j)
    }
}

/// The indices of `idx` that are below `n`, in order.
pub open spec fn in_range_indices(idx: Seq<usize>, n: nat) -> Seq<usize>
    decreases idx.len(),
{
    if idx.len() == 0 {
        Seq::empty()
    } else {
        let r = in_range_indices(idx.drop_last(), n);
        if idx.last() < n {
            r.push(idx.last())
        } else {
            r
        }
    }
}

/// Flip the delete mark of each page once per occurrence of its index in `idx`.
pub open spec fn with_marks_toggled(pages: Seq<PageSlot>, idx: Seq<usize>) -> Seq<PageSlot> {
    Seq::new(
        pages.len(),
        |j: int|
            PageSlot {
                source: pages[j].source,
                output_target: pages[j].output_target,
                marked_for_delete: pages[j].marked_for_delete != toggle_parity(idx, j),
            },
    )
}

/// Whether `j` occurs in the index list.
pub open spec fn lists_index(idx: Seq<usize>, j: int) -> bool {
    exists|k: int| 0 <= k < idx.len() && idx[k] == j
}

/// Set the output target of every listed page.
pub open spec fn with_targets_assigned(
    pages: Seq<PageSlot>,
    idx: Seq<usize>,
    target: Option<OutputTargetId>,
) -> Seq<PageSlot> {
    Seq::new(
        pages.len(),
        |j: int|
            if lists_index(idx, j) {
                PageSlot {
                    source: pages[j].source,
                    output_target: target,
                    marked_for_delete: pages[j].marked_for_delete,
                }
            } else {
                pages[j]
            },
    )
}

/// Write back the first `k` recorded previous targets, in order, skipping indices out of range.
pub open spec fn restore_targets_prefix(
    pages: Seq<PageSlot>,
    idx: Seq<usize>,
    prev: Seq<Option<OutputTargetId>>,
    k: nat,
) -> Seq<PageSlot>
    decreases k,
{
    if k == 0 {
        pages
    } else {
        let r = restore_targets_prefix(pages, idx, prev, (k - 1) as nat);
        let i = idx[k - 1];
        if i < r.len() {
            r.update(
                i as int,
                PageSlot {
                    source: r[i as int].source,
                    output_target: prev[k - 1],
                    marked_for_delete: r[i as int].marked_for_delete,
                },
            )
        } else {
            r
        }
    }
}

/// Write back recorded previous targets, pairing indices and values as far as both lists go.
pub open spec fn restore_targets(
    pages: Seq<PageSlot>,
    idx: Seq<usize>,
    prev: Seq<Option<OutputTargetId>>,
) -> Seq<PageSlot> {
    restore_targets_prefix(
        pages,
        idx,
        prev,
        if idx.len() <= prev.len() { idx.len() } else { prev.len() },
    )
}

/// The slots added for the pages `0..n` of document `doc_id`.
pub open spec fn new_slots(doc_id: DocId, n: nat) -> Seq<PageSlot> {
    Seq::new(
        n,
        |i: int|
            PageSlot {
                source: PageRef { doc_id, page_num: i as usize },
                output_target: None,
                marked_for_delete: false,
            },
    )
}

/// The sequence `0, 1, ..., n - 1`.
pub open spec fn index_range(n: nat) -> Seq<usize> {
    Seq::new(n, |i: int| i as usize)
}

/// Effect of toggling the delete marks of a batch of pages.
pub open spec fn toggle_delete_batch_spec(w: WorkspaceView, idx: Seq<usize>) -> WorkspaceView {
    let valid = in_range_indices(idx, w.pages.len());
    if valid.len() == 0 {
        w
    } else {
        WorkspaceView {
            pages: with_marks_toggled(w.pages, valid),
            history: w.history.push(OperationView::MarkForDelete { indices: valid }),
            ..w
        }
    }
}

/// Effect of assigning a batch of pages to an output target.
pub open spec fn assign_output_spec(
    w: WorkspaceView,
    idx: Seq<usize>,
    target: Option<OutputTargetId>,
) -> WorkspaceView {
    WorkspaceView {
        pages: with_targets_assigned(w.pages, idx, target),
        history: w.history.push(
            OperationView::AssignOutput {
                page_indices: idx,
                target,
                previous: idx.map_values(|i: usize| w.pages[i as int].output_target),
            },
        ),
        ..w
    }
}

/// Effect of adding a document of `n` pages as document `doc_id`.
pub open spec fn open_document_spec(w: WorkspaceView, doc_id: DocId, n: nat) -> WorkspaceView {
    WorkspaceView {
        pages: w.pages + new_slots(doc_id, n),
        history: w.history.push(OperationView::AddDocument { doc_id }).push(
            OperationView::InsertPages { at: w.pages.len() as usize, source: doc_id, pages: index_range(n) },
        ),
        ..w
    }
}

/// Keep the selection inside a page list of length `len`.
pub open spec fn clamp_selected(selected: usize, len: nat) -> usize {
    if selected >= len {
        if len == 0 {
            0
        } else {
            (len - 1) as usize
        }
    } else {
        selected
    }
}

/// Effect of reverting one history entry on the rest of the workspace.
pub open spec fn revert_spec(w: WorkspaceView, op: OperationView) -> WorkspaceView {
    match op {
        OperationView::MarkForDelete { indices } => WorkspaceView {
            pages: with_marks_toggled(w.pages, in_range_indices(indices, w.pages.len())),
            ..w
        },
        OperationView::InsertPages { at, pages, .. } => {
            let count = pages.len();
            let new_pages = if count <= w.pages.len() && at <= w.pages.len() - count {
                w.pages.take(at as int) + w.pages.skip(at + count)
            } else {
                w.pages
            };
            WorkspaceView {
                pages: new_pages,
                selected_page: clamp_selected(w.selected_page, new_pages.len()),
                ..w
            }
        },
        OperationView::AddDocument { .. } => w,
        OperationView::AssignOutput { page_indices, previous, .. } => WorkspaceView {
            pages: restore_targets(w.pages, page_indices, previous),
            ..w
        },
    }
}

/// Effect of `undo`: the new workspace and whether anything was undone.
pub open spec fn undo_spec(w: WorkspaceView) -> (WorkspaceView, bool) {
    if w.history.len() == 0 {
        (w, false)
    } else {
        let popped = WorkspaceView { history: w.history.drop_last(), ..w };
        (revert_spec(popped, w.history.last()), true)
    }
}

/// The non-deleted pages with their positions, in order.
pub open spec fn active_entries(pages: Seq<PageSlot>) -> Seq<(usize, PageSlot)>
    decreases pages.len(),
{
    if pages.len() == 0 {
        Seq::empty()
    } else {
        let r = active_entries(pages.drop_last());
        if pages.last().marked_for_delete {
            r
        } else {
            r.push(((pages.len() - 1) as usize, pages.last()))
        }
    }
}

proof fn lemma_toggle_parity_step(idx: Seq<usize>, k: int, j: int)
    requires
        0 <= k < idx.len(),
    ensures
        toggle_parity(idx.take(k + 1), j) == (toggle_parity(idx.take(k), j) != (idx[k] == j)),
{
    assert(idx.take(k + 1).drop_last() =~= idx.take(k));
}

proof fn lemma_in_range_indices_step(idx: Seq<usize>, n: nat, k: int)
    requires
        0 <= k < idx.len(),
    ensures
        in_range_indices(idx.take(k + 1), n) == if idx[k] < n {
            in_range_indices(idx.take(k), n).push(idx[k])
        } else {
            in_range_indices(idx.take(k), n)
        },
{
    assert(idx.take(k + 1).drop_last() =~= idx.take(k));
}

proof fn lemma_in_range_indices_bounded(idx: Seq<usize>, n: nat)
    ensures
        forall|m: int| 0 <= m < in_range_indices(idx, n).len() ==> in_range_indices(idx, n)[m] < n,
    decreases idx.len(),
{
    if idx.len() > 0 {
        lemma_in_range_indices_bounded(idx.drop_last(), n);
        let r = in_range_indices(idx.drop_last(), n);
        if idx.last() < n {
            assert forall|m: int| 0 <= m < r.push(idx.last()).len() implies r.push(idx.last())[m] < n by {
                if m < r.len() {
                    assert(r.push(idx.last())[m] == r[m]);
                }
            }
        }
    }
}

proof fn lemma_in_range_indices_all_in_range(idx: Seq<usize>, n: nat)
    requires
        forall|m: int| 0 <= m < idx.len() ==> idx[m] < n,
    ensures
        in_range_indices(idx, n) == idx,
    decreases idx.len(),
{
    if idx.len() > 0 {
        lemma_in_range_indices_all_in_range(idx.drop_last(), n);
        assert(idx.drop_last().push(idx.last()) =~= idx);
    }
}

proof fn lemma_restore_targets_step(
    pages: Seq<PageSlot>,
    idx: Seq<usize>,
    prev: Seq<Option<OutputTargetId>>,
    k: nat,
)
    ensures
        restore_targets_prefix(pages, idx, prev, k).len() == pages.len(),
    decreases k,
{
    if k > 0 {
        lemma_restore_targets_step(pages, idx, prev, (k - 1) as nat);
    }
}

/// Restoring recorded targets over a page list that differs from `orig` only at listed pages,
/// where each recorded value is the target that `orig` holds there, gives back `orig`'s targets
/// at the restored positions.
proof fn lemma_restore_targets_prefix_values(
    pages: Seq<PageSlot>,
    orig: Seq<PageSlot>,
    idx: Seq<usize>,
    prev: Seq<Option<OutputTargetId>>,
    k: nat,
)
    requires
        k <= idx.len(),
        k <= prev.len(),
        pages.len() == orig.len(),
        forall|m: int| 0 <= m < idx.len() ==> idx[m] < orig.len(),
        forall|m: int| 0 <= m < prev.len() && m < idx.len() ==> prev[m] == orig[idx[m] as int].output_target,
    ensures
        forall|j: int|
            #![trigger restore_targets_prefix(pages, idx, prev, k)[j]]
            0 <= j < pages.len() ==> {
                &&& restore_targets_prefix(pages, idx, prev, k)[j].source == pages[j].source
                &&& restore_targets_prefix(pages, idx, prev, k)[j].marked_for_delete
                    == pages[j].marked_for_delete
                &&& restore_targets_prefix(pages, idx, prev, k)[j].output_target == if lists_index(
                    idx.take(k as int),
                    j,
                ) {
                    orig[j].output_target
                } else {
                    pages[j].output_target
                }
            },
    decreases k,
{
    lemma_restore_targets_step(pages, idx, prev, k);
    if k > 0 {
        lemma_restore_targets_prefix_values(pages, orig, idx, prev, (k - 1) as nat);
        lemma_restore_targets_step(pages, idx, prev, (k - 1) as nat);
        let t1 = idx.take(k as int);
        let t0 = idx.take(k - 1);
        assert forall|j: int| 0 <= j < pages.len() implies lists_index(t1, j) == (lists_index(t0, j)
            || idx[k - 1] == j) by {
            if lists_index(t1, j) {
                let w = choose|w: int| 0 <= w < t1.len() && t1[w] == j;
                if w < k - 1 {
                    assert(t0[w] == j);
                }
            }
            if lists_index(t0, j) {
                let w = choose|w: int| 0 <= w < t0.len() && t0[w] == j;
                assert(t1[w] == j);
            }
            if idx[k - 1] == j {
                assert(t1[k - 1] == j);
            }
        }
    }
}

impl Workspace {
    /// Create an empty workspace.
    pub fn new() -> (w: Self)
        ensures
            w@.pages.len() == 0,
            w@.output_targets.len() == 0,
            w@.history.len() == 0,
            w@.selected_page == 0,
            w.documents@.len() == 0,
    {
        Self {
            documents: Vec::new(),
            pages: Vec::new(),
            output_targets: Vec::new(),
            history: Vec::new(),
            selected_page: 0,
        }
    }

    /// Add a loaded PDF and all its pages to the workspace.
    /// The pages are appended as one undoable insertion.
    pub fn open_document(&mut self, doc: PdfDocument) -> (doc_id: DocId)
        requires
            old(self).pages.len() + old(self).documents.len() + 2 < usize::MAX,
        ensures
            doc_id == old(self).documents.len(),
            final(self).documents@ == old(self).documents@.push(doc),
            final(self)@ == open_document_spec(
                old(self)@,
                doc_id,
                pdf_page_ids(doc.document()).len(),
            ),
    {
        let doc_id = self.documents.len();
        let page_count = doc.page_count();
        self.documents.push(doc);
        let ghost docs = self.documents@;
        let insert_at = self.pages.len();
        let ghost old_pages = self.pages@;
        let mut page_nums: Vec<usize> = Vec::new();
        let mut page_num: usize = 0;
        while page_num < page_count
            invariant
                page_num <= page_count,
                self.pages@ == old_pages + new_slots(doc_id, page_num as nat),
                self.history == old(self).history,
                self.output_targets == old(self).output_targets,
                self.selected_page == old(self).selected_page,
                self.documents@ == docs,
                page_nums@ == index_range(page_num as nat),
            decreases page_count - page_num,
        {
            self.pages.push(
                PageSlot {
                    source: PageRef { doc_id, page_num },
                    output_target: None,
                    marked_for_delete: false,
                },
            );
            page_nums.push(page_num);
            page_num = page_num + 1;
            assert(self.pages@ =~= old_pages + new_slots(doc_id, page_num as nat));
            assert(page_nums@ =~= index_range(page_num as nat));
        }
        self.history.push(Operation::AddDocument { doc_id });
        self.history.push(Operation::InsertPages { at: insert_at, source: doc_id, pages: page_nums });
        proof {
            let w = self@;
            assert(w.history =~= old(self)@.history.push(OperationView::AddDocument { doc_id }).push(
                OperationView::InsertPages {
                    at: insert_at,
                    source: doc_id,
                    pages: index_range(page_count as nat),
                },
            ));
            assert(w.output_targets =~= old(self)@.output_targets);
        }
        doc_id
    }

    /// Total number of pages in the working list.
    pub fn page_count(&self) -> (n: usize)
        ensures
            n == self@.pages.len(),
    {
        self.pages.len()
    }

    /// Toggle delete mark on a single page.
    pub fn toggle_delete(&mut self, index: usize)
        ensures
            final(self)@ == toggle_delete_batch_spec(old(self)@, seq![index]),
            final(self).documents == old(self).documents,
    {
        let indices: [usize; 1] = [index];
        self.toggle_delete_batch(&indices);
        assert(indices@ =~= seq![index]);
    }

    /// Toggle delete mark on multiple pages as a single undoable operation.
    /// Indices past the end are ignored; nothing is recorded when none is in range.
    pub fn toggle_delete_batch(&mut self, indices: &[usize])
        ensures
            final(self)@ == toggle_delete_batch_spec(old(self)@, indices@),
            final(self).documents == old(self).documents,
    {
        let n = self.pages.len();
        let mut valid: Vec<usize> = Vec::new();
        let mut k: usize = 0;
        while k < indices.len()
            invariant
                k <= indices@.len(),
                n == self.pages@.len(),
                valid@ == in_range_indices(indices@.take(k as int), n as nat),
                self.history == old(self).history,
                self.output_targets == old(self).output_targets,
                self.selected_page == old(self).selected_page,
                self.documents == old(self).documents,
                self.pages == old(self).pages,
            decreases indices@.len() - k,
        {
            proof {
                lemma_in_range_indices_step(indices@, n as nat, k as int);
            }
            if indices[k] < n {
                valid.push(indices[k]);
            }
            k = k + 1;
        }
        assert(indices@.take(indices@.len() as int) =~= indices@);
        if valid.len() == 0 {
            return;
        }
        proof {
            lemma_in_range_indices_bounded(indices@, n as nat);
        }
        let ghost old_pages = self.pages@;
        let mut m: usize = 0;
        while m < valid.len()
            invariant
                m <= valid@.len(),
                n == self.pages@.len(),
                old_pages.len() == n,
                forall|q: int| 0 <= q < valid@.len() ==> valid@[q] < n,
                self.pages@ == with_marks_toggled(old_pages, valid@.take(m as int)),
                self.history == old(self).history,
                self.output_targets == old(self).output_targets,
                self.selected_page == old(self).selected_page,
                self.documents == old(self).documents,
            decreases valid@.len() - m,
        {
            let i = valid[m];
            let mut slot = self.pages[i];
            slot.marked_for_delete = !slot.marked_for_delete;
            self.pages.set(i, slot);
            proof {
                assert forall|j: int| 0 <= j < n implies toggle_parity(valid@.take(m + 1), j) == (
                toggle_parity(valid@.take(m as int), j) != (valid@[m as int] == j)) by {
                    lemma_toggle_parity_step(valid@, m as int, j);
                }
            }
            m = m + 1;
            assert(self.pages@ =~= with_marks_toggled(old_pages, valid@.take(m as int)));
        }
        assert(valid@.take(valid@.len() as int) =~= valid@);
        self.history.push(Operation::MarkForDelete { indices: valid });
        proof {
            assert(self@.history =~= old(self)@.history.push(
                OperationView::MarkForDelete { indices: in_range_indices(indices@, n as nat) },
            ));
            assert(self@.output_targets =~= old(self)@.output_targets);
        }
    }

    /// Assign pages to an output target (`None` clears the assignment).
    /// The previous assignments are recorded for undo.
    pub fn assign_output(&mut self, indices: &[usize], target: Option<OutputTargetId>)
        requires
            forall|k: int| 0 <= k < indices@.len() ==> indices@[k] < old(self)@.pages.len(),
        ensures
            final(self)@ == assign_output_spec(old(self)@, indices@, target),
            final(self).documents == old(self).documents,
    {
        let ghost old_pages = self.pages@;
        let mut previous: Vec<Option<OutputTargetId>> = Vec::new();
        let mut k: usize = 0;
        while k < indices.len()
            invariant
                k <= indices@.len(),
                self.pages@ == old_pages,
                self.history == old(self).history,
                self.output_targets == old(self).output_targets,
                self.selected_page == old(self).selected_page,
                self.documents == old(self).documents,
                forall|q: int| 0 <= q < indices@.len() ==> indices@[q] < old_pages.len(),
                previous@ == indices@.take(k as int).map_values(
                    |i: usize| old_pages[i as int].output_target,
                ),
            decreases indices@.len() - k,
        {
            previous.push(self.pages[indices[k]].output_target);
            k = k + 1;
            assert(previous@ =~= indices@.take(k as int).map_values(
                |i: usize| old_pages[i as int].output_target,
            ));
        }
        let mut k: usize = 0;
        while k < indices.len()
            invariant
                k <= indices@.len(),
                self.pages@.len() == old_pages.len(),
                forall|q: int| 0 <= q < indices@.len() ==> indices@[q] < old_pages.len(),
                self.pages@ == with_targets_assigned(old_pages, indices@.take(k as int), target),
                self.history == old(self).history,
                self.output_targets == old(self).output_targets,
                self.selected_page == old(self).selected_page,
                self.documents == old(self).documents,
            decreases indices@.len() - k,
        {
            let i = indices[k];
            if i < self.pages.len() {
                let mut slot = self.pages[i];
                slot.output_target = target;
                self.pages.set(i, slot);
            }
            proof {
                assert forall|j: int| 0 <= j < old_pages.len() implies lists_index(
                    indices@.take(k + 1),
                    j,
                ) == (lists_index(indices@.take(k as int), j) || indices@[k as int] == j) by {
                    let t1 = indices@.take(k + 1);
                    let t0 = indices@.take(k as int);
                    if lists_index(t1, j) {
                        let w = choose|w: int| 0 <= w < t1.len() && t1[w] == j;
                        if w < k {
                            assert(t0[w] == j);
                        }
                    }
                    if lists_index(t0, j) {
                        let w = choose|w: int| 0 <= w < t0.len() && t0[w] == j;
                        assert(t1[w] == j);
                    }
                    if indices@[k as int] == j {
                        assert(t1[k as int] == j);
                    }
                }
            }
            k = k + 1;
            assert(self.pages@ =~= with_targets_assigned(old_pages, indices@.take(k as int), target));
        }
        assert(indices@.take(indices@.len() as int) =~= indices@);
        self.history.push(
            Operation::AssignOutput { page_indices: vstd::slice::slice_to_vec(indices), target, previous },
        );
        proof {
            assert(self@.history =~= old(self)@.history.push(
                OperationView::AssignOutput {
                    page_indices: indices@,
                    target,
                    previous: indices@.map_values(|i: usize| old_pages[i as int].output_target),
                },
            ));
            assert(self@.output_targets =~= old(self)@.output_targets);
            assert(self@.pages =~= with_targets_assigned(old_pages, indices@, target));
        }
    }

    /// Add a named output target, return its ID.
    pub fn add_output_target(&mut self, target: OutputTarget) -> (id: OutputTargetId)
        ensures
            id == old(self)@.output_targets.len(),
            final(self)@ == (WorkspaceView {
                output_targets: old(self)@.output_targets.push(target@),
                ..old(self)@
            }),
            final(self).documents == old(self).documents,
    {
        let id = self.output_targets.len();
        self.output_targets.push(target);
        proof {
            assert(self@.output_targets =~= old(self)@.output_targets.push(target@));
        }
        id
    }

    /// Undo the last operation. Returns true if something was undone.
    pub fn undo(&mut self) -> (undone: bool)
        ensures
            (final(self)@, undone) == undo_spec(old(self)@),
            final(self).documents == old(self).documents,
    {
        let op = match self.history.pop() {
            Some(op) => op,
            None => return false,
        };
        proof {
            assert(self@.history =~= old(self)@.history.drop_last());
        }
        let ghost popped = self@;
        let ghost popped_history = self.history@;
        match op {
            Operation::MarkForDelete { indices } => {
                let ghost old_pages = self.pages@;
                let n = self.pages.len();
                let mut k: usize = 0;
                let ghost valid = in_range_indices(indices@, n as nat);
                while k < indices.len()
                    invariant
                        k <= indices@.len(),
                        n == self.pages@.len(),
                        old_pages.len() == n,
                        self.history@ == popped_history,
                        self.output_targets == old(self).output_targets,
                        self.selected_page == old(self).selected_page,
                        self.documents == old(self).documents,
                        self.pages@ == with_marks_toggled(
                            old_pages,
                            in_range_indices(indices@.take(k as int), n as nat),
                        ),
                    decreases indices@.len() - k,
                {
                    let i = indices[k];
                    let ghost before = in_range_indices(indices@.take(k as int), n as nat);
                    proof {
                        lemma_in_range_indices_step(indices@, n as nat, k as int);
                    }
                    if i < n {
                        let mut slot = self.pages[i];
                        slot.marked_for_delete = !slot.marked_for_delete;
                        self.pages.set(i, slot);
                        proof {
                            let after = before.push(i);
                            assert forall|j: int| 0 <= j < n implies toggle_parity(after, j) == (
                            toggle_parity(before, j) != (i == j)) by {
                                assert(after.drop_last() =~= before);
                            }
                        }
                    }
                    k = k + 1;
                    assert(self.pages@ =~= with_marks_toggled(
                        old_pages,
                        in_range_indices(indices@.take(k as int), n as nat),
                    ));
                }
                assert(indices@.take(indices@.len() as int) =~= indices@);
            },
            Operation::InsertPages { at, pages, .. } => {
                let count = pages.len();
                let len = self.pages.len();
                if count <= len && at <= len - count {
                    let ghost old_pages = self.pages@;
                    let mut kept: Vec<PageSlot> = Vec::new();
                    let mut j: usize = 0;
                    while j < at
                        invariant
                            j <= at,
                            at <= len,
                            self.pages@ == old_pages,
                            len == old_pages.len(),
                            self.history@ == popped_history,
                            self.output_targets == old(self).output_targets,
                            self.selected_page == old(self).selected_page,
                            self.documents == old(self).documents,
                            kept@ == old_pages.take(j as int),
                        decreases at - j,
                    {
                        kept.push(self.pages[j]);
                        j = j + 1;
                        assert(kept@ =~= old_pages.take(j as int));
                    }
                    let mut j: usize = at + count;
                    while j < len
                        invariant
                            at + count <= j <= len,
                            self.pages@ == old_pages,
                            len == old_pages.len(),
                            self.history@ == popped_history,
                            self.output_targets == old(self).output_targets,
                            self.selected_page == old(self).selected_page,
                            self.documents == old(self).documents,
                            kept@ == old_pages.take(at as int) + old_pages.subrange(
                                (at + count) as int,
                                j as int,
                            ),
                        decreases len - j,
                    {
                        kept.push(self.pages[j]);
                        j = j + 1;
                        assert(kept@ =~= old_pages.take(at as int) + old_pages.subrange(
                            (at + count) as int,
                            j as int,
                        ));
                    }
                    self.pages = kept;
                    assert(self.pages@ =~= old_pages.take(at as int) + old_pages.skip(
                        (at + count) as int,
                    ));
                }
                if self.selected_page >= self.pages.len() {
                    self.selected_page = if self.pages.len() == 0 {
                        0
                    } else {
                        self.pages.len() - 1
                    };
                }
            },
            Operation::AddDocument { .. } => {},
            Operation::AssignOutput { page_indices, previous, .. } => {
                let ghost old_pages = self.pages@;
                let n = if page_indices.len() <= previous.len() {
                    page_indices.len()
                } else {
                    previous.len()
                };
                let mut k: usize = 0;
                while k < n
                    invariant
                        k <= n,
                        n <= page_indices@.len(),
                        n <= previous@.len(),
                        self.history@ == popped_history,
                        self.output_targets == old(self).output_targets,
                        self.selected_page == old(self).selected_page,
                        self.documents == old(self).documents,
                        self.pages@ == restore_targets_prefix(
                            old_pages,
                            page_indices@,
                            previous@,
                            k as nat,
                        ),
                    decreases n - k,
                {
                    proof {
                        lemma_restore_targets_step(old_pages, page_indices@, previous@, k as nat);
                    }
                    let i = page_indices[k];
                    if i < self.pages.len() {
                        let mut slot = self.pages[i];
                        slot.output_target = previous[k];
                        self.pages.set(i, slot);
                    }
                    k = k + 1;
                }
            },
        }
        proof {
            assert(self@.output_targets =~= popped.output_targets);
        }
        true
    }

    /// Get the active (non-deleted) pages, with their positions.
    pub fn active_pages(&self) -> (active: Vec<(usize, PageSlot)>)
        ensures
            active@ == active_entries(self@.pages),
    {
        let mut active: Vec<(usize, PageSlot)> = Vec::new();
        let mut i: usize = 0;
        while i < self.pages.len()
            invariant
                i <= self.pages@.len(),
                active@ == active_entries(self.pages@.take(i as int)),
            decreases self.pages@.len() - i,
        {
            let slot = self.pages[i];
            proof {
                assert(self.pages@.take(i + 1).drop_last() =~= self.pages@.take(i as int));
            }
            if !slot.marked_for_delete {
                active.push((i, slot));
            }
            i = i + 1;
        }
        assert(self.pages@.take(self.pages@.len() as int) =~= self.pages@);
        active
    }
}

} // verus!

verus! {

/// Toggling the same marks twice is the identity on marks.
proof fn lemma_marks_toggled_twice(pages: Seq<PageSlot>, idx: Seq<usize>)
    ensures
        with_marks_toggled(with_marks_toggled(pages, idx), idx) == pages,
{
    assert(with_marks_toggled(with_marks_toggled(pages, idx), idx) =~= pages);
}

/// Undoing a batch of delete toggles gives back the workspace as it was before the batch,
/// history included, whenever the batch touched at least one page.
pub proof fn law_undo_reverts_toggle_delete(w: WorkspaceView, indices: Seq<usize>)
    requires
        in_range_indices(indices, w.pages.len()).len() > 0,
    ensures
        undo_spec(toggle_delete_batch_spec(w, indices)) == (w, true),
{
    let n = w.pages.len();
    let valid = in_range_indices(indices, n);
    let t = toggle_delete_batch_spec(w, indices);
    lemma_in_range_indices_bounded(indices, n);
    lemma_in_range_indices_all_in_range(valid, n);
    lemma_marks_toggled_twice(w.pages, valid);
    assert(t.history.last() == OperationView::MarkForDelete { indices: valid });
    assert(t.history.drop_last() =~= w.history);
    let (u, b) = undo_spec(t);
    assert(u.pages =~= w.pages);
    assert(u.history =~= w.history);
    assert(u == w);
}

/// Toggling the delete marks of the same pages twice leaves every page as it was.
pub proof fn law_toggle_delete_twice_restores_pages(w: WorkspaceView, indices: Seq<usize>)
    ensures
        toggle_delete_batch_spec(toggle_delete_batch_spec(w, indices), indices).pages == w.pages,
{
    let valid = in_range_indices(indices, w.pages.len());
    lemma_marks_toggled_twice(w.pages, valid);
}

/// Undoing an output assignment gives back the workspace as it was before the assignment.
pub proof fn law_undo_reverts_assign_output(
    w: WorkspaceView,
    indices: Seq<usize>,
    target: Option<OutputTargetId>,
)
    requires
        forall|k: int| 0 <= k < indices.len() ==> indices[k] < w.pages.len(),
    ensures
        undo_spec(assign_output_spec(w, indices, target)) == (w, true),
{
    let a = assign_output_spec(w, indices, target);
    let prev = indices.map_values(|i: usize| w.pages[i as int].output_target);
    assert(a.history.last() == OperationView::AssignOutput {
        page_indices: indices,
        target,
        previous: prev,
    });
    assert(a.history.drop_last() =~= w.history);
    lemma_restore_targets_prefix_values(a.pages, w.pages, indices, prev, indices.len());
    assert(indices.take(indices.len() as int) =~= indices);
    lemma_restore_targets_step(a.pages, indices, prev, indices.len());
    let (u, b) = undo_spec(a);
    assert(prev.len() == indices.len());
    assert(u.pages == restore_targets_prefix(a.pages, indices, prev, indices.len()));
    assert forall|j: int| 0 <= j < w.pages.len() implies u.pages[j] == w.pages[j] by {
        assert(restore_targets_prefix(a.pages, indices, prev, indices.len())[j].output_target
            == w.pages[j].output_target);
    }
    assert(u.pages =~= w.pages);
    assert(u.history =~= w.history);
    assert(u == w);
}

/// With an empty history, `undo` reports that nothing was undone and changes nothing.
pub proof fn law_undo_on_empty_history(w: WorkspaceView)
    requires
        w.history.len() == 0,
    ensures
        undo_spec(w) == (w, false),
{
}

/// Opening a document and undoing twice gives back the page list, the selection and the
/// history (the document itself stays loaded), provided the selection was on a page.
pub proof fn law_undo_twice_reverts_open_document(w: WorkspaceView, doc_id: DocId, n: nat)
    requires
        w.selected_page < w.pages.len() || (w.pages.len() == 0 && w.selected_page == 0),
        w.pages.len() + n <= usize::MAX,
    ensures
        undo_spec(open_document_spec(w, doc_id, n)).1,
        undo_spec(undo_spec(open_document_spec(w, doc_id, n)).0) == (w, true),
{
    let o = open_document_spec(w, doc_id, n);
    assert(o.history.last() == OperationView::InsertPages {
        at: w.pages.len() as usize,
        source: doc_id,
        pages: index_range(n),
    });
    let (u1, b1) = undo_spec(o);
    assert((w.pages + new_slots(doc_id, n)).take(w.pages.len() as int) + (w.pages + new_slots(
        doc_id,
        n,
    )).skip((w.pages.len() + n) as int) =~= w.pages);
    assert(u1.pages =~= w.pages);
    assert(o.history.drop_last().last() == OperationView::AddDocument { doc_id });
    assert(o.history.drop_last().drop_last() =~= w.history);
    let (u2, b2) = undo_spec(u1);
    assert(u2.history =~= w.history);
    assert(u2 == w);
}

} // verus!
