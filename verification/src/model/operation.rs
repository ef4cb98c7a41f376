use vstd::prelude::*;
use crate::model::page_ref::{DocId, OutputTargetId, PageNum};

verus! {

/// A reversible operation on the workspace, stored for undo.
#[derive(Debug, Clone)]
pub enum Operation {
    MarkForDelete {
        /// Indices toggled.
        indices: Vec<usize>,
    },
    InsertPages {
        at: usize,
        source: DocId,
        pages: Vec<PageNum>,
    },
    AssignOutput {
        page_indices: Vec<usize>,
        target: Option<OutputTargetId>,
        /// Previous assignments for undo.
        previous: Vec<Option<OutputTargetId>>,
    },
    AddDocument {
        doc_id: DocId,
    },
}

} // verus!
