use pdft::model::page_ref::{OutputTarget, PageRef, PageSlot};
use pdft::model::workspace::Workspace;

/// Create a workspace with `n` fake pages (no real PDF needed).
fn test_workspace(n: usize) -> Workspace {
    let mut ws = Workspace::new();
    for i in 0..n {
        ws.pages.push(PageSlot {
            source: PageRef { doc_id: 0, page_num: i },
            output_target: None,
            marked_for_delete: false,
        });
    }
    ws
}

#[test]
fn toggle_delete_marks_and_unmarks() {
    let mut ws = test_workspace(3);
    ws.toggle_delete(1);
    assert!(ws.pages[1].marked_for_delete);
    ws.toggle_delete(1);
    assert!(!ws.pages[1].marked_for_delete);
}

#[test]
fn toggle_delete_out_of_bounds_is_noop() {
    let mut ws = test_workspace(2);
    ws.toggle_delete(10); // should not panic
    assert_eq!(ws.pages.len(), 2);
}

#[test]
fn undo_toggle_delete() {
    let mut ws = test_workspace(3);
    ws.toggle_delete(1);
    assert!(ws.pages[1].marked_for_delete);
    assert!(ws.undo());
    assert!(!ws.pages[1].marked_for_delete);
}

#[test]
fn assign_output_and_undo() {
    let mut ws = test_workspace(3);
    ws.output_targets.push(OutputTarget {
        path: String::new(),
        label: "a".into(),
    });
    ws.assign_output(&[0, 2], Some(0));
    assert_eq!(ws.pages[0].output_target, Some(0));
    assert_eq!(ws.pages[1].output_target, None);
    assert_eq!(ws.pages[2].output_target, Some(0));

    assert!(ws.undo());
    assert_eq!(ws.pages[0].output_target, None);
    assert_eq!(ws.pages[2].output_target, None);
}

#[test]
fn undo_on_empty_history_returns_false() {
    let mut ws = test_workspace(1);
    assert!(!ws.undo());
}

#[test]
fn active_pages_excludes_deleted() {
    let mut ws = test_workspace(4);
    ws.toggle_delete(1);
    ws.toggle_delete(3);
    let active: Vec<usize> = ws.active_pages().iter().map(|(i, _)| *i).collect();
    assert_eq!(active, vec![0, 2]);
}

#[test]
fn page_count() {
    let ws = test_workspace(5);
    assert_eq!(ws.page_count(), 5);
}

#[test]
fn toggle_delete_batch_single_undo() {
    let mut ws = test_workspace(5);
    // Delete pages 1,2,3 as a batch
    ws.toggle_delete_batch(&[1, 2, 3]);
    assert!(ws.pages[1].marked_for_delete);
    assert!(ws.pages[2].marked_for_delete);
    assert!(ws.pages[3].marked_for_delete);

    // Single undo should revert all three
    assert!(ws.undo());
    assert!(!ws.pages[1].marked_for_delete);
    assert!(!ws.pages[2].marked_for_delete);
    assert!(!ws.pages[3].marked_for_delete);

    // No more undo ops
    assert!(!ws.undo());
}

#[test]
fn toggle_delete_twice_restores_marks() {
    let mut ws = test_workspace(4);
    ws.toggle_delete_batch(&[0, 2]);
    ws.toggle_delete_batch(&[0, 2]);
    assert!(ws.pages.iter().all(|p| !p.marked_for_delete));
    assert_eq!(ws.history.len(), 2);
}

#[test]
fn toggle_delete_batch_ignores_out_of_range_indices() {
    let mut ws = test_workspace(2);
    ws.toggle_delete_batch(&[5, 7]);
    assert!(ws.history.is_empty());
    ws.toggle_delete_batch(&[1, 9]);
    assert!(ws.pages[1].marked_for_delete);
    assert_eq!(ws.history.len(), 1);
}

#[test]
fn undo_reverts_assign_over_earlier_assignment() {
    let mut ws = test_workspace(3);
    ws.assign_output(&[1], Some(4));
    ws.assign_output(&[0, 1], Some(7));
    assert_eq!(ws.pages[1].output_target, Some(7));
    assert!(ws.undo());
    assert_eq!(ws.pages[0].output_target, None);
    assert_eq!(ws.pages[1].output_target, Some(4));
}

#[test]
fn add_output_target_returns_its_index() {
    let mut ws = test_workspace(1);
    let a = ws.add_output_target(OutputTarget { path: String::new(), label: "a".into() });
    let b = ws.add_output_target(OutputTarget { path: String::new(), label: "b".into() });
    assert_eq!((a, b), (0, 1));
    assert_eq!(ws.output_targets[1].label, "b");
}
