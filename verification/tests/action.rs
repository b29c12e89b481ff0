//! The manual sync action's choice of source and destination.

use herdr_worktree_sync::action::{sync_target, InvocationWorktree};

#[test]
fn sync_refuses_to_apply_file_operations_to_the_primary_checkout() {
    let primary = InvocationWorktree {
        repo_root: "/src".to_string(),
        checkout_path: "/src".to_string(),
        is_linked_worktree: false,
    };
    let err = sync_target(Some(&primary)).expect_err("syncing the primary checkout could overwrite its source files");
    assert!(err.message().contains("linked worktree"), "got: {}", err.message());
}

#[test]
fn sync_targets_the_focused_linked_worktree() {
    let linked = InvocationWorktree {
        repo_root: "/src".to_string(),
        checkout_path: "/wt".to_string(),
        is_linked_worktree: true,
    };
    assert_eq!(sync_target(Some(&linked)).unwrap(), ("/src".to_string(), "/wt".to_string()));
    let err = sync_target(None).expect_err("no worktree in the context");
    assert_eq!(err.message(), "the focused workspace is not associated with a git worktree");
}
