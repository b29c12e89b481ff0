//! The full failure report.

use herdr_worktree_sync::failure::Failure;
use herdr_worktree_sync::report::{compose, report_file_name, PANE_ENTRYPOINT, REPORT_PATH_VAR};

fn failure() -> Failure {
    Failure::from_str("`pnpm install` exited with exit status: 1\nERR_PNPM_ENOENT\nreflink")
        .context("install phase".to_string())
}

/// The report exists to carry the multi-line command output that a toast
/// cannot: every line of it has to survive, on its own line.
#[test]
fn the_report_keeps_the_command_output_line_by_line() {
    let body = compose("worktree/x", "/tmp/wt", &failure());

    assert!(body.contains("\nbranch:   worktree/x\n"), "got: {body}");
    assert!(body.contains("\nworktree: /tmp/wt\n"), "got: {body}");
    assert!(body.contains("\ninstall phase\n"), "got: {body}");
    assert!(body.contains("\nERR_PNPM_ENOENT\nreflink\n"), "got: {body}");
}

#[test]
fn a_slashed_branch_name_does_not_become_a_subdirectory() {
    assert_eq!(
        report_file_name("worktree/silver-stone"),
        "failure-worktree-silver-stone.log"
    );
    assert!(!report_file_name("feature/a/b").contains('/'));
}

#[test]
fn the_whole_report_reads_top_to_bottom() {
    let body = compose("main", "/w", &Failure::from_str("boom"));
    assert_eq!(body, "Worktree sync failed\n\nbranch:   main\nworktree: /w\n\nboom\n");
    assert_eq!(report_file_name("ü/x.y"), "failure---x-y.log");
    assert_eq!(PANE_ENTRYPOINT, "failure");
    assert_eq!(REPORT_PATH_VAR, "WORKTREE_SYNC_REPORT");
}
