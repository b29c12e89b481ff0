//! The end-of-run toast.

use herdr_worktree_sync::config::NotifyWhen;
use herdr_worktree_sync::failure::Failure;
use herdr_worktree_sync::notify::{
    abbreviate, suppression_message, toast_for, Outcome, TOAST_BODY_LINES,
};
use herdr_worktree_sync::Summary;

fn summary() -> Summary {
    Summary {
        git_updated: true,
        copied: Some(3),
        cloned: None,
        linked: Some(2),
        installed: Some(vec!["pnpm install".to_string(), "uv sync".to_string()]),
        hooks_run: 2,
    }
}

fn body_of(when: NotifyWhen, summary: &Summary) -> String {
    toast_for(when, "wt/x", Outcome::Succeeded(summary))
        .expect("a non-empty summary should toast")
        .body
}

fn error(message: &str) -> Failure {
    Failure::from_str(message)
}

#[test]
fn a_successful_run_lists_every_phase_in_execution_order() {
    let toast = toast_for(
        NotifyWhen::Always,
        "worktree/silver-stone",
        Outcome::Succeeded(&summary()),
    )
    .expect("a run that did work should toast");

    assert_eq!(toast.title, "Worktree sync done · worktree/silver-stone");
    assert_eq!(
        toast.body,
        "updated git\ncopied 3 files\nlinked 2 paths\npnpm install\nuv sync\nran 2 hooks"
    );
    assert_eq!(toast.sound, "done");
}

#[test]
fn a_failure_carries_the_context_chain_and_the_attention_sound() {
    let err = error("`pnpm install` exited with exit status: 1").context("install phase".to_string());
    let toast = toast_for(NotifyWhen::Always, "wt/x", Outcome::Failed(&err))
        .expect("failures always toast");

    assert_eq!(toast.title, "Worktree sync failed · wt/x");
    assert!(toast.body.contains("pnpm install"), "got: {}", toast.body);
    assert!(toast.body.contains("install phase"), "got: {}", toast.body);
    assert_eq!(toast.sound, "request");
}

#[test]
fn a_long_failure_keeps_the_command_and_the_reason_around_the_cut() {
    let noise: Vec<String> = (1..=30).map(|n| format!("progress {n}")).collect();
    let err = error(&format!(
        "`pnpm install` exited with exit status: 1\n{}\nERR_PNPM_ENOENT: no such file",
        noise.join("\n")
    ));
    let body = toast_for(NotifyWhen::Always, "wt/x", Outcome::Failed(&err))
        .expect("failures always toast")
        .body;

    assert!(body.starts_with("`pnpm install` exited"), "got: {body}");
    assert!(
        body.ends_with("ERR_PNPM_ENOENT: no such file"),
        "got: {body}"
    );
    assert!(body.contains('…'), "the cut should be visible: {body}");
    assert_eq!(body.lines().count(), TOAST_BODY_LINES);
}

#[test]
fn a_failure_short_enough_to_fit_is_left_alone() {
    let err = error("`true` exited with exit status: 1\nboom");
    let body = toast_for(NotifyWhen::Always, "wt/x", Outcome::Failed(&err))
        .expect("failures always toast")
        .body;

    assert_eq!(body, "`true` exited with exit status: 1\nboom");
}

#[test]
fn a_phase_that_ran_and_found_nothing_still_reports() {
    let summary = Summary {
        copied: Some(0),
        installed: Some(vec![]),
        ..Summary::default()
    };
    assert_eq!(
        body_of(NotifyWhen::Always, &summary),
        "copied no files\nno install rule matched"
    );
}

#[test]
fn a_run_with_no_phases_enabled_stays_silent() {
    let nothing = Summary::default();
    assert!(nothing.is_empty());
    assert!(toast_for(NotifyWhen::Always, "wt/x", Outcome::Succeeded(&nothing)).is_none());
}

#[test]
fn failure_mode_keeps_quiet_about_success_but_not_about_errors() {
    let err = error("boom");
    assert!(toast_for(NotifyWhen::Failure, "wt/x", Outcome::Succeeded(&summary())).is_none());
    assert!(toast_for(NotifyWhen::Failure, "wt/x", Outcome::Failed(&err)).is_some());
}

#[test]
fn never_mode_is_silent_even_on_failure() {
    let err = error("boom");
    assert!(toast_for(NotifyWhen::Never, "wt/x", Outcome::Succeeded(&summary())).is_none());
    assert!(toast_for(NotifyWhen::Never, "wt/x", Outcome::Failed(&err)).is_none());
}

#[test]
fn one_copied_file_is_not_pluralised() {
    let summary = Summary {
        copied: Some(1),
        ..Summary::default()
    };
    assert_eq!(body_of(NotifyWhen::Always, &summary), "copied 1 file");
}

#[test]
fn links_hooks_and_large_counts_are_spelled_out() {
    let summary = Summary {
        linked: Some(1),
        hooks_run: 1,
        copied: Some(120),
        ..Summary::default()
    };
    assert_eq!(
        body_of(NotifyWhen::Always, &summary),
        "copied 120 files\nlinked 1 path\nran 1 hooks"
    );
    let none = Summary {
        linked: Some(0),
        ..Summary::default()
    };
    assert_eq!(body_of(NotifyWhen::Always, &none), "linked no paths");
}

#[test]
fn a_run_that_only_cloned_reports_the_clone() {
    let summary = Summary {
        cloned: Some(4),
        ..Summary::default()
    };
    assert!(!summary.is_empty());
    assert_eq!(body_of(NotifyWhen::Always, &summary), "cloned 4 files");
    let one = Summary { cloned: Some(1), ..Summary::default() };
    assert_eq!(body_of(NotifyWhen::Always, &one), "cloned 1 file");
    let none = Summary { cloned: Some(0), ..Summary::default() };
    assert_eq!(body_of(NotifyWhen::Always, &none), "cloned no files");
    let all = Summary { copied: Some(2), cloned: Some(3), linked: Some(1), ..Summary::default() };
    assert_eq!(body_of(NotifyWhen::Always, &all), "copied 2 files\ncloned 3 files\nlinked 1 path");
}

#[test]
fn abbreviation_keeps_the_first_line_and_the_last_ones() {
    let body = "1\n2\n3\n4\n5\n6\n7\n8";
    assert_eq!(abbreviate(body, 4), "1\n…\n7\n8");
    assert_eq!(abbreviate(body, 8), body);
    assert_eq!(abbreviate("a\r\nb\r\nc", 2), "a\n…");
}

#[test]
fn a_failure_chain_is_joined_on_one_line() {
    let err = error("root cause").context("middle".to_string()).context("outer".to_string());
    assert_eq!(err.flatten(), "outer: middle: root cause");
    assert_eq!(err.message(), "outer");
}

#[test]
fn a_suppressed_toast_is_explained_in_the_log() {
    assert_eq!(suppression_message(true, None), None);
    assert_eq!(
        suppression_message(false, Some("disabled")).as_deref(),
        Some("[notify] herdr did not show the toast (reason: disabled) — set `[ui.toast] delivery` in herdr's config.toml to see it")
    );
    assert_eq!(
        suppression_message(false, Some("busy")).as_deref(),
        Some("[notify] herdr did not show the toast (reason: busy)")
    );
    assert_eq!(
        suppression_message(false, None).as_deref(),
        Some("[notify] herdr did not show the toast (reason: unknown)")
    );
}
