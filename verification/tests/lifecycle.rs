//! The bootstrap lifecycle end to end, with the outside work answered by
//! hand: which steps are asked for, in what order, and what happens after
//! the first failure.

use herdr_worktree_sync::action::{sync_target, sync_worktree, InvocationWorktree};
use herdr_worktree_sync::bootstrap::CommandReport;
use herdr_worktree_sync::config::{
    CloneConfig, CommandConfig, Config, CopyConfig, GitConfig, Hooks, InstallConfig, InstallRule, SymlinkConfig,
};
use herdr_worktree_sync::failure::Failure;
use herdr_worktree_sync::lifecycle::{Bootstrap, Phase, Progress, Report, Step};
use herdr_worktree_sync::{run, sync_files, Summary};

fn argv(parts: &[&str]) -> Vec<String> {
    parts.iter().map(|s| s.to_string()).collect()
}

fn hook(parts: &[&str]) -> CommandConfig {
    CommandConfig { command: argv(parts), dir: None }
}

fn ok() -> Report {
    Report::Ran(CommandReport::Exited {
        success: true,
        status: "exit status: 0".to_string(),
        stdout: String::new(),
        stderr: String::new(),
    })
}

fn exit_code(code: i32, stderr: &str) -> Report {
    Report::Ran(CommandReport::Exited {
        success: false,
        status: format!("exit status: {code}"),
        stdout: String::new(),
        stderr: stderr.to_string(),
    })
}

/// Everything that was asked for, as text: `run <cwd>: <argv>` for commands,
/// the step's name otherwise.
fn describe(step: &Step) -> String {
    match step {
        Step::Run { cwd, argv, .. } => format!("run {cwd}: {}", argv.join(" ")),
        Step::Copy { .. } => "copy".to_string(),
        Step::Discover { .. } => "discover".to_string(),
        Step::Clone { .. } => "clone".to_string(),
        Step::Symlink { .. } => "symlink".to_string(),
        Step::CheckDirs { .. } => "check dirs".to_string(),
        Step::Detect { label, .. } => format!("detect {label}"),
    }
}

/// Runs a bootstrap to its end, answering each step with `answer`.
fn drive(
    start: (Bootstrap, Progress),
    mut answer: impl FnMut(&Step) -> Report,
) -> (Vec<String>, Result<Summary, Failure>) {
    let (mut b, mut p) = start;
    let mut log = Vec::new();
    loop {
        match p {
            Progress::Finished(result) => return (log, result),
            Progress::Continue => {
                let step = b.current();
                log.push(describe(step));
                let report = answer(step);
                assert!(b.accepts(&report), "a fitting report for {}", describe(step));
                p = b.resume(report);
            }
        }
    }
}

/// Answers every step successfully; marker probes see only `present`.
fn all_good<'a>(present: &'a [&'a str]) -> impl FnMut(&Step) -> Report + 'a {
    move |step| match step {
        Step::Run { .. } => ok(),
        Step::Copy { files, .. } => Report::Count(files.len()),
        Step::Discover { .. } | Step::Clone { .. } => Report::Count(1),
        Step::Symlink { files, .. } => Report::Count(files.len()),
        Step::CheckDirs { paths, .. } => Report::Present(vec![true; paths.len()]),
        Step::Detect { markers, .. } => {
            Report::Present(markers.iter().map(|m| present.contains(&m.as_str())).collect())
        }
    }
}

#[test]
fn phases_run_in_the_documented_order() {
    let config = Config {
        git: GitConfig { update: true, command: Some(argv(&["sh", "-c", "echo git >> log.txt"])) },
        hooks: Hooks {
            pre: vec![hook(&["sh", "-c", "echo pre >> log.txt"])],
            post: vec![hook(&["sh", "-c", "echo post >> log.txt"])],
        },
        copy: CopyConfig { enabled: true, files: Some(argv(&[".env"])), patterns: None },
        install: InstallConfig {
            enabled: true,
            dirs: None,
            rules: vec![InstallRule { marker: ".env".to_string(), command: argv(&["sh", "-c", "echo install >> log.txt"]) }],
        },
        ..Config::default()
    };

    let (log, result) = drive(run("/wt", Some("/src"), &config), all_good(&[".env"]));
    let summary = result.expect("bootstrap should succeed");

    assert_eq!(
        log,
        [
            "run /wt: sh -c echo git >> log.txt",
            "run /wt: sh -c echo pre >> log.txt",
            "copy",
            "check dirs",
            "detect .",
            "run /wt/.: sh -c echo install >> log.txt",
            "run /wt: sh -c echo post >> log.txt",
        ]
    );
    assert!(summary.git_updated);
    assert_eq!(summary.copied, Some(1));
    assert_eq!(summary.installed, Some(vec!["sh -c echo install >> log.txt".to_string()]));
    assert_eq!(summary.hooks_run, 2);
}

#[test]
fn symlinks_are_created_before_dependency_installation() {
    let config = Config {
        symlink: SymlinkConfig { enabled: true, files: argv(&["shared/marker.txt"]) },
        install: InstallConfig {
            enabled: true,
            dirs: None,
            rules: vec![InstallRule {
                marker: "shared/marker.txt".to_string(),
                command: argv(&["sh", "-c", "echo install >> log.txt"]),
            }],
        },
        ..Config::default()
    };
    let (log, result) = drive(run("/wt", Some("/src"), &config), all_good(&["shared/marker.txt"]));
    result.expect("bootstrap should succeed");
    assert_eq!(log[0], "symlink");
    assert_eq!(log.last().map(String::as_str), Some("run /wt/.: sh -c echo install >> log.txt"));
}

#[test]
fn an_empty_config_runs_no_phases_at_all() {
    let (log, result) = drive(run("/wt", Some("/src"), &Config::default()), all_good(&[]));
    let summary = result.expect("doing nothing should succeed");
    assert!(log.is_empty());
    assert!(summary.is_empty());
}

/// Fail-fast: a failing pre hook stops the bootstrap before anything is copied.
#[test]
fn a_failing_pre_hook_aborts_before_copy() {
    let config = Config {
        hooks: Hooks { pre: vec![hook(&["sh", "-c", "exit 3"])], post: vec![hook(&["sh", "-c", "echo post"])] },
        copy: CopyConfig { enabled: true, files: Some(argv(&[".env"])), patterns: None },
        ..Config::default()
    };
    let (log, result) = drive(run("/wt", Some("/src"), &config), |step| match step {
        Step::Run { .. } => exit_code(3, ""),
        _ => panic!("nothing after the failing hook may be asked for"),
    });
    let err = result.expect_err("a non-zero hook should abort the bootstrap");
    assert!(err.message().contains("exit"), "got: {}", err.message());
    assert_eq!(log, ["run /wt: sh -c exit 3"]);
}

#[test]
fn a_failing_install_stops_the_post_hooks() {
    let config = Config {
        hooks: Hooks { pre: vec![], post: vec![hook(&["sh", "-c", "echo post"])] },
        install: InstallConfig {
            enabled: true,
            dirs: None,
            rules: vec![InstallRule { marker: "marker.txt".to_string(), command: argv(&["sh", "-c", "exit 1"]) }],
        },
        ..Config::default()
    };
    let (log, result) = drive(run("/wt", None, &config), |step| match step {
        Step::Run { .. } => exit_code(1, "nope"),
        other => all_good(&["marker.txt"])(other),
    });
    let err = result.expect_err("a failing install should abort the bootstrap");
    assert!(err.message().contains("nope"), "got: {}", err.message());
    assert!(!log.iter().any(|l| l.contains("echo post")), "post hooks must not have run");
}

#[test]
fn hooks_run_in_the_order_they_are_listed() {
    let config = Config {
        hooks: Hooks {
            pre: vec![],
            post: vec![hook(&["first"]), hook(&["second"]), hook(&["third"])],
        },
        ..Config::default()
    };
    let (log, result) = drive(run("/wt", None, &config), all_good(&[]));
    assert_eq!(result.expect("bootstrap should succeed").hooks_run, 3);
    assert_eq!(log, ["run /wt: first", "run /wt: second", "run /wt: third"]);
}

#[test]
fn a_hook_dir_selects_the_working_directory() {
    let config = Config {
        hooks: Hooks {
            pre: vec![],
            post: vec![CommandConfig { command: argv(&["sh", "-c", "echo web"]), dir: Some("apps/web".to_string()) }],
        },
        ..Config::default()
    };
    let (log, _) = drive(run("/wt", None, &config), all_good(&[]));
    assert_eq!(log, ["run /wt/apps/web: sh -c echo web"]);
}

#[test]
fn a_hook_dir_that_does_not_exist_is_reported_clearly() {
    let config = Config {
        hooks: Hooks {
            pre: vec![CommandConfig { command: argv(&["true"]), dir: Some("nope".to_string()) }],
            post: vec![],
        },
        ..Config::default()
    };
    let (_, result) = drive(run("/wt", None, &config), |_| Report::Ran(CommandReport::MissingDir));
    let err = result.expect_err("a missing hook dir should abort");
    assert_eq!(err.message(), "working directory does not exist: /wt/nope (running `true`)");
}

#[test]
fn a_missing_install_dir_aborts_before_installing_anything() {
    let config = Config {
        install: InstallConfig {
            enabled: true,
            dirs: Some(argv(&["apps/web", "services/api"])),
            rules: vec![],
        },
        ..Config::default()
    };
    let (log, result) = drive(run("/wt", None, &config), |step| match step {
        Step::CheckDirs { paths, .. } => Report::Present(paths.iter().map(|p| p.ends_with("web")).collect()),
        _ => panic!("nothing may be installed before the typo is caught"),
    });
    let err = result.expect_err("a missing install dir should abort");
    assert_eq!(err.message(), "install dir `services/api` does not exist in the worktree");
    assert_eq!(log, ["check dirs"]);
}

#[test]
fn install_runs_once_per_listed_directory() {
    let config = Config {
        install: InstallConfig { enabled: true, dirs: Some(argv(&["apps/web", "services/api"])), rules: vec![] },
        ..Config::default()
    };
    let (log, result) = drive(run("/wt", None, &config), |step| match step {
        Step::Detect { label, markers, .. } => {
            let here = if label == "apps/web" { "package.json" } else { "go.mod" };
            Report::Present(markers.iter().map(|m| m == here).collect())
        }
        other => all_good(&[])(other),
    });
    let summary = result.expect("bootstrap should succeed");
    assert_eq!(summary.installed, Some(vec!["npm install".to_string(), "go mod download".to_string()]));
    assert_eq!(
        log,
        [
            "check dirs",
            "detect apps/web",
            "run /wt/apps/web: npm install",
            "detect services/api",
            "run /wt/services/api: go mod download",
        ]
    );
}

#[test]
fn a_directory_without_a_marker_installs_nothing() {
    let config = Config { install: InstallConfig { enabled: true, dirs: None, rules: vec![] }, ..Config::default() };
    let (log, result) = drive(run("/wt", None, &config), all_good(&[]));
    assert_eq!(result.expect("bootstrap should succeed").installed, Some(vec![]));
    assert_eq!(log, ["check dirs", "detect ."]);
}

#[test]
fn empty_commands_are_rejected() {
    let config = Config {
        hooks: Hooks { pre: vec![hook(&[])], post: vec![] },
        ..Config::default()
    };
    let (log, result) = drive(run("/wt", None, &config), all_good(&[]));
    assert_eq!(result.expect_err("an empty argv is an error").message(), "empty command in config");
    assert!(log.is_empty());
}

#[test]
fn copy_without_a_source_repo_is_an_error() {
    let config = Config { copy: CopyConfig { enabled: true, files: None, patterns: None }, ..Config::default() };
    let (_, result) = drive(run("/wt", None, &config), all_good(&[]));
    let err = result.expect_err("copy needs a source repo");
    assert!(err.message().contains("source repo_root"), "got: {}", err.message());
}

#[test]
fn symlink_without_a_source_repo_is_an_error() {
    let config = Config { symlink: SymlinkConfig { enabled: true, files: argv(&[".cache"]) }, ..Config::default() };
    let (_, result) = drive(run("/wt", None, &config), all_good(&[]));
    let err = result.expect_err("symlink needs a source repo");
    assert!(err.message().contains("source repo_root"), "got: {}", err.message());
}

#[test]
fn the_other_phases_do_not_need_a_source_repo() {
    let config = Config {
        hooks: Hooks { pre: vec![], post: vec![hook(&["sh", "-c", "echo post >> log.txt"])] },
        ..Config::default()
    };
    let (log, result) = drive(run("/wt", None, &config), all_good(&[]));
    result.expect("no source is fine when copy is off");
    assert_eq!(log, ["run /wt: sh -c echo post >> log.txt"]);
}

#[test]
fn file_operations_refuse_the_primary_checkout() {
    let config = Config { copy: CopyConfig { enabled: true, files: None, patterns: None }, ..Config::default() };
    let (_, result) = drive(run("/repo/", Some("/repo"), &config), all_good(&[]));
    assert_eq!(
        result.expect_err("the source is the worktree").message(),
        "file operations require a linked worktree, not the primary checkout"
    );
}

#[test]
fn discovery_uses_the_env_defaults() {
    let config = Config { copy: CopyConfig { enabled: true, files: None, patterns: None }, ..Config::default() };
    let (b, p) = run("/wt", Some("/src"), &config);
    assert_eq!(p, Progress::Continue);
    match b.current() {
        Step::Discover { source, worktree, patterns } => {
            assert_eq!(source, "/src");
            assert_eq!(worktree, "/wt");
            assert_eq!(patterns, &argv(&[".env", ".env.*"]));
        }
        other => panic!("expected discovery, got {other:?}"),
    }
}

#[test]
fn sync_reapplies_copy_and_symlink_operations_to_the_focused_worktree() {
    let config = Config {
        copy: CopyConfig { enabled: true, files: Some(argv(&[".env"])), patterns: None },
        symlink: SymlinkConfig { enabled: true, files: argv(&["cache"]) },
        hooks: Hooks { pre: vec![hook(&["never"])], post: vec![hook(&["never"])] },
        ..Config::default()
    };
    let focused = InvocationWorktree {
        repo_root: "/src".to_string(),
        checkout_path: "/wt".to_string(),
        is_linked_worktree: true,
    };
    let target = sync_target(Some(&focused)).expect("a linked worktree can be synced");
    let (log, result) = drive(sync_worktree(&target, &config), all_good(&[]));
    let summary = result.expect("sync should succeed");
    assert_eq!(log, ["copy", "symlink"]);
    assert_eq!(summary.copied, Some(1));
    assert_eq!(summary.linked, Some(1));
    assert_eq!(summary.hooks_run, 0);
    assert!(!summary.git_updated);
    assert_eq!(summary.installed, None);
}

#[test]
fn a_failed_file_operation_ends_the_run_with_its_reason() {
    let config = Config {
        copy: CopyConfig { enabled: true, files: Some(argv(&["../secret"])), patterns: None },
        hooks: Hooks { pre: vec![], post: vec![hook(&["never"])] },
        ..Config::default()
    };
    let (log, result) = drive(run("/wt", Some("/src"), &config), |step| match step {
        Step::Copy { .. } => Report::Failed(Failure::from_str("file pattern must be relative to the source repo: `../secret`")),
        _ => panic!("nothing after the failed copy"),
    });
    assert_eq!(log, ["copy"]);
    assert!(result.expect_err("the copy failed").message().contains("relative"));
}

#[test]
fn the_git_update_defaults_to_fetching() {
    let config = Config { git: GitConfig { update: true, command: None }, ..Config::default() };
    let (log, result) = drive(run("/wt", None, &config), all_good(&[]));
    assert!(result.expect("bootstrap should succeed").git_updated);
    assert_eq!(log, ["run /wt: git fetch --all --prune"]);
    let (b, _) = run("/wt", None, &config);
    match b.current() {
        Step::Run { phase, .. } => assert_eq!(*phase, Phase::Git),
        other => panic!("expected the git update, got {other:?}"),
    }
}

#[test]
fn a_successful_run_reports_every_enabled_phase_and_no_other() {
    let config = Config {
        hooks: Hooks { pre: vec![hook(&["true"]), hook(&["true"])], post: vec![hook(&["true"])] },
        clone: CloneConfig { enabled: true, files: argv(&[".venv"]) },
        install: InstallConfig { enabled: true, dirs: Some(argv(&["web", "api"])), rules: vec![] },
        ..Config::default()
    };
    let (log, result) = drive(run("/wt", Some("/src"), &config), all_good(&["go.mod"]));
    let summary = result.expect("bootstrap should succeed");
    assert!(!summary.git_updated);
    assert_eq!(summary.hooks_run, 3);
    assert_eq!(summary.copied, None);
    assert_eq!(summary.cloned, Some(1));
    assert_eq!(summary.linked, None);
    // One install command per directory that matched, in the order listed.
    assert_eq!(summary.installed, Some(vec!["go mod download".to_string(), "go mod download".to_string()]));
    assert_eq!(log.iter().filter(|l| l.starts_with("run /wt/web") || l.starts_with("run /wt/api")).count(), 2);
}

#[test]
fn a_successful_sync_runs_only_file_operations() {
    let config = Config {
        git: GitConfig { update: true, command: None },
        hooks: Hooks { pre: vec![hook(&["true"])], post: vec![] },
        copy: CopyConfig { enabled: true, files: Some(argv(&[".env"])), patterns: None },
        symlink: SymlinkConfig { enabled: true, files: argv(&["cache"]) },
        install: InstallConfig { enabled: true, dirs: None, rules: vec![] },
        ..Config::default()
    };
    let (log, result) = drive(sync_files("/wt", Some("/src"), &config), all_good(&[]));
    let summary = result.expect("sync should succeed");
    assert_eq!(log, ["copy", "symlink"]);
    assert!(!summary.git_updated);
    assert_eq!(summary.hooks_run, 0);
    assert_eq!(summary.installed, None);
    assert_eq!(summary.copied, Some(1));
    assert_eq!(summary.linked, Some(1));
}

#[test]
fn a_failure_in_one_install_directory_installs_nothing_after_it() {
    let config = Config {
        install: InstallConfig { enabled: true, dirs: Some(argv(&["web", "api"])), rules: vec![] },
        hooks: Hooks { pre: vec![], post: vec![hook(&["true"])] },
        ..Config::default()
    };
    let mut good = all_good(&["go.mod"]);
    let (log, result) = drive(run("/wt", None, &config), |step| match step {
        Step::Run { cwd, .. } if cwd == "/wt/web" => exit_code(1, "no network"),
        other => good(other),
    });
    let err = result.expect_err("the first install fails");
    assert!(err.message().contains("go mod download"), "got: {}", err.message());
    assert_eq!(log, ["check dirs", "detect web", "run /wt/web: go mod download"]);
}
