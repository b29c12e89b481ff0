//! The decisions behind file operations, install detection, and commands.

use herdr_worktree_sync::bootstrap::{
    command_outcome, default_git_update, destination_parents, detect_install, discover,
    ensure_clone_platform_supported, failure_tail, install_deps, install_markers, last_lines,
    entry_action, entry_count, marker_matches, order_matches, relocate, run_hooks, select_entries, symlink_target,
    venv_scripts, venv_step, EntryAction, EntryKind, VenvStep, validate_file_operation_match,
    validate_relative_pattern, Candidate, CommandReport, FAILURE_TAIL_LINES,
};
use herdr_worktree_sync::config::{CommandConfig, InstallRule};
use herdr_worktree_sync::lifecycle::{Phase, Step};

fn argv(parts: &[&str]) -> Vec<String> {
    parts.iter().map(|s| s.to_string()).collect()
}

fn rule(marker: &str, command: &[&str]) -> InstallRule {
    InstallRule { marker: marker.to_string(), command: argv(command) }
}

/// What detection picks in a directory holding exactly `files`.
fn detect_in(files: &[&str], rules: &[InstallRule]) -> Option<Vec<String>> {
    let rules: Vec<InstallRule> =
        rules.iter().map(|r| InstallRule { marker: r.marker.clone(), command: r.command.clone() }).collect();
    let listing: Option<Vec<String>> = Some(argv(files));
    let matched: Vec<bool> = install_markers(&rules)
        .iter()
        .map(|m| marker_matches(m, &listing, files.contains(&m.as_str())))
        .collect();
    detect_install(&rules, &matched)
}

fn exited(success: bool, status: &str, stdout: &str, stderr: &str) -> CommandReport {
    CommandReport::Exited {
        success,
        status: status.to_string(),
        stdout: stdout.to_string(),
        stderr: stderr.to_string(),
    }
}

#[test]
fn marker_matches_exact_filenames() {
    let listing = Some(argv(&["go.mod"]));
    assert!(marker_matches("go.mod", &listing, true));
    assert!(!marker_matches("Cargo.toml", &listing, false));
}

#[test]
fn marker_matches_extension_wildcards() {
    let listing = Some(argv(&["App.csproj"]));
    assert!(marker_matches("*.csproj", &listing, false));
    assert!(!marker_matches("*.sln", &listing, false));
}

#[test]
fn marker_does_not_match_in_a_missing_directory() {
    assert!(!marker_matches("go.mod", &None, false));
    assert!(!marker_matches("*.csproj", &None, false));
}

#[test]
fn detects_nothing_in_an_empty_directory() {
    assert_eq!(detect_in(&[], &[]), None);
}

#[test]
fn lockfiles_win_over_the_generic_manifest() {
    for (files, expected) in [
        (vec!["package.json"], argv(&["npm", "install"])),
        (vec!["package-lock.json", "package.json"], argv(&["npm", "ci"])),
        (vec!["bun.lockb", "package.json"], argv(&["bun", "install"])),
    ] {
        assert_eq!(detect_in(&files, &[]), Some(expected), "for {files:?}");
    }
}

#[test]
fn earlier_builtin_rules_win_ties() {
    assert_eq!(
        detect_in(&["pnpm-lock.yaml", "yarn.lock", "package-lock.json"], &[]),
        Some(argv(&["pnpm", "install", "--frozen-lockfile"]))
    );
}

#[test]
fn custom_rules_override_builtins() {
    let rules = vec![rule("package.json", &["npm", "install", "--offline"])];
    assert_eq!(detect_in(&["package.json"], &rules), Some(argv(&["npm", "install", "--offline"])));
}

#[test]
fn custom_rules_can_add_an_unknown_language() {
    let rules = vec![rule("flake.nix", &["nix", "develop", "--command", "true"])];
    assert_eq!(detect_in(&["flake.nix"], &rules), Some(argv(&["nix", "develop", "--command", "true"])));
    assert_eq!(detect_in(&["flake.nix"], &[]), None);
}

#[test]
fn custom_rules_are_checked_in_order() {
    let rules = vec![
        rule("Cargo.toml", &["cargo", "fetch", "--offline"]),
        rule("go.mod", &["go", "mod", "download"]),
    ];
    assert_eq!(detect_in(&["go.mod", "Cargo.toml"], &rules), Some(argv(&["cargo", "fetch", "--offline"])));
}

#[test]
fn dotnet_and_late_builtins_are_detected() {
    assert_eq!(detect_in(&["App.csproj"], &[]), Some(argv(&["dotnet", "restore"])));
    assert_eq!(detect_in(&["shard.yml"], &[]), Some(argv(&["shards", "install"])));
    assert_eq!(
        detect_in(&["Project.toml"], &[]),
        Some(argv(&["julia", "--project", "-e", "using Pkg; Pkg.instantiate()"]))
    );
    assert_eq!(install_markers(&vec![]).len(), 36);
}

#[test]
fn install_dirs_are_validated_before_anything_runs() {
    let steps = install_deps("/wt", &vec![], &Some(argv(&["apps", "services"])));
    assert_eq!(steps.len(), 3);
    match &steps[0] {
        Step::CheckDirs { dirs, paths } => {
            assert_eq!(dirs, &argv(&["apps", "services"]));
            assert_eq!(paths, &argv(&["/wt/apps", "/wt/services"]));
        }
        other => panic!("the directories are checked first, got {other:?}"),
    }
    assert!(matches!(&steps[1], Step::Detect { label, .. } if label == "apps"));
}

#[test]
fn hooks_become_commands_in_their_directories() {
    let hooks = vec![
        CommandConfig { command: argv(&["mise", "install"]), dir: None },
        CommandConfig { command: argv(&["npm", "run", "codegen"]), dir: Some("apps/web".to_string()) },
    ];
    let steps = run_hooks("/wt/", &hooks, Phase::Post);
    assert_eq!(
        steps,
        vec![
            Step::Run { phase: Phase::Post, cwd: "/wt/".to_string(), argv: argv(&["mise", "install"]) },
            Step::Run { phase: Phase::Post, cwd: "/wt/apps/web".to_string(), argv: argv(&["npm", "run", "codegen"]) },
        ]
    );
    assert_eq!(default_git_update(), argv(&["git", "fetch", "--all", "--prune"]));
}

#[test]
fn a_failure_quotes_what_the_command_printed_to_stderr() {
    let err = command_outcome("/wt", &argv(&["sh", "-c", "echo boom >&2; exit 3"]), &exited(false, "exit status: 3", "", "boom\n"))
        .expect_err("a non-zero exit should abort");
    let msg = err.message();
    assert!(msg.contains("boom"), "got: {msg}");
    assert!(msg.contains("exit status: 3"), "got: {msg}");
    assert_eq!(msg, "`sh -c echo boom >&2; exit 3` exited with exit status: 3\nboom");
}

#[test]
fn a_failure_falls_back_to_stdout_when_stderr_is_empty() {
    let err = command_outcome("/wt", &argv(&["sh", "-c", "echo ERR_PNPM_ENOENT; exit 1"]), &exited(false, "exit status: 1", "ERR_PNPM_ENOENT\n", "  \n"))
        .expect_err("a non-zero exit should abort");
    assert!(err.message().contains("ERR_PNPM_ENOENT"), "got: {}", err.message());
}

#[test]
fn a_failure_with_no_output_at_all_says_so() {
    let err = command_outcome("/wt", &argv(&["sh", "-c", "exit 1"]), &exited(false, "exit status: 1", "", ""))
        .expect_err("a non-zero exit should abort");
    assert!(err.message().contains("without printing anything"), "got: {}", err.message());
}

#[test]
fn a_long_failure_is_cut_down_to_its_last_lines() {
    let noisy: Vec<String> = (1..=FAILURE_TAIL_LINES * 3).map(|n| n.to_string()).collect();
    let err = command_outcome("/wt", &argv(&["sh", "-c", "noise"]), &exited(false, "exit status: 1", "", &noisy.join("\n")))
        .expect_err("a non-zero exit should abort");
    let msg = err.message();
    let last = (FAILURE_TAIL_LINES * 3).to_string();
    assert!(msg.contains(&last), "the last line should survive: {msg}");
    assert!(!msg.contains("\n1\n"), "the first line should be cut: {msg}");
    assert_eq!(msg.lines().count(), FAILURE_TAIL_LINES + 1);
}

#[test]
fn running_in_a_missing_directory_is_an_error() {
    let err = command_outcome("/tmp/nope", &argv(&["true"]), &CommandReport::MissingDir)
        .expect_err("a missing cwd should abort before spawning");
    assert!(err.message().contains("working directory does not exist"), "got: {}", err.message());
}

#[test]
fn a_program_that_cannot_start_names_itself() {
    let err = command_outcome("/wt", &argv(&["nope", "x"]), &CommandReport::SpawnFailed { error: "No such file or directory (os error 2)".to_string() })
        .expect_err("a spawn failure aborts");
    assert_eq!(err.chain, argv(&["spawning `nope`", "No such file or directory (os error 2)"]));
    assert!(command_outcome("/wt", &argv(&["true"]), &exited(true, "exit status: 0", "", "")).is_ok());
}

#[test]
fn tails_drop_blank_lines_and_trailing_whitespace() {
    assert_eq!(last_lines("a  \n\n \t\nb\r\n\n"), Some("a\nb".to_string()));
    assert_eq!(last_lines(" \n\n"), None);
    assert_eq!(failure_tail("out", ""), Some("out".to_string()));
    assert_eq!(failure_tail("out", "err"), Some("err".to_string()));
}

#[test]
fn explicit_entries_cannot_escape_the_source_repo() {
    let err = validate_relative_pattern("../secret").expect_err("parent traversal should be rejected");
    assert!(err.message().contains("relative"), "got: {}", err.message());
    assert!(validate_relative_pattern("/etc/passwd").is_err());
    assert!(validate_relative_pattern("").is_err());
    assert!(validate_relative_pattern("a/../b").is_err());
    assert!(validate_relative_pattern("config/*.local.toml").is_ok());
    assert!(validate_relative_pattern("a/..b").is_ok());
}

#[test]
fn copy_entries_cannot_replace_git_worktree_metadata() {
    let err = validate_file_operation_match(".git").expect_err("repository metadata must never be copied");
    assert!(err.message().contains("Git metadata"), "got: {}", err.message());
    assert!(validate_file_operation_match(".git/config").is_err());
    assert!(validate_file_operation_match("").is_err());
    assert!(validate_file_operation_match(".github/workflows").is_ok());
    assert!(validate_file_operation_match("a/.git").is_ok());
}

fn candidate(relative: &str, is_dir: bool) -> Candidate {
    Candidate { relative: relative.to_string(), path: format!("/src/{relative}"), is_dir }
}

#[test]
fn overlapping_glob_matches_link_only_the_outer_directory() {
    let entries = select_entries(&vec![
        candidate("cache", true),
        candidate("cache/nested", true),
        candidate("cache/nested/data", false),
        candidate("cachet", false),
    ]);
    assert_eq!(
        entries,
        vec![
            ("/src/cache".to_string(), "cache".to_string()),
            ("/src/cachet".to_string(), "cachet".to_string()),
        ]
    );
}

#[test]
fn entries_are_ordered_shallowest_first() {
    let entries = select_entries(&vec![candidate("a/b/c", false), candidate("b", false), candidate("a/x", false)]);
    let relatives: Vec<&str> = entries.iter().map(|(_, r)| r.as_str()).collect();
    assert_eq!(relatives, ["b", "a/x", "a/b/c"]);
    assert!(select_entries(&vec![]).is_empty());
}

#[test]
fn discovery_keeps_matching_ignored_files_and_skips_directories() {
    let listing = b".env\0apps/web/.env.local\0node_modules/\0.env.example\0packages/db/.env\0notes.txt\0".to_vec();
    let found = discover(&listing, &argv(&[".env", ".env.*"]));
    assert_eq!(found, argv(&[".env", "apps/web/.env.local", ".env.example", "packages/db/.env"]));
    let secrets = discover(&listing, &argv(&["*.txt"]));
    assert_eq!(secrets, argv(&["notes.txt"]));
    assert!(discover(&Vec::new(), &argv(&["*"])).is_empty());
}

#[test]
fn symlinks_use_relative_targets() {
    assert_eq!(symlink_target("/src/shared/cache", Some("/wt/shared")).unwrap(), "../../src/shared/cache");
    assert_eq!(symlink_target("/src/a", Some("relative")).unwrap(), "/src/a");
    assert!(symlink_target("relative", Some("/abs")).is_err());
    assert_eq!(
        symlink_target("/src/a", None).unwrap_err().message(),
        "symlink destination has no parent directory"
    );
}

#[test]
fn destination_parents_are_walked_outermost_first() {
    let (dirs, refusal) = destination_parents("/wt", "config/cache/new");
    assert_eq!(dirs, argv(&["/wt/config", "/wt/config/cache"]));
    assert!(refusal.is_none());
    assert_eq!(destination_parents("/wt", "./a/./b").0, argv(&["/wt/a"]));
    assert!(destination_parents("/wt", ".env").0.is_empty());
    let (dirs, refusal) = destination_parents("/wt", "../x/y");
    assert!(dirs.is_empty());
    assert_eq!(refusal.unwrap().message(), "destination path must be relative to the worktree: ../x/y");
    // The directories before the point where the path leaves come first.
    let (dirs, refusal) = destination_parents("/wt", "a/b/../c/d");
    assert_eq!(dirs, argv(&["/wt/a", "/wt/a/b"]));
    assert!(refusal.is_some());
}

#[test]
fn clone_phase_fails_clearly_on_unsupported_platforms() {
    assert!(ensure_clone_platform_supported(true).is_ok());
    let err = ensure_clone_platform_supported(false).expect_err("APFS clones are macOS-only");
    assert!(err.message().contains("macOS"), "got: {}", err.message());
}

#[test]
fn a_cloned_venv_script_points_into_the_worktree() {
    assert_eq!(
        relocate("#!/src/.venv/bin/python3\n", "/src/.venv", "/wt/.venv"),
        "#!/wt/.venv/bin/python3\n"
    );
    assert_eq!(
        relocate("VIRTUAL_ENV=/src/.venv\nPATH=/src/.venv/bin:$PATH\n", "/src/.venv", "/worktree/.venv"),
        "VIRTUAL_ENV=/worktree/.venv\nPATH=/worktree/.venv/bin:$PATH\n"
    );
    // Nothing to move: the text comes back as it was.
    assert_eq!(relocate("#!/usr/bin/env python3\n", "/src/.venv", "/wt/.venv"), "#!/usr/bin/env python3\n");
    // Occurrences are replaced left to right, without overlapping.
    assert_eq!(relocate("aaa", "aa", "b"), "ba");
    assert_eq!(relocate("abc", "", "x"), "abc");
}

#[test]
fn matches_of_several_patterns_are_kept_once_in_path_order() {
    let pair = |rel: &str, path: &str| (rel.to_string(), path.to_string());
    let ordered = order_matches(&vec![
        pair("config/b.toml", "/src/config/b.toml"),
        pair("config", "/src/config"),
        pair("a-b", "/src/a-b"),
        pair("a/z", "/src/a/z"),
        // The same path matched again, spelt differently: it stays where it
        // was first filed, and the later match's path is the one kept.
        pair("config//b.toml", "/src/./config/b.toml"),
    ]);
    assert_eq!(
        ordered,
        vec![
            pair("a/z", "/src/a/z"),
            pair("a-b", "/src/a-b"),
            pair("config", "/src/config"),
            pair("config/b.toml", "/src/./config/b.toml"),
        ]
    );
    assert!(order_matches(&vec![]).is_empty());
}

#[test]
fn an_empty_command_list_never_counts_as_run() {
    let ran = CommandReport::Exited {
        success: true,
        status: "exit status: 0".to_string(),
        stdout: String::new(),
        stderr: String::new(),
    };
    let err = command_outcome("/wt", &vec![], &ran).expect_err("there is no program to have run");
    assert_eq!(err.message(), "empty command in config");
}

#[test]
fn copying_replaces_destinations_merges_directories_and_keeps_links() {
    assert_eq!(entry_action(EntryKind::Symlink, Some(EntryKind::Dir)), EntryAction::Link);
    assert_eq!(entry_action(EntryKind::File, Some(EntryKind::Symlink)), EntryAction::ReplaceWithFile);
    assert_eq!(entry_action(EntryKind::File, None), EntryAction::ReplaceWithFile);
    // A directory is merged into one already there...
    assert_eq!(entry_action(EntryKind::Dir, Some(EntryKind::Dir)), EntryAction::Dir { replace_destination: false });
    assert_eq!(entry_action(EntryKind::Dir, None), EntryAction::Dir { replace_destination: false });
    // ...but a link or file in its place is removed, never followed.
    assert_eq!(entry_action(EntryKind::Dir, Some(EntryKind::Symlink)), EntryAction::Dir { replace_destination: true });
    assert_eq!(entry_action(EntryKind::Dir, Some(EntryKind::File)), EntryAction::Dir { replace_destination: true });
    assert_eq!(entry_action(EntryKind::Other, Some(EntryKind::File)), EntryAction::Skip);

    assert_eq!(entry_count(EntryKind::File, &vec![]), Some(1));
    assert_eq!(entry_count(EntryKind::Symlink, &vec![]), Some(1));
    assert_eq!(entry_count(EntryKind::Other, &vec![]), Some(0));
    assert_eq!(entry_count(EntryKind::Dir, &vec![1, 0, 3]), Some(4));
    assert_eq!(entry_count(EntryKind::Dir, &vec![]), Some(0));
    assert_eq!(entry_count(EntryKind::Dir, &vec![usize::MAX, 1]), None);
}

#[test]
fn a_directory_with_pyvenv_cfg_is_a_virtual_environment() {
    assert_eq!(venv_step(Some(EntryKind::Dir), true), VenvStep::Relocate);
    assert_eq!(venv_step(Some(EntryKind::Dir), false), VenvStep::Descend);
    assert_eq!(venv_step(Some(EntryKind::Symlink), true), VenvStep::Leave);
    assert_eq!(venv_step(Some(EntryKind::File), false), VenvStep::Leave);
    assert_eq!(venv_step(None, false), VenvStep::Leave);
    let bin = vec![
        ("activate".to_string(), EntryKind::File),
        ("python3".to_string(), EntryKind::Symlink),
        ("tool".to_string(), EntryKind::File),
        ("__pycache__".to_string(), EntryKind::Dir),
    ];
    assert_eq!(venv_scripts(&bin), argv(&["activate", "tool"]));
}
