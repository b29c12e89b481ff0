//! Prepare a freshly created git worktree: copy, clone, or link local files,
//! install dependencies, and run per-repo hooks.
//!
//! The library decides *what happens*: which steps a bootstrap consists of
//! and in what order ([`run`], [`sync_files`]), what each finished step means
//! ([`lifecycle::Bootstrap`]), and how the result is announced
//! ([`notify`], [`report`]). The program around it performs the steps.

pub mod action;
pub mod bootstrap;
pub mod config;
pub mod failure;
pub mod lifecycle;
pub mod notify;
pub mod paths;
pub mod report;
pub mod text;

use vstd::prelude::*;

use crate::bootstrap::{
    clone_rules, clone_strings, default_env_patterns, default_env_patterns_spec, git_step, hook_steps,
    install_deps, install_steps, rule_view, run_hooks,
};
use crate::config::{Config, InstallRule};
use crate::failure::Failure;
use crate::lifecycle::{
    count_kind, lemma_count_kind_concat, lemma_count_kind_uniform, lemma_probes_after_check_concat,
    installs_recorded, lemma_plan_steps_hold_plan_entries, lemma_probes_concat, picks_follow_probes, plan_steps, of_kind, phase_of, probes_after_check, probes_ask, proceeds, ran_through, rank,
    rule_markers, Bootstrap, Phase, Progress, Step, StepKind, StepView, step_views,
};
use crate::paths::comps;
use crate::text::{owned, views};

verus! {

/// What a bootstrap did, as plain values.
pub struct Tally {
    pub git_updated: bool,
    pub copied: Option<usize>,
    pub cloned: Option<usize>,
    pub linked: Option<usize>,
    pub installed: Option<Seq<Seq<char>>>,
    pub hooks_run: usize,
}

/// What a run actually did, for the end-of-run notification.
///
/// The file-operation and install fields are `Option` so that "the phase was
/// disabled" stays distinguishable from "the phase ran and found nothing".
#[derive(Debug, PartialEq, Eq)]
pub struct Summary {
    pub git_updated: bool,
    /// Files copied, when the copy phase ran.
    pub copied: Option<usize>,
    /// Files cloned, when the APFS clone phase ran.
    pub cloned: Option<usize>,
    /// Paths linked, when the symlink phase ran.
    pub linked: Option<usize>,
    /// The command run in each install directory, when the install phase ran.
    pub installed: Option<Vec<String>>,
    /// Pre and post hooks together.
    pub hooks_run: usize,
}

impl View for Summary {
    type V = Tally;

    open spec fn view(&self) -> Tally {
        Tally {
            git_updated: self.git_updated,
            copied: self.copied,
            cloned: self.cloned,
            linked: self.linked,
            installed: match self.installed {
                Some(v) => Some(text::views(v@)),
                None => None,
            },
            hooks_run: self.hooks_run,
        }
    }
}

/// The tally of a run in which no phase was enabled.
pub open spec fn nothing_done() -> Tally {
    Tally {
        git_updated: false,
        copied: None,
        cloned: None,
        linked: None,
        installed: None,
        hooks_run: 0,
    }
}

impl Default for Summary {
    fn default() -> (s: Self)
        ensures
            s@ == nothing_done(),
    {
        Summary {
            git_updated: false,
            copied: None,
            cloned: None,
            linked: None,
            installed: None,
            hooks_run: 0,
        }
    }
}

impl Summary {
    /// No phase was enabled, so there is nothing to report.
    pub fn is_empty(&self) -> (b: bool)
        ensures
            b == (self@ == nothing_done()),
    {
        !self.git_updated && self.copied.is_none() && self.cloned.is_none() && self.linked.is_none()
            && self.installed.is_none() && self.hooks_run == 0
    }
}

/// The views of an optional list of strings.
pub open spec fn opt_views(o: Option<Vec<String>>) -> Option<Seq<Seq<char>>> {
    match o {
        Some(v) => Some(views(v@)),
        None => None,
    }
}

pub open spec fn file_ops_enabled(c: Config) -> bool {
    c.copy.enabled || c.clone.enabled || c.symlink.enabled
}

pub open spec fn no_source_message() -> Seq<char> {
    "file operations are enabled but there is no source repo_root"@
}

pub open spec fn primary_checkout_message() -> Seq<char> {
    "file operations require a linked worktree, not the primary checkout"@
}

/// The copy, clone and symlink steps, in that order, each when enabled.
pub open spec fn file_steps(source: Seq<char>, worktree: Seq<char>, c: Config) -> Seq<StepView> {
    (if c.copy.enabled {
        seq![
            match c.copy.files {
                Some(f) => StepView::Copy { source, worktree, files: views(f@) },
                None => StepView::Discover {
                    source,
                    worktree,
                    patterns: match c.copy.patterns {
                        Some(p) => views(p@),
                        None => default_env_patterns_spec(),
                    },
                },
            },
        ]
    } else {
        Seq::empty()
    }) + (if c.clone.enabled {
        seq![StepView::Clone { source, worktree, files: views(c.clone.files@) }]
    } else {
        Seq::empty()
    }) + (if c.symlink.enabled {
        seq![StepView::Symlink { source, worktree, files: views(c.symlink.files@) }]
    } else {
        Seq::empty()
    })
}

/// The file operations of a configuration, and the failure that stops the
/// run before them: file operations need a source repo, and one that is not
/// the worktree itself.
pub open spec fn file_plan(worktree: Seq<char>, source: Option<Seq<char>>, c: Config) -> (
    Seq<StepView>,
    Option<Seq<Seq<char>>>,
) {
    if !file_ops_enabled(c) {
        (Seq::empty(), None)
    } else {
        match source {
            None => (Seq::empty(), Some(seq![no_source_message()])),
            Some(src) => if comps(src) == comps(worktree) {
                (Seq::empty(), Some(seq![primary_checkout_message()]))
            } else {
                (file_steps(src, worktree, c), None)
            },
        }
    }
}

/// The whole lifecycle of a configuration: git update, pre hooks, copy,
/// clone, symlink, install, post hooks; cut short where the file operations
/// cannot run.
pub open spec fn run_plan(worktree: Seq<char>, source: Option<Seq<char>>, c: Config) -> (
    Seq<StepView>,
    Option<Seq<Seq<char>>>,
) {
    let files = file_plan(worktree, source, c);
    let head = (if c.git.update {
        seq![git_step(worktree, opt_views(c.git.command))]
    } else {
        Seq::empty()
    }) + hook_steps(worktree, c.hooks.pre@, Phase::Pre) + files.0;
    if files.1 is Some {
        (head, files.1)
    } else {
        (
            head + (if c.install.enabled {
                install_steps(worktree, c.install.rules@, opt_views(c.install.dirs))
            } else {
                Seq::empty()
            }) + hook_steps(worktree, c.hooks.post@, Phase::Post),
            None,
        )
    }
}

fn file_step_list(src: &str, worktree: &str, config: &Config) -> (r: Vec<Step>)
    ensures
        step_views(r@) == file_steps(src@, worktree@, *config),
{
    let mut r: Vec<Step> = Vec::new();
    if config.copy.enabled {
        match &config.copy.files {
            Some(f) => r.push(Step::Copy { source: owned(src), worktree: owned(worktree), files: clone_strings(f) }),
            None => {
                let patterns = match &config.copy.patterns {
                    Some(p) => clone_strings(p),
                    None => default_env_patterns(),
                };
                r.push(Step::Discover { source: owned(src), worktree: owned(worktree), patterns });
            },
        }
    }
    let ghost a = r@;
    if config.clone.enabled {
        r.push(Step::Clone { source: owned(src), worktree: owned(worktree), files: clone_strings(&config.clone.files) });
    }
    let ghost b = r@;
    if config.symlink.enabled {
        r.push(
            Step::Symlink {
                source: owned(src),
                worktree: owned(worktree),
                files: clone_strings(&config.symlink.files),
            },
        );
    }
    assert(step_views(r@) =~= file_steps(src@, worktree@, *config));
    r
}

/// The file steps and the closing failure of a configuration.
fn file_parts(worktree: &str, source: Option<&str>, config: &Config) -> (r: (Vec<Step>, Option<Failure>))
    ensures
        step_views(r.0@) == file_plan(worktree@, match source { Some(s) => Some(s@), None => None }, *config).0,
        match (r.1, file_plan(worktree@, match source { Some(s) => Some(s@), None => None }, *config).1) {
            (Some(f), Some(c)) => f.causes() == c,
            (None, None) => true,
            _ => false,
        },
{
    if !(config.copy.enabled || config.clone.enabled || config.symlink.enabled) {
        return (Vec::new(), None);
    }
    match source {
        None => (Vec::new(), Some(Failure::from_str("file operations are enabled but there is no source repo_root"))),
        Some(src) => {
            if crate::paths::same_path(src, worktree) {
                (
                    Vec::new(),
                    Some(Failure::from_str("file operations require a linked worktree, not the primary checkout")),
                )
            } else {
                (file_step_list(src, worktree, config), None)
            }
        },
    }
}

proof fn lemma_no_probes_in_file_steps(source: Seq<char>, worktree: Seq<char>, c: Config, m: Seq<Seq<char>>)
    ensures
        probes_ask(file_steps(source, worktree, c), m),
        probes_after_check(file_steps(source, worktree, c)),
{
    let s = file_steps(source, worktree, c);
    assert forall|i: int| 0 <= i < s.len() implies !(#[trigger] s[i] is Detect) by {
    }
}

proof fn lemma_no_probes_in_hooks(worktree: Seq<char>, hooks: Seq<crate::config::CommandConfig>, phase: Phase, m: Seq<Seq<char>>)
    ensures
        probes_ask(hook_steps(worktree, hooks, phase), m),
        probes_after_check(hook_steps(worktree, hooks, phase)),
{
    let s = hook_steps(worktree, hooks, phase);
    assert forall|i: int| 0 <= i < s.len() implies !(#[trigger] s[i] is Detect) by {
        assert(s[i] == crate::bootstrap::hook_step(worktree, hooks[i], phase));
    }
}

proof fn lemma_install_probes(worktree: Seq<char>, rules: Seq<InstallRule>, dirs: Option<Seq<Seq<char>>>)
    ensures
        probes_ask(install_steps(worktree, rules, dirs), rule_markers(rules)),
        probes_after_check(install_steps(worktree, rules, dirs)),
{
    let s = install_steps(worktree, rules, dirs);
    let ds = crate::bootstrap::install_dirs(dirs);
    assert forall|i: int| 0 <= i < s.len() implies (#[trigger] s[i] matches StepView::Detect { markers: m, .. }
        ==> m == rule_markers(rules)) by {
        if i > 0 {
            assert(s[i] == StepView::Detect {
                base: crate::paths::join_path(worktree, ds[i - 1]),
                label: ds[i - 1],
                markers: rule_markers(rules),
            });
        }
    }
    assert forall|j: int| 0 <= j < s.len() && (#[trigger] s[j] is Detect) implies exists|i: int|
        0 <= i < j && s[i] is CheckDirs by {
        assert(s[0] is CheckDirs);
    }
}

/// Apply only the declared copy, clone, and symlink operations: the run
/// shared by the creation lifecycle and the manual `sync` action. Setup
/// commands and hooks are not part of it.
pub fn sync_files(worktree: &str, source: Option<&str>, config: &Config) -> (res: (Bootstrap, Progress))
    ensures
        res.0.steps_view() == file_plan(worktree@, match source { Some(s) => Some(s@), None => None }, *config).0,
        proceeds(
            file_plan(worktree@, match source { Some(s) => Some(s@), None => None }, *config).0,
            0,
            file_plan(worktree@, match source { Some(s) => Some(s@), None => None }, *config).1,
            nothing_done(),
            res.1,
        ),
        res.0.wf(),
        res.0.performed() == Seq::<(StepView, bool)>::empty(),
        !res.0.installing(),
        res.1 matches Progress::Finished(Ok(s)) ==> installs_recorded(s@.installed, res.0.performed()),
        res.1 matches Progress::Finished(Ok(s)) ==> file_plan(
            worktree@,
            match source { Some(s) => Some(s@), None => None },
            *config,
        ).1 is None && ran_through(
            file_plan(worktree@, match source { Some(s) => Some(s@), None => None }, *config).0,
            s@,
        ),
        res.1 is Continue ==> !res.0.is_finished() && res.0.at() == 0 && res.0.tally() == nothing_done()
            && res.0.abort_view() == file_plan(worktree@, match source { Some(s) => Some(s@), None => None }, *config).1
            && res.0.current_view() == res.0.steps_view()[0],
        !(res.1 is Continue) ==> res.0.is_finished(),
{
    let (steps, abort) = file_parts(worktree, source, config);
    let rules: Vec<InstallRule> = Vec::new();
    proof {
        let sv = match source { Some(s) => Some(s@), None => None::<Seq<char>> };
        let fp = file_plan(worktree@, sv, *config);
        if fp.0.len() > 0 {
            lemma_no_probes_in_file_steps(sv.unwrap(), worktree@, *config, rule_markers(rules@));
        }
        assert(probes_ask(step_views(steps@), rule_markers(rules@)));
        assert(probes_after_check(step_views(steps@)));
        if fp.0.len() > 0 {
            lemma_count_file_steps(sv.unwrap(), worktree@, *config, StepKind::Install);
        } else {
            assert(step_views(steps@) =~= Seq::<StepView>::empty());
        }
    }
    Bootstrap::start(steps, abort, rules)
}

/// The whole bootstrap lifecycle against `worktree`.
///
/// Phases run in a fixed order: git update, pre hooks, copy, clone, symlink,
/// install, post hooks. `source` is the repo the worktree was derived from;
/// only the file operations need it.
pub fn run(worktree: &str, source: Option<&str>, config: &Config) -> (res: (Bootstrap, Progress))
    ensures
        res.0.steps_view() == run_plan(worktree@, match source { Some(s) => Some(s@), None => None }, *config).0,
        res.0.rules_view() == config.install.rules@.map_values(|r: InstallRule| rule_view(r)),
        proceeds(
            run_plan(worktree@, match source { Some(s) => Some(s@), None => None }, *config).0,
            0,
            run_plan(worktree@, match source { Some(s) => Some(s@), None => None }, *config).1,
            nothing_done(),
            res.1,
        ),
        res.0.wf(),
        res.0.performed() == Seq::<(StepView, bool)>::empty(),
        !res.0.installing(),
        res.1 matches Progress::Finished(Ok(s)) ==> installs_recorded(s@.installed, res.0.performed()),
        res.1 matches Progress::Finished(Ok(s)) ==> run_plan(
            worktree@,
            match source { Some(s) => Some(s@), None => None },
            *config,
        ).1 is None && ran_through(
            run_plan(worktree@, match source { Some(s) => Some(s@), None => None }, *config).0,
            s@,
        ),
        res.1 is Continue ==> !res.0.is_finished() && res.0.at() == 0 && res.0.tally() == nothing_done()
            && res.0.abort_view() == run_plan(worktree@, match source { Some(s) => Some(s@), None => None }, *config).1
            && res.0.current_view() == res.0.steps_view()[0],
        !(res.1 is Continue) ==> res.0.is_finished(),
{
    let ghost sv = match source { Some(s) => Some(s@), None => None::<Seq<char>> };
    let ghost m = rule_markers(config.install.rules@);
    let mut steps: Vec<Step> = Vec::new();
    if config.git.update {
        steps.push(crate::bootstrap::git_update(worktree, &config.git.command));
    }
    let ghost s1 = steps@;
    let mut pre = run_hooks(worktree, &config.hooks.pre, Phase::Pre);
    let ghost pre_v = pre@;
    steps.append(&mut pre);
    let (mut fsteps, abort) = file_parts(worktree, source, config);
    let ghost f_v = fsteps@;
    steps.append(&mut fsteps);
    let ghost s3 = steps@;
    assert(step_views(s3) =~= step_views(s1) + step_views(pre_v) + step_views(f_v));
    assert(step_views(s1) =~= (if config.git.update {
        seq![git_step(worktree@, opt_views(config.git.command))]
    } else {
        Seq::<StepView>::empty()
    }));
    proof {
        assert(probes_ask(step_views(s1), m));
        lemma_no_probes_in_hooks(worktree@, config.hooks.pre@, Phase::Pre, m);
        if step_views(f_v).len() > 0 {
            lemma_no_probes_in_file_steps(sv.unwrap(), worktree@, *config, m);
        }
        assert(probes_ask(step_views(f_v), m));
        assert(probes_after_check(step_views(s1)));
        assert(probes_after_check(step_views(f_v)));
        lemma_probes_concat(step_views(s1), step_views(pre_v), m);
        lemma_probes_concat(step_views(s1) + step_views(pre_v), step_views(f_v), m);
        lemma_probes_after_check_concat(step_views(s1), step_views(pre_v));
        lemma_probes_after_check_concat(step_views(s1) + step_views(pre_v), step_views(f_v));
    }
    proof {
        lemma_run_installs_at_most_once(worktree@, sv, *config);
    }
    if abort.is_some() {
        assert(step_views(steps@) == run_plan(worktree@, sv, *config).0);
        return Bootstrap::start(steps, abort, clone_rules(&config.install.rules));
    }
    if config.install.enabled {
        let mut inst = install_deps(worktree, &config.install.rules, &config.install.dirs);
        steps.append(&mut inst);
    }
    let ghost s4 = steps@;
    let ghost inst_v = if config.install.enabled {
        install_steps(worktree@, config.install.rules@, opt_views(config.install.dirs))
    } else {
        Seq::<StepView>::empty()
    };
    assert(step_views(s4) =~= step_views(s3) + inst_v);
    let mut post = run_hooks(worktree, &config.hooks.post, Phase::Post);
    let ghost post_v = post@;
    steps.append(&mut post);
    assert(step_views(steps@) =~= step_views(s4) + step_views(post_v));
    proof {
        if config.install.enabled {
            lemma_install_probes(worktree@, config.install.rules@, opt_views(config.install.dirs));
        }
        assert(probes_ask(inst_v, m));
        assert(probes_after_check(inst_v));
        lemma_probes_concat(step_views(s3), inst_v, m);
        lemma_probes_after_check_concat(step_views(s3), inst_v);
        lemma_no_probes_in_hooks(worktree@, config.hooks.post@, Phase::Post, m);
        lemma_probes_concat(step_views(s4), step_views(post_v), m);
        lemma_probes_after_check_concat(step_views(s4), step_views(post_v));
        assert(step_views(steps@) == run_plan(worktree@, sv, *config).0);
    }
    Bootstrap::start(steps, None, clone_rules(&config.install.rules))
}

/// The steps are in lifecycle order, with phase ranks between `lo` and `hi`.
pub open spec fn in_order_within(s: Seq<StepView>, lo: int, hi: int) -> bool {
    &&& forall|i: int| 0 <= i < s.len() ==> lo <= rank(phase_of(#[trigger] s[i])) <= hi
    &&& forall|i: int, j: int| 0 <= i < j < s.len() ==> rank(phase_of(#[trigger] s[i])) <= rank(
        phase_of(#[trigger] s[j]),
    )
}

proof fn lemma_order_concat(a: Seq<StepView>, b: Seq<StepView>, lo: int, mid: int, hi: int)
    requires
        lo <= mid <= hi,
        in_order_within(a, lo, mid),
        in_order_within(b, mid, hi),
    ensures
        in_order_within(a + b, lo, hi),
{
    let s = a + b;
    assert forall|i: int| 0 <= i < s.len() implies lo <= rank(phase_of(#[trigger] s[i])) <= hi by {
        if i < a.len() {
            assert(s[i] == a[i]);
        } else {
            assert(s[i] == b[i - a.len()]);
        }
    }
    assert forall|i: int, j: int| 0 <= i < j < s.len() implies rank(phase_of(#[trigger] s[i])) <= rank(
        phase_of(#[trigger] s[j]),
    ) by {
        if j < a.len() {
            assert(s[i] == a[i] && s[j] == a[j]);
        } else if i >= a.len() {
            assert(s[i] == b[i - a.len()] && s[j] == b[j - a.len()]);
        } else {
            assert(s[i] == a[i] && s[j] == b[j - a.len()]);
        }
    }
}

proof fn lemma_constant_phase(s: Seq<StepView>, r: int)
    requires
        forall|i: int| 0 <= i < s.len() ==> rank(phase_of(#[trigger] s[i])) == r,
    ensures
        in_order_within(s, r, r),
{
}

proof fn lemma_file_steps_in_order(source: Seq<char>, worktree: Seq<char>, c: Config)
    ensures
        in_order_within(file_steps(source, worktree, c), 2, 4),
{
    let cp = if c.copy.enabled {
        seq![
            match c.copy.files {
                Some(f) => StepView::Copy { source, worktree, files: views(f@) },
                None => StepView::Discover {
                    source,
                    worktree,
                    patterns: match c.copy.patterns {
                        Some(p) => views(p@),
                        None => default_env_patterns_spec(),
                    },
                },
            },
        ]
    } else {
        Seq::<StepView>::empty()
    };
    let cl = if c.clone.enabled {
        seq![StepView::Clone { source, worktree, files: views(c.clone.files@) }]
    } else {
        Seq::<StepView>::empty()
    };
    let sl = if c.symlink.enabled {
        seq![StepView::Symlink { source, worktree, files: views(c.symlink.files@) }]
    } else {
        Seq::<StepView>::empty()
    };
    lemma_constant_phase(cp, 2);
    lemma_constant_phase(cl, 3);
    lemma_constant_phase(sl, 4);
    lemma_order_concat(cp, cl, 2, 3, 3);
    lemma_order_concat(cp + cl, sl, 2, 3, 4);
    assert(file_steps(source, worktree, c) == cp + cl + sl);
}

proof fn lemma_hooks_in_order(worktree: Seq<char>, hooks: Seq<crate::config::CommandConfig>, phase: Phase)
    ensures
        in_order_within(hook_steps(worktree, hooks, phase), rank(phase), rank(phase)),
{
    let h = hook_steps(worktree, hooks, phase);
    assert forall|i: int| 0 <= i < h.len() implies rank(phase_of(#[trigger] h[i])) == rank(phase) by {
        assert(h[i] == crate::bootstrap::hook_step(worktree, hooks[i], phase));
    }
    lemma_constant_phase(h, rank(phase));
}

proof fn lemma_install_in_order(worktree: Seq<char>, rules: Seq<InstallRule>, dirs: Option<Seq<Seq<char>>>)
    ensures
        in_order_within(install_steps(worktree, rules, dirs), 5, 5),
{
    let inst = install_steps(worktree, rules, dirs);
    assert forall|i: int| 0 <= i < inst.len() implies rank(phase_of(#[trigger] inst[i])) == 5 by {
        if i > 0 {
            assert(inst[i] is Detect);
        }
    }
    lemma_constant_phase(inst, 5);
}

/// Phases run in the documented order: whatever the configuration, the
/// steps of a run go git update, pre hooks, copy, clone, symlink, install,
/// post hooks, and never back.
pub proof fn lemma_phases_run_in_order(worktree: Seq<char>, source: Option<Seq<char>>, c: Config)
    ensures
        forall|i: int, j: int|
            0 <= i < j < run_plan(worktree, source, c).0.len() ==> rank(
                phase_of(#[trigger] run_plan(worktree, source, c).0[i]),
            ) <= rank(phase_of(#[trigger] run_plan(worktree, source, c).0[j])),
{
    let git = if c.git.update {
        seq![git_step(worktree, opt_views(c.git.command))]
    } else {
        Seq::<StepView>::empty()
    };
    lemma_constant_phase(git, 0);
    let pre = hook_steps(worktree, c.hooks.pre@, Phase::Pre);
    lemma_hooks_in_order(worktree, c.hooks.pre@, Phase::Pre);
    let fp = file_plan(worktree, source, c);
    let files = fp.0;
    if files.len() > 0 {
        lemma_file_steps_in_order(source.unwrap(), worktree, c);
    }
    assert(in_order_within(files, 2, 4));
    lemma_order_concat(git, pre, 0, 1, 1);
    lemma_order_concat(git + pre, files, 0, 2, 4);
    let head = git + pre + files;
    let plan = run_plan(worktree, source, c).0;
    if fp.1 is None {
        let inst = if c.install.enabled {
            install_steps(worktree, c.install.rules@, opt_views(c.install.dirs))
        } else {
            Seq::<StepView>::empty()
        };
        if c.install.enabled {
            lemma_install_in_order(worktree, c.install.rules@, opt_views(c.install.dirs));
        }
        assert(in_order_within(inst, 5, 5));
        let post = hook_steps(worktree, c.hooks.post@, Phase::Post);
        lemma_hooks_in_order(worktree, c.hooks.post@, Phase::Post);
        lemma_order_concat(head, inst, 0, 5, 5);
        lemma_order_concat(head + inst, post, 0, 6, 6);
        assert(plan == head + inst + post);
    } else {
        assert(plan == head);
    }
    assert(in_order_within(plan, 0, 6));
}

/// An empty configuration runs no phases at all: the run has no steps, and
/// it ends at once, successfully, having done nothing.
pub proof fn lemma_empty_config_does_nothing(worktree: Seq<char>, source: Option<Seq<char>>, c: Config, p: Progress)
    requires
        c.is_default(),
        proceeds(run_plan(worktree, source, c).0, 0, run_plan(worktree, source, c).1, nothing_done(), p),
    ensures
        run_plan(worktree, source, c).0.len() == 0,
        p matches Progress::Finished(Ok(s)) && s@ == nothing_done(),
{
    assert(hook_steps(worktree, c.hooks.pre@, Phase::Pre) =~= Seq::<StepView>::empty());
    assert(hook_steps(worktree, c.hooks.post@, Phase::Post) =~= Seq::<StepView>::empty());
}

/// Only the file operations need the source repo: when none of copy,
/// clone, and symlink is enabled, a run is the same with or without one.
pub proof fn lemma_only_file_operations_need_a_source(worktree: Seq<char>, source: Seq<char>, c: Config)
    requires
        !file_ops_enabled(c),
    ensures
        run_plan(worktree, None, c) == run_plan(worktree, Some(source), c),
        run_plan(worktree, None, c).1 is None,
{
}

/// The manual sync runs file operations only: none of its steps is a
/// command, a directory check, or a marker probe.
pub proof fn lemma_sync_runs_no_commands(worktree: Seq<char>, source: Option<Seq<char>>, c: Config)
    ensures
        forall|i: int|
            0 <= i < file_plan(worktree, source, c).0.len() ==> {
                let s = #[trigger] file_plan(worktree, source, c).0[i];
                s is Copy || s is Discover || s is Clone || s is Symlink
            },
{
}


/// How many steps of kind `k` a successful run of `c` performs.
pub open spec fn expected_count(c: Config, k: StepKind) -> nat {
    match k {
        StepKind::Git => if c.git.update { 1 } else { 0 },
        StepKind::Hook => c.hooks.pre@.len() + c.hooks.post@.len(),
        StepKind::Copy => if c.copy.enabled { 1 } else { 0 },
        StepKind::Clone => if c.clone.enabled { 1 } else { 0 },
        StepKind::Symlink => if c.symlink.enabled { 1 } else { 0 },
        StepKind::Install => if c.install.enabled { 1 } else { 0 },
    }
}

proof fn lemma_count_single(x: StepView, k: StepKind)
    ensures
        count_kind(seq![x], k) == if of_kind(x, k) { 1nat } else { 0nat },
{
    assert(seq![x].drop_last() =~= Seq::<StepView>::empty());
    assert(count_kind(Seq::<StepView>::empty(), k) == 0);
    assert(seq![x].last() == x);
}

proof fn lemma_count_maybe(b: bool, x: StepView, k: StepKind)
    ensures
        count_kind(if b { seq![x] } else { Seq::<StepView>::empty() }, k) == if b && of_kind(x, k) {
            1nat
        } else {
            0nat
        },
{
    lemma_count_single(x, k);
}

proof fn lemma_count_hooks(worktree: Seq<char>, hooks: Seq<crate::config::CommandConfig>, phase: Phase, k: StepKind)
    requires
        phase == Phase::Pre || phase == Phase::Post,
    ensures
        count_kind(hook_steps(worktree, hooks, phase), k) == if k is Hook { hooks.len() } else { 0 },
{
    let h = hook_steps(worktree, hooks, phase);
    assert forall|i: int| 0 <= i < h.len() implies #[trigger] h[i] == crate::bootstrap::hook_step(
        worktree,
        hooks[i],
        phase,
    ) by {}
    lemma_count_kind_uniform(h, k);
}

proof fn lemma_count_file_steps(source: Seq<char>, worktree: Seq<char>, c: Config, k: StepKind)
    ensures
        count_kind(file_steps(source, worktree, c), k) == match k {
            StepKind::Copy => if c.copy.enabled { 1nat } else { 0nat },
            StepKind::Clone => if c.clone.enabled { 1nat } else { 0nat },
            StepKind::Symlink => if c.symlink.enabled { 1nat } else { 0nat },
            _ => 0nat,
        },
{
    let cpx = match c.copy.files {
        Some(f) => StepView::Copy { source, worktree, files: views(f@) },
        None => StepView::Discover {
            source,
            worktree,
            patterns: match c.copy.patterns {
                Some(p) => views(p@),
                None => default_env_patterns_spec(),
            },
        },
    };
    let clx = StepView::Clone { source, worktree, files: views(c.clone.files@) };
    let slx = StepView::Symlink { source, worktree, files: views(c.symlink.files@) };
    let cp = if c.copy.enabled { seq![cpx] } else { Seq::<StepView>::empty() };
    let cl = if c.clone.enabled { seq![clx] } else { Seq::<StepView>::empty() };
    let sl = if c.symlink.enabled { seq![slx] } else { Seq::<StepView>::empty() };
    assert(file_steps(source, worktree, c) == cp + cl + sl);
    lemma_count_maybe(c.copy.enabled, cpx, k);
    lemma_count_maybe(c.clone.enabled, clx, k);
    lemma_count_maybe(c.symlink.enabled, slx, k);
    lemma_count_kind_concat(cp, cl, k);
    lemma_count_kind_concat(cp + cl, sl, k);
}

proof fn lemma_count_install(worktree: Seq<char>, rules: Seq<InstallRule>, dirs: Option<Seq<Seq<char>>>, k: StepKind)
    ensures
        count_kind(install_steps(worktree, rules, dirs), k) == if k is Install { 1nat } else { 0nat },
{
    let s = install_steps(worktree, rules, dirs);
    let head = s.take(1);
    let tail = s.skip(1);
    assert(s =~= head + tail);
    assert(head =~= seq![s[0]]);
    lemma_count_single(s[0], k);
    assert forall|i: int| 0 <= i < tail.len() implies (#[trigger] tail[i]) is Detect by {
        assert(tail[i] == s[i + 1]);
    }
    lemma_count_kind_uniform(tail, k);
    lemma_count_kind_concat(head, tail, k);
}

/// How many steps of each kind the plan of a run holds, when its file
/// operations can run.
proof fn lemma_plan_counts(worktree: Seq<char>, source: Option<Seq<char>>, c: Config, k: StepKind)
    requires
        run_plan(worktree, source, c).1 is None,
    ensures
        count_kind(run_plan(worktree, source, c).0, k) == expected_count(c, k),
{
    let gx = git_step(worktree, opt_views(c.git.command));
    let git = if c.git.update { seq![gx] } else { Seq::<StepView>::empty() };
    let pre = hook_steps(worktree, c.hooks.pre@, Phase::Pre);
    let files = file_plan(worktree, source, c).0;
    let inst = if c.install.enabled {
        install_steps(worktree, c.install.rules@, opt_views(c.install.dirs))
    } else {
        Seq::<StepView>::empty()
    };
    let post = hook_steps(worktree, c.hooks.post@, Phase::Post);
    assert(run_plan(worktree, source, c).0 == git + pre + files + inst + post);
    lemma_count_maybe(c.git.update, gx, k);
    lemma_count_hooks(worktree, c.hooks.pre@, Phase::Pre, k);
    lemma_count_hooks(worktree, c.hooks.post@, Phase::Post, k);
    if file_ops_enabled(c) {
        lemma_count_file_steps(source.unwrap(), worktree, c, k);
    }
    if c.install.enabled {
        lemma_count_install(worktree, c.install.rules@, opt_views(c.install.dirs), k);
    }
    lemma_count_kind_concat(git, pre, k);
    lemma_count_kind_concat(git + pre, files, k);
    lemma_count_kind_concat(git + pre + files, inst, k);
    lemma_count_kind_concat(git + pre + files + inst, post, k);
}

/// A run that ends successfully did every enabled phase and only those:
/// git was updated exactly when `[git] update` is set, every pre and post
/// hook ran, and there is a copy, clone, link, or install result exactly
/// when that phase is enabled.
pub proof fn lemma_a_successful_run_did_every_enabled_phase(
    worktree: Seq<char>,
    source: Option<Seq<char>>,
    c: Config,
    t: Tally,
)
    requires
        run_plan(worktree, source, c).1 is None,
        ran_through(run_plan(worktree, source, c).0, t),
    ensures
        t.git_updated == c.git.update,
        t.hooks_run == c.hooks.pre@.len() + c.hooks.post@.len(),
        (t.copied is Some) == c.copy.enabled,
        (t.cloned is Some) == c.clone.enabled,
        (t.linked is Some) == c.symlink.enabled,
        (t.installed is Some) == c.install.enabled,
{
    lemma_plan_counts(worktree, source, c, StepKind::Git);
    lemma_plan_counts(worktree, source, c, StepKind::Hook);
    lemma_plan_counts(worktree, source, c, StepKind::Copy);
    lemma_plan_counts(worktree, source, c, StepKind::Clone);
    lemma_plan_counts(worktree, source, c, StepKind::Symlink);
    lemma_plan_counts(worktree, source, c, StepKind::Install);
}

/// A sync that ends successfully ran only file operations, each enabled
/// one: no git update, no hook, no install, and a copy, clone, or link
/// result exactly when that operation is enabled.
pub proof fn lemma_a_successful_sync_ran_only_file_operations(
    worktree: Seq<char>,
    source: Option<Seq<char>>,
    c: Config,
    t: Tally,
)
    requires
        file_plan(worktree, source, c).1 is None,
        ran_through(file_plan(worktree, source, c).0, t),
    ensures
        !t.git_updated,
        t.hooks_run == 0,
        t.installed is None,
        (t.copied is Some) == c.copy.enabled,
        (t.cloned is Some) == c.clone.enabled,
        (t.linked is Some) == c.symlink.enabled,
{
    if file_ops_enabled(c) {
        lemma_count_file_steps(source.unwrap(), worktree, c, StepKind::Git);
        lemma_count_file_steps(source.unwrap(), worktree, c, StepKind::Hook);
        lemma_count_file_steps(source.unwrap(), worktree, c, StepKind::Install);
        lemma_count_file_steps(source.unwrap(), worktree, c, StepKind::Copy);
        lemma_count_file_steps(source.unwrap(), worktree, c, StepKind::Clone);
        lemma_count_file_steps(source.unwrap(), worktree, c, StepKind::Symlink);
    }
}


/// A run's plan has at most one install step: the directory check.
proof fn lemma_run_installs_at_most_once(worktree: Seq<char>, source: Option<Seq<char>>, c: Config)
    ensures
        count_kind(run_plan(worktree, source, c).0, StepKind::Install) <= 1,
{
    if run_plan(worktree, source, c).1 is None {
        lemma_plan_counts(worktree, source, c, StepKind::Install);
    } else {
        let gx = git_step(worktree, opt_views(c.git.command));
        let git = if c.git.update { seq![gx] } else { Seq::<StepView>::empty() };
        let pre = hook_steps(worktree, c.hooks.pre@, Phase::Pre);
        let files = file_plan(worktree, source, c).0;
        assert(files =~= Seq::<StepView>::empty());
        assert(count_kind(files, StepKind::Install) == 0);
        assert(run_plan(worktree, source, c).0 == git + pre + files);
        lemma_count_maybe(c.git.update, gx, StepKind::Install);
        lemma_count_hooks(worktree, c.hooks.pre@, Phase::Pre, StepKind::Install);
        lemma_count_kind_concat(git, pre, StepKind::Install);
        lemma_count_kind_concat(git + pre, files, StepKind::Install);
    }
}


/// Fail-fast over a whole run: a run that ended on step `k` of its plan (the
/// step that failed, or the last one) performed no step after it, so every
/// step it performed, install commands included, belongs to the phase of
/// step `k` or an earlier one. A failing pre hook means nothing is copied
/// and no post hook runs; a failing install means no post hook runs.
/// ([`Bootstrap::resume`] gives, for the run's last step, that the steps of
/// the plan performed are its first `k + 1`, and that a failure ends the
/// run with that failure.)
pub proof fn lemma_a_run_stops_at_the_step_it_ended_on(
    worktree: Seq<char>,
    source: Option<Seq<char>>,
    c: Config,
    k: int,
    done: Seq<(StepView, bool)>,
)
    requires
        0 <= k < run_plan(worktree, source, c).0.len(),
        plan_steps(done) == run_plan(worktree, source, c).0.take(k + 1),
        picks_follow_probes(done),
    ensures
        forall|i: int|
            0 <= i < done.len() ==> rank(phase_of(#[trigger] done[i].0)) <= rank(
                phase_of(run_plan(worktree, source, c).0[k]),
            ),
{
    let plan = run_plan(worktree, source, c).0;
    lemma_phases_run_in_order(worktree, source, c);
    assert forall|i: int| 0 <= i < done.len() implies rank(phase_of(#[trigger] done[i].0)) <= rank(
        phase_of(plan[k]),
    ) by {
        let j = if done[i].1 { i } else { i - 1 };
        assert(done[j].1);
        lemma_plan_steps_hold_plan_entries(done, j);
        let m = choose|m: int| 0 <= m < plan.take(k + 1).len() && #[trigger] plan.take(k + 1)[m] == done[j].0;
        assert(plan[m] == done[j].0);
        if m < k {
            assert(rank(phase_of(plan[m])) <= rank(phase_of(plan[k])));
        }
        if !done[i].1 {
            assert(phase_of(done[i].0) == Phase::Install);
            assert(phase_of(done[j].0) == Phase::Install);
        }
    }
}


/// The copy phase copies what was asked for: with `files` set, exactly those
/// entries; without, the gitignored files matching the configured
/// `patterns`, and only when no patterns are configured the env-file
/// defaults `.env` and `.env.*`.
pub proof fn lemma_copy_takes_the_configured_files_or_patterns(worktree: Seq<char>, source: Seq<char>, c: Config)
    requires
        c.copy.enabled,
        comps(source) != comps(worktree),
    ensures
        file_plan(worktree, Some(source), c).1 is None,
        file_plan(worktree, Some(source), c).0.len() >= 1,
        file_plan(worktree, Some(source), c).0[0] == match c.copy.files {
            Some(f) => StepView::Copy { source, worktree, files: views(f@) },
            None => StepView::Discover {
                source,
                worktree,
                patterns: match c.copy.patterns {
                    Some(p) => views(p@),
                    None => seq![".env"@, ".env.*"@],
                },
            },
        },
{
}

} // verus!
