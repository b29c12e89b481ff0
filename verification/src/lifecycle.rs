//! The bootstrap as a sequence of steps, and the state machine that walks
//! it: the program performs each step and reports what happened; the
//! machine decides whether the run goes on, what it has done so far, and how
//! it ends. The first failure ends the run.

use vstd::prelude::*;

use crate::bootstrap::{
    builtin_rules, command_failure, command_outcome, detect_install, empty_command, empty_command_message,
    first_match, install_candidates, rule_view, CommandReport,
};
use crate::config::InstallRule;
use crate::failure::Failure;
use crate::text::{join, join_strings, owned, views};
use crate::{Summary, Tally};

verus! {

/// The phases of the lifecycle, in the order they run.
#[derive(Debug, PartialEq, Eq, Clone, Copy, Structural)]
pub enum Phase {
    Git,
    Pre,
    Copy,
    Clone,
    Symlink,
    Install,
    Post,
}

/// The position of a phase in the lifecycle.
pub open spec fn rank(p: Phase) -> int {
    match p {
        Phase::Git => 0,
        Phase::Pre => 1,
        Phase::Copy => 2,
        Phase::Clone => 3,
        Phase::Symlink => 4,
        Phase::Install => 5,
        Phase::Post => 6,
    }
}

/// One piece of outside work the bootstrap needs done.
#[derive(Debug, PartialEq, Eq)]
pub enum Step {
    /// Run `argv` in `cwd`; answered with [`Report::Ran`].
    Run { phase: Phase, cwd: String, argv: Vec<String> },
    /// Copy the entries (relative paths or globs) of `source` into
    /// `worktree`; answered with [`Report::Count`] of files copied.
    Copy { source: String, worktree: String, files: Vec<String> },
    /// Copy the gitignored files of `source` whose basename matches one of
    /// `patterns`; answered with [`Report::Count`].
    Discover { source: String, worktree: String, patterns: Vec<String> },
    /// Clone the entries copy-on-write; answered with [`Report::Count`].
    Clone { source: String, worktree: String, files: Vec<String> },
    /// Link the entries; answered with [`Report::Count`] of paths linked.
    Symlink { source: String, worktree: String, files: Vec<String> },
    /// Check that each of `paths` (the install `dirs` inside the worktree)
    /// is a directory; answered with [`Report::Present`], one flag per path.
    CheckDirs { dirs: Vec<String>, paths: Vec<String> },
    /// Find out which install `markers` match in `base`; answered with
    /// [`Report::Present`], one flag per marker.
    Detect { base: String, label: String, markers: Vec<String> },
}

/// A step as plain values.
pub enum StepView {
    Run { phase: Phase, cwd: Seq<char>, argv: Seq<Seq<char>> },
    Copy { source: Seq<char>, worktree: Seq<char>, files: Seq<Seq<char>> },
    Discover { source: Seq<char>, worktree: Seq<char>, patterns: Seq<Seq<char>> },
    Clone { source: Seq<char>, worktree: Seq<char>, files: Seq<Seq<char>> },
    Symlink { source: Seq<char>, worktree: Seq<char>, files: Seq<Seq<char>> },
    CheckDirs { dirs: Seq<Seq<char>>, paths: Seq<Seq<char>> },
    Detect { base: Seq<char>, label: Seq<char>, markers: Seq<Seq<char>> },
}

impl View for Step {
    type V = StepView;

    open spec fn view(&self) -> StepView {
        match self {
            Step::Run { phase, cwd, argv } => StepView::Run { phase: *phase, cwd: cwd@, argv: views(argv@) },
            Step::Copy { source, worktree, files } => StepView::Copy {
                source: source@,
                worktree: worktree@,
                files: views(files@),
            },
            Step::Discover { source, worktree, patterns } => StepView::Discover {
                source: source@,
                worktree: worktree@,
                patterns: views(patterns@),
            },
            Step::Clone { source, worktree, files } => StepView::Clone {
                source: source@,
                worktree: worktree@,
                files: views(files@),
            },
            Step::Symlink { source, worktree, files } => StepView::Symlink {
                source: source@,
                worktree: worktree@,
                files: views(files@),
            },
            Step::CheckDirs { dirs, paths } => StepView::CheckDirs { dirs: views(dirs@), paths: views(paths@) },
            Step::Detect { base, label, markers } => StepView::Detect {
                base: base@,
                label: label@,
                markers: views(markers@),
            },
        }
    }
}

/// The views of a list of steps.
pub open spec fn step_views(steps: Seq<Step>) -> Seq<StepView> {
    steps.map_values(|s: Step| s@)
}

/// The phase a step belongs to.
pub open spec fn phase_of(s: StepView) -> Phase {
    match s {
        StepView::Run { phase, .. } => phase,
        StepView::Copy { .. } => Phase::Copy,
        StepView::Discover { .. } => Phase::Copy,
        StepView::Clone { .. } => Phase::Clone,
        StepView::Symlink { .. } => Phase::Symlink,
        StepView::CheckDirs { .. } => Phase::Install,
        StepView::Detect { .. } => Phase::Install,
    }
}

/// What came back from performing a step.
#[derive(Debug, PartialEq, Eq)]
pub enum Report {
    /// A command ran (or could not be run).
    Ran(CommandReport),
    /// A file operation finished, having handled this many files or paths.
    Count(usize),
    /// One flag per path or marker that was asked about.
    Present(Vec<bool>),
    /// The step could not be carried out.
    Failed(Failure),
}

/// Whether the run goes on or has ended, and how.
#[derive(Debug, PartialEq, Eq)]
pub enum Progress {
    /// Perform [`Bootstrap::current`] next.
    Continue,
    /// The run is over.
    Finished(Result<crate::Summary, Failure>),
}

/// Whether `report` answers the step `cur`: a command is answered by how it
/// ran, a file operation by a count, a directory check or a marker probe by
/// one flag per path or marker; any step may report that it failed.
pub open spec fn fits(cur: StepView, report: Report) -> bool {
    match report {
        Report::Failed(_) => true,
        Report::Ran(_) => cur is Run,
        Report::Count(_) => cur is Copy || cur is Discover || cur is Clone || cur is Symlink,
        Report::Present(v) => match cur {
            StepView::CheckDirs { dirs, .. } => v@.len() == dirs.len(),
            StepView::Detect { markers, .. } => v@.len() == markers.len(),
            _ => false,
        },
    }
}

/// The message for an install directory that does not exist.
pub open spec fn missing_dir_message(dir: Seq<char>) -> Seq<char> {
    "install dir `"@ + dir + "` does not exist in the worktree"@
}

/// The failure for the first directory that is not present, if any.
pub open spec fn missing_dir(dirs: Seq<Seq<char>>, present: Seq<bool>) -> Option<Seq<Seq<char>>>
    decreases present.len(),
{
    if present.len() == 0 || dirs.len() == 0 {
        None
    } else if !present[0] {
        Some(seq![missing_dir_message(dirs[0])])
    } else {
        missing_dir(dirs.drop_first(), present.drop_first())
    }
}

/// The failure that `report` ends the run with, when it reports one.
pub open spec fn report_failure(cur: StepView, report: Report) -> Option<Seq<Seq<char>>> {
    match report {
        Report::Failed(f) => Some(f.causes()),
        Report::Ran(r) => match cur {
            StepView::Run { cwd, argv, .. } => command_failure(cwd, argv, r),
            _ => None,
        },
        Report::Present(v) => match cur {
            StepView::CheckDirs { dirs, .. } => missing_dir(dirs, v@),
            _ => None,
        },
        Report::Count(_) => None,
    }
}

/// What the run has done after step `cur` succeeded with `report`.
pub open spec fn tally_after(t: Tally, cur: StepView, report: Report) -> Tally {
    match cur {
        StepView::Run { phase, argv, .. } => match phase {
            Phase::Git => Tally { git_updated: true, ..t },
            Phase::Install => Tally {
                installed: Some(
                    match t.installed {
                        Some(i) => i,
                        None => Seq::empty(),
                    }.push(join(argv, " "@)),
                ),
                ..t
            },
            Phase::Pre | Phase::Post => Tally { hooks_run: (t.hooks_run + 1) as usize, ..t },
            _ => t,
        },
        StepView::Copy { .. } | StepView::Discover { .. } => match report {
            Report::Count(n) => Tally { copied: Some(n), ..t },
            _ => t,
        },
        StepView::Clone { .. } => match report {
            Report::Count(n) => Tally { cloned: Some(n), ..t },
            _ => t,
        },
        StepView::Symlink { .. } => match report {
            Report::Count(n) => Tally { linked: Some(n), ..t },
            _ => t,
        },
        StepView::CheckDirs { .. } => Tally { installed: Some(Seq::empty()), ..t },
        StepView::Detect { .. } => t,
    }
}

/// How the run goes on from step `k` with tally `t`: past the last step it
/// ends, with the plan's closing failure if there is one; at a command
/// without a program it ends with that failure; otherwise step `k` is next.
pub open spec fn proceeds(
    steps: Seq<StepView>,
    k: int,
    abort: Option<Seq<Seq<char>>>,
    t: Tally,
    p: Progress,
) -> bool {
    if k >= steps.len() {
        match abort {
            Some(c) => p matches Progress::Finished(Err(f)) && f.causes() == c,
            None => p matches Progress::Finished(Ok(s)) && s@ == t,
        }
    } else if steps[k] matches StepView::Run { argv, .. } && argv.len() == 0 {
        p matches Progress::Finished(Err(f)) && f.causes() == seq![empty_command_message()]
    } else {
        p is Continue
    }
}

/// Every marker probe among `steps` asks about exactly `markers`.
pub open spec fn probes_ask(steps: Seq<StepView>, markers: Seq<Seq<char>>) -> bool {
    forall|i: int|
        0 <= i < steps.len() ==> (#[trigger] steps[i] matches StepView::Detect { markers: m, .. } ==> m
            == markers)
}

/// The markers of a run's install rules, in the order they are tried.
pub open spec fn rule_markers(rules: Seq<InstallRule>) -> Seq<Seq<char>> {
    install_candidates(rules).map_values(|c: (Seq<char>, Seq<Seq<char>>)| c.0)
}

/// Every marker probe asks about the markers of the run's install rules.
pub open spec fn probes_match_rules(steps: Seq<StepView>, rules: Seq<InstallRule>) -> bool {
    probes_ask(steps, rule_markers(rules))
}

pub proof fn lemma_probes_concat(a: Seq<StepView>, b: Seq<StepView>, markers: Seq<Seq<char>>)
    requires
        probes_ask(a, markers),
        probes_ask(b, markers),
    ensures
        probes_ask(a + b, markers),
{
    assert forall|i: int| 0 <= i < (a + b).len() implies (#[trigger] (a + b)[i] matches StepView::Detect {
        markers: m,
        ..
    } ==> m == markers) by {
        if i < a.len() {
            assert((a + b)[i] == a[i]);
        } else {
            assert((a + b)[i] == b[i - a.len()]);
        }
    }
}

/// The kinds of step a finished run's summary accounts for.
pub enum StepKind {
    /// The git update command.
    Git,
    /// A pre or post hook.
    Hook,
    /// A copy, explicit or by discovery.
    Copy,
    Clone,
    Symlink,
    /// The install directory check, or an install command.
    Install,
}

pub open spec fn of_kind(s: StepView, k: StepKind) -> bool {
    match k {
        StepKind::Git => s matches StepView::Run { phase: Phase::Git, .. },
        StepKind::Hook => s matches StepView::Run { phase: Phase::Pre, .. } || s matches StepView::Run {
            phase: Phase::Post,
            ..
        },
        StepKind::Copy => s is Copy || s is Discover,
        StepKind::Clone => s is Clone,
        StepKind::Symlink => s is Symlink,
        StepKind::Install => s is CheckDirs || s matches StepView::Run { phase: Phase::Install, .. },
    }
}

/// How many of `steps` are of kind `k`.
pub open spec fn count_kind(steps: Seq<StepView>, k: StepKind) -> nat
    decreases steps.len(),
{
    if steps.len() == 0 {
        0
    } else {
        count_kind(steps.drop_last(), k) + if of_kind(steps.last(), k) {
            1nat
        } else {
            0nat
        }
    }
}

/// What a run that performed `steps`, each successfully, has to show for
/// it: git updated exactly when the update ran, one hook counted per hook,
/// and a copy, clone, link, or install result exactly when that phase ran.
pub open spec fn ran_through(steps: Seq<StepView>, t: Tally) -> bool {
    &&& t.git_updated == (count_kind(steps, StepKind::Git) > 0)
    &&& t.hooks_run == count_kind(steps, StepKind::Hook)
    &&& (t.copied is Some) == (count_kind(steps, StepKind::Copy) > 0)
    &&& (t.cloned is Some) == (count_kind(steps, StepKind::Clone) > 0)
    &&& (t.linked is Some) == (count_kind(steps, StepKind::Symlink) > 0)
    &&& (t.installed is Some) == (count_kind(steps, StepKind::Install) > 0)
}

/// Every marker probe comes after a directory check.
pub open spec fn probes_after_check(steps: Seq<StepView>) -> bool {
    forall|j: int| 0 <= j < steps.len() && (#[trigger] steps[j] is Detect) ==> exists|i: int| 0 <= i < j && steps[i] is CheckDirs
}

pub proof fn lemma_count_kind_concat(a: Seq<StepView>, b: Seq<StepView>, k: StepKind)
    ensures
        count_kind(a + b, k) == count_kind(a, k) + count_kind(b, k),
    decreases b.len(),
{
    if b.len() == 0 {
        assert(a + b =~= a);
    } else {
        lemma_count_kind_concat(a, b.drop_last(), k);
        assert((a + b).drop_last() =~= a + b.drop_last());
        assert((a + b).last() == b.last());
    }
}

/// Steps none of which is of kind `k` count none; steps all of which are
/// count all.
pub proof fn lemma_count_kind_uniform(s: Seq<StepView>, k: StepKind)
    ensures
        (forall|i: int| 0 <= i < s.len() ==> !of_kind(#[trigger] s[i], k)) ==> count_kind(s, k) == 0,
        (forall|i: int| 0 <= i < s.len() ==> of_kind(#[trigger] s[i], k)) ==> count_kind(s, k) == s.len(),
    decreases s.len(),
{
    if s.len() > 0 {
        lemma_count_kind_uniform(s.drop_last(), k);
        assert forall|i: int| 0 <= i < s.drop_last().len() implies s.drop_last()[i] == s[i] by {}
        if forall|i: int| 0 <= i < s.len() ==> !of_kind(#[trigger] s[i], k) {
            assert(!of_kind(s[s.len() - 1], k));
        }
        if forall|i: int| 0 <= i < s.len() ==> of_kind(#[trigger] s[i], k) {
            assert(of_kind(s[s.len() - 1], k));
        }
    }
}

pub proof fn lemma_probes_after_check_concat(a: Seq<StepView>, b: Seq<StepView>)
    requires
        probes_after_check(a),
        probes_after_check(b),
    ensures
        probes_after_check(a + b),
{
    let s = a + b;
    assert forall|j: int| 0 <= j < s.len() && (#[trigger] s[j] is Detect) implies exists|i: int|
        0 <= i < j && s[i] is CheckDirs by {
        if j < a.len() {
            assert(s[j] == a[j]);
            let i = choose|i: int| 0 <= i < j && a[i] is CheckDirs;
            assert(s[i] == a[i]);
        } else {
            assert(s[j] == b[j - a.len()]);
            let i = choose|i: int| 0 <= i < j - a.len() && b[i] is CheckDirs;
            assert(s[i + a.len()] == b[i]);
        }
    }
}

/// One more step, performed successfully, keeps the summary in step with
/// the steps performed.
proof fn lemma_ran_one_more(steps: Seq<StepView>, k: int, t: Tally, report: Report)
    requires
        0 <= k < steps.len(),
        ran_through(steps.take(k), t),
        t.hooks_run <= k,
        k < usize::MAX,
        fits(steps[k], report),
        report_failure(steps[k], report) is None,
    ensures
        ran_through(steps.take(k + 1), tally_after(t, steps[k], report)),
{
    assert(steps.take(k + 1).drop_last() =~= steps.take(k));
    assert(steps.take(k + 1).last() == steps[k]);
}

/// The install command a probe picked, performed successfully, and the
/// probe itself keep the summary in step with the steps performed.
proof fn lemma_ran_probe(steps: Seq<StepView>, k: int, t: Tally, cmd: StepView, report: Report)
    requires
        0 <= k < steps.len(),
        ran_through(steps.take(k), t),
        steps[k] is Detect,
        probes_after_check(steps),
        cmd matches StepView::Run { phase: Phase::Install, .. },
    ensures
        ran_through(steps.take(k + 1), tally_after(t, cmd, report)),
{
    assert(steps.take(k + 1).drop_last() =~= steps.take(k));
    assert(steps.take(k + 1).last() == steps[k]);
    let i = choose|i: int| 0 <= i < k && steps[i] is CheckDirs;
    let pre = steps.take(k);
    assert(pre[i] is CheckDirs);
    assert(pre =~= pre.take(i) + pre.skip(i));
    lemma_count_kind_concat(pre.take(i), pre.skip(i), StepKind::Install);
    assert(pre.skip(i) =~= seq![pre[i]] + pre.skip(i + 1));
    lemma_count_kind_concat(seq![pre[i]], pre.skip(i + 1), StepKind::Install);
    assert(seq![pre[i]].drop_last() =~= Seq::<StepView>::empty());
}

/// The install command a marker probe picks: the command of the first rule
/// whose marker matched, if any.
pub open spec fn chosen(rules: Seq<(Seq<char>, Seq<Seq<char>>)>, cur: StepView, report: Report) -> Option<
    Seq<Seq<char>>,
> {
    match (cur, report) {
        (StepView::Detect { .. }, Report::Present(v)) => first_match(rules + builtin_rules(), v@),
        _ => None,
    }
}

proof fn lemma_missing_dir_skip(dirs: Seq<Seq<char>>, present: Seq<bool>, i: int)
    requires
        0 <= i <= present.len(),
        dirs.len() == present.len(),
        forall|j: int| 0 <= j < i ==> present[j],
    ensures
        missing_dir(dirs, present) == missing_dir(dirs.skip(i), present.skip(i)),
    decreases i,
{
    assert(dirs.skip(0) == dirs);
    assert(present.skip(0) == present);
    if i > 0 {
        lemma_missing_dir_skip(dirs.drop_first(), present.drop_first(), i - 1);
        assert(dirs.drop_first().skip(i - 1) == dirs.skip(i));
        assert(present.drop_first().skip(i - 1) == present.skip(i));
    }
}

/// The failure for the first install directory that is not there.
fn first_missing(dirs: &Vec<String>, present: &Vec<bool>) -> (r: Option<Failure>)
    requires
        dirs@.len() == present@.len(),
    ensures
        match (r, missing_dir(views(dirs@), present@)) {
            (Some(f), Some(c)) => f.causes() == c,
            (None, None) => true,
            _ => false,
        },
{
    let ghost ds = views(dirs@);
    let mut i: usize = 0;
    while i < present.len()
        invariant
            i <= present@.len(),
            dirs@.len() == present@.len(),
            ds == views(dirs@),
            forall|j: int| 0 <= j < i ==> present@[j],
        decreases present@.len() - i,
    {
        if !present[i] {
            proof {
                lemma_missing_dir_skip(ds, present@, i as int);
            }
            assert(ds.skip(i as int)[0] == dirs@[i as int]@);
            let mut m = owned("install dir `");
            m.append(dirs[i].as_str());
            m.append("` does not exist in the worktree");
            return Some(Failure::msg(m));
        }
        i = i + 1;
    }
    proof {
        lemma_missing_dir_skip(ds, present@, present@.len() as int);
    }
    None
}

/// The steps of the plan among those performed: each performed step is
/// paired with whether it is a step of the plan (`true`) or the install
/// command a marker probe picked (`false`).
pub open spec fn plan_steps(done: Seq<(StepView, bool)>) -> Seq<StepView>
    decreases done.len(),
{
    if done.len() == 0 {
        Seq::empty()
    } else if done.last().1 {
        plan_steps(done.drop_last()).push(done.last().0)
    } else {
        plan_steps(done.drop_last())
    }
}

proof fn lemma_plan_steps_push(done: Seq<(StepView, bool)>, s: StepView, in_plan: bool)
    ensures
        plan_steps(done.push((s, in_plan))) == if in_plan {
            plan_steps(done).push(s)
        } else {
            plan_steps(done)
        },
{
    assert(done.push((s, in_plan)).drop_last() == done);
}

/// The install commands among the performed steps, each as the line the
/// summary lists it by.
pub open spec fn install_lines(done: Seq<(StepView, bool)>) -> Seq<Seq<char>>
    decreases done.len(),
{
    if done.len() == 0 {
        Seq::empty()
    } else {
        match done.last().0 {
            StepView::Run { phase: Phase::Install, argv, .. } => install_lines(done.drop_last()).push(
                join(argv, " "@),
            ),
            _ => install_lines(done.drop_last()),
        }
    }
}

/// The summary's install list is the install commands performed, in the
/// order they ran; there is no list only when none ran.
pub open spec fn installs_recorded(installed: Option<Seq<Seq<char>>>, done: Seq<(StepView, bool)>) -> bool {
    match installed {
        Some(l) => l == install_lines(done),
        None => install_lines(done).len() == 0,
    }
}

proof fn lemma_install_kind_split(steps: Seq<StepView>, k: int)
    requires
        0 <= k < steps.len(),
    ensures
        count_kind(steps, StepKind::Install) == count_kind(steps.take(k), StepKind::Install) + (if of_kind(
            steps[k],
            StepKind::Install,
        ) {
            1nat
        } else {
            0nat
        }) + count_kind(steps.skip(k + 1), StepKind::Install),
{
    let a = steps.take(k);
    let b = seq![steps[k]];
    let c = steps.skip(k + 1);
    assert(steps =~= a + b + c);
    lemma_count_kind_concat(a, b, StepKind::Install);
    lemma_count_kind_concat(a + b, c, StepKind::Install);
    assert(b.drop_last() =~= Seq::<StepView>::empty());
    assert(count_kind(Seq::<StepView>::empty(), StepKind::Install) == 0);
}

/// One more step, performed successfully, keeps the install list equal to
/// the install commands performed.
proof fn lemma_recorded_one_more(
    steps: Seq<StepView>,
    k: int,
    t: Tally,
    done: Seq<(StepView, bool)>,
    cur: StepView,
    in_plan: bool,
    report: Report,
)
    requires
        0 <= k < steps.len(),
        installs_recorded(t.installed, done),
        ran_through(steps.take(k), t),
        count_kind(steps, StepKind::Install) <= 1,
        probes_after_check(steps),
        in_plan ==> cur == steps[k],
        !in_plan ==> steps[k] is Detect && cur matches StepView::Run { phase: Phase::Install, .. },
    ensures
        installs_recorded(tally_after(t, cur, report).installed, done.push((cur, in_plan))),
{
    assert(done.push((cur, in_plan)).drop_last() == done);
    assert(done.push((cur, in_plan)).last() == (cur, in_plan));
    lemma_install_kind_split(steps, k);
    if t.installed is None {
        assert(install_lines(done) =~= Seq::<Seq<char>>::empty());
    }
    if !in_plan {
        let i = choose|i: int| 0 <= i < k && steps[i] is CheckDirs;
        lemma_install_kind_split(steps.take(k), i);
        assert(steps.take(k)[i] == steps[i]);
    }
}

/// Each install command among the performed steps comes right after the
/// marker probe of the plan that picked it, and runs in that probe's
/// directory.
pub open spec fn picks_follow_probes(done: Seq<(StepView, bool)>) -> bool {
    forall|i: int|
        0 <= i < done.len() && !(#[trigger] done[i]).1 ==> i > 0 && done[i - 1].1 && done[i - 1].0 is Detect
            && installs_in(done[i].0, done[i - 1].0->Detect_base)
}

/// Whether `s` is an install command run in `dir`.
pub open spec fn installs_in(s: StepView, dir: Seq<char>) -> bool {
    match s {
        StepView::Run { phase: Phase::Install, cwd, .. } => cwd == dir,
        _ => false,
    }
}

proof fn lemma_picks_push(done: Seq<(StepView, bool)>, s: StepView, in_plan: bool)
    requires
        picks_follow_probes(done),
        !in_plan ==> done.len() > 0 && done.last().1 && done.last().0 is Detect && installs_in(
            s,
            done.last().0->Detect_base,
        ),
    ensures
        picks_follow_probes(done.push((s, in_plan))),
{
    let d = done.push((s, in_plan));
    assert forall|i: int| 0 <= i < d.len() && !(#[trigger] d[i]).1 implies i > 0 && d[i - 1].1 && d[i - 1].0 is Detect
        && installs_in(d[i].0, d[i - 1].0->Detect_base) by {
        if i < done.len() {
            assert(d[i] == done[i] && d[i - 1] == done[i - 1]);
        } else {
            assert(d[i - 1] == done.last());
        }
    }
}

/// Every performed step of the plan is among the plan steps performed.
pub proof fn lemma_plan_steps_hold_plan_entries(done: Seq<(StepView, bool)>, i: int)
    requires
        0 <= i < done.len(),
        done[i].1,
    ensures
        plan_steps(done).contains(done[i].0),
    decreases done.len(),
{
    let dl = done.drop_last();
    if i == done.len() - 1 {
        assert(plan_steps(done) == plan_steps(dl).push(done[i].0));
        assert(plan_steps(done)[plan_steps(dl).len() as int] == done[i].0);
    } else {
        assert(dl[i] == done[i]);
        lemma_plan_steps_hold_plan_entries(dl, i);
        let m = choose|m: int| 0 <= m < plan_steps(dl).len() && plan_steps(dl)[m] == done[i].0;
        if done.last().1 {
            assert(plan_steps(done)[m] == done[i].0);
        }
    }
}

/// How many steps of the plan come before index `i` of the performed steps.
pub open spec fn plan_position(done: Seq<(StepView, bool)>, i: int) -> int {
    plan_steps(done.take(i)).len() as int
}

proof fn lemma_plan_steps_take_next(done: Seq<(StepView, bool)>, i: int)
    requires
        0 <= i < done.len(),
    ensures
        plan_steps(done.take(i + 1)) == if done[i].1 {
            plan_steps(done.take(i)).push(done[i].0)
        } else {
            plan_steps(done.take(i))
        },
{
    assert(done.take(i + 1).drop_last() =~= done.take(i));
    assert(done.take(i + 1).last() == done[i]);
}

/// The plan steps among the first `i` performed are the first ones of all
/// the plan steps performed, and there are no more of them than of those
/// among the first `j >= i`.
proof fn lemma_plan_steps_take_prefix(done: Seq<(StepView, bool)>, i: int, j: int)
    requires
        0 <= i <= j <= done.len(),
    ensures
        plan_steps(done.take(i)).len() <= plan_steps(done.take(j)).len(),
        plan_steps(done.take(i)) == plan_steps(done.take(j)).take(plan_steps(done.take(i)).len() as int),
    decreases j - i,
{
    if i == j {
        assert(plan_steps(done.take(i)).take(plan_steps(done.take(i)).len() as int) =~= plan_steps(done.take(i)));
    } else {
        lemma_plan_steps_take_prefix(done, i, j - 1);
        lemma_plan_steps_take_next(done, j - 1);
        let a = plan_steps(done.take(i));
        let b = plan_steps(done.take(j - 1));
        if done[j - 1].1 {
            assert(b.push(done[j - 1].0).take(a.len() as int) =~= b.take(a.len() as int));
        }
    }
}

/// The install phase step by step: each install command performed runs in
/// the directory of the marker probe performed just before it, that probe
/// being the plan step at its plan position; and of two install commands,
/// the later one follows a later probe. So, as the plan probes the listed
/// directories in order, the commands run in the listed order, at most one
/// for each directory.
pub proof fn lemma_install_commands_follow_their_probes(
    plan: Seq<StepView>,
    j: int,
    done: Seq<(StepView, bool)>,
)
    requires
        0 <= j <= plan.len(),
        plan_steps(done) == plan.take(j),
        picks_follow_probes(done),
    ensures
        forall|i: int|
            0 <= i < done.len() && !(#[trigger] done[i]).1 ==> 1 <= plan_position(done, i) <= j && plan[plan_position(
                done,
                i,
            ) - 1] is Detect && installs_in(done[i].0, plan[plan_position(done, i) - 1]->Detect_base),
        forall|i1: int, i2: int|
            0 <= i1 < i2 < done.len() && !(#[trigger] done[i1]).1 && !(#[trigger] done[i2]).1 ==> plan_position(
                done,
                i1,
            ) < plan_position(done, i2),
{
    assert(done.take(done.len() as int) =~= done);
    assert forall|i: int| 0 <= i < done.len() && !(#[trigger] done[i]).1 implies 1 <= plan_position(done, i) <= j
        && plan[plan_position(done, i) - 1] is Detect && installs_in(
        done[i].0,
        plan[plan_position(done, i) - 1]->Detect_base,
    ) by {
        lemma_plan_steps_take_next(done, i - 1);
        lemma_plan_steps_take_prefix(done, i, done.len() as int);
        let p = plan_steps(done.take(i));
        assert(p.last() == done[i - 1].0);
        assert(plan_steps(done).take(p.len() as int) == p);
        assert(plan_steps(done)[p.len() - 1] == p[p.len() - 1]);
    }
    assert forall|i1: int, i2: int|
        0 <= i1 < i2 < done.len() && !(#[trigger] done[i1]).1 && !(#[trigger] done[i2]).1 implies plan_position(
        done,
        i1,
    ) < plan_position(done, i2) by {
        assert(done[i2 - 1].1);
        assert(i1 < i2 - 1);
        lemma_plan_steps_take_prefix(done, i1, i2 - 1);
        lemma_plan_steps_take_next(done, i2 - 1);
    }
}

/// A bootstrap in progress: the steps of the run, which one is being
/// performed, and what has been done so far.
pub struct Bootstrap {
    steps: Vec<Step>,
    abort: Option<Failure>,
    rules: Vec<InstallRule>,
    cursor: usize,
    /// The install command chosen by the marker probe at `cursor`.
    pending: Option<Step>,
    summary: Summary,
    finished: bool,
    /// Every step answered so far, in order, and whether it was a step of
    /// the plan.
    performed: Ghost<Seq<(StepView, bool)>>,
}

impl Bootstrap {
    pub closed spec fn steps_view(&self) -> Seq<StepView> {
        step_views(self.steps@)
    }

    pub closed spec fn abort_view(&self) -> Option<Seq<Seq<char>>> {
        match self.abort {
            Some(f) => Some(f.causes()),
            None => None,
        }
    }

    pub closed spec fn rules_view(&self) -> Seq<(Seq<char>, Seq<Seq<char>>)> {
        self.rules@.map_values(|r: InstallRule| rule_view(r))
    }

    /// The index of the step being performed.
    pub closed spec fn at(&self) -> int {
        self.cursor as int
    }

    /// Every step answered so far, in order, each with whether it is a step
    /// of the plan (`false` for an install command a probe picked).
    pub closed spec fn performed(&self) -> Seq<(StepView, bool)> {
        self.performed@
    }

    /// Whether the step to perform next is an install command a probe
    /// picked, rather than a step of the plan.
    pub closed spec fn installing(&self) -> bool {
        self.pending is Some
    }

    pub closed spec fn is_finished(&self) -> bool {
        self.finished
    }

    /// What the run has done so far.
    pub closed spec fn tally(&self) -> Tally {
        self.summary@
    }

    /// The step to perform next: the install command chosen for the current
    /// directory, or the current step of the plan.
    pub closed spec fn current_view(&self) -> StepView {
        match self.pending {
            Some(p) => p@,
            None => self.steps@[self.cursor as int]@,
        }
    }

    pub closed spec fn wf(&self) -> bool {
        &&& self.cursor <= self.steps@.len()
        &&& self.summary.hooks_run <= self.cursor
        &&& probes_match_rules(step_views(self.steps@), self.rules@)
        &&& probes_after_check(step_views(self.steps@))
        &&& count_kind(step_views(self.steps@), StepKind::Install) <= 1
        &&& !self.finished ==> installs_recorded(self.summary@.installed, self.performed@)
        &&& !self.finished ==> ran_through(step_views(self.steps@).take(self.cursor as int), self.summary@)
        &&& picks_follow_probes(self.performed@)
        &&& !self.finished ==> match self.pending {
            Some(p) => self.performed@.len() > 0 && self.performed@.last() == (
                self.steps@[self.cursor as int]@,
                true,
            ) && installs_in(p@, self.steps@[self.cursor as int]@->Detect_base),
            None => true,
        }
        &&& !self.finished ==> plan_steps(self.performed@) == step_views(self.steps@).take(
            self.cursor + if self.pending is Some { 1int } else { 0int },
        )
        &&& !self.finished ==> self.cursor < self.steps@.len()
        &&& !self.finished ==> match self.pending {
            Some(p) => (p@ matches StepView::Run { phase, argv, .. } && phase == Phase::Install && argv.len()
                > 0) && self.steps@[self.cursor as int]@ is Detect,
            None => !(self.steps@[self.cursor as int]@ matches StepView::Run { argv, .. } && argv.len() == 0),
        }
    }

    /// Ends the run or moves on to the step at `cursor`.
    fn proceed(&mut self) -> (p: Progress)
        requires
            old(self).cursor <= old(self).steps@.len(),
            old(self).summary.hooks_run <= old(self).cursor,
            probes_match_rules(step_views(old(self).steps@), old(self).rules@),
            probes_after_check(step_views(old(self).steps@)),
            ran_through(step_views(old(self).steps@).take(old(self).cursor as int), old(self).summary@),
            plan_steps(old(self).performed@) == step_views(old(self).steps@).take(old(self).cursor as int),
            count_kind(step_views(old(self).steps@), StepKind::Install) <= 1,
            installs_recorded(old(self).summary@.installed, old(self).performed@),
            picks_follow_probes(old(self).performed@),
            old(self).pending is None,
            !old(self).finished,
        ensures
            final(self).performed == old(self).performed,
            proceeds(old(self).steps_view(), old(self).at(), old(self).abort_view(), old(self).tally(), p),
            p matches Progress::Finished(Ok(s)) ==> old(self).abort is None && ran_through(
                old(self).steps_view(),
                s@,
            ) && installs_recorded(s@.installed, old(self).performed@),
            final(self).wf(),
            final(self).steps == old(self).steps,
            final(self).rules == old(self).rules,
            final(self).cursor == old(self).cursor,
            final(self).pending is None,
            p is Continue ==> !final(self).finished && final(self).summary == old(self).summary
                && final(self).abort == old(self).abort,
            !(p is Continue) ==> final(self).finished,
    {
        if self.cursor >= self.steps.len() {
            assert(step_views(self.steps@).take(self.cursor as int) =~= step_views(self.steps@));
            self.finished = true;
            return match self.abort.take() {
                Some(f) => Progress::Finished(Err(f)),
                None => {
                    let mut s = Summary::default();
                    std::mem::swap(&mut s, &mut self.summary);
                    Progress::Finished(Ok(s))
                },
            };
        }
        assert(self.steps@[self.cursor as int]@ == self.steps_view()[self.cursor as int]);
        let empty = match &self.steps[self.cursor] {
            Step::Run { argv, .. } => argv.len() == 0,
            _ => false,
        };
        if empty {
            self.finished = true;
            return Progress::Finished(Err(empty_command()));
        }
        Progress::Continue
    }

    /// Starts a run of `steps`, ending with `abort` if it is set.
    pub(crate) fn start(steps: Vec<Step>, abort: Option<Failure>, rules: Vec<InstallRule>) -> (res: (
        Bootstrap,
        Progress,
    ))
        requires
            probes_match_rules(step_views(steps@), rules@),
            probes_after_check(step_views(steps@)),
            count_kind(step_views(steps@), StepKind::Install) <= 1,
        ensures
            res.0.wf(),
            res.0.performed() == Seq::<(StepView, bool)>::empty(),
            !res.0.installing(),
            res.1 matches Progress::Finished(Ok(s)) ==> abort is None && ran_through(step_views(steps@), s@)
                && installs_recorded(s@.installed, res.0.performed()),
            res.0.steps_view() == step_views(steps@),
            res.0.rules_view() == rules@.map_values(|r: InstallRule| rule_view(r)),
            res.0.at() == 0,
            proceeds(
                step_views(steps@),
                0,
                match abort { Some(f) => Some(f.causes()), None => None },
                crate::nothing_done(),
                res.1,
            ),
            res.1 is Continue ==> !res.0.is_finished() && res.0.tally() == crate::nothing_done()
                && res.0.abort_view() == match abort { Some(f) => Some(f.causes()), None => None }
                && res.0.current_view() == step_views(steps@)[0],
            !(res.1 is Continue) ==> res.0.is_finished(),
    {
        let mut b = Bootstrap {
            steps,
            abort,
            rules,
            cursor: 0,
            pending: None,
            summary: Summary::default(),
            finished: false,
            performed: Ghost(Seq::empty()),
        };
        assert(step_views(b.steps@).take(0) =~= Seq::<StepView>::empty());
        let p = b.proceed();
        (b, p)
    }

    /// The step to perform next.
    pub fn current(&self) -> (s: &Step)
        requires
            self.wf(),
            !self.is_finished(),
        ensures
            s@ == self.current_view(),
    {
        match &self.pending {
            Some(p) => p,
            None => &self.steps[self.cursor],
        }
    }

    /// Records what the current step reported and moves the run on. A
    /// failure ends the run at once; after a marker probe that picked a
    /// command, that command is the next step; otherwise the next step of the
    /// plan is.
    ///
    /// Over a whole run: the steps performed are the plan's, in order, each
    /// marker probe followed by the command it picked; a run that ends, by a
    /// failure or otherwise, has performed no step of the plan after the one
    /// it ended on; and a run that ends successfully shows every step in its
    /// summary ([`ran_through`]), its install list being the install commands
    /// performed, in the order they ran ([`installs_recorded`]).
    pub fn resume(&mut self, report: Report) -> (p: Progress)
        requires
            old(self).wf(),
            !old(self).is_finished(),
            fits(old(self).current_view(), report),
        ensures
            final(self).wf(),
            final(self).steps_view() == old(self).steps_view(),
            final(self).rules_view() == old(self).rules_view(),
            !(p is Continue) ==> final(self).is_finished(),
            p is Continue ==> !final(self).is_finished() && final(self).abort_view() == old(self).abort_view(),
            p matches Progress::Finished(Ok(s)) ==> old(self).abort_view() is None && ran_through(
                old(self).steps_view(),
                s@,
            ) && old(self).at() + 1 == old(self).steps_view().len() && installs_recorded(
                s@.installed,
                final(self).performed(),
            ),
            final(self).performed() == old(self).performed().push((old(self).current_view(), !old(self).installing())),
            picks_follow_probes(final(self).performed()),
            !(p is Continue) ==> plan_steps(final(self).performed()) == old(self).steps_view().take(old(self).at() + 1),
            p is Continue ==> plan_steps(final(self).performed()) == final(self).steps_view().take(
                final(self).at() + if final(self).installing() { 1int } else { 0int },
            ),
            report_failure(old(self).current_view(), report) matches Some(c) ==> (p matches Progress::Finished(
                Err(f),
            ) && f.causes() == c),
            report_failure(old(self).current_view(), report) is None ==> match chosen(
                old(self).rules_view(),
                old(self).current_view(),
                report,
            ) {
                Some(argv) => if argv.len() == 0 {
                    p matches Progress::Finished(Err(f)) && f.causes() == seq![empty_command_message()]
                } else {
                    &&& p is Continue
                    &&& final(self).installing()
                    &&& final(self).at() == old(self).at()
                    &&& final(self).tally() == old(self).tally()
                    &&& final(self).current_view() == (StepView::Run {
                        phase: Phase::Install,
                        cwd: old(self).current_view()->Detect_base,
                        argv,
                    })
                },
                None => true,
            },
            report_failure(old(self).current_view(), report) is None && chosen(
                old(self).rules_view(),
                old(self).current_view(),
                report,
            ) is None ==> {
                &&& proceeds(
                    old(self).steps_view(),
                    old(self).at() + 1,
                    old(self).abort_view(),
                    tally_after(old(self).tally(), old(self).current_view(), report),
                    p,
                )
                &&& p is Continue ==> !final(self).installing() && final(self).at() == old(self).at() + 1 && final(self).tally()
                    == tally_after(old(self).tally(), old(self).current_view(), report)
                    && final(self).current_view() == old(self).steps_view()[old(self).at() + 1]
            },
    {
        let ghost cur = self.current_view();
        proof {
            lemma_picks_push(self.performed@, cur, self.pending is None);
            lemma_plan_steps_push(self.performed@, cur, self.pending is None);
            if self.pending is None {
                assert(step_views(self.steps@).take(self.cursor + 1) == step_views(self.steps@).take(
                    self.cursor as int,
                ).push(cur));
            }
        }
        self.performed = Ghost(self.performed@.push((cur, self.pending is None)));
        let n = self.steps.len();
        let report = match report {
            Report::Failed(f) => {
                self.finished = true;
                return Progress::Finished(Err(f));
            },
            other => other,
        };
        if self.pending.is_some() {
            let step = self.pending.take().unwrap();
            assert(step@ == cur);
            match &step {
                Step::Run { cwd, argv, .. } => match &report {
                    Report::Ran(cr) => {
                        match command_outcome(cwd.as_str(), argv, cr) {
                            Err(f) => {
                                self.finished = true;
                                return Progress::Finished(Err(f));
                            },
                            Ok(()) => {},
                        }
                        self.record_install(argv);
                    },
                    _ => {
                        proof {
                            assert(false);
                        }
                    },
                },
                _ => {
                    proof {
                        assert(false);
                    }
                },
            }
            assert(self.summary@ == tally_after(old(self).tally(), cur, report));
            proof {
                lemma_ran_probe(step_views(self.steps@), self.cursor as int, old(self).tally(), cur, report);
                lemma_recorded_one_more(
                    step_views(self.steps@),
                    self.cursor as int,
                    old(self).tally(),
                    old(self).performed(),
                    cur,
                    false,
                    report,
                );
            }
            self.cursor = self.cursor + 1;
            return self.proceed();
        }
        let k = self.cursor;
        assert(self.steps@[k as int]@ == cur);
        assert(step_views(self.steps@)[k as int] == cur);
        let mut pick: Option<(String, Vec<String>)> = None;
        match &self.steps[k] {
            Step::Run { phase, cwd, argv } => match &report {
                Report::Ran(cr) => {
                    match command_outcome(cwd.as_str(), argv, cr) {
                        Err(f) => {
                            self.finished = true;
                            return Progress::Finished(Err(f));
                        },
                        Ok(()) => {},
                    }
                    match phase {
                        Phase::Git => {
                            self.summary.git_updated = true;
                        },
                        Phase::Pre | Phase::Post => {
                            self.summary.hooks_run = self.summary.hooks_run + 1;
                        },
                        Phase::Install => {
                            let line = join_strings(argv, " ");
                            let mut done = match self.summary.installed.take() {
                                Some(v) => v,
                                None => {
                                    let v = Vec::new();
                                    assert(views(v@) =~= Seq::<Seq<char>>::empty());
                                    v
                                },
                            };
                            let ghost prev = views(done@);
                            done.push(line);
                            assert(views(done@) =~= prev.push(line@));
                            self.summary.installed = Some(done);
                        },
                        _ => {},
                    }
                },
                _ => {
                    proof {
                        assert(false);
                    }
                },
            },
            Step::Copy { .. } | Step::Discover { .. } => match &report {
                Report::Count(c) => {
                    self.summary.copied = Some(*c);
                },
                _ => {
                    proof {
                        assert(false);
                    }
                },
            },
            Step::Clone { .. } => match &report {
                Report::Count(c) => {
                    self.summary.cloned = Some(*c);
                },
                _ => {
                    proof {
                        assert(false);
                    }
                },
            },
            Step::Symlink { .. } => match &report {
                Report::Count(c) => {
                    self.summary.linked = Some(*c);
                },
                _ => {
                    proof {
                        assert(false);
                    }
                },
            },
            Step::CheckDirs { dirs, .. } => match &report {
                Report::Present(v) => {
                    match first_missing(dirs, v) {
                        Some(f) => {
                            self.finished = true;
                            return Progress::Finished(Err(f));
                        },
                        None => {},
                    }
                    let none_yet: Vec<String> = Vec::new();
                    assert(views(none_yet@) =~= Seq::<Seq<char>>::empty());
                    self.summary.installed = Some(none_yet);
                },
                _ => {
                    proof {
                        assert(false);
                    }
                },
            },
            Step::Detect { base, markers, .. } => match &report {
                Report::Present(v) => {
                    assert(views(markers@) == rule_markers(self.rules@));
                    assert(install_candidates(self.rules@).len() == self.rules@.len() + builtin_rules().len());
                    assert(markers@.len() == v@.len());
                    match detect_install(&self.rules, v) {
                        Some(argv) => {
                            pick = Some((owned(base.as_str()), argv));
                        },
                        None => {},
                    }
                },
                _ => {
                    proof {
                        assert(false);
                    }
                },
            },
        }
        match pick {
            Some((base, argv)) => {
                if argv.len() == 0 {
                    self.finished = true;
                    return Progress::Finished(Err(empty_command()));
                }
                proof {
                    let d = old(self).performed();
                    assert(d.push((cur, true)).drop_last() == d);
                    assert(d.push((cur, true)).last() == (cur, true));
                }
                self.pending = Some(Step::Run { phase: Phase::Install, cwd: base, argv });
                return Progress::Continue;
            },
            None => {},
        }
        assert(self.summary@ == tally_after(old(self).tally(), cur, report));
        proof {
            lemma_ran_one_more(step_views(self.steps@), k as int, old(self).tally(), report);
            lemma_recorded_one_more(
                step_views(self.steps@),
                k as int,
                old(self).tally(),
                old(self).performed(),
                cur,
                true,
                report,
            );
        }
        self.cursor = self.cursor + 1;
        self.proceed()
    }

    /// Adds the install command `argv` to what the run did.
    fn record_install(&mut self, argv: &Vec<String>)
        ensures
            final(self).summary@ == (Tally {
                installed: Some(
                    match old(self).summary@.installed {
                        Some(i) => i,
                        None => Seq::empty(),
                    }.push(join(views(argv@), " "@)),
                ),
                ..old(self).summary@
            }),
            final(self).steps == old(self).steps,
            final(self).rules == old(self).rules,
            final(self).abort == old(self).abort,
            final(self).cursor == old(self).cursor,
            final(self).pending == old(self).pending,
            final(self).performed == old(self).performed,
            final(self).finished == old(self).finished,
    {
        let line = join_strings(argv, " ");
        let mut done = match self.summary.installed.take() {
            Some(v) => v,
            None => {
                let v = Vec::new();
                assert(views(v@) =~= Seq::<Seq<char>>::empty());
                v
            },
        };
        let ghost prev = views(done@);
        done.push(line);
        assert(views(done@) =~= prev.push(line@));
        self.summary.installed = Some(done);
    }

    /// Whether `report` answers the current step.
    pub fn accepts(&self, report: &Report) -> (b: bool)
        requires
            self.wf(),
            !self.is_finished(),
        ensures
            b == fits(self.current_view(), *report),
    {
        let cur = self.current();
        match report {
            Report::Failed(_) => true,
            Report::Ran(_) => match cur {
                Step::Run { .. } => true,
                _ => false,
            },
            Report::Count(_) => match cur {
                Step::Copy { .. } | Step::Discover { .. } | Step::Clone { .. } | Step::Symlink { .. } => true,
                _ => false,
            },
            Report::Present(v) => match cur {
                Step::CheckDirs { dirs, .. } => v.len() == dirs.len(),
                Step::Detect { markers, .. } => v.len() == markers.len(),
                _ => false,
            },
        }
    }
}


/// A file operation's result in the summary is the count its step
/// reported: whatever number of entries was configured (a glob may match
/// many paths, a missing path none), a copy, clone, or link step answered
/// with `n` leaves exactly `n` in its field and changes nothing else.
pub proof fn lemma_a_file_operation_reports_its_count(t: Tally, cur: StepView, n: usize)
    ensures
        cur is Copy || cur is Discover ==> tally_after(t, cur, Report::Count(n)) == (Tally { copied: Some(n), ..t }),
        cur is Clone ==> tally_after(t, cur, Report::Count(n)) == (Tally { cloned: Some(n), ..t }),
        cur is Symlink ==> tally_after(t, cur, Report::Count(n)) == (Tally { linked: Some(n), ..t }),
{
}

} // verus!
