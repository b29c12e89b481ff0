//! Decisions behind the worktree file operations, dependency installation,
//! and hooks: pattern checks, the filename glob, install detection, and what
//! a finished command means for the bootstrap.

use vstd::prelude::*;

use crate::config::{CommandConfig, InstallRule};
use crate::failure::Failure;
use crate::lifecycle::{Phase, Step, StepView, step_views};
use crate::paths::join_path;
use crate::paths::{
    comp_ranges, comps, comps_before, comps_place, escapes, lemma_comps_before_irreflexive,
    lemma_comps_before_transitive, path_escapes, pieces, piece_ranges, Place,
};
use crate::text::{
    utf8_lossy, chars_of, join, join_ranges, join_strings, line_ranges, lines, owned, range_texts, ranges_in,
    trim_end, trim_end_range, views,
};

verus! {

// ---------------------------------------------------------------------------
// Filename globs
// ---------------------------------------------------------------------------

/// Whether `name` matches `pattern`, where `*` stands for any run of
/// characters (including none) and every other character for itself.
pub open spec fn glob(pattern: Seq<char>, name: Seq<char>) -> bool
    decreases pattern.len(), name.len(),
{
    if pattern.len() == 0 {
        name.len() == 0
    } else if pattern[0] == '*' {
        glob(pattern.drop_first(), name) || (name.len() > 0 && glob(pattern, name.drop_first()))
    } else {
        name.len() > 0 && name[0] == pattern[0] && glob(pattern.drop_first(), name.drop_first())
    }
}

/// A leading `*` matches exactly when the rest of the pattern matches some
/// suffix of the name.
proof fn lemma_star(p: Seq<char>, n: Seq<char>)
    requires
        p.len() > 0,
        p[0] == '*',
    ensures
        glob(p, n) <==> exists|k: int| 0 <= k <= n.len() && #[trigger] glob(p.drop_first(), n.skip(k)),
    decreases n.len(),
{
    let r = p.drop_first();
    assert(n.skip(0) == n);
    if glob(r, n.skip(0)) {
    }
    if n.len() > 0 {
        let n1 = n.drop_first();
        lemma_star(p, n1);
        if glob(p, n) && !glob(r, n) {
            assert(glob(p, n1));
            let k = choose|k: int| 0 <= k <= n1.len() && #[trigger] glob(r, n1.skip(k));
            assert(n1.skip(k) == n.skip(k + 1));
            assert(glob(r, n.skip(k + 1)));
        }
        if exists|k: int| 0 <= k <= n.len() && #[trigger] glob(r, n.skip(k)) {
            let k = choose|k: int| 0 <= k <= n.len() && #[trigger] glob(r, n.skip(k));
            if k > 0 {
                assert(n1.skip(k - 1) == n.skip(k));
                assert(glob(r, n1.skip(k - 1)));
                assert(glob(p, n1));
            }
        }
    }
}

fn glob_from(p: &Vec<char>, pi: usize, n: &Vec<char>, ni: usize) -> (r: bool)
    requires
        pi <= p@.len(),
        ni <= n@.len(),
    ensures
        r == glob(p@.skip(pi as int), n@.skip(ni as int)),
    decreases p@.len() - pi, n@.len() - ni,
{
    let ghost ps = p@.skip(pi as int);
    let ghost ns = n@.skip(ni as int);
    if pi == p.len() {
        return ni == n.len();
    }
    assert(ps.drop_first() == p@.skip(pi + 1));
    assert(ps[0] == p@[pi as int]);
    if p[pi] == '*' {
        proof {
            lemma_star(ps, ns);
        }
        let next = pi + 1;
        let mut i = ni;
        loop
            invariant
                ni <= i <= n@.len(),
                next == pi + 1,
                next <= p@.len(),
                ps == p@.skip(pi as int),
                ns == n@.skip(ni as int),
                ps.drop_first() == p@.skip(next as int),
                glob(ps, ns) <==> exists|k: int| 0 <= k <= ns.len() && #[trigger] glob(ps.drop_first(), ns.skip(k)),
                forall|k: int| ni <= k < i ==> !glob(p@.skip(next as int), #[trigger] n@.skip(k)),
            decreases n@.len() - i,
        {
            if glob_from(p, next, n, i) {
                assert(ns.skip(i - ni) == n@.skip(i as int));
                assert(glob(ps.drop_first(), ns.skip(i - ni)));
                return true;
            }
            if i == n.len() {
                assert forall|k: int| 0 <= k <= ns.len() implies !#[trigger] glob(ps.drop_first(), ns.skip(k)) by {
                    assert(ns.skip(k) == n@.skip(ni + k));
                    assert(!glob(p@.skip(next as int), n@.skip(ni + k)));
                }
                return false;
            }
            i = i + 1;
        }
    } else {
        if ni < n.len() && n[ni] == p[pi] {
            assert(ns.drop_first() == n@.skip(ni + 1));
            assert(ns[0] == n@[ni as int]);
            glob_from(p, pi + 1, n, ni + 1)
        } else {
            proof {
                if ni < n@.len() {
                    assert(ns[0] == n@[ni as int]);
                }
            }
            false
        }
    }
}

/// Glob match against a filename. Supports `*` (any sequence, including
/// empty); no `?` or character classes. Used to match discovered basenames.
pub fn glob_match(pattern: &str, name: &str) -> (r: bool)
    ensures
        r == glob(pattern@, name@),
{
    let p = chars_of(pattern);
    let n = chars_of(name);
    assert(p@.skip(0) == p@);
    assert(n@.skip(0) == n@);
    glob_from(&p, 0, &n, 0)
}

// ---------------------------------------------------------------------------
// File-operation entries
// ---------------------------------------------------------------------------

/// The message for a pattern that reaches outside the source repo.
pub open spec fn outside_pattern_message(pattern: Seq<char>) -> Seq<char> {
    "file pattern must be relative to the source repo: `"@ + pattern + "`"@
}

/// A file pattern must name something inside the source repo: not empty,
/// not absolute, and without a `..` component.
pub fn validate_relative_pattern(pattern: &str) -> (r: Result<(), Failure>)
    ensures
        r is Ok <==> !escapes(pattern@),
        r matches Err(f) ==> f.causes() == seq![outside_pattern_message(pattern@)],
{
    if path_escapes(pattern) {
        let mut m = owned("file pattern must be relative to the source repo: `");
        m.append(pattern);
        m.append("`");
        return Err(Failure::msg(m));
    }
    Ok(())
}

pub open spec fn git_dir() -> Seq<char> {
    seq!['.', 'g', 'i', 't']
}

/// A matched path that would replace the repository root or its `.git`:
/// no components at all, or `.git` as the first one.
pub open spec fn replaces_git_metadata(relative: Seq<char>) -> bool {
    relative.len() == 0 || pieces(relative)[0] == git_dir()
}

/// A matched path may not be the repository root or lie under `.git`.
pub fn validate_file_operation_match(relative: &str) -> (r: Result<(), Failure>)
    ensures
        r is Ok <==> !replaces_git_metadata(relative@),
        r matches Err(f) ==> f.causes() == seq![
            "file operations cannot replace Git metadata: "@ + relative@,
        ],
{
    let v = chars_of(relative);
    let mut bad = v.len() == 0;
    if !bad {
        let rs = piece_ranges(&v);
        let (lo, hi) = rs[0];
        assert(range_texts(v@, rs@)[0] == v@.subrange(lo as int, hi as int));
        assert(rs@[0].0 <= rs@[0].1 <= v@.len());
        let ghost t = v@.subrange(lo as int, hi as int);
        if hi - lo == 4 && v[lo] == '.' && v[lo + 1] == 'g' && v[lo + 2] == 'i' && v[lo + 3] == 't' {
            assert(t =~= git_dir());
            bad = true;
        } else {
            proof {
                if t == git_dir() {
                    assert(t[0] == v@[lo as int]);
                    assert(t[1] == v@[lo + 1]);
                    assert(t[2] == v@[lo + 2]);
                    assert(t[3] == v@[lo + 3]);
                }
            }
        }
    }
    if bad {
        let mut m = owned("file operations cannot replace Git metadata: ");
        m.append(relative);
        Err(Failure::msg(m))
    } else {
        Ok(())
    }
}

/// Filename globs used by discovery when `[copy]` sets neither `files` nor
/// `patterns`: `.env` and `.env.<anything>`. Both are needed, because the
/// star may match nothing but the dot before it may not.
pub open spec fn default_env_patterns_spec() -> Seq<Seq<char>> {
    seq![".env"@, ".env.*"@]
}

pub fn default_env_patterns() -> (v: Vec<String>)
    ensures
        views(v@) == default_env_patterns_spec(),
{
    let mut v = Vec::new();
    v.push(owned(".env"));
    v.push(owned(".env.*"));
    assert(views(v@) =~= default_env_patterns_spec());
    v
}

// ---------------------------------------------------------------------------
// Command results
// ---------------------------------------------------------------------------

/// How many trailing lines of a failed command's output the error quotes.
pub const FAILURE_TAIL_LINES: usize = 40;

/// The lines of a list that are not blank, each without trailing
/// whitespace, in order.
pub open spec fn nonblank(ls: Seq<Seq<char>>) -> Seq<Seq<char>>
    decreases ls.len(),
{
    if ls.len() == 0 {
        Seq::empty()
    } else if trim_end(ls.last()).len() > 0 {
        nonblank(ls.drop_last()).push(trim_end(ls.last()))
    } else {
        nonblank(ls.drop_last())
    }
}

/// The last [`FAILURE_TAIL_LINES`] non-blank lines of `text`, without
/// trailing whitespace and joined by `\n`, or `None` if it has none.
pub open spec fn tail_of(text: Seq<char>) -> Option<Seq<char>> {
    let ks = nonblank(lines(text));
    if ks.len() == 0 {
        None
    } else {
        let start = if ks.len() > FAILURE_TAIL_LINES { ks.len() - FAILURE_TAIL_LINES } else { 0 };
        Some(join(ks.subrange(start, ks.len() as int), seq!['\n']))
    }
}

/// The last [`FAILURE_TAIL_LINES`] non-blank lines of `text`, or `None` if
/// it has none. Blank lines are dropped so a trailing newline run cannot push
/// the real message out of the window.
pub fn last_lines(text: &str) -> (r: Option<String>)
    ensures
        match (r, tail_of(text@)) {
            (Some(a), Some(b)) => a@ == b,
            (None, None) => true,
            _ => false,
        },
{
    let v = chars_of(text);
    let rs = line_ranges(&v);
    let ghost ls = lines(v@);
    let mut kept: Vec<(usize, usize)> = Vec::new();
    let mut i: usize = 0;
    assert(ls.take(0) == Seq::<Seq<char>>::empty());
    assert(range_texts(v@, kept@) == Seq::<Seq<char>>::empty());
    while i < rs.len()
        invariant
            i <= rs@.len(),
            ranges_in(v@, rs@),
            ranges_in(v@, kept@),
            range_texts(v@, rs@) == ls,
            range_texts(v@, kept@) == nonblank(ls.take(i as int)),
        decreases rs@.len() - i,
    {
        let (lo, hi) = rs[i];
        assert(rs@[i as int].0 <= rs@[i as int].1 <= v@.len());
        assert(ls[i as int] == v@.subrange(lo as int, hi as int));
        let e = trim_end_range(&v, lo, hi);
        assert(ls.take(i + 1).drop_last() == ls.take(i as int));
        assert(ls.take(i + 1).last() == ls[i as int]);
        if e > lo {
            let ghost before = kept@;
            kept.push((lo, e));
            assert(range_texts(v@, kept@) == range_texts(v@, before).push(v@.subrange(lo as int, e as int)));
        }
        i = i + 1;
    }
    assert(ls.take(rs@.len() as int) == ls);
    if kept.len() == 0 {
        return None;
    }
    let start = if kept.len() > FAILURE_TAIL_LINES { kept.len() - FAILURE_TAIL_LINES } else { 0 };
    Some(join_ranges(&v, &kept, start, kept.len(), '\n'))
}

/// The tail of a failed command's output: stderr's, or stdout's when stderr
/// has no non-blank line (some tools print their errors on stdout).
pub open spec fn failure_tail_spec(stdout: Seq<char>, stderr: Seq<char>) -> Option<Seq<char>> {
    match tail_of(stderr) {
        Some(t) => Some(t),
        None => tail_of(stdout),
    }
}

pub fn failure_tail(stdout: &str, stderr: &str) -> (r: Option<String>)
    ensures
        match (r, failure_tail_spec(stdout@, stderr@)) {
            (Some(a), Some(b)) => a@ == b,
            (None, None) => true,
            _ => false,
        },
{
    match last_lines(stderr) {
        Some(t) => Some(t),
        None => last_lines(stdout),
    }
}

/// What came back from running one command.
#[derive(Debug, PartialEq, Eq)]
pub enum CommandReport {
    /// The working directory does not exist (checked before spawning).
    MissingDir,
    /// The program could not be started; `error` is the system's reason.
    SpawnFailed { error: String },
    /// The program ran to completion. `status` is how its exit status reads
    /// (e.g. `exit status: 3`).
    Exited { success: bool, status: String, stdout: String, stderr: String },
}

/// The failure for a command list with no program in it.
pub open spec fn empty_command_message() -> Seq<char> {
    "empty command in config"@
}

pub fn empty_command() -> (f: Failure)
    ensures
        f.causes() == seq![empty_command_message()],
{
    Failure::from_str("empty command in config")
}

/// The failure a command's report amounts to, or `None` when it succeeded.
pub open spec fn command_failure(cwd: Seq<char>, argv: Seq<Seq<char>>, report: CommandReport) -> Option<
    Seq<Seq<char>>,
> {
    let command = join(argv, " "@);
    if argv.len() == 0 {
        Some(seq![empty_command_message()])
    } else {
        match report {
            CommandReport::MissingDir => Some(
                seq![
                    "working directory does not exist: "@ + cwd + " (running `"@ + command + "`)"@,
                ],
            ),
            CommandReport::SpawnFailed { error } => Some(seq!["spawning `"@ + argv[0] + "`"@, error@]),
            CommandReport::Exited { success, status, stdout, stderr } => if success {
                None
            } else {
                match failure_tail_spec(stdout@, stderr@) {
                    Some(tail) => Some(seq!["`"@ + command + "` exited with "@ + status@ + "\n"@ + tail]),
                    None => Some(
                        seq!["`"@ + command + "` exited with "@ + status@ + " without printing anything"@],
                    ),
                }
            },
        }
    }
}

/// What running `argv` in `cwd` means for the bootstrap: `Ok` when it exited
/// successfully, otherwise a failure that says which command failed and
/// quotes the tail of what it printed. A command list without a program is
/// never run, whatever the report says.
pub fn command_outcome(cwd: &str, argv: &Vec<String>, report: &CommandReport) -> (r: Result<(), Failure>)
    ensures
        match (r, command_failure(cwd@, views(argv@), *report)) {
            (Ok(()), None) => true,
            (Err(f), Some(c)) => f.causes() == c,
            _ => false,
        },
{
    if argv.len() == 0 {
        return Err(empty_command());
    }
    let command = join_strings(argv, " ");
    match report {
        CommandReport::MissingDir => {
            let mut m = owned("working directory does not exist: ");
            m.append(cwd);
            m.append(" (running `");
            m.append(command.as_str());
            m.append("`)");
            Err(Failure::msg(m))
        },
        CommandReport::SpawnFailed { error } => {
            let mut m = owned("spawning `");
            m.append(argv[0].as_str());
            m.append("`");
            assert(views(argv@)[0] == argv@[0]@);
            Err(Failure::msg(owned(error.as_str())).context(m))
        },
        CommandReport::Exited { success, status, stdout, stderr } => {
            if *success {
                return Ok(());
            }
            let mut m = owned("`");
            m.append(command.as_str());
            m.append("` exited with ");
            m.append(status.as_str());
            match failure_tail(stdout.as_str(), stderr.as_str()) {
                Some(tail) => {
                    m.append("\n");
                    m.append(tail.as_str());
                },
                None => {
                    m.append(" without printing anything");
                },
            }
            Err(Failure::msg(m))
        },
    }
}


// ---------------------------------------------------------------------------
// Dependency installation
// ---------------------------------------------------------------------------

/// The default `[git] update` command.
pub open spec fn default_git_update_spec() -> Seq<Seq<char>> {
    seq!["git"@, "fetch"@, "--all"@, "--prune"@]
}

pub fn default_git_update() -> (v: Vec<String>)
    ensures
        views(v@) == default_git_update_spec(),
{
    let mut v = Vec::new();
    v.push(owned("git"));
    v.push(owned("fetch"));
    v.push(owned("--all"));
    v.push(owned("--prune"));
    assert(views(v@) =~= default_git_update_spec());
    v
}

/// An install rule as plain text: its marker and its command.
pub open spec fn rule_view(r: InstallRule) -> (Seq<char>, Seq<Seq<char>>) {
    (r.marker@, views(r.command@))
}

/// Built-in install rules, checked *after* any user-defined rules. The first
/// matching marker wins, so more specific lockfiles precede generic
/// manifests. A marker `*.ext` matches any file with that extension.
pub open spec fn builtin_rules() -> Seq<(Seq<char>, Seq<Seq<char>>)> {
    seq![
        ("bun.lockb"@, seq!["bun"@, "install"@]),
        ("pnpm-lock.yaml"@, seq!["pnpm"@, "install"@, "--frozen-lockfile"@]),
        ("yarn.lock"@, seq!["yarn"@, "install"@, "--frozen-lockfile"@]),
        ("package-lock.json"@, seq!["npm"@, "ci"@]),
        ("deno.lock"@, seq!["deno"@, "install"@]),
        ("package.json"@, seq!["npm"@, "install"@]),
        ("Cargo.toml"@, seq!["cargo"@, "fetch"@]),
        ("go.mod"@, seq!["go"@, "mod"@, "download"@]),
        ("uv.lock"@, seq!["uv"@, "sync"@]),
        ("poetry.lock"@, seq!["poetry"@, "install"@]),
        ("Pipfile.lock"@, seq!["pipenv"@, "install"@, "--dev"@]),
        ("requirements.txt"@, seq!["pip"@, "install"@, "-r"@, "requirements.txt"@]),
        ("Gemfile"@, seq!["bundle"@, "install"@]),
        ("composer.json"@, seq!["composer"@, "install"@]),
        ("pom.xml"@, seq!["mvn"@, "install"@, "-DskipTests"@]),
        ("build.gradle.kts"@, seq!["gradle"@, "build"@, "-x"@, "test"@]),
        ("build.gradle"@, seq!["gradle"@, "build"@, "-x"@, "test"@]),
        ("build.sbt"@, seq!["sbt"@, "update"@]),
        ("*.sln"@, seq!["dotnet"@, "restore"@]),
        ("*.csproj"@, seq!["dotnet"@, "restore"@]),
        ("vcpkg.json"@, seq!["vcpkg"@, "install"@]),
        ("conanfile.txt"@, seq!["conan"@, "install"@, "."@]),
        ("conanfile.py"@, seq!["conan"@, "install"@, "."@]),
        ("Package.swift"@, seq!["swift"@, "package"@, "resolve"@]),
        ("Podfile"@, seq!["pod"@, "install"@]),
        ("pubspec.yaml"@, seq!["dart"@, "pub"@, "get"@]),
        ("mix.exs"@, seq!["mix"@, "deps.get"@]),
        ("rebar.config"@, seq!["rebar3"@, "get-deps"@]),
        ("stack.yaml"@, seq!["stack"@, "build"@, "--only-dependencies"@]),
        ("cabal.project"@, seq!["cabal"@, "build"@, "--only-dependencies"@]),
        ("renv.lock"@, seq!["Rscript"@, "-e"@, "renv::restore(prompt = FALSE)"@]),
        ("cpanfile"@, seq!["cpanm"@, "--installdeps"@, "."@]),
        ("deps.edn"@, seq!["clojure"@, "-P"@]),
        ("project.clj"@, seq!["lein"@, "deps"@]),
        ("Project.toml"@, seq!["julia"@, "--project"@, "-e"@, "using Pkg; Pkg.instantiate()"@]),
        ("shard.yml"@, seq!["shards"@, "install"@])
    ]
}

fn push_rule(v: &mut Vec<InstallRule>, marker: &str, command: Vec<String>)
    ensures
        final(v)@ == old(v)@.push(InstallRule { marker: final(v)@.last().marker, command }),
        final(v)@.last().marker@ == marker@,
{
    v.push(InstallRule { marker: owned(marker), command });
}

fn argv2(a: &str, b: &str) -> (c: Vec<String>)
    ensures
        views(c@) == seq![a@, b@],
{
    let mut c = Vec::new();
    c.push(owned(a));
    c.push(owned(b));
    assert(views(c@) =~= seq![a@, b@]);
    c
}

fn argv3(a: &str, b: &str, d: &str) -> (c: Vec<String>)
    ensures
        views(c@) == seq![a@, b@, d@],
{
    let mut c = Vec::new();
    c.push(owned(a));
    c.push(owned(b));
    c.push(owned(d));
    assert(views(c@) =~= seq![a@, b@, d@]);
    c
}

fn argv4(a: &str, b: &str, d: &str, e: &str) -> (c: Vec<String>)
    ensures
        views(c@) == seq![a@, b@, d@, e@],
{
    let mut c = Vec::new();
    c.push(owned(a));
    c.push(owned(b));
    c.push(owned(d));
    c.push(owned(e));
    assert(views(c@) =~= seq![a@, b@, d@, e@]);
    c
}

/// The built-in rules, in order.
#[verifier::rlimit(100)]
pub fn builtin_install_rules() -> (v: Vec<InstallRule>)
    ensures
        v@.map_values(|r: InstallRule| rule_view(r)) == builtin_rules(),
{
    let mut v: Vec<InstallRule> = Vec::new();
    push_rule(&mut v, "bun.lockb", argv2("bun", "install"));
    push_rule(&mut v, "pnpm-lock.yaml", argv3("pnpm", "install", "--frozen-lockfile"));
    push_rule(&mut v, "yarn.lock", argv3("yarn", "install", "--frozen-lockfile"));
    push_rule(&mut v, "package-lock.json", argv2("npm", "ci"));
    push_rule(&mut v, "deno.lock", argv2("deno", "install"));
    push_rule(&mut v, "package.json", argv2("npm", "install"));
    push_rule(&mut v, "Cargo.toml", argv2("cargo", "fetch"));
    push_rule(&mut v, "go.mod", argv3("go", "mod", "download"));
    push_rule(&mut v, "uv.lock", argv2("uv", "sync"));
    push_rule(&mut v, "poetry.lock", argv2("poetry", "install"));
    push_rule(&mut v, "Pipfile.lock", argv3("pipenv", "install", "--dev"));
    push_rule(&mut v, "requirements.txt", argv4("pip", "install", "-r", "requirements.txt"));
    push_rule(&mut v, "Gemfile", argv2("bundle", "install"));
    push_rule(&mut v, "composer.json", argv2("composer", "install"));
    push_rule(&mut v, "pom.xml", argv3("mvn", "install", "-DskipTests"));
    push_rule(&mut v, "build.gradle.kts", argv4("gradle", "build", "-x", "test"));
    push_rule(&mut v, "build.gradle", argv4("gradle", "build", "-x", "test"));
    push_rule(&mut v, "build.sbt", argv2("sbt", "update"));
    push_rule(&mut v, "*.sln", argv2("dotnet", "restore"));
    push_rule(&mut v, "*.csproj", argv2("dotnet", "restore"));
    push_rule(&mut v, "vcpkg.json", argv2("vcpkg", "install"));
    push_rule(&mut v, "conanfile.txt", argv3("conan", "install", "."));
    push_rule(&mut v, "conanfile.py", argv3("conan", "install", "."));
    push_rule(&mut v, "Package.swift", argv3("swift", "package", "resolve"));
    push_rule(&mut v, "Podfile", argv2("pod", "install"));
    push_rule(&mut v, "pubspec.yaml", argv3("dart", "pub", "get"));
    push_rule(&mut v, "mix.exs", argv2("mix", "deps.get"));
    push_rule(&mut v, "rebar.config", argv2("rebar3", "get-deps"));
    push_rule(&mut v, "stack.yaml", argv3("stack", "build", "--only-dependencies"));
    push_rule(&mut v, "cabal.project", argv3("cabal", "build", "--only-dependencies"));
    push_rule(&mut v, "renv.lock", argv3("Rscript", "-e", "renv::restore(prompt = FALSE)"));
    push_rule(&mut v, "cpanfile", argv3("cpanm", "--installdeps", "."));
    push_rule(&mut v, "deps.edn", argv2("clojure", "-P"));
    push_rule(&mut v, "project.clj", argv2("lein", "deps"));
    push_rule(&mut v, "Project.toml", argv4("julia", "--project", "-e", "using Pkg; Pkg.instantiate()"));
    push_rule(&mut v, "shard.yml", argv2("shards", "install"));
    assert(v@.map_values(|r: InstallRule| rule_view(r)) =~= builtin_rules());
    v
}

/// Copies of a list of strings.
pub fn clone_strings(v: &Vec<String>) -> (c: Vec<String>)
    ensures
        views(c@) == views(v@),
{
    let mut c: Vec<String> = Vec::new();
    let mut i: usize = 0;
    while i < v.len()
        invariant
            i <= v@.len(),
            c@.len() == i,
            forall|k: int| 0 <= k < i ==> #[trigger] c@[k]@ == v@[k]@,
        decreases v@.len() - i,
    {
        c.push(owned(v[i].as_str()));
        i = i + 1;
    }
    assert(views(c@) =~= views(v@));
    c
}

/// Copies of a list of install rules.
pub fn clone_rules(v: &Vec<InstallRule>) -> (c: Vec<InstallRule>)
    ensures
        c@.map_values(|r: InstallRule| rule_view(r)) == v@.map_values(|r: InstallRule| rule_view(r)),
{
    let mut c: Vec<InstallRule> = Vec::new();
    let mut i: usize = 0;
    while i < v.len()
        invariant
            i <= v@.len(),
            c@.len() == i,
            forall|k: int| 0 <= k < i ==> #[trigger] rule_view(c@[k]) == rule_view(v@[k]),
        decreases v@.len() - i,
    {
        c.push(InstallRule { marker: owned(v[i].marker.as_str()), command: clone_strings(&v[i].command) });
        i = i + 1;
    }
    assert(c@.map_values(|r: InstallRule| rule_view(r)) =~= v@.map_values(|r: InstallRule| rule_view(r)));
    c
}

/// Every install rule in the order it is tried: the repo's own rules
/// first, so they can add a language or override a built-in, then the
/// built-ins.
pub open spec fn install_candidates(rules: Seq<InstallRule>) -> Seq<(Seq<char>, Seq<Seq<char>>)> {
    rules.map_values(|r: InstallRule| rule_view(r)) + builtin_rules()
}

/// The command of the first candidate whose marker matched.
pub open spec fn first_match(cands: Seq<(Seq<char>, Seq<Seq<char>>)>, matched: Seq<bool>) -> Option<
    Seq<Seq<char>>,
>
    decreases cands.len(),
{
    if cands.len() == 0 || matched.len() == 0 {
        None
    } else if matched[0] {
        Some(cands[0].1)
    } else {
        first_match(cands.drop_first(), matched.drop_first())
    }
}

proof fn lemma_first_match_skip(cands: Seq<(Seq<char>, Seq<Seq<char>>)>, matched: Seq<bool>, i: int)
    requires
        0 <= i < cands.len(),
        cands.len() == matched.len(),
        forall|j: int| 0 <= j < i ==> !matched[j],
    ensures
        first_match(cands, matched) == first_match(cands.skip(i), matched.skip(i)),
    decreases i,
{
    assert(cands.skip(0) == cands);
    assert(matched.skip(0) == matched);
    if i > 0 {
        lemma_first_match_skip(cands.drop_first(), matched.drop_first(), i - 1);
        assert(cands.drop_first().skip(i - 1) == cands.skip(i));
        assert(matched.drop_first().skip(i - 1) == matched.skip(i));
    }
}

proof fn lemma_first_match_none(cands: Seq<(Seq<char>, Seq<Seq<char>>)>, matched: Seq<bool>)
    requires
        cands.len() == matched.len(),
        forall|j: int| 0 <= j < matched.len() ==> !matched[j],
    ensures
        first_match(cands, matched) is None,
    decreases cands.len(),
{
    if cands.len() > 0 {
        lemma_first_match_none(cands.drop_first(), matched.drop_first());
    }
}

/// The markers of every install rule, in the order they are tried; the
/// caller answers, for each, whether it matches in the directory.
pub fn install_markers(rules: &Vec<InstallRule>) -> (m: Vec<String>)
    ensures
        views(m@) == install_candidates(rules@).map_values(|c: (Seq<char>, Seq<Seq<char>>)| c.0),
{
    let builtins = builtin_install_rules();
    let ghost cands = install_candidates(rules@);
    let mut m: Vec<String> = Vec::new();
    let mut i: usize = 0;
    while i < rules.len()
        invariant
            i <= rules@.len(),
            cands == install_candidates(rules@),
            m@.len() == i,
            forall|k: int| 0 <= k < i ==> #[trigger] m@[k]@ == cands[k].0,
        decreases rules@.len() - i,
    {
        m.push(owned(rules[i].marker.as_str()));
        i = i + 1;
    }
    let mut j: usize = 0;
    while j < builtins.len()
        invariant
            j <= builtins@.len(),
            cands == install_candidates(rules@),
            builtins@.map_values(|r: InstallRule| rule_view(r)) == builtin_rules(),
            m@.len() == rules@.len() + j,
            forall|k: int| 0 <= k < rules@.len() + j ==> #[trigger] m@[k]@ == cands[k].0,
        decreases builtins@.len() - j,
    {
        assert(cands[rules@.len() + j] == builtin_rules()[j as int]);
        m.push(owned(builtins[j].marker.as_str()));
        j = j + 1;
    }
    assert(views(m@) =~= cands.map_values(|c: (Seq<char>, Seq<Seq<char>>)| c.0));
    m
}

/// Whether some name ends with `suffix`.
pub open spec fn some_ends_with(names: Seq<Seq<char>>, suffix: Seq<char>) -> bool {
    exists|i: int| 0 <= i < names.len() && crate::text::ends_with(#[trigger] names[i], suffix)
}

/// Whether an install marker matches in a directory. A `*.ext` marker
/// matches when some entry of the directory listing (`None` when the
/// directory cannot be read) ends in `.ext`; any other marker is a path
/// that matches when it exists.
pub open spec fn marker_hit(marker: Seq<char>, listing: Option<Seq<Seq<char>>>, exists: bool) -> bool {
    if marker.len() >= 2 && marker[0] == '*' && marker[1] == '.' {
        match listing {
            Some(names) => some_ends_with(names, marker.skip(1)),
            None => false,
        }
    } else {
        exists
    }
}

fn any_ends_with(names: &Vec<String>, suffix: &Vec<char>) -> (b: bool)
    ensures
        b == some_ends_with(views(names@), suffix@),
{
    let mut i: usize = 0;
    while i < names.len()
        invariant
            i <= names@.len(),
            forall|j: int| 0 <= j < i ==> !crate::text::ends_with(#[trigger] views(names@)[j], suffix@),
        decreases names@.len() - i,
    {
        assert(views(names@)[i as int] == names@[i as int]@);
        if crate::text::has_suffix(names[i].as_str(), suffix) {
            return true;
        }
        i = i + 1;
    }
    false
}

pub fn marker_matches(marker: &str, listing: &Option<Vec<String>>, exists: bool) -> (b: bool)
    ensures
        b == marker_hit(marker@, match listing { Some(v) => Some(views(v@)), None => None }, exists),
{
    let mv = chars_of(marker);
    if mv.len() >= 2 && mv[0] == '*' && mv[1] == '.' {
        let mut suffix: Vec<char> = Vec::new();
        let mut k: usize = 1;
        while k < mv.len()
            invariant
                1 <= k <= mv@.len(),
                suffix@ == mv@.subrange(1, k as int),
            decreases mv@.len() - k,
        {
            suffix.push(mv[k]);
            assert(mv@.subrange(1, k + 1) == mv@.subrange(1, k as int).push(mv@[k as int]));
            k = k + 1;
        }
        assert(suffix@ == marker@.skip(1));
        match listing {
            Some(names) => any_ends_with(names, &suffix),
            None => false,
        }
    } else {
        exists
    }
}

/// Decide which install command applies in a directory, without running
/// anything. `matched[i]` says whether the marker of the i-th rule of
/// [`install_markers`] matches there; the first matching rule wins, and
/// `None` means nothing matched.
pub fn detect_install(rules: &Vec<InstallRule>, matched: &Vec<bool>) -> (r: Option<Vec<String>>)
    requires
        matched@.len() == rules@.len() + builtin_rules().len(),
    ensures
        match (r, first_match(install_candidates(rules@), matched@)) {
            (Some(c), Some(d)) => views(c@) == d,
            (None, None) => true,
            _ => false,
        },
{
    let builtins = builtin_install_rules();
    let ghost cands = install_candidates(rules@);
    assert(cands.len() == matched@.len());
    let mut i: usize = 0;
    while i < rules.len()
        invariant
            i <= rules@.len(),
            cands == install_candidates(rules@),
            cands.len() == matched@.len(),
            matched@.len() == rules@.len() + builtin_rules().len(),
            forall|j: int| 0 <= j < i ==> !matched@[j],
        decreases rules@.len() - i,
    {
        if matched[i] {
            proof {
                lemma_first_match_skip(cands, matched@, i as int);
            }
            assert(cands.skip(i as int)[0] == cands[i as int]);
            return Some(clone_strings(&rules[i].command));
        }
        i = i + 1;
    }
    let n = matched.len();
    let mut j: usize = 0;
    while j < builtins.len()
        invariant
            j <= builtins@.len(),
            n == matched@.len(),
            cands == install_candidates(rules@),
            cands.len() == matched@.len(),
            matched@.len() == rules@.len() + builtins@.len(),
            builtins@.map_values(|r: InstallRule| rule_view(r)) == builtin_rules(),
            forall|k: int| 0 <= k < rules@.len() + j ==> !matched@[k],
        decreases builtins@.len() - j,
    {
        if matched[rules.len() + j] {
            let ghost at = rules@.len() + j;
            proof {
                lemma_first_match_skip(cands, matched@, at);
            }
            assert(cands.skip(at)[0] == cands[at]);
            assert(cands[at] == builtin_rules()[j as int]);
            assert(rule_view(builtins@[j as int]) == builtin_rules()[j as int]);
            return Some(clone_strings(&builtins[j].command));
        }
        j = j + 1;
    }
    proof {
        lemma_first_match_none(cands, matched@);
    }
    None
}

// ---------------------------------------------------------------------------
// Planning the command phases
// ---------------------------------------------------------------------------

/// The `[git] update` step: the configured command, or `git fetch --all
/// --prune`, run at the worktree root.
pub open spec fn git_step(worktree: Seq<char>, command: Option<Seq<Seq<char>>>) -> StepView {
    StepView::Run {
        phase: Phase::Git,
        cwd: worktree,
        argv: match command {
            Some(c) => c,
            None => default_git_update_spec(),
        },
    }
}

/// Update git before the rest of the bootstrap (defaults to `git fetch`).
pub fn git_update(worktree: &str, command: &Option<Vec<String>>) -> (s: Step)
    ensures
        s@ == git_step(worktree@, match command { Some(c) => Some(views(c@)), None => None }),
{
    let argv = match command {
        Some(c) => clone_strings(c),
        None => default_git_update(),
    };
    Step::Run { phase: Phase::Git, cwd: owned(worktree), argv }
}

/// The step of one hook: its command, run in its `dir` inside the worktree,
/// or at the worktree root.
pub open spec fn hook_step(worktree: Seq<char>, hook: CommandConfig, phase: Phase) -> StepView {
    StepView::Run {
        phase,
        cwd: match hook.dir {
            Some(d) => join_path(worktree, d@),
            None => worktree,
        },
        argv: views(hook.command@),
    }
}

pub open spec fn hook_steps(worktree: Seq<char>, hooks: Seq<CommandConfig>, phase: Phase) -> Seq<StepView> {
    hooks.map_values(|h: CommandConfig| hook_step(worktree, h, phase))
}

/// The steps that run a list of hook commands, one per hook and in the
/// order they are listed.
pub fn run_hooks(worktree: &str, hooks: &Vec<CommandConfig>, phase: Phase) -> (r: Vec<Step>)
    ensures
        step_views(r@) == hook_steps(worktree@, hooks@, phase),
{
    let mut r: Vec<Step> = Vec::new();
    let mut i: usize = 0;
    while i < hooks.len()
        invariant
            i <= hooks@.len(),
            r@.len() == i,
            forall|k: int| 0 <= k < i ==> #[trigger] r@[k]@ == hook_step(worktree@, hooks@[k], phase),
        decreases hooks@.len() - i,
    {
        let hook = &hooks[i];
        let cwd = match &hook.dir {
            Some(d) => crate::paths::join(worktree, d.as_str()),
            None => owned(worktree),
        };
        r.push(Step::Run { phase, cwd, argv: clone_strings(&hook.command) });
        i = i + 1;
    }
    assert(step_views(r@) =~= hook_steps(worktree@, hooks@, phase));
    r
}

/// The install directories: the configured ones, or the worktree root.
pub open spec fn install_dirs(dirs: Option<Seq<Seq<char>>>) -> Seq<Seq<char>> {
    match dirs {
        Some(d) => d,
        None => seq![seq!['.']],
    }
}

/// The install steps: first check that every directory exists, so a typo in
/// the last entry cannot leave the earlier packages half-installed; then, in
/// each directory in turn, find the first matching rule.
pub open spec fn install_steps(worktree: Seq<char>, rules: Seq<InstallRule>, dirs: Option<Seq<Seq<char>>>) -> Seq<
    StepView,
> {
    let ds = install_dirs(dirs);
    let markers = install_candidates(rules).map_values(|c: (Seq<char>, Seq<Seq<char>>)| c.0);
    seq![StepView::CheckDirs { dirs: ds, paths: ds.map_values(|d: Seq<char>| join_path(worktree, d)) }]
        + ds.map_values(
        |d: Seq<char>| StepView::Detect { base: join_path(worktree, d), label: d, markers },
    )
}

/// Install dependencies inside the worktree: detection runs independently
/// in each of `dirs` (default: the root), and within a directory the first
/// matching marker wins.
pub fn install_deps(worktree: &str, rules: &Vec<InstallRule>, dirs: &Option<Vec<String>>) -> (r: Vec<Step>)
    ensures
        step_views(r@) == install_steps(
            worktree@,
            rules@,
            match dirs { Some(d) => Some(views(d@)), None => None },
        ),
{
    let ds = match dirs {
        Some(d) => clone_strings(d),
        None => {
            let mut v = Vec::new();
            v.push(owned("."));
            assert("."@ =~= seq!['.']) by {
                reveal_strlit(".");
            }
            assert(views(v@) =~= seq![seq!['.']]);
            v
        },
    };
    let ghost dsv = views(ds@);
    assert(dsv == install_dirs(match dirs { Some(d) => Some(views(d@)), None => None }));
    let markers = install_markers(rules);
    let mut paths: Vec<String> = Vec::new();
    let mut detects: Vec<Step> = Vec::new();
    let mut i: usize = 0;
    while i < ds.len()
        invariant
            i <= ds@.len(),
            dsv == views(ds@),
            paths@.len() == i,
            detects@.len() == i,
            forall|k: int| 0 <= k < i ==> #[trigger] paths@[k]@ == join_path(worktree@, dsv[k]),
            forall|k: int| 0 <= k < i ==> #[trigger] detects@[k]@ == (StepView::Detect {
                base: join_path(worktree@, dsv[k]),
                label: dsv[k],
                markers: views(markers@),
            }),
        decreases ds@.len() - i,
    {
        assert(dsv[i as int] == ds@[i as int]@);
        paths.push(crate::paths::join(worktree, ds[i].as_str()));
        detects.push(
            Step::Detect {
                base: crate::paths::join(worktree, ds[i].as_str()),
                label: owned(ds[i].as_str()),
                markers: clone_strings(&markers),
            },
        );
        i = i + 1;
    }
    let ghost pathsv = views(paths@);
    let ghost detectsv = step_views(detects@);
    assert(pathsv =~= dsv.map_values(|d: Seq<char>| join_path(worktree@, d)));
    let ghost markersv = install_candidates(rules@).map_values(|c: (Seq<char>, Seq<Seq<char>>)| c.0);
    assert(views(markers@) == markersv);
    assert(detectsv =~= dsv.map_values(
        |d: Seq<char>| StepView::Detect { base: join_path(worktree@, d), label: d, markers: markersv },
    ));
    let mut r: Vec<Step> = Vec::new();
    r.push(Step::CheckDirs { dirs: ds, paths });
    assert(r@[0]@ == StepView::CheckDirs { dirs: dsv, paths: pathsv });
    let ghost first = r@;
    let ghost ds_steps = detects@;
    r.append(&mut detects);
    assert(step_views(r@) =~= step_views(first) + step_views(ds_steps));
    let ghost want = install_steps(worktree@, rules@, match dirs { Some(d) => Some(views(d@)), None => None });
    assert(step_views(r@) =~= want);
    r
}

// ---------------------------------------------------------------------------
// Selecting the entries of an explicit file operation
// ---------------------------------------------------------------------------

/// The relative path filed for the components `c` among the first `n`
/// matches `(relative, path)`: that of the first match with those
/// components.
pub open spec fn first_relative(raw: Seq<(Seq<char>, Seq<char>)>, n: int, c: Seq<Seq<char>>) -> Option<Seq<char>>
    decreases n,
{
    if n <= 0 {
        None
    } else {
        match first_relative(raw, n - 1, c) {
            Some(r) => Some(r),
            None => if comps(raw[n - 1].0) == c {
                Some(raw[n - 1].0)
            } else {
                None
            },
        }
    }
}

/// The path kept for the components `c` among the first `n` matches: that
/// of the last match with those components.
pub open spec fn last_path(raw: Seq<(Seq<char>, Seq<char>)>, n: int, c: Seq<Seq<char>>) -> Option<Seq<char>>
    decreases n,
{
    if n <= 0 {
        None
    } else if comps(raw[n - 1].0) == c {
        Some(raw[n - 1].1)
    } else {
        last_path(raw, n - 1, c)
    }
}

/// The components of the relative paths of a list of matches.
pub open spec fn match_comps(s: Seq<(Seq<char>, Seq<char>)>) -> Seq<Seq<Seq<char>>> {
    s.map_values(|e: (Seq<char>, Seq<char>)| comps(e.0))
}

/// Each list of components sorts before the next ones.
pub open spec fn increasing(cs: Seq<Seq<Seq<char>>>) -> bool {
    forall|i: int, j: int| 0 <= i < j < cs.len() ==> comps_before(#[trigger] cs[i], #[trigger] cs[j])
}

/// `out` is what the first `n` matches amount to: every path matched once,
/// in path order, under the relative path it was first matched as and the
/// path it was last matched as.
pub open spec fn ordered_prefix(raw: Seq<(Seq<char>, Seq<char>)>, n: int, out: Seq<(Seq<char>, Seq<char>)>) -> bool {
    &&& increasing(match_comps(out))
    &&& forall|k: int|
        0 <= k < out.len() ==> first_relative(raw, n, #[trigger] match_comps(out)[k]) == Some(out[k].0)
            && last_path(raw, n, match_comps(out)[k]) == Some(out[k].1)
    &&& forall|i: int| 0 <= i < n ==> match_comps(out).contains(comps(#[trigger] raw[i].0))
}

/// `out` is what the matches `raw` amount to (see [`ordered_prefix`]).
pub open spec fn ordered_matches(raw: Seq<(Seq<char>, Seq<char>)>, out: Seq<(Seq<char>, Seq<char>)>) -> bool {
    ordered_prefix(raw, raw.len() as int, out)
}

proof fn lemma_unmatched(raw: Seq<(Seq<char>, Seq<char>)>, n: int, c: Seq<Seq<char>>)
    requires
        0 <= n <= raw.len(),
        forall|i: int| 0 <= i < n ==> comps(#[trigger] raw[i].0) != c,
    ensures
        first_relative(raw, n, c) is None,
        last_path(raw, n, c) is None,
    decreases n,
{
    if n > 0 {
        lemma_unmatched(raw, n - 1, c);
    }
}

proof fn lemma_matched_again(raw: Seq<(Seq<char>, Seq<char>)>, n: int, out: Seq<(Seq<char>, Seq<char>)>, p: int)
    requires
        0 <= n < raw.len(),
        ordered_prefix(raw, n, out),
        0 <= p < out.len(),
        match_comps(out)[p] == comps(raw[n].0),
    ensures
        ordered_prefix(raw, n + 1, out.update(p, (out[p].0, raw[n].1))),
{
    let cs = match_comps(out);
    let nu = out.update(p, (out[p].0, raw[n].1));
    assert(match_comps(nu) =~= cs);
    assert forall|k: int| 0 <= k < nu.len() implies first_relative(raw, n + 1, #[trigger] match_comps(nu)[k]) == Some(
        nu[k].0,
    ) && last_path(raw, n + 1, match_comps(nu)[k]) == Some(nu[k].1) by {
        assert(match_comps(nu)[k] == cs[k]);
        assert(first_relative(raw, n, cs[k]) == Some(out[k].0));
        if k != p {
            if k < p {
                assert(comps_before(cs[k], cs[p]));
            } else {
                assert(comps_before(cs[p], cs[k]));
            }
            lemma_comps_before_irreflexive(cs[p]);
            assert(cs[k] != cs[p]);
        }
    }
    assert forall|i: int| 0 <= i < n + 1 implies match_comps(nu).contains(comps(#[trigger] raw[i].0)) by {
        if i == n {
            assert(match_comps(nu)[p] == comps(raw[i].0));
        }
    }
}

proof fn lemma_matched_first(raw: Seq<(Seq<char>, Seq<char>)>, n: int, out: Seq<(Seq<char>, Seq<char>)>, p: int)
    requires
        0 <= n < raw.len(),
        ordered_prefix(raw, n, out),
        0 <= p <= out.len(),
        forall|k: int| 0 <= k < p ==> comps_before(#[trigger] match_comps(out)[k], comps(raw[n].0)),
        p < out.len() ==> comps_before(comps(raw[n].0), match_comps(out)[p]),
    ensures
        ordered_prefix(raw, n + 1, out.insert(p, raw[n])),
{
    let c = comps(raw[n].0);
    let cs = match_comps(out);
    let nu = out.insert(p, raw[n]);
    let ncs = match_comps(nu);
    assert(ncs =~= cs.insert(p, c));
    assert forall|k: int| p < k < cs.len() implies comps_before(c, #[trigger] cs[k]) by {
        lemma_comps_before_transitive(c, cs[p], cs[k]);
    }
    assert forall|k: int| 0 <= k < cs.len() implies #[trigger] cs[k] != c by {
        lemma_comps_before_irreflexive(c);
    }
    assert forall|i: int| 0 <= i < n implies comps(#[trigger] raw[i].0) != c by {
        assert(cs.contains(comps(raw[i].0)));
    }
    lemma_unmatched(raw, n, c);
    assert forall|i: int, j: int| 0 <= i < j < ncs.len() implies comps_before(#[trigger] ncs[i], #[trigger] ncs[j]) by {
        if j < p {
            assert(ncs[i] == cs[i] && ncs[j] == cs[j]);
        } else if j == p {
            assert(ncs[i] == cs[i] && ncs[j] == c);
        } else if i < p {
            assert(ncs[i] == cs[i] && ncs[j] == cs[j - 1]);
        } else if i == p {
            assert(ncs[i] == c && ncs[j] == cs[j - 1]);
        } else {
            assert(ncs[i] == cs[i - 1] && ncs[j] == cs[j - 1]);
        }
    }
    assert forall|k: int| 0 <= k < nu.len() implies first_relative(raw, n + 1, #[trigger] match_comps(nu)[k]) == Some(
        nu[k].0,
    ) && last_path(raw, n + 1, match_comps(nu)[k]) == Some(nu[k].1) by {
        if k < p {
            assert(ncs[k] == cs[k] && nu[k] == out[k]);
        } else if k > p {
            assert(ncs[k] == cs[k - 1] && nu[k] == out[k - 1]);
        } else {
            assert(ncs[k] == c && nu[k] == raw[n]);
        }
    }
    assert forall|i: int| 0 <= i < n + 1 implies ncs.contains(comps(#[trigger] raw[i].0)) by {
        if i == n {
            assert(ncs[p] == c);
        } else {
            let k = choose|k: int| 0 <= k < cs.len() && cs[k] == comps(raw[i].0);
            if k < p {
                assert(ncs[k] == cs[k]);
            } else {
                assert(ncs[k + 1] == cs[k]);
            }
        }
    }
}

/// Where the path with components `r` (texts in `v`) belongs among the
/// increasing component lists of `cv`/`cr`: the first position whose list
/// does not sort before it, and whether that list is the same.
fn find_place(cv: &Vec<Vec<char>>, cr: &Vec<Vec<(usize, usize)>>, v: &Vec<char>, r: &Vec<(usize, usize)>) -> (res: (
    usize,
    bool,
))
    requires
        cv@.len() == cr@.len(),
        forall|k: int| 0 <= k < cr@.len() ==> ranges_in(cv@[k]@, #[trigger] cr@[k]@),
        ranges_in(v@, r@),
    ensures
        res.0 <= cr@.len(),
        forall|k: int|
            0 <= k < res.0 ==> comps_before(#[trigger] range_texts(cv@[k]@, cr@[k]@), range_texts(v@, r@)),
        res.1 ==> res.0 < cr@.len() && range_texts(cv@[res.0 as int]@, cr@[res.0 as int]@) == range_texts(v@, r@),
        !res.1 && res.0 < cr@.len() ==> comps_before(
            range_texts(v@, r@),
            range_texts(cv@[res.0 as int]@, cr@[res.0 as int]@),
        ),
{
    let mut p: usize = 0;
    while p < cr.len()
        invariant
            p <= cr@.len(),
            cv@.len() == cr@.len(),
            forall|k: int| 0 <= k < cr@.len() ==> ranges_in(cv@[k]@, #[trigger] cr@[k]@),
            ranges_in(v@, r@),
            forall|k: int|
                0 <= k < p ==> comps_before(#[trigger] range_texts(cv@[k]@, cr@[k]@), range_texts(v@, r@)),
        decreases cr@.len() - p,
    {
        match comps_place(&cv[p], &cr[p], v, r) {
            Place::Before => {},
            Place::Same => {
                return (p, true);
            },
            Place::After => {
                return (p, false);
            },
        }
        p = p + 1;
    }
    (p, false)
}

/// The paths a file operation's patterns matched, as `(relative, path)`:
/// each path once, in path order, under the relative path it was first
/// matched as and the path it was last matched as.
pub fn order_matches(raw: &Vec<(String, String)>) -> (out: Vec<(String, String)>)
    ensures
        ordered_matches(entry_views(raw@), entry_views(out@)),
{
    let ghost rv = entry_views(raw@);
    let mut out: Vec<(String, String)> = Vec::new();
    let mut cv: Vec<Vec<char>> = Vec::new();
    let mut cr: Vec<Vec<(usize, usize)>> = Vec::new();
    let mut n: usize = 0;
    assert(match_comps(entry_views(out@)) =~= Seq::<Seq<Seq<char>>>::empty());
    while n < raw.len()
        invariant
            n <= raw@.len(),
            rv == entry_views(raw@),
            cv@.len() == out@.len(),
            cr@.len() == out@.len(),
            forall|k: int| 0 <= k < out@.len() ==> #[trigger] cv@[k]@ == out@[k].0@,
            forall|k: int|
                0 <= k < out@.len() ==> ranges_in(cv@[k]@, #[trigger] cr@[k]@) && range_texts(cv@[k]@, cr@[k]@)
                    == comps(out@[k].0@),
            ordered_prefix(rv, n as int, entry_views(out@)),
        decreases raw@.len() - n,
    {
        let ghost ov = entry_views(out@);
        let ghost cv0 = cv@;
        let v = chars_of(raw[n].0.as_str());
        let r = comp_ranges(&v);
        assert(rv[n as int] == (raw@[n as int].0@, raw@[n as int].1@));
        let (p, same) = find_place(&cv, &cr, &v, &r);
        assert forall|k: int| 0 <= k < out@.len() implies #[trigger] match_comps(ov)[k] == range_texts(
            cv@[k]@,
            cr@[k]@,
        ) by {
            assert(ov[k] == (out@[k].0@, out@[k].1@));
        }
        if same {
            proof {
                lemma_matched_again(rv, n as int, ov, p as int);
            }
            let rel = owned(out[p].0.as_str());
            let path = owned(raw[n].1.as_str());
            out.set(p, (rel, path));
            assert(entry_views(out@) =~= ov.update(p as int, (ov[p as int].0, rv[n as int].1)));
        } else {
            proof {
                lemma_matched_first(rv, n as int, ov, p as int);
            }
            out.insert(p, (owned(raw[n].0.as_str()), owned(raw[n].1.as_str())));
            cv.insert(p, v);
            cr.insert(p, r);
            assert(entry_views(out@) =~= ov.insert(p as int, rv[n as int]));
            assert forall|k: int| 0 <= k < out@.len() implies #[trigger] cv@[k]@ == out@[k].0@ by {
                if k > p {
                    assert(cv@[k] == cv0[k - 1]);
                }
            }
        }
        n = n + 1;
    }
    out
}

/// A path that a file pattern matched: relative to the source repo, as
/// found there, and whether it is a directory (not following links).
#[derive(Debug, PartialEq, Eq)]
pub struct Candidate {
    pub relative: String,
    pub path: String,
    pub is_dir: bool,
}

/// Whether component list `a` is a proper prefix of `b`: `b` lies strictly
/// inside the directory `a`.
pub open spec fn strictly_inside(a: Seq<Seq<char>>, b: Seq<Seq<char>>) -> bool {
    a.len() < b.len() && b.take(a.len() as int) == a
}

/// Whether candidate `i` lies inside another candidate that is a
/// directory. Such a match is covered by that directory's own operation.
pub open spec fn covered(cs: Seq<Candidate>, i: int) -> bool {
    exists|j: int|
        0 <= j < cs.len() && cs[j].is_dir && #[trigger] strictly_inside(comps(cs[j].relative@), comps(cs[i].relative@))
}

pub open spec fn depth(c: Candidate) -> nat {
    comps(c.relative@).len()
}

/// The uncovered candidates among the first `n` whose depth is `d`, as
/// `(path, relative)` in the order given.
pub open spec fn level(cs: Seq<Candidate>, d: nat, n: int) -> Seq<(Seq<char>, Seq<char>)>
    decreases n,
{
    if n <= 0 {
        Seq::empty()
    } else if depth(cs[n - 1]) == d && !covered(cs, n - 1) {
        level(cs, d, n - 1).push((cs[n - 1].path@, cs[n - 1].relative@))
    } else {
        level(cs, d, n - 1)
    }
}

/// The uncovered candidates with depth at most `d`: shallower ones first,
/// and candidates of equal depth in the order given.
pub open spec fn levels(cs: Seq<Candidate>, d: nat) -> Seq<(Seq<char>, Seq<char>)>
    decreases d,
{
    if d == 0 {
        level(cs, 0, cs.len() as int)
    } else {
        levels(cs, (d - 1) as nat) + level(cs, d, cs.len() as int)
    }
}

/// The greatest depth among the first `n` candidates.
pub open spec fn max_depth(cs: Seq<Candidate>, n: int) -> nat
    decreases n,
{
    if n <= 0 {
        0
    } else {
        let m = max_depth(cs, n - 1);
        if depth(cs[n - 1]) > m { depth(cs[n - 1]) } else { m }
    }
}

/// The entries an explicit file operation acts on: every candidate that
/// does not lie inside a matched directory, shallower paths first, and
/// paths of equal depth in the order given (the path order of the matches).
pub open spec fn selection(cs: Seq<Candidate>) -> Seq<(Seq<char>, Seq<char>)> {
    levels(cs, max_depth(cs, cs.len() as int))
}

proof fn lemma_max_depth(cs: Seq<Candidate>, n: int)
    requires
        0 <= n <= cs.len(),
    ensures
        forall|i: int| 0 <= i < n ==> depth(#[trigger] cs[i]) <= max_depth(cs, n),
    decreases n,
{
    if n > 0 {
        lemma_max_depth(cs, n - 1);
    }
}

/// Characters and component ranges of each candidate's relative path.
fn candidate_comps(cs: &Vec<Candidate>) -> (r: (Vec<Vec<char>>, Vec<Vec<(usize, usize)>>))
    ensures
        r.0@.len() == cs@.len(),
        r.1@.len() == cs@.len(),
        forall|i: int| 0 <= i < cs@.len() ==> #[trigger] r.0@[i]@ == cs@[i].relative@,
        forall|i: int|
            0 <= i < cs@.len() ==> ranges_in(r.0@[i]@, #[trigger] r.1@[i]@) && range_texts(r.0@[i]@, r.1@[i]@)
                == comps(cs@[i].relative@),
{
    let mut vs: Vec<Vec<char>> = Vec::new();
    let mut rs: Vec<Vec<(usize, usize)>> = Vec::new();
    let mut i: usize = 0;
    while i < cs.len()
        invariant
            i <= cs@.len(),
            vs@.len() == i,
            rs@.len() == i,
            forall|k: int| 0 <= k < i ==> #[trigger] vs@[k]@ == cs@[k].relative@,
            forall|k: int|
                0 <= k < i ==> ranges_in(vs@[k]@, #[trigger] rs@[k]@) && range_texts(vs@[k]@, rs@[k]@) == comps(
                    cs@[k].relative@,
                ),
        decreases cs@.len() - i,
    {
        let v = chars_of(cs[i].relative.as_str());
        let r = comp_ranges(&v);
        vs.push(v);
        rs.push(r);
        i = i + 1;
    }
    (vs, rs)
}

/// Whether the texts of two ranges are equal.
fn same_text(av: &Vec<char>, a: (usize, usize), bv: &Vec<char>, b: (usize, usize)) -> (r: bool)
    requires
        a.0 <= a.1 <= av@.len(),
        b.0 <= b.1 <= bv@.len(),
    ensures
        r == (av@.subrange(a.0 as int, a.1 as int) == bv@.subrange(b.0 as int, b.1 as int)),
{
    let ghost at = av@.subrange(a.0 as int, a.1 as int);
    let ghost bt = bv@.subrange(b.0 as int, b.1 as int);
    if a.1 - a.0 != b.1 - b.0 {
        assert(at.len() != bt.len());
        return false;
    }
    let mut j: usize = 0;
    while j < a.1 - a.0
        invariant
            a.0 <= a.1 <= av@.len(),
            b.0 <= b.1 <= bv@.len(),
            a.1 - a.0 == b.1 - b.0,
            j <= a.1 - a.0,
            at == av@.subrange(a.0 as int, a.1 as int),
            bt == bv@.subrange(b.0 as int, b.1 as int),
            at.subrange(0, j as int) == bt.subrange(0, j as int),
        decreases a.1 - a.0 - j,
    {
        if av[a.0 + j] != bv[b.0 + j] {
            assert(at[j as int] == av@[a.0 + j]);
            assert(bt[j as int] == bv@[b.0 + j]);
            return false;
        }
        assert(at.subrange(0, j + 1) == at.subrange(0, j as int).push(at[j as int]));
        assert(bt.subrange(0, j + 1) == bt.subrange(0, j as int).push(bt[j as int]));
        j = j + 1;
    }
    assert(at == at.subrange(0, at.len() as int));
    assert(bt == bt.subrange(0, bt.len() as int));
    true
}

/// Whether the path with components `ar` (texts in `av`) lies strictly
/// inside the one with components `br`.
fn inside(av: &Vec<char>, ar: &Vec<(usize, usize)>, bv: &Vec<char>, br: &Vec<(usize, usize)>) -> (r: bool)
    requires
        ranges_in(av@, ar@),
        ranges_in(bv@, br@),
    ensures
        r == strictly_inside(range_texts(av@, ar@), range_texts(bv@, br@)),
{
    let ghost at = range_texts(av@, ar@);
    let ghost bt = range_texts(bv@, br@);
    if ar.len() >= br.len() {
        return false;
    }
    let mut k: usize = 0;
    while k < ar.len()
        invariant
            k <= ar@.len() < br@.len(),
            ranges_in(av@, ar@),
            ranges_in(bv@, br@),
            at == range_texts(av@, ar@),
            bt == range_texts(bv@, br@),
            forall|q: int| 0 <= q < k ==> at[q] == bt[q],
        decreases ar@.len() - k,
    {
        assert(ar@[k as int].0 <= ar@[k as int].1 <= av@.len());
        assert(br@[k as int].0 <= br@[k as int].1 <= bv@.len());
        if !same_text(av, ar[k], bv, br[k]) {
            assert(bt.take(at.len() as int)[k as int] == bt[k as int]);
            return false;
        }
        k = k + 1;
    }
    assert(bt.take(at.len() as int) =~= at);
    true
}

/// Whether candidate `i` lies inside a matched directory.
fn is_covered(cs: &Vec<Candidate>, vs: &Vec<Vec<char>>, rs: &Vec<Vec<(usize, usize)>>, i: usize) -> (r: bool)
    requires
        i < cs@.len(),
        vs@.len() == cs@.len(),
        rs@.len() == cs@.len(),
        forall|k: int| 0 <= k < cs@.len() ==> #[trigger] vs@[k]@ == cs@[k].relative@,
        forall|k: int|
            0 <= k < cs@.len() ==> ranges_in(vs@[k]@, #[trigger] rs@[k]@) && range_texts(vs@[k]@, rs@[k]@) == comps(
                cs@[k].relative@,
            ),
    ensures
        r == covered(cs@, i as int),
{
    let mut j: usize = 0;
    while j < cs.len()
        invariant
            j <= cs@.len(),
            i < cs@.len(),
            vs@.len() == cs@.len(),
            rs@.len() == cs@.len(),
            forall|k: int| 0 <= k < cs@.len() ==> #[trigger] vs@[k]@ == cs@[k].relative@,
            forall|k: int|
                0 <= k < cs@.len() ==> ranges_in(vs@[k]@, #[trigger] rs@[k]@) && range_texts(vs@[k]@, rs@[k]@)
                    == comps(cs@[k].relative@),
            forall|k: int|
                0 <= k < j ==> !(cs@[k].is_dir && #[trigger] strictly_inside(
                    comps(cs@[k].relative@),
                    comps(cs@[i as int].relative@),
                )),
        decreases cs@.len() - j,
    {
        if cs[j].is_dir && inside(&vs[j], &rs[j], &vs[i], &rs[i]) {
            return true;
        }
        j = j + 1;
    }
    false
}

pub open spec fn entry_views(s: Seq<(String, String)>) -> Seq<(Seq<char>, Seq<char>)> {
    s.map_values(|e: (String, String)| (e.0@, e.1@))
}

/// The entries an explicit copy, clone, or symlink acts on, as
/// `(path, relative)`. If a directory and one of its descendants both
/// matched, only the directory is kept: processing both would duplicate a
/// copy and could traverse a link created moments before.
pub fn select_entries(cs: &Vec<Candidate>) -> (r: Vec<(String, String)>)
    ensures
        entry_views(r@) == selection(cs@),
{
    let (vs, rs) = candidate_comps(cs);
    let mut maxd: usize = 0;
    let mut i: usize = 0;
    while i < cs.len()
        invariant
            i <= cs@.len(),
            rs@.len() == cs@.len(),
            vs@.len() == cs@.len(),
            forall|k: int|
                0 <= k < cs@.len() ==> ranges_in(vs@[k]@, #[trigger] rs@[k]@) && range_texts(vs@[k]@, rs@[k]@)
                    == comps(cs@[k].relative@),
            maxd == max_depth(cs@, i as int),
        decreases cs@.len() - i,
    {
        assert(rs@[i as int]@.len() == depth(cs@[i as int]));
        if rs[i].len() > maxd {
            maxd = rs[i].len();
        }
        i = i + 1;
    }
    let mut out: Vec<(String, String)> = Vec::new();
    let mut d: usize = 0;
    assert(entry_views(out@) =~= Seq::<(Seq<char>, Seq<char>)>::empty());
    loop
        invariant_except_break
            d == 0 ==> entry_views(out@) == Seq::<(Seq<char>, Seq<char>)>::empty(),
            d > 0 ==> entry_views(out@) == levels(cs@, (d - 1) as nat),
        invariant
            d <= maxd,
            maxd == max_depth(cs@, cs@.len() as int),
            rs@.len() == cs@.len(),
            vs@.len() == cs@.len(),
            forall|k: int| 0 <= k < cs@.len() ==> #[trigger] vs@[k]@ == cs@[k].relative@,
            forall|k: int|
                0 <= k < cs@.len() ==> ranges_in(vs@[k]@, #[trigger] rs@[k]@) && range_texts(vs@[k]@, rs@[k]@)
                    == comps(cs@[k].relative@),
        ensures
            entry_views(out@) == levels(cs@, maxd as nat),
        decreases maxd - d,
    {
        let ghost base = entry_views(out@);
        let mut k: usize = 0;
        while k < cs.len()
            invariant
                k <= cs@.len(),
                rs@.len() == cs@.len(),
                vs@.len() == cs@.len(),
                forall|q: int| 0 <= q < cs@.len() ==> #[trigger] vs@[q]@ == cs@[q].relative@,
                forall|q: int|
                    0 <= q < cs@.len() ==> ranges_in(vs@[q]@, #[trigger] rs@[q]@) && range_texts(vs@[q]@, rs@[q]@)
                        == comps(cs@[q].relative@),
                entry_views(out@) == base + level(cs@, d as nat, k as int),
            decreases cs@.len() - k,
        {
            assert(rs@[k as int]@.len() == depth(cs@[k as int]));
            if rs[k].len() == d && !is_covered(cs, &vs, &rs, k) {
                let ghost before = out@;
                let e = (owned(cs[k].path.as_str()), owned(cs[k].relative.as_str()));
                assert(e.0@ == cs@[k as int].path@ && e.1@ == cs@[k as int].relative@);
                out.push(e);
                assert(out@ == before.push(e));
                assert(entry_views(out@) =~= entry_views(before).push((cs@[k as int].path@, cs@[k as int].relative@)));
            }
            k = k + 1;
        }
        proof {
            if d == 0 {
                assert(entry_views(out@) =~= levels(cs@, 0));
            } else {
                assert(entry_views(out@) == levels(cs@, d as nat));
            }
        }
        if d == maxd {
            break;
        }
        d = d + 1;
    }
    out
}

// ---------------------------------------------------------------------------
// Discovering gitignored files
// ---------------------------------------------------------------------------

/// The NUL-separated chunks of `cur + s`, where `cur` is the part of the
/// current chunk already read.
pub open spec fn chunks_from(cur: Seq<u8>, s: Seq<u8>) -> Seq<Seq<u8>>
    decreases s.len(),
{
    if s.len() == 0 {
        seq![cur]
    } else if s[0] == 0 {
        seq![cur] + chunks_from(Seq::empty(), s.drop_first())
    } else {
        chunks_from(cur.push(s[0]), s.drop_first())
    }
}

/// `s` split at every NUL byte (empty chunks kept).
pub open spec fn chunks(s: Seq<u8>) -> Seq<Seq<u8>> {
    chunks_from(Seq::empty(), s)
}

pub open spec fn byte_ranges_in(v: Seq<u8>, rs: Seq<(usize, usize)>) -> bool {
    forall|k: int| 0 <= k < rs.len() ==> #[trigger] rs[k].0 <= rs[k].1 && rs[k].1 <= v.len()
}

pub open spec fn byte_texts(v: Seq<u8>, rs: Seq<(usize, usize)>) -> Seq<Seq<u8>> {
    rs.map_values(|r: (usize, usize)| v.subrange(r.0 as int, r.1 as int))
}

fn chunk_ranges(v: &Vec<u8>) -> (rs: Vec<(usize, usize)>)
    ensures
        byte_ranges_in(v@, rs@),
        byte_texts(v@, rs@) == chunks(v@),
{
    let mut rs: Vec<(usize, usize)> = Vec::new();
    let mut start: usize = 0;
    let mut j: usize = 0;
    assert(v@.skip(0) == v@);
    assert(v@.subrange(0, 0) == Seq::<u8>::empty());
    assert(byte_texts(v@, rs@) == Seq::<Seq<u8>>::empty());
    while j < v.len()
        invariant
            start <= j <= v@.len(),
            byte_ranges_in(v@, rs@),
            chunks(v@) == byte_texts(v@, rs@) + chunks_from(v@.subrange(start as int, j as int), v@.skip(j as int)),
        decreases v@.len() - j,
    {
        let ghost cur = v@.subrange(start as int, j as int);
        assert(v@.skip(j as int).drop_first() == v@.skip(j + 1));
        assert(v@.skip(j as int)[0] == v@[j as int]);
        if v[j] == 0 {
            let ghost before = rs@;
            rs.push((start, j));
            assert(byte_texts(v@, rs@) == byte_texts(v@, before).push(cur));
            start = j + 1;
            assert(v@.subrange(start as int, start as int) == Seq::<u8>::empty());
        } else {
            assert(v@.subrange(start as int, j + 1) == cur.push(v@[j as int]));
        }
        j = j + 1;
    }
    let ghost before = rs@;
    rs.push((start, v.len()));
    assert(byte_texts(v@, rs@) == byte_texts(v@, before).push(v@.subrange(start as int, v@.len() as int)));
    rs
}

/// The file name at the end of a repo-relative path.
pub open spec fn basename(rel: Seq<char>) -> Seq<char> {
    pieces(rel).last()
}

/// Whether discovery copies the listed path: not a collapsed ignored
/// directory (those end in `/`), and its file name matches a pattern.
pub open spec fn wanted(rel: Seq<char>, patterns: Seq<Seq<char>>) -> bool {
    &&& !(rel.len() > 0 && rel.last() == '/')
    &&& exists|i: int| 0 <= i < patterns.len() && #[trigger] glob(patterns[i], basename(rel))
}

/// The paths that discovery copies, in listing order.
pub open spec fn discovered_in(cs: Seq<Seq<u8>>, patterns: Seq<Seq<char>>) -> Seq<Seq<char>>
    decreases cs.len(),
{
    if cs.len() == 0 {
        Seq::empty()
    } else if cs.last().len() > 0 && wanted(utf8_lossy(cs.last()), patterns) {
        discovered_in(cs.drop_last(), patterns).push(utf8_lossy(cs.last()))
    } else {
        discovered_in(cs.drop_last(), patterns)
    }
}

/// Whether some pattern matches `name`.
fn matches_any(patterns: &Vec<String>, name: &str) -> (b: bool)
    ensures
        b == exists|i: int| 0 <= i < patterns@.len() && #[trigger] glob(views(patterns@)[i], name@),
{
    let mut i: usize = 0;
    while i < patterns.len()
        invariant
            i <= patterns@.len(),
            forall|k: int| 0 <= k < i ==> !#[trigger] glob(views(patterns@)[k], name@),
        decreases patterns@.len() - i,
    {
        assert(views(patterns@)[i as int] == patterns@[i as int]@);
        if glob_match(patterns[i].as_str(), name) {
            return true;
        }
        i = i + 1;
    }
    false
}

/// The gitignored files to copy, from the NUL-separated output of
/// `git ls-files -z --others --ignored --exclude-standard --directory`:
/// each listed path whose file name matches one of `patterns`, skipping the
/// collapsed directories (a trailing `/`) that git reports for wholly
/// ignored trees.
pub fn discover(listing: &Vec<u8>, patterns: &Vec<String>) -> (r: Vec<String>)
    ensures
        views(r@) == discovered_in(chunks(listing@), views(patterns@)),
{
    let rs = chunk_ranges(listing);
    let ghost cs = chunks(listing@);
    let mut r: Vec<String> = Vec::new();
    let mut k: usize = 0;
    assert(cs.take(0) == Seq::<Seq<u8>>::empty());
    while k < rs.len()
        invariant
            k <= rs@.len(),
            byte_ranges_in(listing@, rs@),
            byte_texts(listing@, rs@) == cs,
            views(r@) == discovered_in(cs.take(k as int), views(patterns@)),
        decreases rs@.len() - k,
    {
        let (lo, hi) = rs[k];
        assert(rs@[k as int].0 <= rs@[k as int].1 <= listing@.len());
        assert(cs[k as int] == listing@.subrange(lo as int, hi as int));
        assert(cs.take(k + 1).drop_last() == cs.take(k as int));
        assert(cs.take(k + 1).last() == cs[k as int]);
        if hi > lo {
            let bytes = vstd::slice::slice_subrange(listing.as_slice(), lo, hi);
            let rel = crate::text::from_utf8_lossy(bytes);
            let ghost relv = utf8_lossy(cs[k as int]);
            assert(rel@ == relv);
            let v = chars_of(rel.as_str());
            let dir = v.len() > 0 && v[v.len() - 1] == '/';
            if dir {
                assert(!wanted(relv, views(patterns@)));
            } else {
                let ps = piece_ranges(&v);
                let (a, b) = ps[ps.len() - 1];
                assert(ps@[ps@.len() - 1].0 <= ps@[ps@.len() - 1].1 <= v@.len());
                assert(range_texts(v@, ps@).last() == v@.subrange(a as int, b as int));
                let mut name = String::new();
                crate::text::push_range(&mut name, &v, a, b);
                assert(name@ == basename(relv));
                if matches_any(patterns, name.as_str()) {
                    assert(wanted(relv, views(patterns@)));
                    let ghost before = views(r@);
                    r.push(rel);
                    assert(views(r@) =~= before.push(utf8_lossy(cs[k as int])));
                } else {
                    assert(!wanted(relv, views(patterns@)));
                }
            }
        }
        k = k + 1;
    }
    assert(cs.take(rs@.len() as int) == cs);
    r
}

// ---------------------------------------------------------------------------
// Destinations, clones, and links
// ---------------------------------------------------------------------------

/// Whether a path is absolute (on Unix: it starts at the root).
pub open spec fn is_absolute(p: Seq<char>) -> bool {
    p.len() > 0 && p[0] == '/'
}

/// What `pathdiff::diff_paths(path, base)` returns, as text: the path that
/// leads from `base` to `path`.
pub uninterp spec fn relative_path(path: Seq<char>, base: Seq<char>) -> Option<Seq<char>>;

/// `pathdiff::diff_paths`, on and to text. Its source returns an absolute
/// `path` unchanged when `base` is relative, and nothing for a relative
/// `path` against an absolute `base`; both are stated. What it computes when
/// both are absolute or both relative is named, not stated.
#[verifier::external_body]
fn diff_paths(path: &str, base: &str) -> (r: Option<String>)
    ensures
        r is Some <==> relative_path(path@, base@) is Some,
        r matches Some(t) ==> relative_path(path@, base@) == Some(t@),
        match r {
            Some(t) => !(!is_absolute(path@) && is_absolute(base@)) && (is_absolute(path@) && !is_absolute(
                base@,
            ) ==> t@ == path@),
            None => !(is_absolute(path@) && !is_absolute(base@)),
        },
{
    pathdiff::diff_paths(path, base).map(|p| p.to_string_lossy().into_owned())
}

pub open spec fn no_parent_message() -> Seq<char> {
    "symlink destination has no parent directory"@
}

pub open spec fn no_relative_target_message() -> Seq<char> {
    "could not make symlink target relative to its destination"@
}

/// The target a link at a destination (whose parent directory is
/// `parent`, `None` when it has none) gets to reach `source`: the relative
/// path from that directory to the source entry.
pub fn symlink_target(source: &str, parent: Option<&str>) -> (r: Result<String, Failure>)
    ensures
        match parent {
            None => r matches Err(f) && f.causes() == seq![no_parent_message()],
            Some(p) => match relative_path(source@, p@) {
                Some(t) => r matches Ok(s) && s@ == t,
                None => r matches Err(f) && f.causes() == seq![no_relative_target_message()],
            },
        },
{
    match parent {
        None => Err(Failure::from_str("symlink destination has no parent directory")),
        Some(p) => match diff_paths(source, p) {
            Some(t) => Ok(t),
            None => Err(Failure::from_str("could not make symlink target relative to its destination")),
        },
    }
}

pub open spec fn root_comp() -> Seq<char> {
    seq!['/']
}

/// The components of the directory that holds `relative`.
pub open spec fn parent_comps(relative: Seq<char>) -> Seq<Seq<char>> {
    let cs = comps(relative);
    if cs.len() == 0 || cs.last() == root_comp() {
        Seq::empty()
    } else {
        cs.drop_last()
    }
}

/// The directories to make sure of, outermost first, when the components
/// `cs` are walked down from `cur`: `.` adds nothing and a name descends; a
/// root or `..` component would leave the worktree, so the walk stops there
/// and is refused (`true`), with the directories before it still listed.
pub open spec fn dirs_from(cur: Seq<char>, cs: Seq<Seq<char>>) -> (Seq<Seq<char>>, bool)
    decreases cs.len(),
{
    if cs.len() == 0 {
        (Seq::empty(), false)
    } else if cs[0] == crate::paths::dot() {
        dirs_from(cur, cs.drop_first())
    } else if cs[0] == root_comp() || cs[0] == crate::paths::dot_dot() {
        (Seq::empty(), true)
    } else {
        let rest = dirs_from(join_path(cur, cs[0]), cs.drop_first());
        (seq![join_path(cur, cs[0])] + rest.0, rest.1)
    }
}

pub open spec fn prefixed(done: Seq<Seq<char>>, rest: (Seq<Seq<char>>, bool)) -> (Seq<Seq<char>>, bool) {
    (done + rest.0, rest.1)
}

/// What a component spelt by `v[lo..hi]` is.
proof fn lemma_piece_kind(v: Seq<char>, lo: int, hi: int)
    requires
        0 <= lo <= hi <= v.len(),
    ensures
        (v.subrange(lo, hi) == crate::paths::dot()) <==> (hi - lo == 1 && v[lo] == '.'),
        (v.subrange(lo, hi) == root_comp()) <==> (hi - lo == 1 && v[lo] == '/'),
        (v.subrange(lo, hi) == crate::paths::dot_dot()) <==> (hi - lo == 2 && v[lo] == '.' && v[lo + 1] == '.'),
{
    let c = v.subrange(lo, hi);
    assert(c.len() == hi - lo);
    if hi - lo >= 1 {
        assert(c[0] == v[lo]);
    }
    if hi - lo >= 2 {
        assert(c[1] == v[lo + 1]);
    }
    if hi - lo == 1 && v[lo] == '.' {
        assert(c =~= crate::paths::dot());
    }
    if hi - lo == 1 && v[lo] == '/' {
        assert(c =~= root_comp());
    }
    if hi - lo == 2 && v[lo] == '.' && v[lo + 1] == '.' {
        assert(c =~= crate::paths::dot_dot());
    }
}

/// Every directory above a destination inside the worktree, outermost
/// first: each must be a real directory (an old link or file in its place is
/// replaced) before the destination is written, or the write could follow a
/// link out of the worktree. A destination that leaves the worktree is
/// refused where it does: the directories before that point are listed, and
/// the refusal comes after them.
pub fn destination_parents(worktree: &str, relative: &str) -> (r: (Vec<String>, Option<Failure>))
    ensures
        views(r.0@) == dirs_from(worktree@, parent_comps(relative@)).0,
        r.1 is Some <==> dirs_from(worktree@, parent_comps(relative@)).1,
        r.1 matches Some(f) ==> f.causes() == seq![
            "destination path must be relative to the worktree: "@ + relative@,
        ],
{
    let v = chars_of(relative);
    let cr = comp_ranges(&v);
    let ghost cs = comps(relative@);
    let mut n = cr.len();
    if n > 0 {
        let (lo, hi) = cr[n - 1];
        assert(cr@[n - 1].0 <= cr@[n - 1].1 <= v@.len());
        assert(cs[n - 1] == v@.subrange(lo as int, hi as int));
        let is_root = hi - lo == 1 && v[lo] == '/';
        proof {
            lemma_piece_kind(v@, lo as int, hi as int);
        }
        if is_root {
            n = 0;
        } else {
            n = n - 1;
        }
    }
    let ghost pcs = parent_comps(relative@);
    assert(pcs == cs.take(n as int));
    let mut cur = owned(worktree);
    let mut out: Vec<String> = Vec::new();
    let mut k: usize = 0;
    assert(pcs.skip(0) == pcs);
    assert(views(out@) == Seq::<Seq<char>>::empty());
    while k < n
        invariant
            k <= n <= cr@.len(),
            ranges_in(v@, cr@),
            range_texts(v@, cr@) == cs,
            pcs == cs.take(n as int),
            pcs == parent_comps(relative@),
            dirs_from(worktree@, pcs) == prefixed(views(out@), dirs_from(cur@, pcs.skip(k as int))),
        decreases n - k,
    {
        let (lo, hi) = cr[k];
        assert(cr@[k as int].0 <= cr@[k as int].1 <= v@.len());
        let ghost c = v@.subrange(lo as int, hi as int);
        assert(cs[k as int] == c);
        assert(pcs.skip(k as int)[0] == c);
        assert(pcs.skip(k as int).drop_first() == pcs.skip(k + 1));
        let is_dot = hi - lo == 1 && v[lo] == '.';
        let is_root = hi - lo == 1 && v[lo] == '/';
        let is_up = hi - lo == 2 && v[lo] == '.' && v[lo + 1] == '.';
        proof {
            lemma_piece_kind(v@, lo as int, hi as int);
        }
        if is_dot {
        } else if is_root || is_up {
            assert(c != crate::paths::dot());
            assert(dirs_from(cur@, pcs.skip(k as int)) == (Seq::<Seq<char>>::empty(), true));
            assert(views(out@) + Seq::<Seq<char>>::empty() == views(out@));
            let mut m = owned("destination path must be relative to the worktree: ");
            m.append(relative);
            return (out, Some(Failure::msg(m)));
        } else {
            let mut name = String::new();
            crate::text::push_range(&mut name, &v, lo, hi);
            let next = crate::paths::join(cur.as_str(), name.as_str());
            let ghost before = views(out@);
            out.push(crate::paths::join(cur.as_str(), name.as_str()));
            assert(views(out@) =~= before.push(next@));
            cur = next;
        }
        k = k + 1;
    }
    assert(pcs.skip(n as int) =~= Seq::<Seq<char>>::empty());
    assert(views(out@) + Seq::<Seq<char>>::empty() == views(out@));
    (out, None)
}

pub open spec fn clone_platform_message() -> Seq<char> {
    "APFS file cloning is only supported on macOS"@
}

/// Copy-on-write cloning is only available on macOS; elsewhere the clone
/// phase fails instead of silently falling back to a full copy.
pub fn ensure_clone_platform_supported(macos: bool) -> (r: Result<(), Failure>)
    ensures
        r is Ok <==> macos,
        r matches Err(f) ==> f.causes() == seq![clone_platform_message()],
{
    if macos {
        Ok(())
    } else {
        Err(Failure::from_str("APFS file cloning is only supported on macOS"))
    }
}

/// What a file-system entry is, without following a link.
#[derive(Debug, PartialEq, Eq, Clone, Copy, Structural)]
pub enum EntryKind {
    Symlink,
    File,
    Dir,
    /// Anything else: a socket, a device, a fifo.
    Other,
}

/// What copying or cloning one entry does at its destination.
#[derive(Debug, PartialEq, Eq, Clone, Copy, Structural)]
pub enum EntryAction {
    /// Replace the destination by a link with the source link's target: a
    /// source link is preserved, never followed.
    Link,
    /// Replace the destination by a copy (or clone) of the file.
    ReplaceWithFile,
    /// Make the destination a directory and merge the source's children
    /// into it; what is there is first removed when it is not a directory.
    Dir { replace_destination: bool },
    /// Leave an entry of another kind alone.
    Skip,
}

/// What a copy or a clone does with an entry of kind `src` whose
/// destination holds an entry of kind `dst` (`None`: nothing there).
/// Destinations are replaced, directories merged, source links preserved.
pub open spec fn entry_action_spec(src: EntryKind, dst: Option<EntryKind>) -> EntryAction {
    match src {
        EntryKind::Symlink => EntryAction::Link,
        EntryKind::File => EntryAction::ReplaceWithFile,
        EntryKind::Dir => EntryAction::Dir {
            replace_destination: match dst {
                Some(k) => k != EntryKind::Dir,
                None => false,
            },
        },
        EntryKind::Other => EntryAction::Skip,
    }
}

pub fn entry_action(src: EntryKind, dst: Option<EntryKind>) -> (a: EntryAction)
    ensures
        a == entry_action_spec(src, dst),
{
    match src {
        EntryKind::Symlink => EntryAction::Link,
        EntryKind::File => EntryAction::ReplaceWithFile,
        EntryKind::Dir => EntryAction::Dir {
            replace_destination: match dst {
                Some(k) => !matches!(k, EntryKind::Dir),
                None => false,
            },
        },
        EntryKind::Other => EntryAction::Skip,
    }
}

/// The sum of a list of counts.
pub open spec fn sum(v: Seq<usize>) -> nat
    decreases v.len(),
{
    if v.len() == 0 {
        0
    } else {
        sum(v.drop_last()) + v.last() as nat
    }
}

/// How many files an entry accounts for: one per file or link, none for an
/// entry of another kind, and for a directory the sum over its children
/// (`None` when that does not fit in a `usize`).
pub fn entry_count(src: EntryKind, children: &Vec<usize>) -> (n: Option<usize>)
    ensures
        n == match src {
            EntryKind::Symlink | EntryKind::File => Some(1usize),
            EntryKind::Other => Some(0usize),
            EntryKind::Dir => if sum(children@) <= usize::MAX {
                Some(sum(children@) as usize)
            } else {
                None
            },
        },
{
    match src {
        EntryKind::Symlink | EntryKind::File => Some(1),
        EntryKind::Other => Some(0),
        EntryKind::Dir => {
            let mut total: usize = 0;
            let mut i: usize = 0;
            assert(children@.take(0) =~= Seq::<usize>::empty());
            while i < children.len()
                invariant
                    src == EntryKind::Dir,
                    i <= children@.len(),
                    total == sum(children@.take(i as int)),
                decreases children@.len() - i,
            {
                assert(children@.take(i + 1).drop_last() =~= children@.take(i as int));
                assert(children@.take(i + 1).last() == children@[i as int]);
                match total.checked_add(children[i]) {
                    Some(t) => {
                        total = t;
                    },
                    None => {
                        proof {
                            lemma_sum_prefix(children@, i + 1);
                        }
                        return None;
                    },
                }
                i = i + 1;
            }
            assert(children@.take(children@.len() as int) =~= children@);
            Some(total)
        },
    }
}

/// A sum is at least the sum of any prefix.
proof fn lemma_sum_prefix(v: Seq<usize>, k: int)
    requires
        0 <= k <= v.len(),
    ensures
        sum(v.take(k)) <= sum(v),
    decreases v.len() - k,
{
    if k < v.len() {
        lemma_sum_prefix(v, k + 1);
        assert(v.take(k + 1).drop_last() =~= v.take(k));
    } else {
        assert(v.take(k) =~= v);
    }
}

/// What relocating the virtual environments of a cloned entry does with
/// one entry of the clone.
#[derive(Debug, PartialEq, Eq, Clone, Copy, Structural)]
pub enum VenvStep {
    /// The entry is a virtual environment: rewrite its scripts.
    Relocate,
    /// A directory that is not one: look at its children.
    Descend,
    /// Anything else: nothing to do.
    Leave,
}

/// A directory holding a `pyvenv.cfg` file is a Python virtual environment,
/// and its scripts are relocated; other directories are searched; other
/// entries (links included) are left alone.
pub open spec fn venv_step_spec(entry: Option<EntryKind>, has_config: bool) -> VenvStep {
    if entry == Some(EntryKind::Dir) {
        if has_config {
            VenvStep::Relocate
        } else {
            VenvStep::Descend
        }
    } else {
        VenvStep::Leave
    }
}

pub fn venv_step(entry: Option<EntryKind>, has_config: bool) -> (s: VenvStep)
    ensures
        s == venv_step_spec(entry, has_config),
{
    match entry {
        Some(EntryKind::Dir) => if has_config {
            VenvStep::Relocate
        } else {
            VenvStep::Descend
        },
        _ => VenvStep::Leave,
    }
}

/// The scripts of a virtual environment among the entries of its `bin`
/// directory: the regular files, in the order listed (links to the
/// interpreter hold no path to rewrite).
pub open spec fn script_names(bin: Seq<(Seq<char>, EntryKind)>) -> Seq<Seq<char>>
    decreases bin.len(),
{
    if bin.len() == 0 {
        Seq::empty()
    } else if bin.last().1 == EntryKind::File {
        script_names(bin.drop_last()).push(bin.last().0)
    } else {
        script_names(bin.drop_last())
    }
}

pub fn venv_scripts(bin: &Vec<(String, EntryKind)>) -> (r: Vec<String>)
    ensures
        views(r@) == script_names(bin@.map_values(|e: (String, EntryKind)| (e.0@, e.1))),
{
    let ghost bv = bin@.map_values(|e: (String, EntryKind)| (e.0@, e.1));
    let mut r: Vec<String> = Vec::new();
    let mut i: usize = 0;
    assert(bv.take(0) =~= Seq::<(Seq<char>, EntryKind)>::empty());
    while i < bin.len()
        invariant
            i <= bin@.len(),
            bv == bin@.map_values(|e: (String, EntryKind)| (e.0@, e.1)),
            views(r@) == script_names(bv.take(i as int)),
        decreases bin@.len() - i,
    {
        assert(bv.take(i + 1).drop_last() =~= bv.take(i as int));
        assert(bv.take(i + 1).last() == bv[i as int]);
        if matches!(bin[i].1, EntryKind::File) {
            let ghost before = views(r@);
            r.push(owned(bin[i].0.as_str()));
            assert(views(r@) =~= before.push(bin@[i as int].0@));
        }
        i = i + 1;
    }
    assert(bv.take(bin@.len() as int) =~= bv);
    r
}

/// `text` with each occurrence of `from`, found left to right without
/// overlapping, replaced by `to`. An empty `from` changes nothing.
pub open spec fn replaced(text: Seq<char>, from: Seq<char>, to: Seq<char>) -> Seq<char>
    decreases text.len(),
{
    if from.len() == 0 || text.len() < from.len() {
        text
    } else if text.take(from.len() as int) == from {
        to + replaced(text.skip(from.len() as int), from, to)
    } else {
        seq![text[0]] + replaced(text.drop_first(), from, to)
    }
}

/// Whether `f` occurs in `v` at index `i`.
fn occurs_at(v: &Vec<char>, i: usize, f: &Vec<char>) -> (b: bool)
    requires
        i <= v@.len(),
    ensures
        b == (i + f@.len() <= v@.len() && v@.subrange(i as int, i + f@.len()) == f@),
{
    if f.len() > v.len() - i {
        return false;
    }
    let mut k: usize = 0;
    while k < f.len()
        invariant
            k <= f@.len(),
            i + f@.len() <= v.len(),
            forall|j: int| 0 <= j < k ==> v@[i + j] == f@[j],
        decreases f@.len() - k,
    {
        if v[i + k] != f[k] {
            assert(v@.subrange(i as int, i + f@.len())[k as int] != f@[k as int]);
            return false;
        }
        k = k + 1;
    }
    assert(v@.subrange(i as int, i + f@.len()) =~= f@);
    true
}

/// The text of a file cloned out of a Python virtual environment, with the
/// absolute checkout path of the source (`from`) replaced by that of the
/// worktree (`to`), so that its scripts run the worktree's interpreter.
pub fn relocate(text: &str, from: &str, to: &str) -> (r: String)
    ensures
        r@ == replaced(text@, from@, to@),
{
    let v = chars_of(text);
    let f = chars_of(from);
    let mut out = String::new();
    if f.len() == 0 {
        return owned(text);
    }
    let mut i: usize = 0;
    assert(v@.skip(0) == v@);
    while i < v.len()
        invariant
            i <= v@.len(),
            v@ == text@,
            f@ == from@,
            f@.len() > 0,
            out@ + replaced(v@.skip(i as int), f@, to@) == replaced(v@, f@, to@),
        decreases v@.len() - i,
    {
        let ghost rest = v@.skip(i as int);
        if occurs_at(&v, i, &f) {
            assert(rest.take(f@.len() as int) == v@.subrange(i as int, i + f@.len()));
            assert(rest.skip(f@.len() as int) == v@.skip(i + f@.len()));
            out.append(to);
            i = i + f.len();
        } else {
            proof {
                if rest.len() >= f@.len() {
                    assert(rest.take(f@.len() as int) == v@.subrange(i as int, i + f@.len()));
                }
            }
            proof {
                assert(rest.drop_first() == v@.skip(i + 1));
                assert(rest[0] == v@[i as int]);
                if rest.len() >= f@.len() {
                    assert(replaced(rest, f@, to@) == seq![v@[i as int]] + replaced(v@.skip(i + 1), f@, to@));
                } else {
                    assert(replaced(rest, f@, to@) == rest);
                    assert(replaced(v@.skip(i + 1), f@, to@) == v@.skip(i + 1));
                    assert(rest =~= seq![v@[i as int]] + v@.skip(i + 1));
                }
            }
            crate::text::push_char(&mut out, v[i]);
            i = i + 1;
        }
    }
    assert(v@.skip(v@.len() as int) =~= Seq::<char>::empty());
    out
}

// ---------------------------------------------------------------------------
// Laws
// ---------------------------------------------------------------------------

/// `*` matches any name, the empty one included.
pub proof fn lemma_star_matches_any_name(name: Seq<char>)
    ensures
        glob(seq!['*'], name),
{
    let p = seq!['*'];
    lemma_star(p, name);
    assert(p.drop_first() =~= Seq::<char>::empty());
    assert(name.skip(name.len() as int) =~= Seq::<char>::empty());
    assert(glob(p.drop_first(), name.skip(name.len() as int)));
}

/// A pattern without `*` matches exactly the name it spells.
pub proof fn lemma_literal_pattern_matches_only_itself(pattern: Seq<char>, name: Seq<char>)
    requires
        forall|i: int| 0 <= i < pattern.len() ==> pattern[i] != '*',
    ensures
        glob(pattern, name) <==> pattern == name,
    decreases pattern.len(),
{
    if pattern.len() == 0 {
        if name.len() == 0 {
            assert(pattern =~= name);
        }
    } else if name.len() == 0 {
        assert(pattern.len() != name.len());
    } else {
        let p1 = pattern.drop_first();
        let n1 = name.drop_first();
        assert forall|i: int| 0 <= i < p1.len() implies p1[i] != '*' by {
            assert(p1[i] == pattern[i + 1]);
        }
        lemma_literal_pattern_matches_only_itself(p1, n1);
        if name[0] == pattern[0] && p1 == n1 {
            assert forall|i: int| 0 <= i < pattern.len() implies pattern[i] == name[i] by {
                if i > 0 {
                    assert(pattern[i] == p1[i - 1]);
                    assert(name[i] == n1[i - 1]);
                }
            }
            assert(pattern =~= name);
        }
        if pattern == name {
            assert(p1 =~= n1);
        }
    }
}

proof fn lemma_level_members(cs: Seq<Candidate>, d: nat, n: int)
    requires
        0 <= n <= cs.len(),
    ensures
        forall|x: (Seq<char>, Seq<char>)|
            level(cs, d, n).contains(x) ==> exists|i: int|
                0 <= i < n && depth(cs[i]) == d && !covered(cs, i) && x == (#[trigger] cs[i].path@, cs[i].relative@),
        forall|i: int|
            0 <= i < n && depth(cs[i]) == d && !covered(cs, i) ==> level(cs, d, n).contains(
                (#[trigger] cs[i].path@, cs[i].relative@),
            ),
    decreases n,
{
    if n > 0 {
        lemma_level_members(cs, d, n - 1);
        let prev = level(cs, d, n - 1);
        let cur = level(cs, d, n);
        assert forall|x: (Seq<char>, Seq<char>)| cur.contains(x) implies exists|i: int|
            0 <= i < n && depth(cs[i]) == d && !covered(cs, i) && x == (#[trigger] cs[i].path@, cs[i].relative@) by {
            let k = choose|k: int| 0 <= k < cur.len() && cur[k] == x;
            if k < prev.len() {
                assert(cur[k] == prev[k]);
                assert(prev.contains(x));
            } else {
                assert(x == (cs[n - 1].path@, cs[n - 1].relative@));
            }
        }
        assert forall|i: int| 0 <= i < n && depth(cs[i]) == d && !covered(cs, i) implies cur.contains(
            (#[trigger] cs[i].path@, cs[i].relative@),
        ) by {
            let x = (cs[i].path@, cs[i].relative@);
            if i < n - 1 {
                assert(prev.contains(x));
                let k = choose|k: int| 0 <= k < prev.len() && prev[k] == x;
                assert(cur[k] == x);
            } else {
                assert(cur[cur.len() - 1] == x);
            }
        }
    }
}

proof fn lemma_levels_members(cs: Seq<Candidate>, dmax: nat)
    ensures
        forall|x: (Seq<char>, Seq<char>)|
            levels(cs, dmax).contains(x) ==> exists|i: int|
                0 <= i < cs.len() && !covered(cs, i) && x == (#[trigger] cs[i].path@, cs[i].relative@),
        forall|i: int|
            0 <= i < cs.len() && depth(cs[i]) <= dmax && !covered(cs, i) ==> levels(cs, dmax).contains(
                (#[trigger] cs[i].path@, cs[i].relative@),
            ),
    decreases dmax,
{
    if dmax == 0 {
        lemma_level_members(cs, 0, cs.len() as int);
        assert forall|x: (Seq<char>, Seq<char>)| levels(cs, dmax).contains(x) implies exists|i: int|
            0 <= i < cs.len() && !covered(cs, i) && x == (#[trigger] cs[i].path@, cs[i].relative@) by {
            let i = choose|i: int|
                0 <= i < cs.len() && depth(cs[i]) == 0 && !covered(cs, i) && x == (
                    #[trigger] cs[i].path@,
                    cs[i].relative@,
                );
            assert(0 <= i < cs.len() && !covered(cs, i) && x == (cs[i].path@, cs[i].relative@));
        }
    }
    lemma_level_members(cs, dmax, cs.len() as int);
    if dmax > 0 {
        lemma_levels_members(cs, (dmax - 1) as nat);
        let a = levels(cs, (dmax - 1) as nat);
        let b = level(cs, dmax, cs.len() as int);
        assert forall|x: (Seq<char>, Seq<char>)| levels(cs, dmax).contains(x) implies exists|i: int|
            0 <= i < cs.len() && !covered(cs, i) && x == (#[trigger] cs[i].path@, cs[i].relative@) by {
            let k = choose|k: int| 0 <= k < (a + b).len() && (a + b)[k] == x;
            if k < a.len() {
                assert(a[k] == x);
                assert(a.contains(x));
            } else {
                assert(b[k - a.len()] == x);
                assert(b.contains(x));
                let i = choose|i: int|
                    0 <= i < cs.len() && depth(cs[i]) == dmax && !covered(cs, i) && x == (
                        #[trigger] cs[i].path@,
                        cs[i].relative@,
                    );
                assert(0 <= i < cs.len() && !covered(cs, i) && x == (cs[i].path@, cs[i].relative@));
            }
        }
        assert forall|x: (Seq<char>, Seq<char>)| (a + b).contains(x) implies a.contains(x) || b.contains(x) by {
            let k = choose|k: int| 0 <= k < (a + b).len() && (a + b)[k] == x;
            if k < a.len() {
                assert(a[k] == x);
            } else {
                assert(b[k - a.len()] == x);
            }
        }
        assert forall|x: (Seq<char>, Seq<char>)| a.contains(x) implies (a + b).contains(x) by {
            let k = choose|k: int| 0 <= k < a.len() && a[k] == x;
            assert((a + b)[k] == x);
        }
        assert forall|x: (Seq<char>, Seq<char>)| b.contains(x) implies (a + b).contains(x) by {
            let k = choose|k: int| 0 <= k < b.len() && b[k] == x;
            assert((a + b)[a.len() + k] == x);
        }
    }
}

/// Every install directory is checked before anything is installed: the
/// install phase opens with a single check of all its directories, in the
/// order they are listed, and after it come only the marker probes, one per
/// directory in the same order.
pub proof fn lemma_install_checks_every_dir_first(
    worktree: Seq<char>,
    rules: Seq<InstallRule>,
    dirs: Option<Seq<Seq<char>>>,
)
    ensures
        install_steps(worktree, rules, dirs).len() == install_dirs(dirs).len() + 1,
        install_steps(worktree, rules, dirs)[0] matches StepView::CheckDirs { dirs: d, .. } && d == install_dirs(
            dirs,
        ),
        forall|i: int|
            1 <= i < install_steps(worktree, rules, dirs).len() ==> (#[trigger] install_steps(
                worktree,
                rules,
                dirs,
            )[i] matches StepView::Detect { label, .. } && label == install_dirs(dirs)[i - 1]),
{
    let s = install_steps(worktree, rules, dirs);
    let ds = install_dirs(dirs);
    assert forall|i: int| 1 <= i < s.len() implies (#[trigger] s[i] matches StepView::Detect { label, .. } && label
        == ds[i - 1]) by {
        assert(s[i] == StepView::Detect {
            base: join_path(worktree, ds[i - 1]),
            label: ds[i - 1],
            markers: install_candidates(rules).map_values(|c: (Seq<char>, Seq<Seq<char>>)| c.0),
        });
    }
}

/// An explicit file operation acts on exactly the matches that do not lie
/// inside another matched directory: if a directory and one of its
/// descendants both match, only the directory is kept.
pub proof fn lemma_selection_keeps_exactly_the_outermost(cs: Seq<Candidate>)
    ensures
        forall|x: (Seq<char>, Seq<char>)|
            selection(cs).contains(x) ==> exists|i: int|
                0 <= i < cs.len() && !covered(cs, i) && x == (#[trigger] cs[i].path@, cs[i].relative@),
        forall|i: int|
            0 <= i < cs.len() && !covered(cs, i) ==> selection(cs).contains(
                (#[trigger] cs[i].path@, cs[i].relative@),
            ),
{
    lemma_max_depth(cs, cs.len() as int);
    lemma_levels_members(cs, max_depth(cs, cs.len() as int));
}


/// The command of the first candidate whose marker matched, found at the
/// first matching index.
proof fn lemma_first_match_at(cands: Seq<(Seq<char>, Seq<Seq<char>>)>, matched: Seq<bool>, i: int)
    requires
        cands.len() == matched.len(),
        0 <= i < matched.len(),
        matched[i],
    ensures
        exists|k: int| 0 <= k <= i && matched[k] && first_match(cands, matched) == Some(#[trigger] cands[k].1),
    decreases i,
{
    if matched[0] {
        assert(first_match(cands, matched) == Some(cands[0].1));
    } else {
        lemma_first_match_at(cands.drop_first(), matched.drop_first(), i - 1);
        let k = choose|k: int|
            0 <= k <= i - 1 && matched.drop_first()[k] && first_match(cands.drop_first(), matched.drop_first())
                == Some(#[trigger] cands.drop_first()[k].1);
        assert(cands.drop_first()[k] == cands[k + 1]);
    }
}

/// Lockfiles win over the generic manifest: in a directory holding a
/// JavaScript lockfile (`bun.lockb`, `pnpm-lock.yaml`, `yarn.lock`,
/// `package-lock.json`, or `deno.lock`), the built-in rules pick a command,
/// and never the loose `npm install` of `package.json`, whatever else the
/// directory holds.
pub proof fn lemma_lockfiles_win_over_package_json(present: Set<Seq<char>>, matched: Seq<bool>)
    requires
        matched.len() == builtin_rules().len(),
        forall|i: int| 0 <= i < matched.len() ==> matched[i] == present.contains(#[trigger] builtin_rules()[i].0),
        present.contains("bun.lockb"@) || present.contains("pnpm-lock.yaml"@) || present.contains("yarn.lock"@)
            || present.contains("package-lock.json"@) || present.contains("deno.lock"@),
    ensures
        first_match(builtin_rules(), matched) is Some,
        first_match(builtin_rules(), matched) != Some(seq!["npm"@, "install"@]),
{
    let b = builtin_rules();
    let i: int = if present.contains("bun.lockb"@) {
        0
    } else if present.contains("pnpm-lock.yaml"@) {
        1
    } else if present.contains("yarn.lock"@) {
        2
    } else if present.contains("package-lock.json"@) {
        3
    } else {
        4
    };
    assert(matched[i] == present.contains(b[i].0));
    lemma_first_match_at(b, matched, i);
    let k = choose|k: int| 0 <= k <= i && matched[k] && first_match(b, matched) == Some(#[trigger] b[k].1);
    reveal_strlit("npm");
    reveal_strlit("install");
    reveal_strlit("bun");
    reveal_strlit("ci");
    reveal_strlit("deno");
    if b[k].1 == seq!["npm"@, "install"@] {
        assert(b[k].1.len() == 2);
        assert(b[k].1[0] == "npm"@);
        assert(b[k].1[1] == "install"@);
        assert("npm"@[0] == 'n');
        assert("install"@.len() == 7);
        if k == 0 {
            assert(b[0].1[0][0] == 'b');
        } else if k == 1 {
            assert(b[1].1.len() == 3);
        } else if k == 2 {
            assert(b[2].1.len() == 3);
        } else if k == 3 {
            assert(b[3].1[1].len() == 2);
        } else {
            assert(b[4].1[0][0] == 'd');
        }
    }
}


/// Blank lines after the last non-blank line do not change which lines are
/// kept.
proof fn lemma_nonblank_ends_with(ls: Seq<Seq<char>>, i: int)
    requires
        0 <= i < ls.len(),
        trim_end(ls[i]).len() > 0,
        forall|j: int| i < j < ls.len() ==> trim_end(#[trigger] ls[j]).len() == 0,
    ensures
        nonblank(ls).len() > 0,
        nonblank(ls).last() == trim_end(ls[i]),
    decreases ls.len(),
{
    if i < ls.len() - 1 {
        lemma_nonblank_ends_with(ls.drop_last(), i);
        assert(trim_end(ls.last()).len() == 0);
    }
}

/// The tail of a command's output always quotes its last real line: when
/// the output has a non-blank line, the tail exists and ends with the last
/// one (without trailing whitespace), however many blank lines follow it.
pub proof fn lemma_the_tail_ends_with_the_last_message(text: Seq<char>, i: int)
    requires
        0 <= i < lines(text).len(),
        trim_end(lines(text)[i]).len() > 0,
        forall|j: int| i < j < lines(text).len() ==> trim_end(#[trigger] lines(text)[j]).len() == 0,
    ensures
        tail_of(text) matches Some(t) && t.len() >= trim_end(lines(text)[i]).len() && t.skip(
            t.len() - trim_end(lines(text)[i]).len(),
        ) == trim_end(lines(text)[i]),
{
    let ls = lines(text);
    lemma_nonblank_ends_with(ls, i);
    let ks = nonblank(ls);
    let start = if ks.len() > FAILURE_TAIL_LINES { ks.len() - FAILURE_TAIL_LINES } else { 0 };
    let kept = ks.subrange(start, ks.len() as int);
    assert(kept.last() == ks.last());
    crate::text::lemma_join_ends(kept, seq!['\n']);
}


/// Among JavaScript projects the more specific lockfile wins: the built-in
/// rules run the command of the first of `bun.lockb`, `pnpm-lock.yaml`,
/// `yarn.lock`, `package-lock.json`, `deno.lock`, `package.json` that the
/// directory holds, whatever else it holds.
pub proof fn lemma_the_first_javascript_marker_present_wins(present: Set<Seq<char>>, matched: Seq<bool>)
    requires
        matched.len() == builtin_rules().len(),
        forall|i: int| 0 <= i < matched.len() ==> matched[i] == present.contains(#[trigger] builtin_rules()[i].0),
        present.contains("bun.lockb"@) || present.contains("pnpm-lock.yaml"@) || present.contains("yarn.lock"@)
            || present.contains("package-lock.json"@) || present.contains("deno.lock"@) || present.contains(
            "package.json"@,
        ),
    ensures
        first_match(builtin_rules(), matched) == Some(
            if present.contains("bun.lockb"@) {
                seq!["bun"@, "install"@]
            } else if present.contains("pnpm-lock.yaml"@) {
                seq!["pnpm"@, "install"@, "--frozen-lockfile"@]
            } else if present.contains("yarn.lock"@) {
                seq!["yarn"@, "install"@, "--frozen-lockfile"@]
            } else if present.contains("package-lock.json"@) {
                seq!["npm"@, "ci"@]
            } else if present.contains("deno.lock"@) {
                seq!["deno"@, "install"@]
            } else {
                seq!["npm"@, "install"@]
            },
        ),
{
    let b = builtin_rules();
    let i: int = if present.contains("bun.lockb"@) {
        0
    } else if present.contains("pnpm-lock.yaml"@) {
        1
    } else if present.contains("yarn.lock"@) {
        2
    } else if present.contains("package-lock.json"@) {
        3
    } else if present.contains("deno.lock"@) {
        4
    } else {
        5
    };
    assert(matched[i] == present.contains(b[i].0));
    assert forall|j: int| 0 <= j < i implies !matched[j] by {
        assert(matched[j] == present.contains(b[j].0));
    }
    lemma_first_match_skip(b, matched, i);
    assert(b.skip(i)[0] == b[i]);
    assert(matched.skip(i)[0] == matched[i]);
}

} // verus!
