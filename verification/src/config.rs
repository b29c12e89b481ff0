//! User-level plugin settings and the per-repo worktree sync configuration.
//!
//! These are the plain values the bootstrap logic reads. Reading and parsing
//! the TOML or YAML files happens at the edge of the program; what decides
//! which file, which parser, and whether a configured path is acceptable
//! lives here.

use vstd::prelude::*;

use crate::failure::Failure;
use crate::paths::{escapes, extension, path_escapes, path_extension};
use crate::text::owned;

verus! {

/// Config path relative to the repo/worktree root when the user has not
/// overridden it in the plugin's user-level config.
pub const DEFAULT_REPO_CONFIG_PATH: &'static str = ".worktree-sync.toml";

/// User-level settings read from `$HERDR_PLUGIN_CONFIG_DIR/config.toml`.
#[derive(Debug, PartialEq, Eq)]
pub struct PluginConfig {
    /// Path of the sync file inside every repository.
    pub repo_config_path: String,
}

impl Default for PluginConfig {
    fn default() -> (r: Self)
        ensures
            r.repo_config_path@ == DEFAULT_REPO_CONFIG_PATH@,
    {
        PluginConfig { repo_config_path: default_repo_config_path() }
    }
}

/// The built-in repo config path.
pub fn default_repo_config_path() -> (p: String)
    ensures
        p@ == DEFAULT_REPO_CONFIG_PATH@,
{
    owned(DEFAULT_REPO_CONFIG_PATH)
}

/// The extensions a repo config file may have.
pub open spec fn config_extension(e: Seq<char>) -> bool {
    e == "toml"@ || e == "yaml"@ || e == "yml"@
}

/// Accepts a user-configured repo config path only if it stays inside the
/// repository and names a TOML or YAML file.
pub fn validate_repo_config_path(path: &str) -> (r: Result<(), Failure>)
    ensures
        r is Ok <==> !escapes(path@) && (extension(path@) matches Some(e) && config_extension(e)),
        escapes(path@) ==> (r matches Err(f) && f.causes() == seq![
            "repo_config_path must be a relative path inside the repository: "@ + path@,
        ]),
        !escapes(path@) && !(extension(path@) matches Some(e) && config_extension(e)) ==> (r matches Err(f)
            && f.causes() == seq!["repo_config_path must end in .toml, .yaml, or .yml"@]),
{
    if path_escapes(path) {
        let mut m = owned("repo_config_path must be a relative path inside the repository: ");
        m.append(path);
        return Err(Failure::msg(m));
    }
    match path_extension(path) {
        Some(e) => {
            if e.eq(&owned("toml")) || e.eq(&owned("yaml")) || e.eq(&owned("yml")) {
                Ok(())
            } else {
                Err(Failure::from_str("repo_config_path must end in .toml, .yaml, or .yml"))
            }
        },
        None => Err(Failure::from_str("repo_config_path must end in .toml, .yaml, or .yml")),
    }
}

/// How a repo config file is parsed.
#[derive(Debug, PartialEq, Eq, Clone, Copy, Structural)]
pub enum Format {
    Toml,
    Yaml,
}

/// A `.yaml` or `.yml` file is YAML; anything else is read as TOML.
pub fn config_format(path: &str) -> (f: Format)
    ensures
        f == (if extension(path@) matches Some(e) && (e == "yaml"@ || e == "yml"@) {
            Format::Yaml
        } else {
            Format::Toml
        }),
{
    match path_extension(path) {
        Some(e) => {
            if e.eq(&owned("yaml")) || e.eq(&owned("yml")) {
                Format::Yaml
            } else {
                Format::Toml
            }
        },
        None => Format::Toml,
    }
}

/// The whole per-repo configuration. Every phase is opt-in; only the
/// notification defaults to on.
#[derive(Debug, PartialEq, Eq)]
pub struct Config {
    /// Update git (e.g. fetch) before anything else.
    pub git: GitConfig,
    pub copy: CopyConfig,
    pub clone: CloneConfig,
    pub symlink: SymlinkConfig,
    pub install: InstallConfig,
    /// Commands run before/after the file operations and install phases.
    pub hooks: Hooks,
    /// Whether to announce the result as a herdr toast.
    pub notify: NotifyConfig,
    /// What to do with the worktree when the bootstrap aborts.
    pub failure: FailureConfig,
}

impl Config {
    /// The configuration of a repo that has no config file.
    pub open spec fn is_default(&self) -> bool {
        &&& !self.git.update
        &&& self.git.command is None
        &&& !self.copy.enabled
        &&& self.copy.files is None
        &&& self.copy.patterns is None
        &&& !self.clone.enabled
        &&& self.clone.files@.len() == 0
        &&& !self.symlink.enabled
        &&& self.symlink.files@.len() == 0
        &&& !self.install.enabled
        &&& self.install.dirs is None
        &&& self.install.rules@.len() == 0
        &&& self.hooks.pre@.len() == 0
        &&& self.hooks.post@.len() == 0
        &&& self.notify.when == NotifyWhen::Always
        &&& self.failure.action == OnFailure::Keep
    }
}

impl Default for Config {
    fn default() -> (r: Self)
        ensures
            r.is_default(),
    {
        Config {
            git: GitConfig::default(),
            copy: CopyConfig::default(),
            clone: CloneConfig::default(),
            symlink: SymlinkConfig::default(),
            install: InstallConfig::default(),
            hooks: Hooks::default(),
            notify: NotifyConfig::default(),
            failure: FailureConfig::default(),
        }
    }
}

#[derive(Debug, PartialEq, Eq)]
pub struct FailureConfig {
    pub action: OnFailure,
}

impl Default for FailureConfig {
    fn default() -> (r: Self)
        ensures
            r.action == OnFailure::Keep,
    {
        FailureConfig { action: OnFailure::Keep }
    }
}

/// What happens to a worktree whose bootstrap failed.
///
/// herdr fires this plugin *after* the worktree, its workspace and its pane
/// already exist, so the only choice is whether to undo what herdr just did.
#[derive(Debug, PartialEq, Eq, Clone, Copy, Structural)]
pub enum OnFailure {
    /// Leave the half-bootstrapped worktree in place (default).
    Keep,
    /// Tear the worktree, its workspace and its pane back down.
    Remove,
}

impl Default for OnFailure {
    fn default() -> (r: Self)
        ensures
            r == OnFailure::Keep,
    {
        OnFailure::Keep
    }
}

#[derive(Debug, PartialEq, Eq)]
pub struct NotifyConfig {
    pub when: NotifyWhen,
}

impl Default for NotifyConfig {
    fn default() -> (r: Self)
        ensures
            r.when == NotifyWhen::Always,
    {
        NotifyConfig { when: NotifyWhen::Always }
    }
}

/// When to post a herdr toast summarising the run. Unlike every other
/// section this defaults to on: a run nobody is told about is a run nobody
/// can see.
#[derive(Debug, PartialEq, Eq, Clone, Copy, Structural)]
pub enum NotifyWhen {
    /// Stay silent whatever happens.
    Never,
    /// Only when the bootstrap aborts.
    Failure,
    /// After every run in which at least one phase was enabled.
    Always,
}

impl Default for NotifyWhen {
    fn default() -> (r: Self)
        ensures
            r == NotifyWhen::Always,
    {
        NotifyWhen::Always
    }
}

#[derive(Debug, PartialEq, Eq)]
pub struct GitConfig {
    /// Bring git up to date before the pre hooks run.
    pub update: bool,
    /// Override the update command. Defaults to `git fetch --all --prune`.
    pub command: Option<Vec<String>>,
}

impl Default for GitConfig {
    fn default() -> (r: Self)
        ensures
            !r.update,
            r.command is None,
    {
        GitConfig { update: false, command: None }
    }
}

#[derive(Debug, PartialEq, Eq)]
pub struct Hooks {
    /// Run first, before file operations and install.
    pub pre: Vec<CommandConfig>,
    /// Run last, after file operations and install.
    pub post: Vec<CommandConfig>,
}

impl Default for Hooks {
    fn default() -> (r: Self)
        ensures
            r.pre@.len() == 0,
            r.post@.len() == 0,
    {
        Hooks { pre: Vec::new(), post: Vec::new() }
    }
}

#[derive(Debug, PartialEq, Eq)]
pub struct CopyConfig {
    pub enabled: bool,
    /// Relative paths or glob patterns to copy from the source repo. When
    /// set, gitignored discovery is disabled. An empty list copies nothing.
    pub files: Option<Vec<String>>,
    /// Filename globs used by recursive discovery (only when `files` is
    /// absent). Omit for the env-file defaults (`.env`, `.env.*`).
    pub patterns: Option<Vec<String>>,
}

impl Default for CopyConfig {
    fn default() -> (r: Self)
        ensures
            !r.enabled,
            r.files is None,
            r.patterns is None,
    {
        CopyConfig { enabled: false, files: None, patterns: None }
    }
}

#[derive(Debug, PartialEq, Eq)]
pub struct CloneConfig {
    pub enabled: bool,
    /// Relative paths or glob patterns to clone from the primary checkout.
    pub files: Vec<String>,
}

impl Default for CloneConfig {
    fn default() -> (r: Self)
        ensures
            !r.enabled,
            r.files@.len() == 0,
    {
        CloneConfig { enabled: false, files: Vec::new() }
    }
}

#[derive(Debug, PartialEq, Eq)]
pub struct SymlinkConfig {
    pub enabled: bool,
    /// Relative paths or glob patterns to link from the primary checkout.
    pub files: Vec<String>,
}

impl Default for SymlinkConfig {
    fn default() -> (r: Self)
        ensures
            !r.enabled,
            r.files@.len() == 0,
    {
        SymlinkConfig { enabled: false, files: Vec::new() }
    }
}

#[derive(Debug, PartialEq, Eq)]
pub struct InstallConfig {
    pub enabled: bool,
    /// Directories to install in, relative to the worktree root. Omit for
    /// `["."]`, the worktree root only.
    pub dirs: Option<Vec<String>>,
    /// Custom detection rules, checked *before* the built-ins.
    pub rules: Vec<InstallRule>,
}

impl Default for InstallConfig {
    fn default() -> (r: Self)
        ensures
            !r.enabled,
            r.dirs is None,
            r.rules@.len() == 0,
    {
        InstallConfig { enabled: false, dirs: None, rules: Vec::new() }
    }
}

#[derive(Debug, PartialEq, Eq)]
pub struct InstallRule {
    /// File whose presence in the directory triggers this rule (e.g.
    /// "go.mod"); `*.ext` matches any file with that extension.
    pub marker: String,
    /// Command to run when the marker is found.
    pub command: Vec<String>,
}

#[derive(Debug, PartialEq, Eq)]
pub struct CommandConfig {
    /// argv; the first element is the program.
    pub command: Vec<String>,
    /// Working directory, relative to the worktree root. Omit to run at the
    /// root.
    pub dir: Option<String>,
}

} // verus!
