//! Manual plugin actions: the `sync` action re-applies file operations to
//! the linked worktree in Herdr's invocation context.

use vstd::prelude::*;

use crate::config::Config;
use crate::failure::Failure;
use crate::lifecycle::{ran_through, Bootstrap, Progress, StepView};
use crate::text::owned;
use crate::{file_plan, lemma_a_successful_sync_ran_only_file_operations, nothing_done, sync_files, Tally};

verus! {

/// The worktree of Herdr's invocation context.
#[derive(Debug, PartialEq, Eq)]
pub struct InvocationWorktree {
    pub repo_root: String,
    pub checkout_path: String,
    pub is_linked_worktree: bool,
}

pub open spec fn no_worktree_message() -> Seq<char> {
    "the focused workspace is not associated with a git worktree"@
}

pub open spec fn primary_checkout_sync_message() -> Seq<char> {
    "file sync requires a linked worktree, not the primary checkout"@
}

/// Where a manual sync copies from and to: `(source, destination)`, the
/// primary checkout and the focused linked worktree. Syncing the primary
/// checkout onto itself could overwrite its own files, so it is refused.
pub fn sync_target(worktree: Option<&InvocationWorktree>) -> (r: Result<(String, String), Failure>)
    ensures
        match worktree {
            None => r matches Err(f) && f.causes() == seq![no_worktree_message()],
            Some(w) => if !w.is_linked_worktree || w.repo_root@ == w.checkout_path@ {
                r matches Err(f) && f.causes() == seq![primary_checkout_sync_message()]
            } else {
                r matches Ok(p) && p.0@ == w.repo_root@ && p.1@ == w.checkout_path@
            },
        },
{
    match worktree {
        None => Err(Failure::from_str("the focused workspace is not associated with a git worktree")),
        Some(w) => {
            if !w.is_linked_worktree || w.repo_root.eq(&w.checkout_path) {
                return Err(Failure::from_str("file sync requires a linked worktree, not the primary checkout"));
            }
            Ok((owned(w.repo_root.as_str()), owned(w.checkout_path.as_str())))
        },
    }
}


/// The manual sync of a target `(source, destination)` that [`sync_target`]
/// gave: the file operations of `config`, applied from the primary checkout
/// to the linked worktree, and nothing else.
pub fn sync_worktree(target: &(String, String), config: &Config) -> (res: (Bootstrap, Progress))
    ensures
        res.0.steps_view() == file_plan(target.1@, Some(target.0@), *config).0,
        res.0.wf(),
        res.0.performed() == Seq::<(StepView, bool)>::empty(),
        !res.0.installing(),
        res.1 matches Progress::Finished(Ok(s)) ==> file_plan(target.1@, Some(target.0@), *config).1 is None
            && ran_through(file_plan(target.1@, Some(target.0@), *config).0, s@),
        res.1 is Continue ==> !res.0.is_finished() && res.0.at() == 0 && res.0.tally() == nothing_done()
            && res.0.abort_view() == file_plan(target.1@, Some(target.0@), *config).1
            && res.0.current_view() == res.0.steps_view()[0],
        !(res.1 is Continue) ==> res.0.is_finished(),
{
    sync_files(target.1.as_str(), Some(target.0.as_str()), config)
}

/// A manual sync never runs a command: on the target that [`sync_target`]
/// gives for a linked worktree, a sync that ends successfully updated no
/// git, ran no hook and installed nothing, and has a copy, clone, or link
/// result exactly when that operation is enabled.
pub proof fn lemma_a_manual_sync_runs_no_commands(w: InvocationWorktree, config: Config, t: Tally)
    requires
        w.is_linked_worktree,
        w.repo_root@ != w.checkout_path@,
        file_plan(w.checkout_path@, Some(w.repo_root@), config).1 is None,
        ran_through(file_plan(w.checkout_path@, Some(w.repo_root@), config).0, t),
    ensures
        !t.git_updated,
        t.hooks_run == 0,
        t.installed is None,
        (t.copied is Some) == config.copy.enabled,
        (t.cloned is Some) == config.clone.enabled,
        (t.linked is Some) == config.symlink.enabled,
{
    lemma_a_successful_sync_ran_only_file_operations(w.checkout_path@, Some(w.repo_root@), config, t);
}

} // verus!
