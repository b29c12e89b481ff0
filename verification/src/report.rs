//! The full failure report: what the pane opened on a failure shows, and the
//! file it is kept in.

use vstd::prelude::*;

use crate::failure::Failure;
use crate::text::{chars_of, join, owned, push_char, views};

verus! {

/// Entrypoint id of the plugin's failure pane.
pub const PANE_ENTRYPOINT: &'static str = "failure";

/// Env var the pane entrypoint reads the report path from.
pub const REPORT_PATH_VAR: &'static str = "WORKTREE_SYNC_REPORT";

/// File in the state directory remembering the pane opened by the last
/// failure, so the next one can close it.
pub const PANE_ID_FILE: &'static str = "failure-pane-id";

/// Each cause on a line of its own.
pub open spec fn cause_lines(causes: Seq<Seq<char>>) -> Seq<char>
    decreases causes.len(),
{
    if causes.len() == 0 {
        Seq::empty()
    } else {
        cause_lines(causes.drop_last()) + causes.last() + seq!['\n']
    }
}

/// The report text: what failed, where, and every cause of the error on its
/// own line, so a command's multi-line output survives intact.
pub open spec fn report_text(branch: Seq<char>, worktree: Seq<char>, causes: Seq<Seq<char>>) -> Seq<char> {
    "Worktree sync failed\n\nbranch:   "@ + branch + "\nworktree: "@ + worktree + "\n\n"@ + cause_lines(causes)
}

/// The report file's contents.
pub fn compose(branch: &str, worktree: &str, err: &Failure) -> (r: String)
    ensures
        r@ == report_text(branch@, worktree@, err.causes()),
{
    let mut body = owned("Worktree sync failed\n\nbranch:   ");
    body.append(branch);
    body.append("\nworktree: ");
    body.append(worktree);
    body.append("\n\n");
    let ghost head = body@;
    let ghost cs = err.causes();
    let mut i: usize = 0;
    assert(cs.take(0) == Seq::<Seq<char>>::empty());
    while i < err.chain.len()
        invariant
            i <= err.chain@.len(),
            cs == views(err.chain@),
            body@ == head + cause_lines(cs.take(i as int)),
        decreases err.chain@.len() - i,
    {
        body.append(err.chain[i].as_str());
        push_char(&mut body, '\n');
        assert(cs.take(i + 1).drop_last() == cs.take(i as int));
        assert(cs.take(i + 1).last() == err.chain@[i as int]@);
        i = i + 1;
    }
    assert(cs.take(cs.len() as int) == cs);
    body
}

/// A branch name made safe for a file name: ASCII letters and digits stay,
/// everything else (the `/` of `worktree/<name>` included) becomes `-`.
pub open spec fn safe_name(branch: Seq<char>) -> Seq<char> {
    branch.map_values(|c: char| if ('a' <= c <= 'z') || ('A' <= c <= 'Z') || ('0' <= c <= '9') { c } else { '-' })
}

pub open spec fn report_file(branch: Seq<char>) -> Seq<char> {
    "failure-"@ + safe_name(branch) + ".log"@
}

/// The report's file name for `branch`: one file per branch, never a path
/// into a subdirectory.
pub fn report_file_name(branch: &str) -> (r: String)
    ensures
        r@ == report_file(branch@),
        forall|i: int| 0 <= i < r@.len() ==> r@[i] != '/',
{
    let v = chars_of(branch);
    let mut r = owned("failure-");
    let ghost head = r@;
    let mut i: usize = 0;
    while i < v.len()
        invariant
            i <= v@.len(),
            v@ == branch@,
            r@ == head + safe_name(branch@).take(i as int),
        decreases v@.len() - i,
    {
        let c = v[i];
        let d = if ('a' <= c && c <= 'z') || ('A' <= c && c <= 'Z') || ('0' <= c && c <= '9') {
            c
        } else {
            '-'
        };
        push_char(&mut r, d);
        assert(safe_name(branch@).take(i + 1) =~= safe_name(branch@).take(i as int).push(d));
        i = i + 1;
    }
    assert(safe_name(branch@).take(v@.len() as int) == safe_name(branch@));
    r.append(".log");
    proof {
        reveal_strlit("failure-");
        reveal_strlit(".log");
        let s = safe_name(branch@);
        assert forall|i: int| 0 <= i < r@.len() implies r@[i] != '/' by {
            if i < 8 {
                assert(r@[i] == "failure-"@[i]);
            } else if i < 8 + s.len() {
                assert(r@[i] == s[i - 8]);
            } else {
                assert(r@[i] == ".log"@[i - 8 - s.len()]);
            }
        }
    }
    r
}


/// The causes of a report, in the order of the chain: outermost context
/// first, each on its own line. A non-empty chain reads as the causes
/// joined by newlines, ending with one; wrapping a failure in a context
/// puts that context's line first, before everything the inner failure
/// reported.
pub proof fn lemma_causes_read_outermost_first(outer: Seq<char>, causes: Seq<Seq<char>>)
    ensures
        causes.len() > 0 ==> cause_lines(causes) == join(causes, seq!['\n']) + seq!['\n'],
        cause_lines(seq![outer] + causes) == outer + seq!['\n'] + cause_lines(causes),
    decreases causes.len(),
{
    if causes.len() > 0 {
        lemma_causes_read_outermost_first(outer, causes.drop_last());
        assert((seq![outer] + causes).drop_last() =~= seq![outer] + causes.drop_last());
        assert((seq![outer] + causes).last() == causes.last());
        let dl = causes.drop_last();
        if causes.len() > 1 {
            assert(join(causes, seq!['\n']) == join(dl, seq!['\n']) + seq!['\n'] + causes.last());
            assert(cause_lines(causes) == cause_lines(dl) + causes.last() + seq!['\n']);
            assert(cause_lines(causes) =~= join(causes, seq!['\n']) + seq!['\n']);
        } else {
            assert(dl =~= Seq::<Seq<char>>::empty());
            assert(cause_lines(dl) == Seq::<char>::empty());
            assert(join(causes, seq!['\n']) == causes[0]);
            assert(cause_lines(causes) =~= join(causes, seq!['\n']) + seq!['\n']);
        }
        assert(cause_lines(seq![outer] + causes) == cause_lines(seq![outer] + dl) + causes.last() + seq!['\n']);
        assert(cause_lines(seq![outer] + causes) =~= outer + seq!['\n'] + cause_lines(causes));
    } else {
        assert(seq![outer] + causes =~= seq![outer]);
        assert(seq![outer].drop_last() =~= Seq::<Seq<char>>::empty());
        assert(cause_lines(Seq::<Seq<char>>::empty()) == Seq::<char>::empty());
        assert(cause_lines(seq![outer]) == cause_lines(seq![outer].drop_last()) + outer + seq!['\n']);
        assert(cause_lines(seq![outer] + causes) =~= outer + seq!['\n'] + cause_lines(causes));
    }
}

} // verus!
