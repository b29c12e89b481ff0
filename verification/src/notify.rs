//! Announce the bootstrap result as a herdr toast.
//!
//! herdr captures the plugin's stdout rather than printing it, so a toast is
//! the only channel that reaches the user when the worktree appears. What the
//! toast says is decided here; posting it is the program's business.

use vstd::prelude::*;

use crate::config::NotifyWhen;
use crate::failure::Failure;
use crate::text::{chars_of, decimal, join, join_strings, line_ranges, lines, owned, push_char, push_decimal, push_range, range_texts, ranges_in, views};
use crate::{nothing_done, Summary, Tally};

verus! {

/// A notification, ready to hand to `herdr notification show`.
#[derive(Debug, PartialEq, Eq)]
pub struct Toast {
    pub title: String,
    pub body: String,
    /// One of herdr's sound names: `none`, `done`, `request`.
    pub sound: &'static str,
}

/// How the bootstrap ended.
pub enum Outcome<'a> {
    Succeeded(&'a Summary),
    Failed(&'a Failure),
}

/// How many lines of a failure a toast gets; the cut is made here, where
/// the interesting lines can be kept.
pub const TOAST_BODY_LINES: usize = 6;

pub open spec fn ellipsis() -> Seq<char> {
    seq!['…']
}

/// A body shortened to `max` lines, keeping both ends: the first line, a
/// `…` line, and the last `max - 2` lines. A body that fits is unchanged.
pub open spec fn abbreviated(body: Seq<char>, max: nat) -> Seq<char> {
    let ls = lines(body);
    if ls.len() <= max {
        body
    } else {
        join(seq![ls[0], ellipsis()] + ls.subrange(ls.len() - (max - 2), ls.len() as int), seq!['\n'])
    }
}

/// Shorten a failure body to `max_lines`, keeping both ends: the first line
/// names the command that failed and the last lines say why.
pub fn abbreviate(body: &str, max_lines: usize) -> (r: String)
    requires
        max_lines >= 2 || lines(body@).len() <= max_lines,
    ensures
        r@ == abbreviated(body@, max_lines as nat),
{
    let v = chars_of(body);
    let rs = line_ranges(&v);
    let ghost ls = lines(v@);
    if rs.len() <= max_lines {
        return owned(body);
    }
    let mut out = String::new();
    let (lo, hi) = rs[0];
    assert(rs@[0].0 <= rs@[0].1 <= v@.len());
    assert(ls[0] == v@.subrange(lo as int, hi as int));
    push_range(&mut out, &v, lo, hi);
    push_char(&mut out, '\n');
    push_char(&mut out, '…');
    let start = rs.len() - (max_lines - 2);
    let ghost head = seq![ls[0], ellipsis()];
    assert(out@ =~= join(head, seq!['\n'])) by {
        assert(head.drop_last() =~= seq![ls[0]]);
        assert(join(seq![ls[0]], seq!['\n']) == ls[0]);
        assert(join(head, seq!['\n']) == ls[0] + seq!['\n'] + ellipsis());
    }
    let ghost tail = ls.subrange(start as int, ls.len() as int);
    let mut k = start;
    assert(tail.subrange(0, 0) == Seq::<Seq<char>>::empty());
    assert(head + tail.subrange(0, 0) == head);
    while k < rs.len()
        invariant
            start <= k <= rs@.len(),
            ranges_in(v@, rs@),
            range_texts(v@, rs@) == ls,
            tail == ls.subrange(start as int, ls.len() as int),
            head.len() == 2,
            out@ == join(head + tail.subrange(0, k - start), seq!['\n']),
        decreases rs@.len() - k,
    {
        let (a, b) = rs[k];
        assert(rs@[k as int].0 <= rs@[k as int].1 <= v@.len());
        assert(ls[k as int] == v@.subrange(a as int, b as int));
        push_char(&mut out, '\n');
        push_range(&mut out, &v, a, b);
        let ghost next = head + tail.subrange(0, k + 1 - start);
        assert(next.drop_last() == head + tail.subrange(0, k - start));
        assert(next.last() == ls[k as int]);
        k = k + 1;
    }
    assert(tail.subrange(0, tail.len() as int) == tail);
    out
}

/// The toast line for a file operation that ran: nothing when it did not
/// run, else `none`, `one`, or `"{before}{n}{after}"`.
pub open spec fn count_line(
    c: Option<usize>,
    none: Seq<char>,
    one: Seq<char>,
    before: Seq<char>,
    after: Seq<char>,
) -> Seq<Seq<char>> {
    match c {
        None => Seq::empty(),
        Some(n) => if n == 0 {
            seq![none]
        } else if n == 1 {
            seq![one]
        } else {
            seq![before + decimal(n as nat) + after]
        },
    }
}

/// One line per phase that ran, in the order the phases execute.
pub open spec fn describe_lines(t: Tally) -> Seq<Seq<char>> {
    (if t.git_updated {
        seq!["updated git"@]
    } else {
        Seq::empty()
    }) + count_line(t.copied, "copied no files"@, "copied 1 file"@, "copied "@, " files"@) + count_line(
        t.cloned,
        "cloned no files"@,
        "cloned 1 file"@,
        "cloned "@,
        " files"@,
    ) + count_line(
        t.linked,
        "linked no paths"@,
        "linked 1 path"@,
        "linked "@,
        " paths"@,
    ) + match t.installed {
        None => Seq::empty(),
        Some(cmds) => if cmds.len() == 0 {
            seq!["no install rule matched"@]
        } else {
            cmds
        },
    } + (if t.hooks_run > 0 {
        seq!["ran "@ + decimal(t.hooks_run as nat) + " hooks"@]
    } else {
        Seq::empty()
    })
}

fn push_count_line(
    lines: &mut Vec<String>,
    c: Option<usize>,
    none: &str,
    one: &str,
    before: &str,
    after: &str,
)
    ensures
        views(final(lines)@) == views(old(lines)@) + count_line(c, none@, one@, before@, after@),
{
    let ghost prev = views(lines@);
    match c {
        None => {},
        Some(n) => {
            if n == 0 {
                lines.push(owned(none));
            } else if n == 1 {
                lines.push(owned(one));
            } else {
                let mut l = owned(before);
                push_decimal(&mut l, n);
                l.append(after);
                lines.push(l);
            }
        },
    }
    assert(views(lines@) =~= prev + count_line(c, none@, one@, before@, after@));
}

/// The toast body for a successful run.
pub fn describe(summary: &Summary) -> (r: String)
    ensures
        r@ == join(describe_lines(summary@), seq!['\n']),
{
    let mut ls: Vec<String> = Vec::new();
    if summary.git_updated {
        ls.push(owned("updated git"));
    }
    let ghost a = views(ls@);
    assert(a =~= (if summary.git_updated { seq!["updated git"@] } else { Seq::<Seq<char>>::empty() }));
    push_count_line(&mut ls, summary.copied, "copied no files", "copied 1 file", "copied ", " files");
    push_count_line(&mut ls, summary.cloned, "cloned no files", "cloned 1 file", "cloned ", " files");
    push_count_line(&mut ls, summary.linked, "linked no paths", "linked 1 path", "linked ", " paths");
    let ghost b = views(ls@);
    match &summary.installed {
        None => {},
        Some(cmds) => {
            if cmds.len() == 0 {
                ls.push(owned("no install rule matched"));
            } else {
                let mut i: usize = 0;
                while i < cmds.len()
                    invariant
                        i <= cmds@.len(),
                        views(ls@) == b + views(cmds@).take(i as int),
                    decreases cmds@.len() - i,
                {
                    let ghost before = views(ls@);
                    ls.push(owned(cmds[i].as_str()));
                    assert(views(ls@) =~= before.push(cmds@[i as int]@));
                    assert(views(cmds@).take(i + 1) =~= views(cmds@).take(i as int).push(cmds@[i as int]@));
                    assert(views(ls@) =~= b + views(cmds@).take(i + 1));
                    i = i + 1;
                }
                assert(views(cmds@).take(cmds@.len() as int) == views(cmds@));
            }
        },
    }
    let ghost c = views(ls@);
    assert(c =~= b + match summary@.installed {
        None => Seq::<Seq<char>>::empty(),
        Some(cmds) => if cmds.len() == 0 {
            seq!["no install rule matched"@]
        } else {
            cmds
        },
    });
    if summary.hooks_run > 0 {
        let mut l = owned("ran ");
        push_decimal(&mut l, summary.hooks_run);
        l.append(" hooks");
        ls.push(l);
    }
    assert(views(ls@) =~= describe_lines(summary@));
    proof {
        reveal_strlit("\n");
    }
    assert("\n"@ =~= seq!['\n']);
    join_strings(&ls, "\n")
}

/// The toast for a finished run as (title, body, sound), or `None` to stay
/// silent: `never` is always silent, `failure` only speaks on failure, and
/// a run in which no phase was enabled never toasts.
pub open spec fn toast_spec(when: NotifyWhen, branch: Seq<char>, outcome: Outcome) -> Option<
    (Seq<char>, Seq<char>, Seq<char>),
> {
    match outcome {
        Outcome::Succeeded(s) => if when == NotifyWhen::Never || when == NotifyWhen::Failure || s@
            == nothing_done() {
            None
        } else {
            Some(
                (
                    "Worktree sync done · "@ + branch,
                    join(describe_lines(s@), seq!['\n']),
                    "done"@,
                ),
            )
        },
        Outcome::Failed(e) => if when == NotifyWhen::Never {
            None
        } else {
            Some(
                (
                    "Worktree sync failed · "@ + branch,
                    abbreviated(e.flat(), TOAST_BODY_LINES as nat),
                    "request"@,
                ),
            )
        },
    }
}

/// Compose the toast for a finished run, or `None` to stay silent.
pub fn toast_for(when: NotifyWhen, branch: &str, outcome: Outcome) -> (r: Option<Toast>)
    ensures
        match (r, toast_spec(when, branch@, outcome)) {
            (Some(t), Some(s)) => t.title@ == s.0 && t.body@ == s.1 && t.sound@ == s.2,
            (None, None) => true,
            _ => false,
        },
{
    match outcome {
        Outcome::Succeeded(s) => {
            if when == NotifyWhen::Never || when == NotifyWhen::Failure || s.is_empty() {
                return None;
            }
            let mut title = owned("Worktree sync done · ");
            title.append(branch);
            Some(Toast { title, body: describe(s), sound: "done" })
        },
        Outcome::Failed(e) => {
            if when == NotifyWhen::Never {
                return None;
            }
            let mut title = owned("Worktree sync failed · ");
            title.append(branch);
            let flat = e.flatten();
            Some(Toast { title, body: abbreviate(flat.as_str(), TOAST_BODY_LINES), sound: "request" })
        },
    }
}

/// What herdr's answer to a toast means for the log: nothing when it was
/// shown; otherwise a line naming herdr's reason (`unknown` when it gave
/// none), with a hint when toasts are switched off in herdr's config.
pub open spec fn suppression_text(shown: bool, reason: Option<Seq<char>>) -> Option<Seq<char>> {
    if shown {
        None
    } else {
        let r = match reason {
            Some(r) => r,
            None => "unknown"@,
        };
        Some(
            "[notify] herdr did not show the toast (reason: "@ + r + ")"@ + if r == "disabled"@ {
                " — set `[ui.toast] delivery` in herdr's config.toml to see it"@
            } else {
                Seq::empty()
            },
        )
    }
}

pub fn suppression_message(shown: bool, reason: Option<&str>) -> (r: Option<String>)
    ensures
        match (r, suppression_text(shown, match reason { Some(x) => Some(x@), None => None })) {
            (Some(a), Some(b)) => a@ == b,
            (None, None) => true,
            _ => false,
        },
{
    if shown {
        return None;
    }
    let r = match reason {
        Some(x) => owned(x),
        None => owned("unknown"),
    };
    let mut m = owned("[notify] herdr did not show the toast (reason: ");
    m.append(r.as_str());
    m.append(")");
    if r.eq(&owned("disabled")) {
        m.append(" — set `[ui.toast] delivery` in herdr's config.toml to see it");
    }
    Some(m)
}

/// When a shortened body's ends survive: with at least three lines to
/// spare, a body longer than that keeps its first line (the command that
/// failed) at the start and its last line (why) at the end.
pub proof fn lemma_abbreviation_keeps_both_ends(body: Seq<char>, max: nat)
    requires
        max >= 3,
        lines(body).len() > max,
    ensures
        abbreviated(body, max).take(lines(body)[0].len() as int) == lines(body)[0],
        abbreviated(body, max).skip(abbreviated(body, max).len() - lines(body).last().len()) == lines(
            body,
        ).last(),
{
    let ls = lines(body);
    let parts = seq![ls[0], ellipsis()] + ls.subrange(ls.len() - (max - 2), ls.len() as int);
    crate::text::lemma_join_ends(parts, seq!['\n']);
    assert(parts[0] == ls[0]);
    assert(parts.last() == ls.last());
}

/// When a toast is posted: `never` is silent even on failure; a run in
/// which no phase was enabled never toasts, whatever `when` says;
/// `failure` keeps quiet about success; every other failure toasts, with
/// the attention sound.
pub proof fn lemma_when_a_toast_is_posted(mode: NotifyWhen, branch: Seq<char>, summary: Summary, failure: Failure)
    ensures
        toast_spec(NotifyWhen::Never, branch, Outcome::Failed(&failure)) is None,
        toast_spec(NotifyWhen::Never, branch, Outcome::Succeeded(&summary)) is None,
        summary@ == nothing_done() ==> toast_spec(mode, branch, Outcome::Succeeded(&summary)) is None,
        toast_spec(NotifyWhen::Failure, branch, Outcome::Succeeded(&summary)) is None,
        mode != NotifyWhen::Never ==> (toast_spec(mode, branch, Outcome::Failed(&failure)) matches Some(t) && t.2
            == "request"@),
{
}

} // verus!
