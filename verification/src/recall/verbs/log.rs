//! `at-recall log` — what changed lately.
//!
//! One line per commit, the bound stated, and the total from walking the same revision and
//! paths, so the count under the listing is the number the listing was drawn from.

use vstd::prelude::*;
use vstd::string::StringExecFns;

use crate::contract::{bound_line, counted, header_line, next_line, plural, Exit, Outcome, Report, MAX_LIMIT};
use crate::peek::verbs::slice::{clamp_bounds, width_bounds};
use crate::recall::facts::{commit_lines, commit_views, commit_widths, lemma_commit_views, rev_view, CommitView, Commits};
use crate::recall::verbs::{again, again_of, budgeted, budget_cuts, limit_flag, min, push_all, Budget, Opts};
use crate::text::{decimal, decimal_text, str_views};

verus! {

/// What the header says was walked.
pub open spec fn log_target(rev: Option<Seq<char>>, paths: Seq<Seq<char>>) -> Seq<char> {
    match rev {
        Some(r) => if paths.len() == 0 {
            r
        } else if paths.len() == 1 {
            r + " · "@ + paths[0]
        } else {
            r + " · "@ + counted(paths.len(), "path"@, "path"@ + "s"@)
        },
        None => "HEAD · no commits yet"@,
    }
}

/// The report a log starts with: the clamp, then the header. With no commits there is nothing to
/// walk, which is a fact about the repository rather than an error: the exit code carries it.
pub fn begin(rev: &Option<String>, paths: &Vec<String>, opts: &Opts) -> (r: Report)
    ensures
        r@.0 == clamp_bounds(opts.limit_clamped_from)
            + seq![header_line(crate::recall::TOOL@, "log"@, opts.root.name_view(), log_target(rev_view(*rev), str_views(paths@)))],
        r@.1 == 0,
{
    let mut report = Report::new();
    crate::peek::verbs::slice::clamp_bound(&mut report, opts.limit_clamped_from);
    let target = match rev {
        Some(r) => {
            let mut t = r.clone();
            if paths.len() == 1 {
                t.append(" · ");
                t.append(paths[0].as_str());
            } else if paths.len() > 1 {
                t.append(" · ");
                t.append(plural(paths.len(), "path").as_str());
            }
            t
        },
        None => String::from_str("HEAD · no commits yet"),
    };
    report.header(crate::recall::TOOL, "log", opts.root.name(), target.as_str());
    report
}

/// The lines `push` adds: the rows the budget allows, the count under them, the width caveat.
pub open spec fn pushed_lines(cs: Seq<CommitView>, total: nat, limit: nat) -> Seq<Seq<char>> {
    let rows = commit_lines(cs, commit_widths(cs));
    let shown = min(rows.len(), limit);
    budgeted(rows, limit)
        + seq![if shown == total {
            bound_line(counted(total, "commit"@, "commit"@ + "s"@))
        } else {
            bound_line(decimal(shown) + " of "@ + counted(total, "commit"@, "commit"@ + "s"@) + " · --limit "@ + decimal(limit))
        }]
        + width_bounds(budget_cuts(rows, limit))
}

proof fn lemma_commit_lines_len(cs: Seq<CommitView>, w: (nat, nat))
    ensures
        commit_lines(cs, w).len() == cs.len(),
    decreases cs.len(),
{
    if cs.len() > 0 {
        lemma_commit_lines_len(cs.drop_last(), w);
    }
}

/// Print the rows and the count under them, and return how many rows were printed. Shared with
/// the `pr` recipe, so a commit line means the same thing in both.
pub fn push(report: &mut Report, opts: &Opts, commits: &Commits) -> (shown: usize)
    requires
        old(report)@.1 + opts.limit <= usize::MAX,
    ensures
        final(report)@.0 == old(report)@.0 + pushed_lines(commit_views(commits.rows@), commits.total as nat, opts.limit as nat),
        final(report)@.1 == old(report)@.1 + shown,
        shown == min(commits.rows@.len(), opts.limit as nat),
{
    proof {
        lemma_commit_views(commits.rows@);
        lemma_commit_lines_len(commit_views(commits.rows@), commit_widths(commit_views(commits.rows@)));
    }
    let ghost l0 = report@.0;
    let lines = commits.lines();
    let n = commits.rows.len();
    assert(str_views(lines@).len() == lines@.len());
    assert(lines@.len() == n);
    let mut budget = Budget::new(opts.limit);
    push_all(&mut budget, report, &lines);
    let shown = commits.rows.len() - budget.dropped();
    if shown == commits.total {
        report.bound(plural(commits.total, "commit"));
    } else {
        let mut m = decimal_text(shown as u64);
        m.append(" of ");
        m.append(plural(commits.total, "commit").as_str());
        m.append(" · --limit ");
        m.append(decimal_text(opts.limit as u64).as_str());
        report.bound(m);
    }
    budget.width_caveat(report);
    assert(report@.0 =~= l0 + pushed_lines(commit_views(commits.rows@), commits.total as nat, opts.limit as nat));
    shown
}

/// The exit a cut listing offers: all of it.
pub open spec fn log_exits(opts: Opts, rev: Seq<char>, paths: Seq<Seq<char>>, shown: nat, total: nat) -> Seq<Seq<char>> {
    if shown < total {
        let widest = if total <= MAX_LIMIT { total } else { MAX_LIMIT as nat };
        seq![next_line(again_of(opts, "log"@, Some(rev), paths, seq!["--limit "@ + decimal(widest)]),
            "all "@ + counted(total, "commit"@, "commit"@ + "s"@))]
    } else {
        seq![]
    }
}

/// The listing of a log that has a revision to walk, after what [`begin`] printed.
pub fn answer(report: Report, rev: &str, paths: &Vec<String>, commits: &Commits, opts: &Opts) -> (r: Outcome)
    requires
        report@.1 == 0,
    ensures
        r.report@.0 == report@.0 + pushed_lines(commit_views(commits.rows@), commits.total as nat, opts.limit as nat)
            + log_exits(*opts, rev@, str_views(paths@), min(commits.rows@.len(), opts.limit as nat), commits.total as nat),
        r.report@.1 == min(commits.rows@.len(), opts.limit as nat),
        r.exit == (if r.report@.1 > 0 { Exit::Results } else { Exit::Nothing }),
{
    let mut report = report;
    let ghost l0 = report@.0;
    let shown = push(&mut report, opts, commits);
    let ghost l1 = report@.0;
    if shown < commits.total {
        let widest = if commits.total <= MAX_LIMIT { commits.total } else { MAX_LIMIT };
        let flags = vec![limit_flag(widest)];
        assert(str_views(flags@) =~= seq!["--limit "@ + decimal(widest as nat)]);
        let mut why = String::from_str("all ");
        why.append(plural(commits.total, "commit").as_str());
        report.next(again(opts, "log", Some(rev), paths, &flags), why);
    }
    assert(report@.0 =~= l1 + log_exits(*opts, rev@, str_views(paths@), shown as nat, commits.total as nat));
    Outcome::from_report(report)
}

} // verus!
