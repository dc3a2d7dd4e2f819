//! `at-recall state` — what am I looking at.
//!
//! It answers in the order the questions are asked: which branch, which commit, is something
//! half-finished, what has changed. The in-progress check is a read of the files git itself
//! uses to remember a merge, rebase, cherry-pick, revert or bisect; they are named in one list,
//! so "none" is a claim about a known list rather than a shrug.

use vstd::prelude::*;
use vstd::string::StringExecFns;

use crate::catalogue::{pad_right, push_padded_right};
use crate::contract::{bound_line, counted, header_line, next_line, plural, plural_of, Exit, Fail, Outcome, Report, MAX_LIMIT};
use crate::peek::verbs::slice::{clamp_bounds, width_bounds};
use crate::recall::git::GIT;
use crate::recall::status::{collapsed_count, entry_lines, shown_branch, tracked_count, Status};
use crate::recall::verbs::{again, again_of, budgeted, budget_cuts, limit_flag, min, push_all, Budget, Opts};
use crate::text::{chars_of, decimal, decimal_text, join, lines, lines_of, split_on, str_views, string_of, views};

verus! {

/// The files git leaves behind when an operation is half-done, and what each one means.
pub open spec fn pending_table() -> Seq<(Seq<char>, Seq<char>)> {
    seq![("MERGE_HEAD"@, "merge"@), ("rebase-merge"@, "rebase"@), ("rebase-apply"@, "rebase"@),
        ("CHERRY_PICK_HEAD"@, "cherry-pick"@), ("REVERT_HEAD"@, "revert"@), ("BISECT_LOG"@, "bisect"@)]
}

pub fn pending_files() -> (r: Vec<(&'static str, &'static str)>)
    ensures
        r@.len() == 6,
        forall|i: int| 0 <= i < 6 ==> (#[trigger] r@[i]).0@ == pending_table()[i].0 && r@[i].1@ == pending_table()[i].1,
{
    vec![("MERGE_HEAD", "merge"), ("rebase-merge", "rebase"), ("rebase-apply", "rebase"),
        ("CHERRY_PICK_HEAD", "cherry-pick"), ("REVERT_HEAD", "revert"), ("BISECT_LOG", "bisect")]
}

/// One `rev-parse --git-path` per file: it resolves them against the real git directory, so a
/// linked worktree reports correctly.
pub open spec fn pending_arg_list() -> Seq<Seq<char>> {
    seq!["--git-path"@, "MERGE_HEAD"@, "--git-path"@, "rebase-merge"@, "--git-path"@, "rebase-apply"@,
        "--git-path"@, "CHERRY_PICK_HEAD"@, "--git-path"@, "REVERT_HEAD"@, "--git-path"@, "BISECT_LOG"@]
}

pub fn pending_args() -> (r: Vec<String>)
    ensures
        str_views(r@) == pending_arg_list(),
{
    let r = vec![String::from_str("--git-path"), String::from_str("MERGE_HEAD"), String::from_str("--git-path"),
        String::from_str("rebase-merge"), String::from_str("--git-path"), String::from_str("rebase-apply"),
        String::from_str("--git-path"), String::from_str("CHERRY_PICK_HEAD"), String::from_str("--git-path"),
        String::from_str("REVERT_HEAD"), String::from_str("--git-path"), String::from_str("BISECT_LOG")];
    assert(str_views(r@) =~= pending_arg_list());
    r
}

/// The paths git printed, one per file asked for, or the reason they cannot be paired up.
pub open spec fn pending_paths_of(raw: Seq<char>) -> Result<Seq<Seq<char>>, Seq<char>> {
    let ls = lines(raw);
    if ls.len() != 6 {
        Err("git rev-parse --git-path printed "@ + decimal(ls.len()) + " paths where 6 were asked for"@)
    } else {
        Ok(ls)
    }
}

pub fn pending_paths(raw: &str) -> (r: Result<Vec<String>, Fail>)
    ensures
        match r {
            Ok(v) => pending_paths_of(raw@) == Ok::<Seq<Seq<char>>, Seq<char>>(str_views(v@)),
            Err(f) => f.exit == Exit::Environment && pending_paths_of(raw@) == Err::<Seq<Seq<char>>, Seq<char>>(f.message@),
        },
{
    let ls = lines_of(&chars_of(raw));
    if ls.len() != 6 {
        let mut m = String::from_str(GIT);
        m.append(" rev-parse --git-path printed ");
        m.append(decimal_text(ls.len() as u64).as_str());
        m.append(" paths where 6 were asked for");
        proof {
            reveal_strlit("git");
            reveal_strlit(" rev-parse --git-path printed ");
            reveal_strlit("git rev-parse --git-path printed ");
            assert(views(ls@).len() == ls@.len());
            assert(m@ =~= "git rev-parse --git-path printed "@ + decimal(ls@.len() as nat) + " paths where 6 were asked for"@);
        }
        return Err(Fail::environment(m));
    }
    let mut v: Vec<String> = Vec::new();
    let mut i: usize = 0;
    while i < ls.len()
        invariant
            i <= ls@.len(),
            str_views(v@) == views(ls@).take(i as int),
        decreases ls.len() - i,
    {
        let ghost before = v@;
        v.push(string_of(&ls[i]));
        assert(str_views(v@) =~= str_views(before).push(ls@[i as int]@));
        assert(str_views(v@) =~= views(ls@).take(i + 1));
        i = i + 1;
    }
    assert(views(ls@).take(ls@.len() as int) =~= views(ls@));
    Ok(v)
}

/// The operations in progress, each once, in the list's order; `none` when there are none.
pub open spec fn found_of(exists: Seq<bool>) -> Seq<Seq<char>>
    decreases exists.len(),
{
    if exists.len() == 0 {
        seq![]
    } else {
        let rest = found_of(exists.drop_last());
        let op = pending_table()[exists.len() - 1].1;
        if exists.last() && !rest.contains(op) { rest.push(op) } else { rest }
    }
}

pub open spec fn pending_of(exists: Seq<bool>) -> Seq<Seq<char>> {
    if found_of(exists).len() == 0 { seq!["none"@] } else { found_of(exists) }
}

/// Which of the half-finished operations are in progress, given which of the six files exist.
pub fn pending(exists: &Vec<bool>) -> (r: Vec<String>)
    requires
        exists@.len() == 6,
    ensures
        str_views(r@) == pending_of(exists@),
{
    let files = pending_files();
    let mut found: Vec<String> = Vec::new();
    let mut i: usize = 0;
    assert(exists@.take(0) =~= Seq::<bool>::empty());
    while i < 6
        invariant
            i <= 6,
            exists@.len() == 6,
            files@.len() == 6,
            forall|k: int| 0 <= k < 6 ==> (#[trigger] files@[k]).0@ == pending_table()[k].0 && files@[k].1@ == pending_table()[k].1,
            str_views(found@) == found_of(exists@.take(i as int)),
        decreases 6 - i,
    {
        assert(exists@.take(i + 1).drop_last() =~= exists@.take(i as int));
        assert(exists@.take(i + 1).last() == exists@[i as int]);
        let op = files[i].1;
        let ghost fv = str_views(found@);
        let mut seen = false;
        let mut k: usize = 0;
        while k < found.len()
            invariant
                k <= found@.len(),
                fv == str_views(found@),
                seen == (exists|j: int| 0 <= j < k && fv[j] == op@),
            decreases found.len() - k,
        {
            assert(fv[k as int] == found@[k as int]@);
            if crate::text::eq_chars(&chars_of(found[k].as_str()), &chars_of(op)) {
                seen = true;
            }
            k = k + 1;
        }
        proof {
            if fv.contains(op@) {
                let j = choose|j: int| 0 <= j < fv.len() && fv[j] == op@;
                assert(seen);
            }
        }
        if exists[i] && !seen {
            let ghost before = found@;
            found.push(String::from_str(op));
            assert(str_views(found@) =~= str_views(before).push(op@));
        }
        i = i + 1;
    }
    assert(exists@.take(6) =~= exists@);
    if found.len() == 0 {
        let r = vec![String::from_str("none")];
        assert(str_views(r@) =~= seq!["none"@]);
        return r;
    }
    found
}

/// HEAD, as git describes it in one `log -1`.
pub struct Head {
    pub short: String,
    pub date: String,
    pub author: String,
    pub subject: String,
}

/// The arguments of that read.
pub fn head_args() -> (r: Vec<String>)
    ensures
        str_views(r@) == seq!["-1"@, "--no-show-signature"@, "--format=%h%x1f%as%x1f%an%x1f%s"@],
{
    let r = vec![String::from_str("-1"), String::from_str("--no-show-signature"), String::from_str("--format=%h%x1f%as%x1f%an%x1f%s")];
    assert(str_views(r@) =~= seq!["-1"@, "--no-show-signature"@, "--format=%h%x1f%as%x1f%an%x1f%s"@]);
    r
}

/// The text without its trailing newlines: `str::trim_end_matches('\n')`.
pub open spec fn without_newlines(s: Seq<char>) -> Seq<char>
    decreases s.len(),
{
    if s.len() > 0 && s.last() == '\n' { without_newlines(s.drop_last()) } else { s }
}

/// The four fields of HEAD, or the reason the format did not render as written: reporting the
/// wrong commit as HEAD is worse than reporting that it could not be read.
pub open spec fn head_of(raw: Seq<char>) -> Result<(Seq<char>, Seq<char>, Seq<char>, Seq<char>), Seq<char>> {
    let f = split_on(without_newlines(raw), '\u{1f}');
    if f.len() == 4 {
        Ok((f[0], f[1], f[2], f[3]))
    } else {
        Err("git log printed "@ + decimal(f.len()) + " fields where the requested format has 4"@)
    }
}

impl Head {
    pub fn parse(raw: &str) -> (r: Result<Head, Fail>)
        ensures
            match r {
                Ok(h) => head_of(raw@) == Ok::<(Seq<char>, Seq<char>, Seq<char>, Seq<char>), Seq<char>>((h.short@, h.date@, h.author@, h.subject@)),
                Err(f) => f.exit == Exit::Environment && head_of(raw@) == Err::<(Seq<char>, Seq<char>, Seq<char>, Seq<char>), Seq<char>>(f.message@),
            },
    {
        let v = chars_of(raw);
        let mut n = v.len();
        assert(v@.take(n as int) =~= v@);
        while n > 0 && v[n - 1] == '\n'
            invariant
                n <= v@.len(),
                without_newlines(v@) == without_newlines(v@.take(n as int)),
            decreases n,
        {
            assert(v@.take(n as int).drop_last() =~= v@.take(n - 1));
            n = n - 1;
        }
        let line = crate::text::slice_of(&v, 0, n);
        assert(line@ =~= v@.take(n as int));
        let f = crate::text::split_char(&line, '\u{1f}');
        if f.len() == 4 {
            return Ok(Head { short: string_of(&f[0]), date: string_of(&f[1]), author: string_of(&f[2]), subject: string_of(&f[3]) });
        }
        let mut m = String::from_str(GIT);
        m.append(" log printed ");
        m.append(decimal_text(f.len() as u64).as_str());
        m.append(" fields where the requested format has 4");
        proof {
            reveal_strlit("git");
            reveal_strlit(" log printed ");
            reveal_strlit("git log printed ");
            assert(views(f@).len() == f@.len());
            assert(m@ =~= "git log printed "@ + decimal(f@.len() as nat) + " fields where the requested format has 4"@);
        }
        Err(Fail::environment(m))
    }
}

/// The header's target: the branch, then the short hash or the fact that there is none.
pub open spec fn state_target(branch: Seq<char>, head: Option<Seq<char>>) -> Seq<char> {
    match head {
        Some(short) => branch + " · "@ + short,
        None => branch + " · no commits yet"@,
    }
}

/// A row of the frame: its name padded to the column, then the value.
pub open spec fn frame_row(name: Seq<char>, value: Seq<char>) -> Seq<char> {
    pad_right(name, 9) + "  "@ + value
}

pub type HeadView = (Seq<char>, Seq<char>, Seq<char>, Seq<char>);

/// The frame's rows: HEAD when there is one, the upstream, what is pending.
pub open spec fn frame_rows(head: Option<HeadView>, upstream: Seq<char>, pending: Seq<Seq<char>>) -> Seq<Seq<char>> {
    (match head {
        Some(h) => seq![frame_row("head"@, h.1 + "  "@ + h.2 + "  "@ + h.3)],
        None => seq![],
    }) + seq![frame_row("upstream"@, upstream), frame_row("pending"@, join(pending, ", "@))]
}

/// The exits: widen a cut answer, else the one question this answer implies; a clean tree offers
/// neither.
pub open spec fn state_exits(opts: Opts, dropped: nat, total: nat, tracks: bool) -> Seq<Seq<char>> {
    if dropped > 0 {
        let widest = if total <= MAX_LIMIT { total } else { MAX_LIMIT as nat };
        seq![next_line(again_of(opts, "state"@, None, seq![], seq!["--limit "@ + decimal(widest)]),
            "all "@ + counted(total, "path"@, "path"@ + "s"@))]
    } else if tracks {
        seq![next_line(again_of(opts, "diff"@, None, seq![], seq![]), "what changed in them"@)]
    } else {
        seq![]
    }
}

/// The whole answer of `state`.
pub open spec fn state_lines(branch: Seq<char>, head: Option<HeadView>, upstream: Seq<char>, pending: Seq<Seq<char>>,
    entries: Seq<Seq<char>>, collapsed: nat, unparsed: nat, tracks: bool, opts: Opts) -> Seq<Seq<char>> {
    let limit = opts.limit as nat;
    let total = entries.len();
    let shown = min(total, limit);
    let dropped = (total - shown) as nat;
    clamp_bounds(opts.limit_clamped_from)
        + seq![header_line(crate::recall::TOOL@, "state"@, opts.root.name_view(),
            state_target(branch, match head { Some(h) => Some(h.0), None => None }))]
        + frame_rows(head, upstream, pending)
        + budgeted(entries, limit)
        + seq![if shown == total {
            bound_line(counted(total, "path"@, "path"@ + "s"@))
        } else {
            bound_line(decimal(shown) + " of "@ + counted(total, "path"@, "path"@ + "s"@) + " · --limit "@ + decimal(limit))
        }]
        + (if collapsed > 0 {
            seq![bound_line("caveat: "@ + counted(collapsed, "untracked directory"@, "untracked directories"@) + " shown collapsed, ending in `/`"@)]
        } else {
            seq![]
        })
        + (if unparsed > 0 {
            seq![bound_line("caveat: "@ + decimal(unparsed) + " status record(s) did not parse and are not listed"@)]
        } else {
            seq![]
        })
        + width_bounds(budget_cuts(entries, limit))
        + state_exits(opts, dropped, total, tracks)
}

pub open spec fn head_view(h: Option<&Head>) -> Option<HeadView> {
    match h {
        Some(h) => Some((h.short@, h.date@, h.author@, h.subject@)),
        None => None,
    }
}

fn content_row(report: &mut Report, name: &str, value: &str)
    requires
        old(report)@.1 < usize::MAX,
    ensures
        final(report)@ == (old(report)@.0.push(frame_row(name@, value@)), old(report)@.1 + 1),
{
    let mut line = String::new();
    push_padded_right(&mut line, name, 9);
    line.append("  ");
    line.append(value);
    report.content(line);
}

/// `at-recall state`, from the status, HEAD when the status names one, and what is pending.
#[verifier::rlimit(60)]
pub fn answer(status: &Status, head: Option<&Head>, pending: &Vec<String>, opts: &Opts) -> (r: Outcome)
    requires
        opts.limit < usize::MAX - 3,
    ensures
        r.report@.0 == state_lines(shown_branch(status.view_of().2), head_view(head), status.view_of().3,
            str_views(pending@), entry_lines(status.entries_view()), collapsed_count(status.entries_view()),
            status.view_of().5, tracked_count(status.entries_view()) > 0, *opts),
        r.exit == (if r.report@.1 > 0 { Exit::Results } else { Exit::Nothing }),
{
    let mut report = Report::new();
    crate::peek::verbs::slice::clamp_bound(&mut report, opts.limit_clamped_from);
    let ghost l0 = report@.0;
    let branch = status.branch();
    let mut target = branch.clone();
    match head {
        Some(h) => {
            target.append(" · ");
            target.append(h.short.as_str());
        },
        None => target.append(" · no commits yet"),
    }
    report.header(crate::recall::TOOL, "state", opts.root.name(), target.as_str());
    let ghost l1 = report@.0;
    match head {
        Some(h) => {
            let mut value = h.date.clone();
            value.append("  ");
            value.append(h.author.as_str());
            value.append("  ");
            value.append(h.subject.as_str());
            content_row(&mut report, "head", value.as_str());
        },
        None => {},
    }
    content_row(&mut report, "upstream", status.upstream());
    let joined = crate::text::join_exec(&strings_to_chars(pending), &chars_of(", "));
    content_row(&mut report, "pending", string_of(&joined).as_str());
    assert(report@.0 =~= l1 + frame_rows(head_view(head), status.view_of().3, str_views(pending@)));
    let ghost l2 = report@.0;
    let lines = status.lines();
    let total = status.len();
    proof {
        lemma_entry_lines_len(status.entries_view());
        assert(str_views(lines@).len() == lines@.len());
    }
    let mut budget = Budget::new(opts.limit);
    push_all(&mut budget, &mut report, &lines);
    let shown = total - budget.dropped();
    if shown == total {
        report.bound(plural(total, "path"));
    } else {
        let mut m = decimal_text(shown as u64);
        m.append(" of ");
        m.append(plural(total, "path").as_str());
        m.append(" · --limit ");
        m.append(decimal_text(opts.limit as u64).as_str());
        report.bound(m);
    }
    let ghost l3 = report@.0;
    let collapsed = status.collapsed_directories();
    if collapsed > 0 {
        let mut m = String::from_str("caveat: ");
        m.append(plural_of(collapsed, "untracked directory", "untracked directories").as_str());
        m.append(" shown collapsed, ending in `/`");
        report.bound(m);
    }
    let unparsed = status.unparsed();
    if unparsed > 0 {
        let mut m = String::from_str("caveat: ");
        m.append(decimal_text(unparsed as u64).as_str());
        m.append(" status record(s) did not parse and are not listed");
        report.bound(m);
    }
    budget.width_caveat(&mut report);
    let ghost l4 = report@.0;
    let dropped = budget.dropped();
    if dropped > 0 {
        let widest = if total <= MAX_LIMIT { total } else { MAX_LIMIT };
        let flags = vec![limit_flag(widest)];
        assert(str_views(flags@) =~= seq!["--limit "@ + decimal(widest as nat)]);
        let none: Vec<String> = Vec::new();
        assert(str_views(none@) =~= Seq::<Seq<char>>::empty());
        let mut why = String::from_str("all ");
        why.append(plural(total, "path").as_str());
        report.next(again(opts, "state", None, &none, &flags), why);
    } else if status.tracks_changes() {
        let none: Vec<String> = Vec::new();
        assert(str_views(none@) =~= Seq::<Seq<char>>::empty());
        report.next(again(opts, "diff", None, &none, &none), String::from_str("what changed in them"));
    }
    assert(report@.0 =~= l4 + state_exits(*opts, dropped as nat, total as nat, tracked_count(status.entries_view()) > 0));
    Outcome::from_report(report)
}

proof fn lemma_entry_lines_len(es: Seq<crate::recall::status::EntryView>)
    ensures
        entry_lines(es).len() == es.len(),
    decreases es.len(),
{
    if es.len() > 0 {
        lemma_entry_lines_len(es.drop_last());
    }
}

fn strings_to_chars(v: &Vec<String>) -> (r: Vec<Vec<char>>)
    ensures
        views(r@) == str_views(v@),
{
    let mut r: Vec<Vec<char>> = Vec::new();
    let mut i: usize = 0;
    while i < v.len()
        invariant
            i <= v@.len(),
            views(r@) == str_views(v@).take(i as int),
        decreases v.len() - i,
    {
        let ghost before = r@;
        r.push(chars_of(v[i].as_str()));
        assert(views(r@) =~= views(before).push(v@[i as int]@));
        assert(views(r@) =~= str_views(v@).take(i + 1));
        i = i + 1;
    }
    assert(str_views(v@).take(v@.len() as int) =~= str_views(v@));
    r
}

} // verus!
