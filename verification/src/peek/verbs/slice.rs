//! `at-peek slice` — the lines you asked for, numbered, with the file's true size attached.
//!
//! Every slice ends with the file's real size and, when the limit cut it, the range that
//! resumes.

use vstd::prelude::*;
use vstd::string::StringExecFns;

use crate::catalogue::{pad_left, push_padded_left};
use crate::contract::{bound_line, counted, header_line, truncate_chars, truncated, Outcome, Report, MAX_LIMIT, MAX_LINE_WIDTH};
use crate::peek::paths::{range_start, range_text, Range};
use crate::peek::verbs::{Opened, Opts};
use crate::text::{decimal, decimal_text, lines, lines_of, chars_of, views};

verus! {

/// What one opened target is, as plain text: its range, its path relative to the root, its
/// text, and where its first NUL is when it is binary.
pub type OpenedView = (Option<Range>, Seq<char>, Seq<char>, Option<usize>);

pub open spec fn opened_view(o: Opened) -> OpenedView {
    (o.target.range, o.rel@, o.text@, o.binary)
}

/// The target as the header names it.
pub open spec fn described(range: Option<Range>, rel: Seq<char>) -> Seq<char> {
    match range {
        Some(r) => rel + ":"@ + range_text(r),
        None => rel,
    }
}

/// The announcement that `--limit` was clamped, if it was.
pub open spec fn clamp_bounds(clamped: Option<usize>) -> Seq<Seq<char>> {
    match clamped {
        Some(asked) => seq![bound_line("--limit "@ + decimal(asked as nat) + " clamped to "@ + decimal(MAX_LIMIT as nat))],
        None => seq![],
    }
}

/// Lines numbered from `start`, each number right-aligned in `width` columns, each line cut at
/// the width cap.
pub open spec fn numbered(ls: Seq<Seq<char>>, start: nat, width: nat) -> Seq<Seq<char>>
    decreases ls.len(),
{
    if ls.len() == 0 {
        seq![]
    } else {
        numbered(ls.drop_last(), start, width).push(
            pad_left(decimal((start + ls.len() - 1) as nat), width) + "  "@ + truncated(ls.last()).0)
    }
}

/// How many of the lines are cut at the width cap.
pub open spec fn cut_count(ls: Seq<Seq<char>>) -> nat
    decreases ls.len(),
{
    if ls.len() == 0 { 0 } else { cut_count(ls.drop_last()) + if truncated(ls.last()).1 { 1nat } else { 0nat } }
}

pub open spec fn min(a: int, b: int) -> int {
    if a <= b { a } else { b }
}

/// The caveat about lines cut at the width cap, if any were.
pub open spec fn width_bounds(cut: nat) -> Seq<Seq<char>> {
    if cut > 0 {
        seq![bound_line("caveat: "@ + decimal(cut) + " line(s) wider than "@ + decimal(MAX_LINE_WIDTH as nat)
            + " characters, truncated"@)]
    } else {
        seq![]
    }
}

/// The lines `start..` of a file that has `ls` as its lines, as many as were asked for and the
/// budget allows, with the bounds that say what was not shown; how many were shown; and the
/// budget left.
pub open spec fn slice_body(ls: Seq<Seq<char>>, start: nat, asked: int, rel: Seq<char>, budget: nat, limit: nat) -> (Seq<Seq<char>>, nat, nat) {
    let total = ls.len();
    let wanted = min(asked, total - start + 1);
    let end = start + wanted - 1;
    let shown = min(wanted, budget as int);
    let width = decimal((start + shown - 1) as nat).len();
    let body = ls.subrange(start - 1, start - 1 + shown);
    (past_bounds(total, start, asked) + numbered(body, start, width) + seq![size_bound(total, shown as nat, rel)]
        + width_bounds(cut_count(body)) + resume_bounds(shown as nat, wanted as nat, start, end as nat, rel, limit),
        shown as nat, (budget - shown) as nat)
}

/// Where a slice starts and how many lines it asks for.
pub open spec fn asked_for(range: Option<Range>, total: nat) -> (nat, int) {
    match range {
        Some(Range::Line(n)) => (n as nat, 1),
        Some(Range::Span(s, e)) => (s as nat, e - s + 1),
        Some(Range::From(s, c)) => (s as nat, c as int),
        None => (1, total as int),
    }
}

/// What slicing one target adds to the report — its lines, how many of them are content —
/// and the budget left after it.
pub open spec fn slice_one(o: OpenedView, root: Seq<char>, budget: nat, limit: nat) -> (Seq<Seq<char>>, nat, nat) {
    let (range, rel, text, binary) = o;
    let header = header_line(crate::peek::TOOL@, "slice"@, root, described(range, rel));
    let ls = lines(text);
    let total = ls.len();
    let (start, asked) = asked_for(range, total);
    match binary {
        Some(offset) => (seq![header, bound_line("caveat: binary file, NUL at byte "@ + decimal(offset as nat)
            + " · not line-addressable"@)], 0, budget),
        None => if total == 0 {
            (seq![header, bound_line(rel + " is empty"@)], 0, budget)
        } else if start > total {
            (seq![header, bound_line("line "@ + decimal(start) + " is past the end of "@ + rel + " ("@
                + decimal(total) + " lines)"@)], 0, budget)
        } else {
            let (more, shown, left) = slice_body(ls, start, asked, rel, budget, limit);
            (seq![header] + more, shown, left)
        },
    }
}

/// What slicing the opened targets prints: (lines, content count, budget left, stopped).
pub open spec fn slice_all(os: Seq<OpenedView>, requested: nat, root: Seq<char>, limit: nat) -> (Seq<Seq<char>>, nat, nat, bool)
    decreases os.len(),
{
    if os.len() == 0 {
        (seq![], 0, limit, false)
    } else {
        let (ls, c, budget, stopped) = slice_all(os.drop_last(), requested, root, limit);
        if stopped {
            (ls, c, budget, true)
        } else if budget == 0 {
            (ls.push(not_shown(limit, (requested - (os.len() - 1)) as nat)), c, budget, true)
        } else {
            let (more, added, left) = slice_one(os.last(), root, budget, limit);
            (ls + more, c + added, left, false)
        }
    }
}

pub open spec fn not_shown(limit: nat, remaining: nat) -> Seq<char> {
    bound_line("--limit "@ + decimal(limit) + " reached · "@ + counted(remaining, "target"@, "target"@ + "s"@) + " not shown"@)
}

/// The whole answer for the targets the program opened, in order, out of `requested`.
pub open spec fn sliced(os: Seq<OpenedView>, requested: nat, root: Seq<char>, limit: nat, clamped: Option<usize>) -> (Seq<Seq<char>>, nat) {
    let (ls, c, budget, stopped) = slice_all(os, requested, root, limit);
    let tail = if !stopped && budget == 0 && os.len() < requested {
        seq![not_shown(limit, (requested - os.len()) as nat)]
    } else {
        seq![]
    };
    (clamp_bounds(clamped) + ls + tail, c)
}

pub open spec fn opened_views(os: Seq<Opened>) -> Seq<OpenedView> {
    os.map_values(|o: Opened| opened_view(o))
}

/// Every range is one `parse_range` could have produced.
pub open spec fn ranges_valid(os: Seq<Opened>) -> bool {
    forall|i: int| 0 <= i < os.len() ==> ((#[trigger] os[i]).target.range matches Some(r) ==> crate::peek::paths::valid_range(r))
}

pub fn clamp_bound(report: &mut Report, clamped: Option<usize>)
    ensures
        final(report)@ == (old(report)@.0 + clamp_bounds(clamped), old(report)@.1),
{
    match clamped {
        Some(asked) => {
            let mut m = String::from_str("--limit ");
            m.append(decimal_text(asked as u64).as_str());
            m.append(" clamped to ");
            m.append(decimal_text(MAX_LIMIT as u64).as_str());
            let ghost before = report@;
            report.bound(m);
            assert(report@.0 =~= before.0 + clamp_bounds(clamped));
        },
        None => {
            assert(report@.0 =~= report@.0 + clamp_bounds(clamped));
        },
    }
}

fn numbered_line(number: usize, width: usize, line: &[char]) -> (r: String)
    ensures
        r@ == pad_left(decimal(number as nat), width as nat) + "  "@ + truncated(line@).0,
{
    let mut out = String::new();
    push_padded_left(&mut out, decimal_text(number as u64).as_str(), width);
    out.append("  ");
    let (text, _) = truncate_chars(line);
    out.append(text.as_str());
    out
}

/// Push lines `start .. start + shown - 1` of `ls`, numbered; returns how many were cut.
fn push_numbered(report: &mut Report, ls: &Vec<Vec<char>>, start: usize, shown: usize, width: usize) -> (cut: usize)
    requires
        1 <= start,
        start - 1 + shown <= ls@.len(),
        old(report)@.1 + shown <= usize::MAX,
    ensures
        final(report)@.0 == old(report)@.0 + numbered(views(ls@).subrange(start - 1, start - 1 + shown), start as nat, width as nat),
        final(report)@.1 == old(report)@.1 + shown,
        cut as nat == cut_count(views(ls@).subrange(start - 1, start - 1 + shown)),
{
    let ghost lv = views(ls@);
    let ghost body = lv.subrange(start - 1, start - 1 + shown);
    let ghost first = report@.0;
    let ghost count0 = report@.1;
    let n = ls.len();
    let mut cut: usize = 0;
    let mut k: usize = 0;
    assert(body.take(0) =~= Seq::<Seq<char>>::empty());
    assert(first + numbered(body.take(0), start as nat, width as nat) =~= first);
    while k < shown
        invariant
            k <= shown,
            start >= 1,
            start - 1 + shown <= ls@.len(),
            n == ls@.len(),
            lv == views(ls@),
            body == lv.subrange(start - 1, start - 1 + shown),
            report@.0 == first + numbered(body.take(k as int), start as nat, width as nat),
            report@.1 == count0 + k,
            count0 + shown <= usize::MAX,
            cut == cut_count(body.take(k as int)),
            cut <= k,
        decreases shown - k,
    {
        assert(body.take(k + 1).drop_last() =~= body.take(k as int));
        assert(body.take(k + 1).last() == ls@[start - 1 + k]@);
        let line = numbered_line(start + k, width, &ls[start - 1 + k]);
        let (_, was_cut) = truncate_chars(&ls[start - 1 + k]);
        if was_cut {
            cut = cut + 1;
        }
        report.content(line);
        assert(report@.0 =~= first + numbered(body.take(k + 1), start as nat, width as nat));
        k = k + 1;
    }
    assert(body.take(shown as int) =~= body);
    cut
}

/// The bound that says how much of the file was shown.
pub open spec fn size_bound(total: nat, shown: nat, rel: Seq<char>) -> Seq<char> {
    if shown == total {
        bound_line(decimal(total) + " lines · whole file"@)
    } else {
        bound_line(decimal(shown) + " of "@ + decimal(total) + " lines · at-peek slice "@ + rel
            + ":1-"@ + decimal(total) + " for the rest"@)
    }
}

/// The bound that says where to resume, when the budget cut the slice.
pub open spec fn resume_bounds(shown: nat, wanted: nat, start: nat, end: nat, rel: Seq<char>, limit: nat) -> Seq<Seq<char>> {
    if shown < wanted {
        seq![bound_line("--limit "@ + decimal(limit) + " reached · next: at-peek slice "@ + rel + ":"@
            + decimal(start + shown) + "-"@ + decimal(end))]
    } else {
        seq![]
    }
}

/// The bound that says the requested range runs past the end of the file.
pub open spec fn past_bounds(total: nat, start: nat, asked: int) -> Seq<Seq<char>> {
    if start + asked - 1 > total {
        seq![bound_line("the requested range ends past the file's "@ + decimal(total) + " lines"@)]
    } else {
        seq![]
    }
}

fn push_size(report: &mut Report, total: usize, shown: usize, rel: &str)
    ensures
        final(report)@ == (old(report)@.0.push(size_bound(total as nat, shown as nat, rel@)), old(report)@.1),
{
    let m = if shown == total {
        let mut m = decimal_text(total as u64);
        m.append(" lines · whole file");
        m
    } else {
        let mut m = decimal_text(shown as u64);
        m.append(" of ");
        m.append(decimal_text(total as u64).as_str());
        m.append(" lines · at-peek slice ");
        m.append(rel);
        m.append(":1-");
        m.append(decimal_text(total as u64).as_str());
        m.append(" for the rest");
        m
    };
    report.bound(m);
}

pub fn push_width(report: &mut Report, cut: usize)
    ensures
        final(report)@ == (old(report)@.0 + width_bounds(cut as nat), old(report)@.1),
{
    if cut > 0 {
        let mut m = String::from_str("caveat: ");
        m.append(decimal_text(cut as u64).as_str());
        m.append(" line(s) wider than ");
        m.append(decimal_text(MAX_LINE_WIDTH as u64).as_str());
        m.append(" characters, truncated");
        let ghost before = report@.0;
        report.bound(m);
        assert(report@.0 =~= before + width_bounds(cut as nat));
    } else {
        assert(report@.0 =~= report@.0 + width_bounds(cut as nat));
    }
}

fn push_resume(report: &mut Report, shown: usize, wanted: usize, start: usize, end: usize, rel: &str, limit: usize)
    requires
        start >= 1,
        end == start - 1 + wanted,
    ensures
        final(report)@ == (old(report)@.0 + resume_bounds(shown as nat, wanted as nat, start as nat, end as nat, rel@, limit as nat), old(report)@.1),
{
    if shown < wanted {
        let mut m = String::from_str("--limit ");
        m.append(decimal_text(limit as u64).as_str());
        m.append(" reached · next: at-peek slice ");
        m.append(rel);
        m.append(":");
        m.append(decimal_text((start + shown) as u64).as_str());
        m.append("-");
        m.append(decimal_text(end as u64).as_str());
        let ghost before = report@.0;
        report.bound(m);
        assert(report@.0 =~= before + resume_bounds(shown as nat, wanted as nat, start as nat, end as nat, rel@, limit as nat));
    } else {
        assert(report@.0 =~= report@.0 + resume_bounds(shown as nat, wanted as nat, start as nat, end as nat, rel@, limit as nat));
    }
}

fn push_past(report: &mut Report, total: usize, start: usize, asked: usize)
    requires
        1 <= start <= total,
    ensures
        final(report)@ == (old(report)@.0 + past_bounds(total as nat, start as nat, asked as int), old(report)@.1),
{
    if asked > total - start + 1 {
        let mut m = String::from_str("the requested range ends past the file's ");
        m.append(decimal_text(total as u64).as_str());
        m.append(" lines");
        let ghost before = report@.0;
        report.bound(m);
        assert(report@.0 =~= before + past_bounds(total as nat, start as nat, asked as int));
    } else {
        assert(report@.0 =~= report@.0 + past_bounds(total as nat, start as nat, asked as int));
    }
}

#[verifier::rlimit(40)]
fn slice_body_exec(report: &mut Report, ls: &Vec<Vec<char>>, start: usize, asked: usize, rel: &str, budget: usize, limit: usize) -> (left: usize)
    requires
        budget > 0,
        1 <= start <= ls@.len(),
        asked >= 1,
        old(report)@.1 + budget <= usize::MAX,
    ensures
        final(report)@.0 == old(report)@.0 + slice_body(views(ls@), start as nat, asked as int, rel@, budget as nat, limit as nat).0,
        final(report)@.1 == old(report)@.1 + slice_body(views(ls@), start as nat, asked as int, rel@, budget as nat, limit as nat).1,
        left as nat == slice_body(views(ls@), start as nat, asked as int, rel@, budget as nat, limit as nat).2,
{
    let ghost lv = views(ls@);
    let ghost l0 = report@.0;
    let total = ls.len();
    let room = total - start + 1;
    push_past(report, total, start, asked);
    let ghost l1 = report@.0;
    let wanted = if asked <= room { asked } else { room };
    let end = start - 1 + wanted;
    let shown = if wanted <= budget { wanted } else { budget };
    let width = decimal_text((start - 1 + shown) as u64).as_str().unicode_len();
    let cut = push_numbered(report, ls, start, shown, width);
    let ghost l2 = report@.0;
    push_size(report, total, shown, rel);
    push_width(report, cut);
    push_resume(report, shown, wanted, start, end, rel, limit);
    proof {
        let body = lv.subrange(start - 1, start - 1 + shown);
        assert(l1 == l0 + past_bounds(total as nat, start as nat, asked as int));
        assert(report@.0 =~= l0 + past_bounds(total as nat, start as nat, asked as int)
            + numbered(body, start as nat, width as nat) + seq![size_bound(total as nat, shown as nat, rel@)]
            + width_bounds(cut_count(body)) + resume_bounds(shown as nat, wanted as nat, start as nat, end as nat, rel@, limit as nat));
    }
    budget - shown
}

/// Slice one target into the report, spending the budget; returns what is left of it.
fn slice_one_exec(report: &mut Report, o: &Opened, root: &str, budget: usize, limit: usize) -> (left: usize)
    requires
        budget > 0,
        old(report)@.1 + budget <= usize::MAX,
        o.target.range matches Some(r) ==> crate::peek::paths::valid_range(r),
    ensures
        final(report)@.0 == old(report)@.0 + slice_one(opened_view(*o), root@, budget as nat, limit as nat).0,
        final(report)@.1 == old(report)@.1 + slice_one(opened_view(*o), root@, budget as nat, limit as nat).1,
        left as nat == slice_one(opened_view(*o), root@, budget as nat, limit as nat).2,
{
    let ghost start_lines = report@.0;
    let rel = o.rel.as_str();
    report.header(crate::peek::TOOL, "slice", root, o.target.describe(rel).as_str());
    if let Some(offset) = o.binary {
        let mut m = String::from_str("caveat: binary file, NUL at byte ");
        m.append(decimal_text(offset as u64).as_str());
        m.append(" · not line-addressable");
        report.bound(m);
        assert(report@.0 =~= start_lines + slice_one(opened_view(*o), root@, budget as nat, limit as nat).0);
        return budget;
    }
    let ls = lines_of(&chars_of(o.text.as_str()));
    let total = ls.len();
    if total == 0 {
        let mut m = String::from_str(rel);
        m.append(" is empty");
        report.bound(m);
        assert(report@.0 =~= start_lines + slice_one(opened_view(*o), root@, budget as nat, limit as nat).0);
        return budget;
    }
    let (start, asked): (usize, usize) = match o.target.range {
        Some(range) => (range.start(), range.requested_lines()),
        None => (1, total),
    };
    if start > total {
        let mut m = String::from_str("line ");
        m.append(decimal_text(start as u64).as_str());
        m.append(" is past the end of ");
        m.append(rel);
        m.append(" (");
        m.append(decimal_text(total as u64).as_str());
        m.append(" lines)");
        report.bound(m);
        assert(report@.0 =~= start_lines + slice_one(opened_view(*o), root@, budget as nat, limit as nat).0);
        return budget;
    }
    let ghost after_header = report@.0;
    let left = slice_body_exec(report, &ls, start, asked, rel, budget, limit);
    assert(report@.0 =~= start_lines + slice_one(opened_view(*o), root@, budget as nat, limit as nat).0);
    left
}

/// The budget left after slicing these targets: the program opens the next target only
/// while it is more than zero.
pub fn remaining(opened: &Vec<Opened>, opts: &Opts) -> (r: usize)
    requires
        ranges_valid(opened@),
    ensures
        r == slice_all(opened_views(opened@), opened@.len() as nat, opts.root.name_view(), opts.limit as nat).2,
{
    let mut report = Report::new();
    let (_, left, _) = slice_into(&mut report, opened, opened.len(), opts);
    left
}

fn push_not_shown(report: &mut Report, limit: usize, remaining: usize)
    ensures
        final(report)@ == (old(report)@.0.push(not_shown(limit as nat, remaining as nat)), old(report)@.1),
{
    let mut m = String::from_str("--limit ");
    m.append(decimal_text(limit as u64).as_str());
    m.append(" reached · ");
    m.append(crate::contract::plural(remaining, "target").as_str());
    m.append(" not shown");
    report.bound(m);
}

fn slice_into(report: &mut Report, opened: &Vec<Opened>, requested: usize, opts: &Opts) -> (r: (usize, usize, bool))
    requires
        ranges_valid(opened@),
        opened@.len() <= requested,
        old(report)@.1 == 0,
    ensures
        final(report)@.0 == old(report)@.0 + slice_all(opened_views(opened@), requested as nat, opts.root.name_view(), opts.limit as nat).0,
        final(report)@.1 == slice_all(opened_views(opened@), requested as nat, opts.root.name_view(), opts.limit as nat).1,
        r.1 as nat == slice_all(opened_views(opened@), requested as nat, opts.root.name_view(), opts.limit as nat).2,
        r.2 == slice_all(opened_views(opened@), requested as nat, opts.root.name_view(), opts.limit as nat).3,
        r.0 <= opened@.len(),
{
    let ghost start = report@.0;
    let ghost ov = opened_views(opened@);
    let root = opts.root.name();
    let mut budget = opts.limit;
    let mut stopped = false;
    let mut i: usize = 0;
    assert(ov.take(0) =~= Seq::<OpenedView>::empty());
    assert(start + Seq::<Seq<char>>::empty() =~= start);
    while i < opened.len()
        invariant
            i <= opened@.len(),
            ov == opened_views(opened@),
            ranges_valid(opened@),
            opened@.len() <= requested,
            root@ == opts.root.name_view(),
            report@.0 == start + slice_all(ov.take(i as int), requested as nat, opts.root.name_view(), opts.limit as nat).0,
            report@.1 == slice_all(ov.take(i as int), requested as nat, opts.root.name_view(), opts.limit as nat).1,
            budget as nat == slice_all(ov.take(i as int), requested as nat, opts.root.name_view(), opts.limit as nat).2,
            stopped == slice_all(ov.take(i as int), requested as nat, opts.root.name_view(), opts.limit as nat).3,
            report@.1 + budget <= opts.limit,
        decreases opened.len() - i,
    {
        assert(ov.take(i + 1).drop_last() =~= ov.take(i as int));
        assert(ov.take(i + 1).last() == opened_view(opened@[i as int]));
        if !stopped {
            if budget == 0 {
                let ghost before = report@.0;
                push_not_shown(report, opts.limit, requested - i);
                assert(report@.0 =~= start + slice_all(ov.take(i + 1), requested as nat, opts.root.name_view(), opts.limit as nat).0);
                stopped = true;
            } else {
                let ghost before = report@.0;
                budget = slice_one_exec(report, &opened[i], root, budget, opts.limit);
                assert(report@.0 =~= start + slice_all(ov.take(i + 1), requested as nat, opts.root.name_view(), opts.limit as nat).0);
            }
        }
        i = i + 1;
    }
    assert(ov.take(opened@.len() as int) =~= ov);
    (i, budget, stopped)
}

/// Slice the targets the program opened, in order, out of the `requested` it was given.
///
/// One budget for the whole invocation: `--limit` bounds what a caller sees, not what each
/// target sees, so a batch of ten targets cannot print ten times the cap.
pub fn run(opened: &Vec<Opened>, requested: usize, opts: &Opts) -> (r: Outcome)
    requires
        ranges_valid(opened@),
        opened@.len() <= requested,
    ensures
        r.report@.0 == sliced(opened_views(opened@), requested as nat, opts.root.name_view(),
            opts.limit as nat, opts.limit_clamped_from).0,
        r.report@.1 == sliced(opened_views(opened@), requested as nat, opts.root.name_view(),
            opts.limit as nat, opts.limit_clamped_from).1,
        r.exit == (if r.report@.1 > 0 { crate::contract::Exit::Results } else { crate::contract::Exit::Nothing }),
{
    let mut report = Report::new();
    clamp_bound(&mut report, opts.limit_clamped_from);
    let ghost after_clamp = report@.0;
    let (_, budget, stopped) = slice_into(&mut report, opened, requested, opts);
    let ghost before = report@.0;
    if !stopped && budget == 0 && opened.len() < requested {
        push_not_shown(&mut report, opts.limit, requested - opened.len());
    }
    assert(report@.0 =~= sliced(opened_views(opened@), requested as nat, opts.root.name_view(), opts.limit as nat, opts.limit_clamped_from).0);
    Outcome::from_report(report)
}

proof fn lemma_min_le(a: int, b: int)
    ensures
        min(a, b) <= a,
        min(a, b) <= b,
{
}

proof fn lemma_slice_one_spends(o: OpenedView, root: Seq<char>, budget: nat, limit: nat)
    requires
        o.0 matches Some(r) ==> crate::peek::paths::valid_range(r),
    ensures
        slice_one(o, root, budget, limit).1 + slice_one(o, root, budget, limit).2 == budget,
{
    let (range, rel, text, binary) = o;
    let ls = lines(text);
    let total = ls.len();
    let (start, asked) = asked_for(range, total);
    if binary is None && total > 0 && start <= total {
        let wanted = min(asked, total - start + 1);
        lemma_min_le(wanted, budget as int);
        lemma_min_le(asked, total - start + 1);
    }
}

/// Every range is one `parse_range` could have produced.
pub open spec fn view_ranges_valid(os: Seq<OpenedView>) -> bool {
    forall|i: int| 0 <= i < os.len() ==> ((#[trigger] os[i]).0 matches Some(r) ==> crate::peek::paths::valid_range(r))
}

proof fn lemma_slice_all_spends(os: Seq<OpenedView>, requested: nat, root: Seq<char>, limit: nat)
    requires
        view_ranges_valid(os),
    ensures
        slice_all(os, requested, root, limit).1 + slice_all(os, requested, root, limit).2 == limit,
    decreases os.len(),
{
    if os.len() > 0 {
        assert(view_ranges_valid(os.drop_last())) by {
            assert forall|i: int| 0 <= i < os.drop_last().len() implies
                ((#[trigger] os.drop_last()[i]).0 matches Some(r) ==> crate::peek::paths::valid_range(r)) by {
                assert(os.drop_last()[i] == os[i]);
            }
        }
        assert(os.last() == os[os.len() - 1]);
        lemma_slice_all_spends(os.drop_last(), requested, root, limit);
        let (ls, c, budget, stopped) = slice_all(os.drop_last(), requested, root, limit);
        if !stopped && budget != 0 {
            lemma_slice_one_spends(os.last(), root, budget, limit);
        }
    }
}

/// The line a slice starts at: its range's start, or the first line when it has no range.
pub open spec fn first_line(range: Option<Range>) -> int {
    match range {
        Some(r) => range_start(r),
        None => 1,
    }
}

/// Whether `out`, from position `p` on, holds the `n` lines of `ls` that start at line `start`,
/// one after another, each under its line number right-aligned in `w` columns and cut at the
/// width cap.
pub open spec fn shows_lines_at(out: Seq<Seq<char>>, p: int, w: nat, start: int, ls: Seq<Seq<char>>, n: nat) -> bool {
    forall|i: int| 0 <= i < n ==> 0 <= p + i < out.len()
        && #[trigger] out[p + i] == pad_left(decimal((start + i) as nat), w) + "  "@ + truncated(ls[start - 1 + i]).0
}

proof fn lemma_numbered(ls: Seq<Seq<char>>, start: nat, width: nat)
    ensures
        numbered(ls, start, width).len() == ls.len(),
        forall|i: int| 0 <= i < ls.len() ==> #[trigger] numbered(ls, start, width)[i]
            == pad_left(decimal((start + i) as nat), width) + "  "@ + truncated(ls[i]).0,
    decreases ls.len(),
{
    if ls.len() > 0 {
        lemma_numbered(ls.drop_last(), start, width);
        assert forall|i: int| 0 <= i < ls.len() implies #[trigger] numbered(ls, start, width)[i]
            == pad_left(decimal((start + i) as nat), width) + "  "@ + truncated(ls[i]).0 by {
            if i < ls.len() - 1 {
                assert(numbered(ls, start, width)[i] == numbered(ls.drop_last(), start, width)[i]);
                assert(ls.drop_last()[i] == ls[i]);
            }
        }
    }
}

/// A slice shows the lines its range asks for and no more: one line for `path:N`, the lines
/// from `S` to `E` for `path:S-E`, `C` lines from `S` for `path:S+C`, and the whole file when no
/// range is given; fewer only where the file ends first or the budget runs out. The lines it
/// shows are the file's own lines from the range's start on, one after another, each under its
/// line number and cut at the width cap.
pub proof fn law_slice_shows_the_lines_asked_for(o: OpenedView, root: Seq<char>, budget: nat, limit: nat)
    requires
        o.3 is None,
        lines(o.2).len() > 0,
        o.0 matches Some(r) ==> crate::peek::paths::valid_range(r) && range_start(r) <= lines(o.2).len(),
    ensures
        slice_one(o, root, budget, limit).1 == min(
            min(
                match o.0 {
                    Some(Range::Line(_)) => 1int,
                    Some(Range::Span(s, e)) => e - s + 1,
                    Some(Range::From(_, c)) => c as int,
                    None => lines(o.2).len() as int,
                },
                lines(o.2).len() - first_line(o.0) + 1,
            ),
            budget as int,
        ),
        exists|p: int, w: nat| #[trigger] shows_lines_at(slice_one(o, root, budget, limit).0, p, w,
            first_line(o.0), lines(o.2), slice_one(o, root, budget, limit).1),
{
    let ls = lines(o.2);
    let total = ls.len();
    let (start, asked) = asked_for(o.0, total);
    let wanted = min(asked, total - start + 1);
    let shown = min(wanted, budget as int);
    let width = decimal((start + shown - 1) as nat).len();
    let body = ls.subrange(start - 1, start - 1 + shown);
    lemma_numbered(body, start, width);
    let out = slice_one(o, root, budget, limit).0;
    let p: int = 1int + past_bounds(total, start, asked).len();
    assert forall|i: int| 0 <= i < slice_one(o, root, budget, limit).1 implies 0 <= p + i < out.len()
        && #[trigger] out[p + i] == pad_left(decimal((start + i) as nat), width) + "  "@
            + truncated(ls[start - 1 + i]).0 by {
        assert(out[p + i] == numbered(body, start, width)[i]);
        assert(body[i] == ls[start - 1 + i]);
    }
    assert(shows_lines_at(out, p, width, start as int, ls, slice_one(o, root, budget, limit).1));
}

/// No output exceeds the cap: however many targets a slice is given, the lines of content it
/// prints are at most `--limit`, because every target spends one shared budget.
pub proof fn law_slice_stays_within_the_limit(os: Seq<OpenedView>, requested: nat, root: Seq<char>, limit: nat,
    clamped: Option<usize>)
    requires
        view_ranges_valid(os),
    ensures
        sliced(os, requested, root, limit, clamped).1 <= limit,
{
    lemma_slice_all_spends(os, requested, root, limit);
}

} // verus!
