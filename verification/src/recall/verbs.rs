//! The verbs.
//!
//! Each returns an [`Outcome`] from the shared contract, so `at-recall` answers in exactly the
//! shape `at-peek` does. A diff is the easiest place in the toolkit to lose that property, because
//! git will print a hundred thousand lines without being asked twice; so the verbs spend their
//! budget while building the answer rather than trimming it afterwards, and every cut is a `#`
//! line.

use vstd::prelude::*;
use vstd::string::StringExecFns;

use crate::contract::{bound_line, quoted, quoted_text, truncate, truncated, Report, MAX_LINE_WIDTH};
use crate::peek::paths::Root;
use crate::peek::verbs::{spaced, spaced_quoted};
use crate::text::{decimal, decimal_text, str_views};

pub mod diff;
pub mod log;
pub mod pr;
pub mod state;

verus! {

/// What a verb needs that is not its own arguments.
pub struct Opts {
    /// The worktree, canonicalised. Every path git prints is relative to this.
    pub root: Root,
    /// Whether the caller named the root rather than letting it be discovered: an exit that
    /// dropped a `--root` it was given would answer about a different tree, so it is echoed.
    pub root_was_explicit: bool,
    /// Content lines this invocation may print, shared across every section it prints.
    pub limit: usize,
    /// Set when the caller asked for more than the ceiling, so the clamp is announced.
    pub limit_clamped_from: Option<usize>,
    /// Whether `--patch` may print content from a secret-shaped path.
    pub include_secret_paths: bool,
    /// Whether hunks were asked for as well as the per-file table.
    pub patch: bool,
    /// Whether the caller asked for the frame and not the rows.
    pub summary: bool,
    /// Whether lines are compared ignoring whitespace.
    pub ignore_space: bool,
    /// The sections `pr` was asked for; empty means all of them.
    pub with: Vec<String>,
    /// The base `pr` was given, if any.
    pub base: Option<String>,
}

/// What one verb may still print, and what it gave up to stay inside `--limit`: the counters are
/// what the verb turns into `#` lines afterwards.
pub struct Budget {
    remaining: usize,
    dropped: usize,
    cut: usize,
    limit: usize,
}

impl Budget {
    /// Lines it may still print, lines it dropped, lines it cut at the width cap.
    pub closed spec fn view_of(&self) -> (nat, nat, nat) {
        (self.remaining as nat, self.dropped as nat, self.cut as nat)
    }

    /// Its own invariant: it never cut more lines than it printed.
    pub closed spec fn wf(&self) -> bool {
        self.cut + self.remaining <= self.limit
    }

    pub fn new(limit: usize) -> (b: Budget)
        ensures
            b.wf(),
            b.view_of() == (limit as nat, 0nat, 0nat),
    {
        Budget { remaining: limit, dropped: 0, cut: 0, limit }
    }

    /// Print one line as content. Past the limit it is dropped rather than shortened, because a
    /// half-line reads as the whole thing; at the width cap it is cut and flagged.
    pub fn push(&mut self, report: &mut Report, line: String)
        requires
            old(self).wf(),
            old(self).view_of().0 > 0 ==> old(report)@.1 < usize::MAX,
            old(self).view_of().0 == 0 ==> old(self).view_of().1 < usize::MAX,
        ensures
            final(self).wf(),
            old(self).view_of().0 == 0 ==> final(self).view_of() == (0nat, old(self).view_of().1 + 1, old(self).view_of().2)
                && final(report)@ == old(report)@,
            old(self).view_of().0 > 0 ==> final(self).view_of() == ((old(self).view_of().0 - 1) as nat, old(self).view_of().1,
                old(self).view_of().2 + if truncated(line@).1 { 1nat } else { 0nat })
                && final(report)@ == (old(report)@.0.push(truncated(line@).0), old(report)@.1 + 1),
    {
        if self.remaining == 0 {
            self.dropped = self.dropped + 1;
            return;
        }
        let (text, cut) = truncate(line.as_str());
        if cut {
            self.cut = self.cut + 1;
        }
        report.content(text);
        self.remaining = self.remaining - 1;
    }

    pub fn dropped(&self) -> (r: usize)
        ensures
            r == self.view_of().1,
    {
        self.dropped
    }

    /// Lines cut at the width cap so far.
    pub fn cut_count(&self) -> (r: usize)
        ensures
            r == self.view_of().2,
    {
        self.cut
    }

    /// The width caveat, when there is one to state.
    pub fn width_caveat(&self, report: &mut Report)
        ensures
            final(report)@ == (old(report)@.0 + crate::peek::verbs::slice::width_bounds(self.view_of().2), old(report)@.1),
    {
        crate::peek::verbs::slice::push_width(report, self.cut);
    }
}

/// What pushing these lines through a budget prints: the first `remaining`, each cut at the width
/// cap.
pub open spec fn budgeted(ls: Seq<Seq<char>>, remaining: nat) -> Seq<Seq<char>>
    decreases ls.len(),
{
    if ls.len() == 0 {
        seq![]
    } else if ls.len() <= remaining {
        budgeted(ls.drop_last(), remaining).push(truncated(ls.last()).0)
    } else {
        budgeted(ls.drop_last(), remaining)
    }
}

/// Bounded, and the bound is exact: a budget prints the first `--limit` of the lines pushed
/// through it, in order, each cut at the width cap, and nothing past them.
pub proof fn law_budget_prints_the_first_lines(ls: Seq<Seq<char>>, limit: nat)
    ensures
        budgeted(ls, limit).len() == min(ls.len(), limit),
        forall|i: int| 0 <= i < budgeted(ls, limit).len() ==> #[trigger] budgeted(ls, limit)[i] == truncated(ls[i]).0,
    decreases ls.len(),
{
    if ls.len() > 0 {
        let prev = ls.drop_last();
        law_budget_prints_the_first_lines(prev, limit);
        assert forall|i: int| 0 <= i < budgeted(ls, limit).len() implies #[trigger] budgeted(ls, limit)[i] == truncated(ls[i]).0 by {
            if i < budgeted(prev, limit).len() {
                assert(prev[i] == ls[i]);
            }
        }
    }
}

/// How many of the printed lines were cut at the width cap.
pub open spec fn budget_cuts(ls: Seq<Seq<char>>, remaining: nat) -> nat
    decreases ls.len(),
{
    if ls.len() == 0 {
        0
    } else if ls.len() <= remaining {
        budget_cuts(ls.drop_last(), remaining) + if truncated(ls.last()).1 { 1nat } else { 0nat }
    } else {
        budget_cuts(ls.drop_last(), remaining)
    }
}

pub open spec fn min(a: nat, b: nat) -> nat {
    if a <= b { a } else { b }
}

/// The width caveat is exact: of lines pushed through a budget of `limit`, some printed line is
/// cut exactly when one of the first `limit` is wider than the cap, and then the caveat is one
/// `#` line; otherwise there is none.
pub proof fn law_budget_caveat_names_a_cut(ls: Seq<Seq<char>>, limit: nat)
    ensures
        (budget_cuts(ls, limit) > 0) <==> exists|i: int| 0 <= i < min(ls.len(), limit) && #[trigger] ls[i].len() > MAX_LINE_WIDTH,
        crate::peek::verbs::slice::width_bounds(budget_cuts(ls, limit)).len()
            == if budget_cuts(ls, limit) > 0 { 1nat } else { 0nat },
    decreases ls.len(),
{
    if ls.len() > 0 {
        let prev = ls.drop_last();
        law_budget_caveat_names_a_cut(prev, limit);
        if exists|i: int| 0 <= i < min(prev.len(), limit) && #[trigger] prev[i].len() > MAX_LINE_WIDTH {
            let i = choose|i: int| 0 <= i < min(prev.len(), limit) && #[trigger] prev[i].len() > MAX_LINE_WIDTH;
            assert(ls[i] == prev[i]);
        }
        if exists|i: int| 0 <= i < min(ls.len(), limit) && #[trigger] ls[i].len() > MAX_LINE_WIDTH {
            let i = choose|i: int| 0 <= i < min(ls.len(), limit) && #[trigger] ls[i].len() > MAX_LINE_WIDTH;
            if i < prev.len() {
                assert(ls[i] == prev[i]);
            }
        }
    }
}

/// Push every line through the budget, in order.
pub fn push_all(budget: &mut Budget, report: &mut Report, lines: &Vec<String>)
    requires
        old(budget).wf(),
        old(report)@.1 + old(budget).view_of().0 <= usize::MAX,
        old(budget).view_of().1 + lines@.len() <= usize::MAX,
    ensures
        final(budget).wf(),
        final(report)@.0 == old(report)@.0 + budgeted(str_views(lines@), old(budget).view_of().0),
        final(report)@.1 == old(report)@.1 + min(lines@.len(), old(budget).view_of().0),
        final(budget).view_of() == ((old(budget).view_of().0 - min(lines@.len(), old(budget).view_of().0)) as nat,
            old(budget).view_of().1 + (lines@.len() - min(lines@.len(), old(budget).view_of().0)) as nat,
            old(budget).view_of().2 + budget_cuts(str_views(lines@), old(budget).view_of().0)),
{
    let ghost r0 = old(budget).view_of().0;
    let ghost l0 = report@.0;
    let ghost c0 = report@.1;
    let ghost lv = str_views(lines@);
    let mut i: usize = 0;
    assert(lv.take(0) =~= Seq::<Seq<char>>::empty());
    while i < lines.len()
        invariant
            i <= lines@.len(),
            lv == str_views(lines@),
            budget.wf(),
            c0 + r0 <= usize::MAX,
            old(budget).view_of().1 + lines@.len() <= usize::MAX,
            r0 == old(budget).view_of().0,
            report@.0 == l0 + budgeted(lv.take(i as int), r0),
            report@.1 == c0 + min(i as nat, r0),
            budget.view_of() == ((r0 - min(i as nat, r0)) as nat, old(budget).view_of().1 + (i - min(i as nat, r0)) as nat,
                old(budget).view_of().2 + budget_cuts(lv.take(i as int), r0)),
        decreases lines.len() - i,
    {
        assert(lv.take(i + 1).drop_last() =~= lv.take(i as int));
        assert(lv.take(i + 1).last() == lines@[i as int]@);
        let ghost before = report@.0;
        budget.push(report, lines[i].clone());
        assert(report@.0 =~= l0 + budgeted(lv.take(i + 1), r0));
        i = i + 1;
    }
    assert(lv.take(lines@.len() as int) =~= lv);
}

/// The caller's own invocation, asked again with one thing changed: rebuilt from the parts the
/// caller supplied, so an exit cannot describe a command the parser would refuse, and cannot
/// silently answer about a different tree.
pub open spec fn again_text(root_explicit: bool, dir: Seq<char>, verb: Seq<char>, rev: Option<Seq<char>>,
    paths: Seq<Seq<char>>, flags: Seq<Seq<char>>) -> Seq<char> {
    let parts = match rev { Some(r) => seq![r] + paths, None => paths };
    crate::recall::TOOL@ + seq![' '] + verb + spaced_quoted(parts) + spaced(flags)
        + if root_explicit { " --root "@ + quoted_text(dir) } else { seq![] }
}

/// `again`, with the caller's options.
pub open spec fn again_of(opts: Opts, verb: Seq<char>, rev: Option<Seq<char>>, paths: Seq<Seq<char>>, flags: Seq<Seq<char>>) -> Seq<char> {
    again_text(opts.root_was_explicit, opts.root.dir_view(), verb, rev, paths, flags)
}

pub fn again(opts: &Opts, verb: &str, rev: Option<&str>, paths: &Vec<String>, flags: &Vec<String>) -> (r: String)
    ensures
        r@ == again_of(*opts, verb@, match rev { Some(s) => Some(s@), None => None }, str_views(paths@), str_views(flags@)),
{
    let mut parts: Vec<String> = Vec::new();
    match rev {
        Some(s) => parts.push(String::from_str(s)),
        None => {},
    }
    let mut i: usize = 0;
    let ghost first = str_views(parts@);
    while i < paths.len()
        invariant
            i <= paths@.len(),
            str_views(parts@) == first + str_views(paths@).take(i as int),
        decreases paths.len() - i,
    {
        let ghost before = parts@;
        parts.push(paths[i].clone());
        assert(str_views(parts@) =~= str_views(before).push(paths@[i as int]@));
        assert(str_views(parts@) =~= first + str_views(paths@).take(i + 1));
        i = i + 1;
    }
    assert(str_views(paths@).take(paths@.len() as int) =~= str_views(paths@));
    assert(str_views(parts@) =~= (match rev { Some(s) => seq![s@] + str_views(paths@), None => str_views(paths@) }));
    let mut command = String::from_str(crate::recall::TOOL);
    crate::text::push_char(&mut command, ' ');
    command.append(verb);
    let ghost head = command@;
    let ghost pv = str_views(parts@);
    let mut k: usize = 0;
    assert(pv.take(0) =~= Seq::<Seq<char>>::empty());
    while k < parts.len()
        invariant
            k <= parts@.len(),
            pv == str_views(parts@),
            command@ == head + spaced_quoted(pv.take(k as int)),
        decreases parts.len() - k,
    {
        assert(pv.take(k + 1).drop_last() =~= pv.take(k as int));
        crate::text::push_char(&mut command, ' ');
        command.append(quoted(parts[k].as_str()).as_str());
        assert(command@ =~= head + spaced_quoted(pv.take(k + 1)));
        k = k + 1;
    }
    assert(pv.take(parts@.len() as int) =~= pv);
    let ghost mid = command@;
    let ghost fv = str_views(flags@);
    let mut j: usize = 0;
    assert(fv.take(0) =~= Seq::<Seq<char>>::empty());
    while j < flags.len()
        invariant
            j <= flags@.len(),
            fv == str_views(flags@),
            command@ == mid + spaced(fv.take(j as int)),
        decreases flags.len() - j,
    {
        assert(fv.take(j + 1).drop_last() =~= fv.take(j as int));
        crate::text::push_char(&mut command, ' ');
        command.append(flags[j].as_str());
        assert(command@ =~= mid + spaced(fv.take(j + 1)));
        j = j + 1;
    }
    assert(fv.take(flags@.len() as int) =~= fv);
    let ghost tail = command@;
    if opts.root_was_explicit {
        command.append(" --root ");
        command.append(quoted(opts.root.dir()).as_str());
    }
    assert(command@ =~= again_of(*opts, verb@, match rev { Some(s) => Some(s@), None => None }, str_views(paths@), str_views(flags@)));
    command
}

/// `--limit N`, the flag an exit that widens an answer carries.
pub fn limit_flag(n: usize) -> (r: String)
    ensures
        r@ == "--limit "@ + decimal(n as nat),
{
    let mut s = String::from_str("--limit ");
    s.append(decimal_text(n as u64).as_str());
    s
}

} // verus!
