//! `at-recall`'s verb table. The vocabulary and the help rendering are shared with `at-peek`, so
//! the two tools cannot drift in how they state what they accept.

use vstd::prelude::*;
use vstd::string::StringExecFns;

use crate::catalogue::{help_for_view_text, flag_view, flag_views, summary_flag, verb_view, verb_views, FlagView, VerbView, help_all_rows_text, lemma_help_all_rows, lemma_line_pairs_rows, row_line_pairs, rows_of, Row, flag_names_of, help_for_text, summary, verb_names, Flag, Tool, Verb};
use crate::text::{join, str_views};

verus! {

/// What `at-recall pr` prints, in the order it prints it: the verb's help, the toolkit's
/// catalogue and `--with`'s validation all read them from here.
pub const PR_SECTIONS: [&'static str; 3] = ["commits", "diffstat", "areas"];

pub open spec fn pr_sections() -> Seq<Seq<char>> {
    seq!["commits"@, "diffstat"@, "areas"@]
}

/// A recipe: a verb whose answer is several sections rather than one, so a caller can ask for a
/// subset of them.
pub struct Recipe {
    pub verb: &'static str,
    pub one_line: &'static str,
    pub sections: [&'static str; 3],
}

/// The recipes, with the sections `--with` validates against.
pub fn recipes() -> (r: Vec<Recipe>)
    ensures
        r@.len() == 1,
        r@[0].verb@ == "pr"@,
        r@[0].one_line@ == "the facts a PR description is written from"@,
        r@[0].sections@.map_values(|s: &'static str| s@) == pr_sections(),
{
    let r = vec![Recipe { verb: "pr", one_line: "the facts a PR description is written from", sections: PR_SECTIONS }];
    assert(r@[0].sections@.map_values(|s: &'static str| s@) =~= pr_sections());
    r
}

pub open spec fn limit_flag() -> FlagView {
    ("--limit"@, true, "N"@, "Cap the output; default 200, ceiling 2000. Clamping is announced"@)
}

pub open spec fn ignore_space_flag() -> FlagView {
    ("--ignore-space"@, false, ""@, "Compare lines ignoring whitespace (`git diff -w`), and state what that hid"@)
}

pub open spec fn root_flag() -> FlagView {
    ("--root"@, true, "<path>"@, "Read a worktree other than the one enclosing the shell"@)
}

pub open spec fn patch_flag() -> FlagView {
    ("--patch"@, false, ""@, "The hunks themselves, not only the per-file totals"@)
}

pub open spec fn secrets_flag() -> FlagView {
    ("--include-secret-paths"@, false, ""@, "Include a secret-shaped path that `--patch` refused by name"@)
}

pub open spec fn how_flag() -> FlagView {
    ("--help"@, false, ""@, "This verb's flags (`-h` is the same flag)"@)
}

pub open spec fn base_flag() -> FlagView {
    ("--base"@, true, "<rev>"@, "What the branch diverged from; default is its upstream, else origin/HEAD"@)
}

pub open spec fn with_flag() -> FlagView {
    ("--with"@, true, "<sections>"@, "Comma-separated sections to print; default is all of them"@)
}

fn limit() -> (r: Flag)
    ensures r.name@ == "--limit"@, r.takes_value, flag_view(r) == limit_flag(),
{
    Flag { name: "--limit", takes_value: true, value: "N", one_line: "Cap the output; default 200, ceiling 2000. Clamping is announced" }
}

fn ignore_space() -> (r: Flag)
    ensures r.name@ == "--ignore-space"@, !r.takes_value, flag_view(r) == ignore_space_flag(),
{
    Flag { name: "--ignore-space", takes_value: false, value: "", one_line: "Compare lines ignoring whitespace (`git diff -w`), and state what that hid" }
}

fn root() -> (r: Flag)
    ensures r.name@ == "--root"@, r.takes_value, flag_view(r) == root_flag(),
{
    Flag { name: "--root", takes_value: true, value: "<path>", one_line: "Read a worktree other than the one enclosing the shell" }
}

fn patch() -> (r: Flag)
    ensures r.name@ == "--patch"@, !r.takes_value, flag_view(r) == patch_flag(),
{
    Flag { name: "--patch", takes_value: false, value: "", one_line: "The hunks themselves, not only the per-file totals" }
}

fn secrets() -> (r: Flag)
    ensures r.name@ == "--include-secret-paths"@, !r.takes_value, flag_view(r) == secrets_flag(),
{
    Flag { name: "--include-secret-paths", takes_value: false, value: "", one_line: "Include a secret-shaped path that `--patch` refused by name" }
}

fn how() -> (r: Flag)
    ensures r.name@ == "--help"@, !r.takes_value, flag_view(r) == how_flag(),
{
    Flag { name: "--help", takes_value: false, value: "", one_line: "This verb's flags (`-h` is the same flag)" }
}

fn base() -> (r: Flag)
    ensures r.name@ == "--base"@, r.takes_value, flag_view(r) == base_flag(),
{
    Flag { name: "--base", takes_value: true, value: "<rev>", one_line: "What the branch diverged from; default is its upstream, else origin/HEAD" }
}

fn with() -> (r: Flag)
    ensures r.name@ == "--with"@, r.takes_value, flag_view(r) == with_flag(),
{
    Flag { name: "--with", takes_value: true, value: "<sections>", one_line: "Comma-separated sections to print; default is all of them" }
}

/// The verb names, in the order the help lists them.
pub open spec fn recall_verb_names() -> Seq<Seq<char>> {
    seq!["state"@, "log"@, "diff"@, "pr"@]
}

/// The verbs as the catalogue lists them, in order: name, question, usage.
pub open spec fn recall_rows() -> Seq<Row> {
    seq![
        ("state"@, "What am I looking at"@, "at-recall state [--summary] [--limit N] [--root <path>]"@),
        ("log"@, "What changed lately"@, "at-recall log [<rev>] [<path>…] [--limit N] [--root <path>]"@),
        ("diff"@, "What is the difference"@, "at-recall diff [<rev>] [<path>…] [--patch] [--summary] [--limit N] [--root <path>]"@),
        ("pr"@, "The facts a PR description is written from"@, "at-recall pr [--base <rev>] [--with <sections>] [--limit N] [--root <path>]"@),
    ]
}

/// The verbs as plain text, in the order the help lists them: what each asks, how it is typed,
/// its notes and its flags.
pub open spec fn recall_table() -> Seq<VerbView> {
    seq![
        ("state"@, "What am I looking at"@, "at-recall state [--summary] [--limit N] [--root <path>]"@,
            "Branch, HEAD, upstream divergence, any merge, rebase, cherry-pick, revert or bisect in progress, and the changed paths with `git status --short` codes. Exits 0 on a clean tree too, because the branch and HEAD are part of the answer — read the `#` bound for the count. Untracked directories are shown collapsed, ending in `/`."@,
            seq![summary_flag(), limit_flag(), root_flag(), how_flag()]),
        ("log"@, "What changed lately"@, "at-recall log [<rev>] [<path>…] [--limit N] [--root <path>]"@,
            "One line per commit, newest first: short hash, date, author, subject. Paths are a filter, so `log <path>` is that file's history and not the repository's, and the count under the listing comes from walking the same revision and paths — so the total is the number the listing was drawn from. Author and date filters are flags on this question and are not here yet."@,
            seq![limit_flag(), root_flag(), how_flag()]),
        ("diff"@, "What is the difference"@, "at-recall diff [<rev>] [<path>…] [--patch] [--summary] [--limit N] [--root <path>]"@,
            "The working tree against HEAD by default, as a per-file table with the totals; `--patch` adds the hunks. A first argument that resolves to a commit is a revision and anything else is a path, which is the rule git uses, and several paths are one invocation. The table names every changed path; `--patch` withholds the hunks of a secret-shaped one and says which. A path git does not track is named rather than passed over, because no difference looks like no change."@,
            seq![patch_flag(), ignore_space_flag(), summary_flag(), limit_flag(), root_flag(), secrets_flag(), how_flag()]),
        ("pr"@, "The facts a PR description is written from"@, "at-recall pr [--base <rev>] [--with <sections>] [--limit N] [--root <path>]"@,
            "One recipe with three sections, the whole branch in one read: `commits` (its own history), `diffstat` (every changed path with its counts and its kind) and `areas` (the change set by kind, which is what the first paragraph of a description is written from). The base is `--base`, else the branch's upstream, else `origin/HEAD`; nothing is fetched, so it is the ref this repository has locally and the output says so on every run. It prints facts and never conclusions — a path's kind comes from its name, not its contents — and it does not write the description, because why the change exists is the one fact not in the repository. Every section carries its count, so a cut section says what it was cut from, and a branch with nothing on top of its base exits 1 rather than 0: there is no description to write."@,
            seq![base_flag(), with_flag(), limit_flag(), root_flag(), how_flag()]),
    ]
}

/// The verbs, in the order the help lists them.
pub fn verbs() -> (r: Vec<Verb>)
    ensures
        verb_views(r@) == recall_table(),
        rows_of(r@) == recall_rows(),
        verb_names(r@) == recall_verb_names(),
        flag_names_of(r@[0].flags@) == seq!["--summary"@, "--limit"@, "--root"@, "--help"@],
        flag_names_of(r@[1].flags@) == seq!["--limit"@, "--root"@, "--help"@],
        flag_names_of(r@[2].flags@) == seq!["--patch"@, "--ignore-space"@, "--summary"@, "--limit"@, "--root"@,
            "--include-secret-paths"@, "--help"@],
        flag_names_of(r@[3].flags@) == seq!["--base"@, "--with"@, "--limit"@, "--root"@, "--help"@],
{
    let mut r: Vec<Verb> = Vec::new();
    let state_flags = vec![summary(), limit(), root(), how()];
    assert(flag_views(state_flags@) =~= seq![summary_flag(), limit_flag(), root_flag(), how_flag()]);
    assert(flag_names_of(state_flags@) =~= seq!["--summary"@, "--limit"@, "--root"@, "--help"@]);
    r.push(Verb {
        name: "state",
        question: "What am I looking at",
        usage: "at-recall state [--summary] [--limit N] [--root <path>]",
        notes: "Branch, HEAD, upstream divergence, any merge, rebase, cherry-pick, revert or bisect in progress, and the changed paths with `git status --short` codes. Exits 0 on a clean tree too, because the branch and HEAD are part of the answer — read the `#` bound for the count. Untracked directories are shown collapsed, ending in `/`.",
        flags: state_flags,
    });
    let log_flags = vec![limit(), root(), how()];
    assert(flag_views(log_flags@) =~= seq![limit_flag(), root_flag(), how_flag()]);
    assert(flag_names_of(log_flags@) =~= seq!["--limit"@, "--root"@, "--help"@]);
    r.push(Verb {
        name: "log",
        question: "What changed lately",
        usage: "at-recall log [<rev>] [<path>…] [--limit N] [--root <path>]",
        notes: "One line per commit, newest first: short hash, date, author, subject. Paths are a filter, so `log <path>` is that file's history and not the repository's, and the count under the listing comes from walking the same revision and paths — so the total is the number the listing was drawn from. Author and date filters are flags on this question and are not here yet.",
        flags: log_flags,
    });
    let diff_flags = vec![patch(), ignore_space(), summary(), limit(), root(), secrets(), how()];
    assert(flag_views(diff_flags@) =~= seq![patch_flag(), ignore_space_flag(), summary_flag(), limit_flag(), root_flag(), secrets_flag(), how_flag()]);
    assert(flag_names_of(diff_flags@) =~= seq!["--patch"@, "--ignore-space"@, "--summary"@, "--limit"@, "--root"@,
        "--include-secret-paths"@, "--help"@]);
    r.push(Verb {
        name: "diff",
        question: "What is the difference",
        usage: "at-recall diff [<rev>] [<path>…] [--patch] [--summary] [--limit N] [--root <path>]",
        notes: "The working tree against HEAD by default, as a per-file table with the totals; `--patch` adds the hunks. A first argument that resolves to a commit is a revision and anything else is a path, which is the rule git uses, and several paths are one invocation. The table names every changed path; `--patch` withholds the hunks of a secret-shaped one and says which. A path git does not track is named rather than passed over, because no difference looks like no change.",
        flags: diff_flags,
    });
    let pr_flags = vec![base(), with(), limit(), root(), how()];
    assert(flag_views(pr_flags@) =~= seq![base_flag(), with_flag(), limit_flag(), root_flag(), how_flag()]);
    assert(flag_names_of(pr_flags@) =~= seq!["--base"@, "--with"@, "--limit"@, "--root"@, "--help"@]);
    r.push(Verb {
        name: "pr",
        question: "The facts a PR description is written from",
        usage: "at-recall pr [--base <rev>] [--with <sections>] [--limit N] [--root <path>]",
        notes: "One recipe with three sections, the whole branch in one read: `commits` (its own history), `diffstat` (every changed path with its counts and its kind) and `areas` (the change set by kind, which is what the first paragraph of a description is written from). The base is `--base`, else the branch's upstream, else `origin/HEAD`; nothing is fetched, so it is the ref this repository has locally and the output says so on every run. It prints facts and never conclusions — a path's kind comes from its name, not its contents — and it does not write the description, because why the change exists is the one fact not in the repository. Every section carries its count, so a cut section says what it was cut from, and a branch with nothing on top of its base exits 1 rather than 0: there is no description to write.",
        flags: pr_flags,
    });
    assert(verb_names(r@) =~= recall_verb_names());
    assert(rows_of(r@) =~= recall_rows());
    assert(verb_views(r@) =~= recall_table());
    r
}

/// This binary's identity and its verbs.
pub fn tool() -> (r: Tool)
    ensures
        r.version@ == crate::recall::VERSION@,
        r.about@ == "read-only inspection of history and the working tree"@,
        r.promise@ == "One subprocess, git, read verbs only. No writes, no network, no environment configuration, and never the reflog."@,
        rows_of(r.verbs@) == recall_rows(),
        r.name@ == crate::recall::TOOL@,
        verb_names(r.verbs@) == recall_verb_names(),
{
    Tool {
        name: crate::recall::TOOL,
        version: crate::recall::VERSION,
        about: "read-only inspection of history and the working tree",
        promise: "One subprocess, git, read verbs only. No writes, no network, no environment configuration, and never the reflog.",
        verbs: verbs(),
    }
}

/// The verb with this name.
pub fn find(name: &str) -> (r: Option<Verb>)
    ensures
        match r {
            Some(v) => v.name@ == name@ && recall_verb_names().contains(name@)
                && recall_rows().contains((v.name@, v.question@, v.usage@))
                && recall_table().contains(verb_view(v)),
            None => !recall_verb_names().contains(name@),
        },
{
    let mut all = verbs();
    let mut i: usize = 0;
    let target = crate::text::chars_of(name);
    while i < all.len()
        invariant
            i <= all@.len(),
            verb_names(all@) == recall_verb_names(),
            target@ == name@,
            rows_of(all@) == recall_rows(),
            verb_views(all@) == recall_table(),
            forall|j: int| 0 <= j < i ==> (#[trigger] all@[j]).name@ != name@,
        decreases all.len() - i,
    {
        if crate::text::eq_chars(&crate::text::chars_of(all[i].name), &target) {
            assert(verb_names(all@)[i as int] == name@);
            assert(rows_of(all@)[i as int] == (all@[i as int].name@, all@[i as int].question@, all@[i as int].usage@));
            assert(verb_views(all@)[i as int] == verb_view(all@[i as int]));
            return Some(all.remove(i));
        }
        i = i + 1;
    }
    proof {
        let ns = recall_verb_names();
        if ns.contains(name@) {
            let j = choose|j: int| 0 <= j < ns.len() && ns[j] == name@;
            assert(verb_names(all@)[j] == all@[j].name@);
        }
    }
    None
}

/// The verb names, comma-separated.
pub fn names() -> (r: String)
    ensures
        r@ == join(recall_verb_names(), ", "@),
{
    crate::catalogue::names(&verbs())
}

/// Two lines per verb: its name and question, then its usage.
pub fn verb_lines() -> (r: Vec<String>)
    ensures
        str_views(r@) == row_line_pairs(recall_rows()),
{
    let vs = verbs();
    proof {
        lemma_line_pairs_rows(vs@);
    }
    crate::catalogue::verb_lines(&vs)
}

/// The recipes, one line each, naming the binary: the toolkit view lists the recipes of every
/// binary under one heading.
pub open spec fn recipe_line_list() -> Seq<Seq<char>> {
    seq!["  "@ + crate::recall::TOOL@ + " pr · the facts a PR description is written from · sections: "@ + join(pr_sections(), ", "@)]
}

pub fn recipe_lines() -> (r: Vec<String>)
    ensures
        str_views(r@) == recipe_line_list(),
{
    let mut line = String::from_str("  ");
    line.append(crate::recall::TOOL);
    line.append(" pr · the facts a PR description is written from · sections: ");
    let mut k: usize = 0;
    let ghost sv = pr_sections();
    assert(sv.take(0) =~= Seq::<Seq<char>>::empty());
    let ghost head = line@;
    let sections = PR_SECTIONS;
    assert(sections@.len() == 3);
    assert(sections@[0]@ == "commits"@ && sections@[1]@ == "diffstat"@ && sections@[2]@ == "areas"@);
    while k < 3
        invariant
            k <= 3,
            sv == pr_sections(),
            sections@.len() == 3,
            sections@[0]@ == "commits"@ && sections@[1]@ == "diffstat"@ && sections@[2]@ == "areas"@,
            line@ == head + join(sv.take(k as int), ", "@),
        decreases 3 - k,
    {
        assert(sv.take(k + 1).drop_last() =~= sv.take(k as int));
        assert(sections@[k as int]@ == sv[k as int]);
        crate::peek::verbs::search::push_joined(&mut line, k == 0, ", ", sections[k], Ghost(sv.take(k as int)), Ghost(head));
        assert(sv.take(k as int).push(sections@[k as int]@) =~= sv.take(k + 1));
        k = k + 1;
    }
    assert(sv.take(3) =~= sv);
    let r = vec![line];
    assert(str_views(r@) =~= recipe_line_list());
    r
}

/// The help for the whole tool.
pub open spec fn recall_help_text() -> Seq<char> {
    help_all_rows_text(crate::recall::TOOL@, crate::recall::VERSION@, "read-only inspection of history and the working tree"@,
            "One subprocess, git, read verbs only. No writes, no network, no environment configuration, and never the reflog."@, recall_rows())
}

/// The help for the whole tool.
pub fn help_all() -> (r: String)
    ensures
        r@ == recall_help_text(),
{
    let t = tool();
    proof {
        lemma_help_all_rows(t);
    }
    crate::catalogue::help_all(&t)
}

/// The help for one verb.
pub fn help_for(verb: &Verb) -> (r: String)
    ensures
        r@ == help_for_view_text(crate::recall::TOOL@, verb_view(*verb)),
{
    let t = tool();
    proof {
        crate::catalogue::lemma_help_for_view(t, *verb);
    }
    crate::catalogue::help_for(&t, verb)
}

} // verus!
