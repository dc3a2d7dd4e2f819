//! `at-peek`'s verb table. The vocabulary and the help rendering are the shared catalogue's,
//! so the tools cannot drift in how they state what they accept.

use vstd::prelude::*;

use crate::catalogue::{help_for_view_text, flag_view, flag_views, summary_flag, verb_view, verb_views, FlagView, VerbView, help_all_rows_text, lemma_help_all_rows, lemma_line_pairs_rows, row_line_pairs, rows_of, Row, flag_names_of, help_for_text, summary, verb_names, Flag, Tool, Verb};
use crate::text::{join, str_views};

verus! {

pub open spec fn limit_flag() -> FlagView {
    ("--limit"@, true, "N"@, "Cap the output; default 200, ceiling 2000. Clamping is announced"@)
}

pub open spec fn root_flag() -> FlagView {
    ("--root"@, true, "<path>"@, "Resolve paths against this root instead of the enclosing worktree"@)
}

pub open spec fn secrets_flag() -> FlagView {
    ("--include-secret-paths"@, false, ""@, "Read a path the deny-list refused; the refusal names the rule it matched"@)
}

pub open spec fn how_flag() -> FlagView {
    ("--help"@, false, ""@, "This verb's flags (`-h` is the same flag)"@)
}

pub open spec fn count_flag() -> FlagView {
    ("--count"@, false, ""@, "Matches per file, instead of the matching lines"@)
}

pub open spec fn files_only_flag() -> FlagView {
    ("--files-only"@, false, ""@, "Paths containing a match, without lines"@)
}

pub open spec fn max_files_flag() -> FlagView {
    ("--max-files"@, true, "N"@, "Files a walk considers before it stops; default 20000, ceiling 200000"@)
}

fn limit() -> (r: Flag)
    ensures r.name@ == "--limit"@, r.takes_value, flag_view(r) == limit_flag(),
{
    Flag { name: "--limit", takes_value: true, value: "N", one_line: "Cap the output; default 200, ceiling 2000. Clamping is announced" }
}

fn root() -> (r: Flag)
    ensures r.name@ == "--root"@, r.takes_value, flag_view(r) == root_flag(),
{
    Flag { name: "--root", takes_value: true, value: "<path>", one_line: "Resolve paths against this root instead of the enclosing worktree" }
}

fn secrets() -> (r: Flag)
    ensures r.name@ == "--include-secret-paths"@, !r.takes_value, flag_view(r) == secrets_flag(),
{
    Flag { name: "--include-secret-paths", takes_value: false, value: "", one_line: "Read a path the deny-list refused; the refusal names the rule it matched" }
}

fn how() -> (r: Flag)
    ensures r.name@ == "--help"@, !r.takes_value, flag_view(r) == how_flag(),
{
    Flag { name: "--help", takes_value: false, value: "", one_line: "This verb's flags (`-h` is the same flag)" }
}

fn count() -> (r: Flag)
    ensures r.name@ == "--count"@, !r.takes_value, flag_view(r) == count_flag(),
{
    Flag { name: "--count", takes_value: false, value: "", one_line: "Matches per file, instead of the matching lines" }
}

fn files_only() -> (r: Flag)
    ensures r.name@ == "--files-only"@, !r.takes_value, flag_view(r) == files_only_flag(),
{
    Flag { name: "--files-only", takes_value: false, value: "", one_line: "Paths containing a match, without lines" }
}

fn max_files() -> (r: Flag)
    ensures r.name@ == "--max-files"@, r.takes_value, flag_view(r) == max_files_flag(),
{
    Flag { name: "--max-files", takes_value: true, value: "N", one_line: "Files a walk considers before it stops; default 20000, ceiling 200000" }
}

fn verb_flags() -> (r: Vec<Flag>)
    ensures
        flag_views(r@) == peek_common_flags(),
        flag_names_of(r@) == seq!["--limit"@, "--root"@, "--include-secret-paths"@, "--help"@],
{
    let mut r: Vec<Flag> = Vec::new();
    r.push(limit());
    r.push(root());
    r.push(secrets());
    r.push(how());
    assert(flag_names_of(r@) =~= seq!["--limit"@, "--root"@, "--include-secret-paths"@, "--help"@]);
    assert(flag_views(r@) =~= peek_common_flags());
    r
}

/// The verbs as the catalogue lists them, in order: name, question, usage.
pub open spec fn peek_rows() -> Seq<Row> {
    seq![
        ("stat"@, "How big is it, when did it change"@, "at-peek stat <path>… [--limit N] [--root <path>] [--include-secret-paths]"@),
        ("slice"@, "These exact lines"@, "at-peek slice <path>:40-60 [<path>:<range>…] [--limit N] [--root <path>]"@),
        ("search"@, "Every mention"@, "at-peek search <pattern> [path…] [--count | --files-only] [--summary] [--limit N] [--max-files N]"@),
    ]
}

/// The flags `stat` and `slice` take.
pub open spec fn peek_common_flags() -> Seq<FlagView> {
    seq![limit_flag(), root_flag(), secrets_flag(), how_flag()]
}

/// The verbs as plain text, in the order the help lists them: what each asks, how it is typed,
/// its notes and its flags.
pub open spec fn peek_table() -> Seq<VerbView> {
    seq![
        ("stat"@, "How big is it, when did it change"@, "at-peek stat <path>… [--limit N] [--root <path>] [--include-secret-paths]"@,
            "Lines, bytes, modification time and language per path. The \"did the write land\" verb. A binary is reported as binary rather than counted."@,
            peek_common_flags()),
        ("slice"@, "These exact lines"@, "at-peek slice <path>:40-60 [<path>:<range>…] [--limit N] [--root <path>]"@,
            "Ranges are 1-based and inclusive; `40+20` means twenty lines from 40, and no range reads the whole file. `--limit` is shared across targets, so a batch cannot print more than one verb's worth. Any target that fails fails the invocation."@,
            peek_common_flags()),
        ("search"@, "Every mention"@, "at-peek search <pattern> [path…] [--count | --files-only] [--summary] [--limit N] [--max-files N]"@,
            "Regex, walked in path order; no path searches the whole root. Matches are counted over every file the walk considers, so the total under the listing is the real one. Directory names skipped by rule are named in the output — real gitignore semantics are not here yet. `--count` and `--files-only` are alternatives, not options to combine; `--summary` is the coarser answer again — how many, and where the walk stopped — without the rows."@,
            seq![count_flag(), files_only_flag(), summary_flag(), limit_flag(), max_files_flag(), root_flag(), secrets_flag(), how_flag()]),
    ]
}

/// The verbs, in the order the help lists them.
pub fn verbs() -> (r: Vec<Verb>)
    ensures
        verb_views(r@) == peek_table(),
        rows_of(r@) == peek_rows(),
        verb_names(r@) == seq!["stat"@, "slice"@, "search"@],
        flag_names_of(r@[0].flags@) == seq!["--limit"@, "--root"@, "--include-secret-paths"@, "--help"@],
        flag_names_of(r@[1].flags@) == seq!["--limit"@, "--root"@, "--include-secret-paths"@, "--help"@],
        flag_names_of(r@[2].flags@) == seq!["--count"@, "--files-only"@, "--summary"@, "--limit"@,
            "--max-files"@, "--root"@, "--include-secret-paths"@, "--help"@],
{
    let mut r: Vec<Verb> = Vec::new();
    r.push(Verb {
        name: "stat",
        question: "How big is it, when did it change",
        usage: "at-peek stat <path>… [--limit N] [--root <path>] [--include-secret-paths]",
        notes: "Lines, bytes, modification time and language per path. The \"did the write land\" verb. A binary is reported as binary rather than counted.",
        flags: verb_flags(),
    });
    r.push(Verb {
        name: "slice",
        question: "These exact lines",
        usage: "at-peek slice <path>:40-60 [<path>:<range>…] [--limit N] [--root <path>]",
        notes: "Ranges are 1-based and inclusive; `40+20` means twenty lines from 40, and no range reads the whole file. `--limit` is shared across targets, so a batch cannot print more than one verb's worth. Any target that fails fails the invocation.",
        flags: verb_flags(),
    });
    let mut search_flags: Vec<Flag> = Vec::new();
    search_flags.push(count());
    search_flags.push(files_only());
    search_flags.push(summary());
    search_flags.push(limit());
    search_flags.push(max_files());
    search_flags.push(root());
    search_flags.push(secrets());
    search_flags.push(how());
    assert(flag_views(search_flags@) =~= seq![count_flag(), files_only_flag(), summary_flag(), limit_flag(), max_files_flag(), root_flag(), secrets_flag(), how_flag()]);
    assert(flag_names_of(search_flags@) =~= seq!["--count"@, "--files-only"@, "--summary"@, "--limit"@,
        "--max-files"@, "--root"@, "--include-secret-paths"@, "--help"@]);
    r.push(Verb {
        name: "search",
        question: "Every mention",
        usage: "at-peek search <pattern> [path…] [--count | --files-only] [--summary] [--limit N] [--max-files N]",
        notes: "Regex, walked in path order; no path searches the whole root. Matches are counted over every file the walk considers, so the total under the listing is the real one. Directory names skipped by rule are named in the output — real gitignore semantics are not here yet. `--count` and `--files-only` are alternatives, not options to combine; `--summary` is the coarser answer again — how many, and where the walk stopped — without the rows.",
        flags: search_flags,
    });
    assert(verb_names(r@) =~= seq!["stat"@, "slice"@, "search"@]);
    assert(rows_of(r@) =~= peek_rows());
    assert(verb_views(r@) =~= peek_table());
    r
}

/// This binary's identity and its verbs.
pub fn tool() -> (r: Tool)
    ensures
        r.version@ == crate::peek::VERSION@,
        r.about@ == "read-only inspection of the working tree"@,
        r.promise@ == "No git, no subprocess, no writes, no network, no environment configuration."@,
        rows_of(r.verbs@) == peek_rows(),
        r.name@ == crate::peek::TOOL@,
        verb_names(r.verbs@) == seq!["stat"@, "slice"@, "search"@],
{
    Tool {
        name: crate::peek::TOOL,
        version: crate::peek::VERSION,
        about: "read-only inspection of the working tree",
        promise: "No git, no subprocess, no writes, no network, no environment configuration.",
        verbs: verbs(),
    }
}

/// The verb with this name.
pub fn find(name: &str) -> (r: Option<Verb>)
    ensures
        match r {
            Some(v) => v.name@ == name@ && seq!["stat"@, "slice"@, "search"@].contains(name@)
                && peek_rows().contains((v.name@, v.question@, v.usage@))
                && peek_table().contains(verb_view(v)),
            None => !seq!["stat"@, "slice"@, "search"@].contains(name@),
        },
{
    let mut all = verbs();
    let mut i: usize = 0;
    let target = crate::text::chars_of(name);
    while i < all.len()
        invariant
            i <= all@.len(),
            verb_names(all@) == seq!["stat"@, "slice"@, "search"@],
            target@ == name@,
            rows_of(all@) == peek_rows(),
            verb_views(all@) == peek_table(),
            forall|j: int| 0 <= j < i ==> (#[trigger] all@[j]).name@ != name@,
        decreases all.len() - i,
    {
        if crate::text::eq_chars(&crate::text::chars_of(all[i].name), &target) {
            assert(verb_names(all@)[i as int] == name@);
            assert(rows_of(all@)[i as int] == (all@[i as int].name@, all@[i as int].question@, all@[i as int].usage@));
            assert(verb_views(all@)[i as int] == verb_view(all@[i as int]));
            return Some(all.remove(i));
        }
        i = i + 1;
    }
    proof {
        let ns = seq!["stat"@, "slice"@, "search"@];
        if ns.contains(name@) {
            let j = choose|j: int| 0 <= j < ns.len() && ns[j] == name@;
            assert(verb_names(all@)[j] == all@[j].name@);
        }
    }
    None
}

/// The verb names, comma-separated.
pub fn names() -> (r: String)
    ensures
        r@ == join(seq!["stat"@, "slice"@, "search"@], ", "@),
{
    crate::catalogue::names(&verbs())
}

/// Two lines per verb: its name and question, then its usage.
pub fn verb_lines() -> (r: Vec<String>)
    ensures
        str_views(r@) == row_line_pairs(peek_rows()),
{
    let vs = verbs();
    proof {
        lemma_line_pairs_rows(vs@);
    }
    crate::catalogue::verb_lines(&vs)
}

/// The help for the whole tool.
pub open spec fn peek_help_text() -> Seq<char> {
    help_all_rows_text(crate::peek::TOOL@, crate::peek::VERSION@, "read-only inspection of the working tree"@,
            "No git, no subprocess, no writes, no network, no environment configuration."@, peek_rows())
}

/// The help for the whole tool.
pub fn help_all() -> (r: String)
    ensures
        r@ == peek_help_text(),
{
    let t = tool();
    proof {
        lemma_help_all_rows(t);
    }
    crate::catalogue::help_all(&t)
}

/// The help for one verb.
pub fn help_for(verb: &Verb) -> (r: String)
    ensures
        r@ == help_for_view_text(crate::peek::TOOL@, verb_view(*verb)),
{
    let t = tool();
    proof {
        crate::catalogue::lemma_help_for_view(t, *verb);
    }
    crate::catalogue::help_for(&t, verb)
}

} // verus!
