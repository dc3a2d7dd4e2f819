//! `at-describe` — the toolkit's catalogue.
//!
//! It takes no path, opens no file, and reads nothing: it renders the same verb tables the
//! binaries' parsers enforce. It is what makes the other grants reviewable: an agent that is
//! unsure asks here instead of composing a shell pipeline to find out.

use vstd::prelude::*;
use vstd::string::StringExecFns;

use crate::catalogue::{exit_code_lines, exit_code_table, line_block, push_exit_codes, push_lines, verb_line_pairs};
use crate::text::{join, str_views};

verus! {

pub const TOOL: &'static str = "at-describe";

pub const VERSION: &'static str = "0.1.0";

/// The toolkit view, around the verb lines of each binary and the recipe lines.
pub open spec fn toolkit_text(peek: Seq<Seq<char>>, recall: Seq<Seq<char>>) -> Seq<char> {
    "# binaries in this build: at-peek, at-recall\n"@
        + "# every `at-` binary is read-only: no write path, in any flag or any option\n\n"@
        + crate::peek::TOOL@ + " "@ + crate::peek::VERSION@ + " — read-only inspection of the working tree\n"@
        + "# No git, no subprocess, no writes, no network, no environment configuration.\n"@
        + line_block(peek)
        + "\n"@ + crate::recall::TOOL@ + " "@ + crate::recall::VERSION@ + " — read-only inspection of history and the working tree\n"@
        + "# One subprocess, git, read verbs only. No writes, no network, no environment configuration, and never the reflog.\n"@
        + line_block(recall)
        + "\nRecipes\n"@ + line_block(crate::recall::catalogue::recipe_line_list())
        + "\nExit codes\n"@ + exit_code_lines(exit_code_table(), 4)
        + "\n# at-describe knows the binaries it is linked with; one installed separately\n"@
        + "# does not appear here. Ask for detail with `at-describe at-peek` or\n"@
        + "# `at-describe <verb>`.\n"@
}

/// The toolkit view of this build's two binaries.
pub open spec fn toolkit_view() -> Seq<char> {
    toolkit_text(crate::catalogue::row_line_pairs(crate::peek::catalogue::peek_rows()),
        crate::catalogue::row_line_pairs(crate::recall::catalogue::recall_rows()))
}

/// The words `at-describe` answers before it looks for a verb: help, its version, and the
/// binaries' names.
pub open spec fn answered_by_name(a: Seq<char>) -> bool {
    a == "-h"@ || a == "--help"@ || a == "--version"@ || a == crate::peek::TOOL@ || a == crate::recall::TOOL@
}

/// What `at-describe` prints with no argument or asked for help: its name, then the toolkit view.
pub open spec fn catalogue_text() -> Seq<char> {
    TOOL@ + " "@ + VERSION@ + " — the catalogue\n\n"@ + toolkit_view()
}

/// The toolkit view: what is in this build, what the namespace promises, and how to read an
/// exit code. Bounded to a screen, because its reader is mid-task.
pub fn toolkit() -> (r: String)
    ensures
        r@ == toolkit_view(),
{
    let mut out = String::from_str("# binaries in this build: at-peek, at-recall\n");
    out.append("# every `at-` binary is read-only: no write path, in any flag or any option\n\n");
    out.append(crate::peek::TOOL);
    out.append(" ");
    out.append(crate::peek::VERSION);
    out.append(" — read-only inspection of the working tree\n");
    out.append("# No git, no subprocess, no writes, no network, no environment configuration.\n");
    let peek_verbs = crate::peek::catalogue::verbs();
    let peek_lines = crate::catalogue::verb_lines(&peek_verbs);
    push_lines(&mut out, &peek_lines);
    out.append("\n");
    out.append(crate::recall::TOOL);
    out.append(" ");
    out.append(crate::recall::VERSION);
    out.append(" — read-only inspection of history and the working tree\n");
    out.append("# One subprocess, git, read verbs only. No writes, no network, no environment configuration, and never the reflog.\n");
    let recall_verbs = crate::recall::catalogue::verbs();
    let recall_lines = crate::catalogue::verb_lines(&recall_verbs);
    push_lines(&mut out, &recall_lines);
    out.append("\nRecipes\n");
    push_lines(&mut out, &crate::recall::catalogue::recipe_lines());
    out.append("\nExit codes\n");
    push_exit_codes(&mut out, 4);
    out.append("\n# at-describe knows the binaries it is linked with; one installed separately\n");
    out.append("# does not appear here. Ask for detail with `at-describe at-peek` or\n");
    out.append("# `at-describe <verb>`.\n");
    assert(out@ =~= toolkit_text(verb_line_pairs(peek_verbs@), verb_line_pairs(recall_verbs@)));
    proof {
        crate::catalogue::lemma_line_pairs_rows(peek_verbs@);
        crate::catalogue::lemma_line_pairs_rows(recall_verbs@);
    }
    out
}

/// What `at-describe` answers: its exit code, what it prints, and what it complains of.
pub struct Answer {
    pub code: i32,
    pub out: String,
    pub err: String,
}

/// The answer for the arguments after the binary name: the toolkit view with none, one binary's
/// help for its name, one verb's help for the verb's name whichever binary owns it, and a usage
/// error naming what is known for anything else.
pub fn describe(args: &Vec<String>) -> (r: Answer)
    ensures
        args@.len() == 0 || args@[0]@ == "-h"@ || args@[0]@ == "--help"@ ==> r.code == 0 && r.err@.len() == 0
            && r.out@ == catalogue_text(),
        args@.len() > 0 && args@[0]@ == "--version"@ ==> r.out@ == TOOL@ + " "@ + VERSION@ + " · at-peek "@
            + crate::peek::VERSION@ + " · at-recall "@ + crate::recall::VERSION@ + "\n"@,
        args@.len() > 0 && args@[0]@ == crate::peek::TOOL@ ==> r.out@ == crate::peek::catalogue::peek_help_text(),
        args@.len() > 0 && args@[0]@ == crate::recall::TOOL@ ==> r.out@ == crate::recall::catalogue::recall_help_text(),
        args@.len() > 0 && (args@[0]@ == "-h"@ || args@[0]@ == "--help"@ || args@[0]@ == "--version"@
            || args@[0]@ == crate::peek::TOOL@ || args@[0]@ == crate::recall::TOOL@) ==> r.code == 0,
        args@.len() > 0 && !answered_by_name(args@[0]@) && seq!["stat"@, "slice"@, "search"@].contains(args@[0]@)
            ==> r.code == 0 && exists|k: int| 0 <= k < crate::peek::catalogue::peek_table().len()
                && #[trigger] crate::peek::catalogue::peek_table()[k].0 == args@[0]@
                && r.out@ == crate::catalogue::help_for_view_text(crate::peek::TOOL@, crate::peek::catalogue::peek_table()[k]),
        args@.len() > 0 && !answered_by_name(args@[0]@) && !seq!["stat"@, "slice"@, "search"@].contains(args@[0]@)
            && crate::recall::catalogue::recall_verb_names().contains(args@[0]@) ==> r.code == 0
            && exists|k: int| 0 <= k < crate::recall::catalogue::recall_table().len()
                && #[trigger] crate::recall::catalogue::recall_table()[k].0 == args@[0]@
                && r.out@ == crate::catalogue::help_for_view_text(crate::recall::TOOL@, crate::recall::catalogue::recall_table()[k]),
        args@.len() > 0 && crate::recall::catalogue::recall_verb_names().contains(args@[0]@) ==> r.code == 0,
        r.code == 2 ==> args@.len() > 0 && r.out@.len() == 0 && r.err@ == TOOL@ + ": unknown `"@ + args@[0]@
            + "` · binaries: at-peek, at-recall · verbs: "@ + join(seq!["stat"@, "slice"@, "search"@], ", "@) + ", "@
            + join(crate::recall::catalogue::recall_verb_names(), ", "@),
        r.code == 0 || r.code == 2,
        r.code == 2 <==> (args@.len() > 0 && !(args@[0]@ == "-h"@ || args@[0]@ == "--help"@ || args@[0]@ == "--version"@
            || args@[0]@ == crate::peek::TOOL@ || args@[0]@ == crate::recall::TOOL@)
            && !seq!["stat"@, "slice"@, "search"@].contains(args@[0]@)
            && !crate::recall::catalogue::recall_verb_names().contains(args@[0]@)),
{
    proof {
        reveal_strlit("-h");
        reveal_strlit("--help");
        reveal_strlit("--version");
        reveal_strlit("at-peek");
        reveal_strlit("at-recall");
        assert("-h"@.len() == 2 && "--help"@.len() == 6 && "--version"@.len() == 9);
        assert("at-peek"@.len() == 7 && "at-recall"@.len() == 9);
        assert("--version"@[0] != "at-recall"@[0]);
    }
    if args.len() == 0 {
        let mut out = String::from_str(TOOL);
        out.append(" ");
        out.append(VERSION);
        out.append(" — the catalogue\n\n");
        out.append(toolkit().as_str());
        return Answer { code: 0, out, err: String::new() };
    }
    let first = crate::text::chars_of(args[0].as_str());
    let is = |w: &str| -> (b: bool)
        ensures b == (first@ == w@),
    {
        crate::text::eq_chars(&first, &crate::text::chars_of(w))
    };
    if is("-h") || is("--help") {
        let mut out = String::from_str(TOOL);
        out.append(" ");
        out.append(VERSION);
        out.append(" — the catalogue\n\n");
        out.append(toolkit().as_str());
        return Answer { code: 0, out, err: String::new() };
    }
    if is("--version") {
        let mut out = String::from_str(TOOL);
        out.append(" ");
        out.append(VERSION);
        out.append(" · at-peek ");
        out.append(crate::peek::VERSION);
        out.append(" · at-recall ");
        out.append(crate::recall::VERSION);
        out.append("\n");
        return Answer { code: 0, out, err: String::new() };
    }
    if is(crate::peek::TOOL) {
        return Answer { code: 0, out: crate::peek::catalogue::help_all(), err: String::new() };
    }
    if is(crate::recall::TOOL) {
        return Answer { code: 0, out: crate::recall::catalogue::help_all(), err: String::new() };
    }
    match crate::peek::catalogue::find(args[0].as_str()) {
        Some(verb) => {
            let out = crate::peek::catalogue::help_for(&verb);
            proof {
                let t = crate::peek::catalogue::peek_table();
                let k = choose|k: int| 0 <= k < t.len() && t[k] == crate::catalogue::verb_view(verb);
                assert(t[k].0 == args@[0]@);
            }
            return Answer { code: 0, out, err: String::new() };
        },
        None => {},
    }
    match crate::recall::catalogue::find(args[0].as_str()) {
        Some(verb) => {
            let out = crate::recall::catalogue::help_for(&verb);
            proof {
                let t = crate::recall::catalogue::recall_table();
                let k = choose|k: int| 0 <= k < t.len() && t[k] == crate::catalogue::verb_view(verb);
                assert(t[k].0 == args@[0]@);
            }
            return Answer { code: 0, out, err: String::new() };
        },
        None => {},
    }
    let mut err = String::from_str(TOOL);
    err.append(": unknown `");
    err.append(args[0].as_str());
    err.append("` · binaries: at-peek, at-recall · verbs: ");
    err.append(crate::peek::catalogue::names().as_str());
    err.append(", ");
    err.append(crate::recall::catalogue::names().as_str());
    Answer { code: 2, out: String::new(), err }
}

} // verus!
