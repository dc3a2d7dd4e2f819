//! `at-peek`'s grammar: the same closed grammar as `at-recall`'s, read against `at-peek`'s own
//! verb table, and the ceiling on how many files a walk considers.

use vstd::prelude::*;
use vstd::string::StringExecFns;

use crate::catalogue::Verb;
use crate::contract::{Exit, Fail, DEFAULT_MAX_FILES, MAX_FILES};
use crate::peek::catalogue::{find, help_all, help_for, names};
use crate::recall::cli::{parse, parse_of, parsed_view, Parsed, ParsedView, Step};
use crate::text::{chars_of, join, str_views, unsigned_of};

verus! {

/// The verbs `at-peek` answers.
pub open spec fn peek_verb_names() -> Seq<Seq<char>> {
    seq!["stat"@, "slice"@, "search"@]
}

/// The words that ask for the tool's help rather than name a verb.
pub open spec fn asks_help(a: Seq<char>) -> bool {
    a == "-h"@ || a == "--help"@
}

/// The first argument is one the tool answers itself.
pub open spec fn is_meta(a: Seq<char>) -> bool {
    asks_help(a) || a == "help"@ || a == "--version"@
}

pub open spec fn unknown_message(name: Seq<char>) -> Seq<char> {
    "unknown verb `"@ + name + "` · verbs: "@ + join(peek_verb_names(), ", "@) + if name.len() > 0 && name[0] == '-' {
        " · flags come after the verb, e.g. `"@ + crate::peek::TOOL@ + " diff --patch`"@
    } else {
        seq![]
    }
}

pub open spec fn prints_help_all(r: Result<Step, Fail>) -> bool {
    match r {
        Ok(Step::Print(s)) => s@ == crate::peek::catalogue::peek_help_text(),
        _ => false,
    }
}

pub open spec fn prints_help_for(r: Result<Step, Fail>, name: Seq<char>) -> bool {
    match r {
        Ok(Step::Print(s)) => exists|k: int| 0 <= k < crate::peek::catalogue::peek_table().len() && #[trigger] crate::peek::catalogue::peek_table()[k].0 == name
            && s@ == crate::catalogue::help_for_view_text(crate::peek::TOOL@, crate::peek::catalogue::peek_table()[k]),
        _ => false,
    }
}

pub open spec fn fails_usage(r: Result<Step, Fail>, message: Seq<char>) -> bool {
    match r {
        Err(f) => f.exit == Exit::Usage && f.message@ == message,
        _ => false,
    }
}

pub open spec fn has_flag(p: ParsedView, name: Seq<char>) -> bool {
    exists|i: int| 0 <= i < p.1.len() && (#[trigger] p.1[i]).0 == name
}

/// A verb's arguments read: its help when asked for, else the verb to run, else the parser's refusal.
pub open spec fn verb_step(r: Result<Step, Fail>, name: Seq<char>, args: Seq<Seq<char>>) -> bool {
    match r {
        Ok(Step::Run(v, p)) => v.name@ == name && crate::peek::catalogue::peek_table().contains(crate::catalogue::verb_view(v))
            && parse_of(crate::peek::TOOL@, v, args) == Ok::<ParsedView, Seq<char>>(parsed_view(p))
            && !has_flag(parsed_view(p), "--help"@),
        Ok(Step::Print(s)) => exists|v: Verb, pv: ParsedView| #![auto] v.name@ == name
            && crate::peek::catalogue::peek_table().contains(crate::catalogue::verb_view(v))
            && parse_of(crate::peek::TOOL@, v, args) == Ok::<ParsedView, Seq<char>>(pv) && has_flag(pv, "--help"@)
            && s@ == crate::catalogue::help_for_view_text(crate::peek::TOOL@, crate::catalogue::verb_view(v)),
        Err(f) => f.exit == Exit::Usage && exists|v: Verb| #![auto] v.name@ == name
            && crate::peek::catalogue::peek_table().contains(crate::catalogue::verb_view(v))
            && parse_of(crate::peek::TOOL@, v, args) == Err::<ParsedView, Seq<char>>(f.message@),
    }
}

/// Route one invocation: the tool's own help and version, a verb's help, or a verb to run. An
/// unknown verb, or an argument the verb's grammar refuses, is a usage error naming it.
pub fn dispatch(args: &Vec<String>) -> (r: Result<Step, Fail>)
    ensures
        args@.len() == 0 || asks_help(args@[0]@) || (args@[0]@ == "help"@ && args@.len() == 1) ==> prints_help_all(r),
        args@.len() > 0 && args@[0]@ == "--version"@ ==> (match r {
            Ok(Step::Print(s)) => s@ == crate::peek::TOOL@ + " "@ + crate::peek::VERSION@ + "\n"@,
            _ => false,
        }),
        args@.len() > 1 && args@[0]@ == "help"@ ==> if peek_verb_names().contains(args@[1]@) {
            prints_help_for(r, args@[1]@)
        } else {
            fails_usage(r, unknown_message(args@[1]@))
        },
        args@.len() > 0 && !is_meta(args@[0]@) && !peek_verb_names().contains(args@[0]@) ==> fails_usage(r, unknown_message(args@[0]@)),
        args@.len() > 0 && !is_meta(args@[0]@) && peek_verb_names().contains(args@[0]@)
            ==> verb_step(r, args@[0]@, str_views(args@.drop_first())),
{
    proof {
        reveal_strlit("-h");
        reveal_strlit("--help");
        reveal_strlit("help");
        reveal_strlit("--version");
        assert("-h"@.len() == 2 && "--help"@.len() == 6 && "help"@.len() == 4 && "--version"@.len() == 9);
        assert("--help"@ != "help"@) by { assert("--help"@[0] != "help"@[0]); }
    }
    if args.len() == 0 {
        return Ok(Step::Print(help_all()));
    }
    let first = chars_of(args[0].as_str());
    if crate::text::eq_chars(&first, &chars_of("-h")) || crate::text::eq_chars(&first, &chars_of("--help")) {
        return Ok(Step::Print(help_all()));
    }
    if crate::text::eq_chars(&first, &chars_of("help")) {
        if args.len() == 1 {
            return Ok(Step::Print(help_all()));
        }
        return match find(args[1].as_str()) {
            Some(v) => {
                let text = help_for(&v);
                proof {
                    let k = choose|k: int| 0 <= k < crate::peek::catalogue::peek_table().len() && crate::peek::catalogue::peek_table()[k] == crate::catalogue::verb_view(v);
                    assert(crate::peek::catalogue::peek_table()[k].0 == args@[1]@);
                }
                Ok(Step::Print(text))
            },
            None => Err(crate::recall::cli::unknown(crate::peek::TOOL, args[1].as_str(), names().as_str())),
        };
    }
    if crate::text::eq_chars(&first, &chars_of("--version")) {
        let mut s = String::from_str(crate::peek::TOOL);
        s.append(" ");
        s.append(crate::peek::VERSION);
        s.append("\n");
        return Ok(Step::Print(s));
    }
    let verb = match find(args[0].as_str()) {
        Some(v) => v,
        None => return Err(crate::recall::cli::unknown(crate::peek::TOOL, args[0].as_str(), names().as_str())),
    };
    let mut rest: Vec<String> = Vec::new();
    let mut i: usize = 1;
    while i < args.len()
        invariant
            1 <= i <= args@.len(),
            str_views(rest@) == str_views(args@.subrange(1, i as int)),
        decreases args.len() - i,
    {
        let ghost before = rest@;
        rest.push(args[i].clone());
        assert(args@.subrange(1, i + 1) =~= args@.subrange(1, i as int).push(args@[i as int]));
        assert(str_views(rest@) =~= str_views(before).push(args@[i as int]@));
        i = i + 1;
    }
    assert(args@.subrange(1, args@.len() as int) =~= args@.drop_first());
    let parsed = parse(crate::peek::TOOL, &verb, &rest)?;
    proof {
        crate::recall::cli::lemma_flag_views(parsed.flags@);
    }
    if parsed.has("--help") {
        let s = help_for(&verb);
        proof {
            let i = choose|i: int| 0 <= i < parsed.flags@.len() && (#[trigger] parsed.flags@[i]).0@ == "--help"@;
            assert(parsed_view(parsed).1[i].0 == "--help"@);
            let pv = parsed_view(parsed);
            assert(verb.name@ == args@[0]@ && crate::peek::catalogue::peek_table().contains(crate::catalogue::verb_view(verb))
                && parse_of(crate::peek::TOOL@, verb, str_views(args@.drop_first()))
                == Ok::<ParsedView, Seq<char>>(pv) && has_flag(pv, "--help"@));
        }
        return Ok(Step::Print(s));
    }
    assert(!has_flag(parsed_view(parsed), "--help"@)) by {
        if has_flag(parsed_view(parsed), "--help"@) {
            let i = choose|i: int| 0 <= i < parsed_view(parsed).1.len() && (#[trigger] parsed_view(parsed).1[i]).0 == "--help"@;
            assert(parsed.flags@[i].0@ == "--help"@);
        }
    }
    Ok(Step::Run(verb, parsed))
}


/// What `--max-files` asks for: the ceiling on a walk, and what was asked when it was clamped.
pub open spec fn max_files_of(raw: Option<Seq<char>>) -> Result<(nat, Option<nat>), Seq<char>> {
    match raw {
        None => Ok((DEFAULT_MAX_FILES as nat, None)),
        Some(r) => match unsigned_of(r) {
            Some(asked) => if asked > usize::MAX {
                Err("--max-files "@ + r + " is not a number"@)
            } else if asked == 0 {
                Err("--max-files 0 considers no file · the smallest useful ceiling is 1"@)
            } else if asked > MAX_FILES {
                Ok((MAX_FILES as nat, Some(asked)))
            } else {
                Ok((asked, None))
            },
            None => Err("--max-files "@ + r + " is not a number"@),
        },
    }
}

pub fn max_files(raw: Option<&str>) -> (r: Result<(usize, Option<usize>), Fail>)
    ensures
        match r {
            Ok((n, clamped)) => max_files_of(match raw { Some(s) => Some(s@), None => None })
                == Ok::<(nat, Option<nat>), Seq<char>>((n as nat, match clamped { Some(a) => Some(a as nat), None => None })),
            Err(f) => f.exit == Exit::Usage && max_files_of(match raw { Some(s) => Some(s@), None => None })
                == Err::<(nat, Option<nat>), Seq<char>>(f.message@),
        },
{
    match raw {
        None => Ok((DEFAULT_MAX_FILES, None)),
        Some(r) => match crate::text::parse_usize(&chars_of(r)) {
            Some(asked) => if asked == 0 {
                Err(Fail::usage(String::from_str("--max-files 0 considers no file · the smallest useful ceiling is 1")))
            } else if asked > MAX_FILES {
                Ok((MAX_FILES, Some(asked)))
            } else {
                Ok((asked, None))
            },
            None => {
                let mut m = String::from_str("--max-files ");
                m.append(r);
                m.append(" is not a number");
                Err(Fail::usage(m))
            },
        },
    }
}


/// The options a verb runs with, from what the parser found and the root: the limit and the
/// ceiling on a walk, each with its clamp, and whether secret-shaped paths may be read.
pub fn context(parsed: &Parsed, root: crate::peek::paths::Root) -> (r: Result<crate::peek::verbs::Opts, Fail>)
    ensures
        match r {
            Ok(o) => crate::recall::cli::limits_of(crate::recall::cli::value_of(parsed_view(*parsed), "--limit"@))
                    == Ok::<(nat, Option<nat>), Seq<char>>((o.limit as nat, match o.limit_clamped_from { Some(a) => Some(a as nat), None => None }))
                && max_files_of(crate::recall::cli::value_of(parsed_view(*parsed), "--max-files"@))
                    == Ok::<(nat, Option<nat>), Seq<char>>((o.max_files as nat, match o.max_files_clamped_from { Some(a) => Some(a as nat), None => None }))
                && o.root == root
                && o.include_secret_paths == has_flag(parsed_view(*parsed), "--include-secret-paths"@),
            Err(f) => f.exit == Exit::Usage && (
                crate::recall::cli::limits_of(crate::recall::cli::value_of(parsed_view(*parsed), "--limit"@))
                    == Err::<(nat, Option<nat>), Seq<char>>(f.message@)
                || (crate::recall::cli::limits_of(crate::recall::cli::value_of(parsed_view(*parsed), "--limit"@)) is Ok
                    && max_files_of(crate::recall::cli::value_of(parsed_view(*parsed), "--max-files"@))
                        == Err::<(nat, Option<nat>), Seq<char>>(f.message@))),
        },
{
    proof {
        crate::recall::cli::lemma_flag_views(parsed.flags@);
    }
    let (limit, limit_clamped_from) = crate::recall::cli::limits(parsed.value("--limit"))?;
    let (max_files, max_files_clamped_from) = max_files(parsed.value("--max-files"))?;
    let include_secret_paths = parsed.has("--include-secret-paths");
    proof {
        let pv = parsed_view(*parsed);
        if include_secret_paths {
            let i = choose|i: int| 0 <= i < parsed.flags@.len() && (#[trigger] parsed.flags@[i]).0@ == "--include-secret-paths"@;
            assert(pv.1[i].0 == "--include-secret-paths"@);
        }
        if has_flag(pv, "--include-secret-paths"@) {
            let i = choose|i: int| 0 <= i < pv.1.len() && (#[trigger] pv.1[i]).0 == "--include-secret-paths"@;
            assert(parsed.flags@[i].0@ == "--include-secret-paths"@);
        }
    }
    Ok(crate::peek::verbs::Opts { root, limit, limit_clamped_from, max_files, max_files_clamped_from, include_secret_paths })
}

} // verus!
