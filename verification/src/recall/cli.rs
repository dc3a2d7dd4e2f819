//! Argument parsing: a closed grammar.
//!
//! The set of flags a verb accepts is read from the catalogue rather than written out here, so the
//! parser and the catalogue cannot drift: a flag that is not in the table is a usage error naming
//! it, and nothing is forwarded anywhere else. There is no `--` pass-through, so an approval over
//! this grammar is a complete description of what the tool can be asked to do.

use vstd::prelude::*;
use vstd::string::StringExecFns;

use crate::catalogue::{flag_names, flag_names_of, Flag, Verb};
use crate::recall::catalogue::{find, help_all, help_for, names, recall_verb_names};
use crate::contract::{Exit, Fail, DEFAULT_LIMIT, MAX_LIMIT};
use crate::text::{chars_of, decimal, join, split_once, split_once_exec, str_views, string_of, unsigned_of};

verus! {

/// What the parser found: the positionals in order, and each flag with its value.
pub struct Parsed {
    pub positionals: Vec<String>,
    pub flags: Vec<(&'static str, Option<String>)>,
}

/// A parse as plain values.
pub type ParsedView = (Seq<Seq<char>>, Seq<(Seq<char>, Option<Seq<char>>)>);

pub open spec fn flag_views(v: Seq<(&'static str, Option<String>)>) -> Seq<(Seq<char>, Option<Seq<char>>)>
    decreases v.len(),
{
    if v.len() == 0 {
        seq![]
    } else {
        flag_views(v.drop_last()).push((v.last().0@, match v.last().1 { Some(s) => Some(s@), None => None }))
    }
}

pub open spec fn parsed_view(p: Parsed) -> ParsedView {
    (str_views(p.positionals@), flag_views(p.flags@))
}

/// The first flag of the verb with this name.
pub open spec fn flag_named(flags: Seq<Flag>, name: Seq<char>) -> Option<Flag>
    decreases flags.len(),
{
    if flags.len() == 0 {
        None
    } else if flags[0].name@ == name {
        Some(flags[0])
    } else {
        flag_named(flags.drop_first(), name)
    }
}

/// The messages of the grammar's refusals.
pub open spec fn unknown_flag_message(arg: Seq<char>, verb: Verb) -> Seq<char> {
    "unknown flag `"@ + arg + "` for `"@ + verb.name@ + "` · flags: "@ + join(flag_names_of(verb.flags@).push("-h"@), ", "@)
}

/// One argument read: what it adds, and where the next one starts.
pub open spec fn parse_step(tool: Seq<char>, verb: Verb, args: Seq<Seq<char>>, i: int, acc: ParsedView)
    -> Result<(ParsedView, int), Seq<char>> {
    let arg = args[i];
    if arg.len() > 0 && arg[0] == '-' {
        if arg.len() == 1 {
            Err("`-` means stdin, which "@ + tool + " does not read · pass a path"@)
        } else {
            let (name, inline) = match split_once(arg, "="@) {
                Some((n, v)) => (n, Some(v)),
                None => (arg, None),
            };
            let name = if name == "-h"@ { "--help"@ } else { name };
            match flag_named(verb.flags@, name) {
                None => Err(unknown_flag_message(arg, verb)),
                Some(flag) => if flag.takes_value {
                    match inline {
                        Some(v) => Ok(((acc.0, acc.1.push((flag.name@, Some(v)))), i + 1)),
                        None => if i + 1 < args.len() {
                            Ok(((acc.0, acc.1.push((flag.name@, Some(args[i + 1])))), i + 2))
                        } else {
                            Err("`"@ + flag.name@ + "` needs a value"@)
                        },
                    }
                } else if inline is Some {
                    Err("`"@ + flag.name@ + "` takes no value"@)
                } else {
                    Ok(((acc.0, acc.1.push((flag.name@, None))), i + 1))
                },
            }
        }
    } else {
        Ok(((acc.0.push(arg), acc.1), i + 1))
    }
}

/// The arguments from `i` on, read into the parse.
pub open spec fn parse_from(tool: Seq<char>, verb: Verb, args: Seq<Seq<char>>, i: int, acc: ParsedView) -> Result<ParsedView, Seq<char>>
    decreases args.len() - i,
{
    if i < 0 || i >= args.len() {
        Ok(acc)
    } else {
        match parse_step(tool, verb, args, i, acc) {
            Err(e) => Err(e),
            Ok((next, j)) => if j <= i { Ok(next) } else { parse_from(tool, verb, args, j, next) },
        }
    }
}

pub open spec fn parse_of(tool: Seq<char>, verb: Verb, args: Seq<Seq<char>>) -> Result<ParsedView, Seq<char>> {
    parse_from(tool, verb, args, 0, (seq![], seq![]))
}

/// Every flag in a parse is one of the verb's table.
pub open spec fn catalogued(verb: Verb, fs: Seq<(Seq<char>, Option<Seq<char>>)>) -> bool {
    forall|i: int| 0 <= i < fs.len() ==> flag_names_of(verb.flags@).contains(#[trigger] fs[i].0)
}

proof fn lemma_flag_named(flags: Seq<Flag>, name: Seq<char>)
    ensures
        flag_named(flags, name) matches Some(f) ==> f.name@ == name && flag_names_of(flags).contains(f.name@),
    decreases flags.len(),
{
    if flags.len() > 0 {
        if flags[0].name@ == name {
            assert(flag_names_of(flags)[0] == flags[0].name@);
        } else {
            lemma_flag_named(flags.drop_first(), name);
            if let Some(f) = flag_named(flags, name) {
                let k = choose|k: int| 0 <= k < flag_names_of(flags.drop_first()).len()
                    && flag_names_of(flags.drop_first())[k] == f.name@;
                assert(flag_names_of(flags)[k + 1] == flag_names_of(flags.drop_first())[k]);
            }
        }
    }
}

proof fn lemma_parse_from_catalogued(tool: Seq<char>, verb: Verb, args: Seq<Seq<char>>, i: int, acc: ParsedView)
    requires
        catalogued(verb, acc.1),
    ensures
        parse_from(tool, verb, args, i, acc) matches Ok(pv) ==> catalogued(verb, pv.1),
    decreases args.len() - i,
{
    if 0 <= i < args.len() {
        let arg = args[i];
        if arg.len() > 1 && arg[0] == '-' {
            let (name, inline) = match split_once(arg, "="@) {
                Some((n, v)) => (n, Some(v)),
                None => (arg, None),
            };
            let name = if name == "-h"@ { "--help"@ } else { name };
            lemma_flag_named(verb.flags@, name);
        }
        match parse_step(tool, verb, args, i, acc) {
            Err(_) => {},
            Ok((next, j)) => {
                assert(catalogued(verb, next.1)) by {
                    assert forall|k: int| 0 <= k < next.1.len() implies flag_names_of(verb.flags@).contains(#[trigger] next.1[k].0) by {
                        if k < acc.1.len() {
                            assert(next.1[k] == acc.1[k]);
                        }
                    }
                }
                if j > i {
                    lemma_parse_from_catalogued(tool, verb, args, j, next);
                }
            },
        }
    }
}

/// A closed grammar: every flag a parse reports is one the verb's table lists, so the table the
/// help renders is the whole of what the tool can be asked.
pub proof fn law_a_parse_reports_only_catalogued_flags(tool: Seq<char>, verb: Verb, args: Seq<Seq<char>>)
    ensures
        parse_of(tool, verb, args) matches Ok(pv) ==> catalogued(verb, pv.1),
{
    lemma_parse_from_catalogued(tool, verb, args, 0, (seq![], seq![]));
}

fn find_flag(verb: &Verb, name: &Vec<char>) -> (r: Option<Flag>)
    ensures
        r == flag_named(verb.flags@, name@),
{
    let mut i: usize = 0;
    assert(verb.flags@.skip(0) =~= verb.flags@);
    while i < verb.flags.len()
        invariant
            i <= verb.flags@.len(),
            flag_named(verb.flags@, name@) == flag_named(verb.flags@.skip(i as int), name@),
        decreases verb.flags.len() - i,
    {
        assert(verb.flags@.skip(i as int)[0] == verb.flags@[i as int]);
        if crate::text::eq_chars(&chars_of(verb.flags[i].name), name) {
            let f = &verb.flags[i];
            return Some(Flag { name: f.name, takes_value: f.takes_value, value: f.value, one_line: f.one_line });
        }
        assert(verb.flags@.skip(i as int).drop_first() =~= verb.flags@.skip(i + 1));
        i = i + 1;
    }
    None
}

fn push_flag(flags: &mut Vec<(&'static str, Option<String>)>, name: &'static str, value: Option<String>)
    ensures
        flag_views(final(flags)@) == flag_views(old(flags)@).push((name@, match value { Some(s) => Some(s@), None => None })),
{
    let ghost before = flags@;
    flags.push((name, value));
    assert(flags@.drop_last() =~= before);
}

/// Read the arguments after the verb against the verb's flag table.
#[verifier::rlimit(40)]
pub fn parse(tool: &str, verb: &Verb, args: &Vec<String>) -> (r: Result<Parsed, Fail>)
    ensures
        match r {
            Ok(p) => parse_of(tool@, *verb, str_views(args@)) == Ok::<ParsedView, Seq<char>>(parsed_view(p)),
            Err(f) => f.exit == Exit::Usage && parse_of(tool@, *verb, str_views(args@)) == Err::<ParsedView, Seq<char>>(f.message@),
        },
{
    let ghost av = str_views(args@);
    let mut parsed = Parsed { positionals: Vec::new(), flags: Vec::new() };
    assert(parsed_view(parsed) =~= (Seq::<Seq<char>>::empty(), Seq::<(Seq<char>, Option<Seq<char>>)>::empty()));
    let mut index: usize = 0;
    while index < args.len()
        invariant
            index <= args@.len(),
            av == str_views(args@),
            parse_of(tool@, *verb, av) == parse_from(tool@, *verb, av, index as int, parsed_view(parsed)),
        decreases args.len() - index,
    {
        let ghost acc = parsed_view(parsed);
        let arg = chars_of(args[index].as_str());
        assert(arg@ == av[index as int]);
        if arg.len() > 0 && arg[0] == '-' {
            if arg.len() == 1 {
                let mut m = String::from_str("`-` means stdin, which ");
                m.append(tool);
                m.append(" does not read · pass a path");
                return Err(Fail::usage(m));
            }
            let (name, inline) = match split_once_exec(&arg, &chars_of("=")) {
                Some((n, v)) => (n, Some(string_of(&v))),
                None => (crate::text::slice_of(&arg, 0, arg.len()), None),
            };
            assert(arg@.subrange(0, arg@.len() as int) =~= arg@);
            let name = if crate::text::eq_chars(&name, &chars_of("-h")) { chars_of("--help") } else { name };
            let flag = match find_flag(verb, &name) {
                Some(f) => f,
                None => {
                    let mut m = String::from_str("unknown flag `");
                    m.append(args[index].as_str());
                    m.append("` for `");
                    m.append(verb.name);
                    m.append("` · flags: ");
                    m.append(flag_names(verb).as_str());
                    return Err(Fail::usage(m));
                },
            };
            if flag.takes_value {
                match inline {
                    Some(v) => {
                        push_flag(&mut parsed.flags, flag.name, Some(v));
                        index = index + 1;
                    },
                    None => {
                        if index + 1 < args.len() {
                            push_flag(&mut parsed.flags, flag.name, Some(args[index + 1].clone()));
                            index = index + 2;
                        } else {
                            let mut m = String::from_str("`");
                            m.append(flag.name);
                            m.append("` needs a value");
                            return Err(Fail::usage(m));
                        }
                    },
                }
            } else {
                if inline.is_some() {
                    let mut m = String::from_str("`");
                    m.append(flag.name);
                    m.append("` takes no value");
                    return Err(Fail::usage(m));
                }
                push_flag(&mut parsed.flags, flag.name, None);
                index = index + 1;
            }
        } else {
            let ghost before = parsed.positionals@;
            parsed.positionals.push(args[index].clone());
            assert(str_views(parsed.positionals@) =~= str_views(before).push(av[index as int]));
            index = index + 1;
        }
    }
    Ok(parsed)
}

impl Parsed {
    pub fn has(&self, name: &str) -> (r: bool)
        ensures
            r == exists|i: int| 0 <= i < self.flags@.len() && (#[trigger] self.flags@[i]).0@ == name@,
    {
        let mut i: usize = 0;
        while i < self.flags.len()
            invariant
                i <= self.flags@.len(),
                forall|k: int| 0 <= k < i ==> (#[trigger] self.flags@[k]).0@ != name@,
            decreases self.flags.len() - i,
        {
            if crate::text::eq_chars(&chars_of(self.flags[i].0), &chars_of(name)) {
                return true;
            }
            i = i + 1;
        }
        false
    }

    /// The value of the first flag with this name, when it took one.
    pub fn value(&self, name: &str) -> (r: Option<&str>)
        ensures
            (match r { Some(v) => Some(v@), None => None }) == first_value(flag_views(self.flags@), name@),
    {
        proof {
            lemma_flag_views(self.flags@);
        }
        let ghost fv = flag_views(self.flags@);
        let mut i: usize = 0;
        assert(fv.skip(0) =~= fv);
        while i < self.flags.len()
            invariant
                i <= self.flags@.len(),
                fv == flag_views(self.flags@),
                fv.len() == self.flags@.len(),
                forall|k: int| 0 <= k < self.flags@.len() ==> (#[trigger] fv[k]).0 == self.flags@[k].0@
                    && fv[k].1 == (match self.flags@[k].1 { Some(s) => Some(s@), None => None }),
                first_value(fv, name@) == first_value(fv.skip(i as int), name@),
            decreases self.flags.len() - i,
        {
            assert(fv.skip(i as int)[0] == fv[i as int]);
            if crate::text::eq_chars(&chars_of(self.flags[i].0), &chars_of(name)) {
                return match &self.flags[i].1 {
                    Some(s) => Some(s.as_str()),
                    None => None,
                };
            }
            assert(fv.skip(i as int).drop_first() =~= fv.skip(i + 1));
            i = i + 1;
        }
        None
    }
}

/// The value of the first flag with this name.
pub open spec fn first_value(flags: Seq<(Seq<char>, Option<Seq<char>>)>, name: Seq<char>) -> Option<Seq<char>>
    decreases flags.len(),
{
    if flags.len() == 0 {
        None
    } else if flags[0].0 == name {
        flags[0].1
    } else {
        first_value(flags.drop_first(), name)
    }
}

pub proof fn lemma_flag_views(v: Seq<(&'static str, Option<String>)>)
    ensures
        flag_views(v).len() == v.len(),
        forall|k: int| 0 <= k < v.len() ==> (#[trigger] flag_views(v)[k]).0 == v[k].0@
            && flag_views(v)[k].1 == (match v[k].1 { Some(s) => Some(s@), None => None }),
    decreases v.len(),
{
    if v.len() > 0 {
        lemma_flag_views(v.drop_last());
        assert forall|k: int| 0 <= k < v.len() implies (#[trigger] flag_views(v)[k]).0 == v[k].0@
            && flag_views(v)[k].1 == (match v[k].1 { Some(s) => Some(s@), None => None }) by {
            if k < v.len() - 1 {
                assert(flag_views(v.drop_last())[k].0 == v.drop_last()[k].0@);
            }
        }
    }
}

/// A verb that is not in the table, with a hint when it looks like a flag put before the verb.
pub fn unknown(tool: &str, name: &str, names: &str) -> (f: Fail)
    ensures
        f.exit == Exit::Usage,
        f.message@ == "unknown verb `"@ + name@ + "` · verbs: "@ + names@ + if name@.len() > 0 && name@[0] == '-' {
            " · flags come after the verb, e.g. `"@ + tool@ + " diff --patch`"@
        } else {
            seq![]
        },
{
    let mut m = String::from_str("unknown verb `");
    m.append(name);
    m.append("` · verbs: ");
    m.append(names);
    let v = chars_of(name);
    if v.len() > 0 && v[0] == '-' {
        m.append(" · flags come after the verb, e.g. `");
        m.append(tool);
        m.append(" diff --patch`");
    }
    Fail::usage(m)
}

/// What `--limit` asks for: the limit, and what was asked when it was clamped.
pub open spec fn limits_of(raw: Option<Seq<char>>) -> Result<(nat, Option<nat>), Seq<char>> {
    match raw {
        None => Ok((DEFAULT_LIMIT as nat, None)),
        Some(r) => match unsigned_of(r) {
            Some(asked) => if asked > usize::MAX {
                Err("--limit "@ + r + " is not a number"@)
            } else if asked == 0 {
                Err("--limit 0 asks for no output · the smallest useful limit is 1"@)
            } else if asked > MAX_LIMIT {
                Ok((MAX_LIMIT as nat, Some(asked)))
            } else {
                Ok((asked, None))
            },
            None => Err("--limit "@ + r + " is not a number"@),
        },
    }
}

pub fn limits(raw: Option<&str>) -> (r: Result<(usize, Option<usize>), Fail>)
    ensures
        match r {
            Ok((limit, clamped)) => limits_of(match raw { Some(s) => Some(s@), None => None })
                == Ok::<(nat, Option<nat>), Seq<char>>((limit as nat, match clamped { Some(a) => Some(a as nat), None => None })),
            Err(f) => f.exit == Exit::Usage && limits_of(match raw { Some(s) => Some(s@), None => None })
                == Err::<(nat, Option<nat>), Seq<char>>(f.message@),
        },
{
    match raw {
        None => Ok((DEFAULT_LIMIT, None)),
        Some(r) => match crate::text::parse_usize(&chars_of(r)) {
            Some(asked) => if asked == 0 {
                Err(Fail::usage(String::from_str("--limit 0 asks for no output · the smallest useful limit is 1")))
            } else if asked > MAX_LIMIT {
                Ok((MAX_LIMIT, Some(asked)))
            } else {
                Ok((asked, None))
            },
            None => {
                let mut m = String::from_str("--limit ");
                m.append(r);
                m.append(" is not a number");
                Err(Fail::usage(m))
            },
        },
    }
}

/// `state` answers for the whole worktree and takes no path.
pub fn no_path(usage: &str) -> (f: Fail)
    ensures
        f.exit == Exit::Usage,
        f.message@ == "`state` answers for the whole worktree and takes no path · "@ + usage@,
{
    let mut m = String::from_str("`state` answers for the whole worktree and takes no path · ");
    m.append(usage);
    Fail::usage(m)
}

/// A directory that is not a worktree: one clear sentence instead of four of git's.
pub fn not_a_worktree(dir: &str) -> (f: Fail)
    ensures
        f.exit == Exit::Environment,
        f.message@ == dir@ + " is not a git worktree · at-recall reads history, at-peek reads the working tree"@,
{
    let mut m = String::from_str(dir);
    m.append(" is not a git worktree · at-recall reads history, at-peek reads the working tree");
    Fail::environment(m)
}

/// What an invocation asks for, decided before anything is read.
pub enum Step {
    /// Text to print; the run is answered with results.
    Print(String),
    /// A verb to run over the worktree, with what the parser found.
    Run(Verb, Parsed),
}

/// The words that ask for the tool's help rather than name a verb.
pub open spec fn asks_help(a: Seq<char>) -> bool {
    a == "-h"@ || a == "--help"@
}

/// The first argument is one the tool answers itself.
pub open spec fn is_meta(a: Seq<char>) -> bool {
    asks_help(a) || a == "help"@ || a == "--version"@
}

pub open spec fn unknown_message(name: Seq<char>) -> Seq<char> {
    "unknown verb `"@ + name + "` · verbs: "@ + join(recall_verb_names(), ", "@) + if name.len() > 0 && name[0] == '-' {
        " · flags come after the verb, e.g. `"@ + crate::recall::TOOL@ + " diff --patch`"@
    } else {
        seq![]
    }
}

pub open spec fn prints_help_all(r: Result<Step, Fail>) -> bool {
    match r {
        Ok(Step::Print(s)) => s@ == crate::recall::catalogue::recall_help_text(),
        _ => false,
    }
}

pub open spec fn prints_help_for(r: Result<Step, Fail>, name: Seq<char>) -> bool {
    match r {
        Ok(Step::Print(s)) => exists|k: int| 0 <= k < crate::recall::catalogue::recall_table().len() && #[trigger] crate::recall::catalogue::recall_table()[k].0 == name
            && s@ == crate::catalogue::help_for_view_text(crate::recall::TOOL@, crate::recall::catalogue::recall_table()[k]),
        _ => false,
    }
}

pub open spec fn fails_usage(r: Result<Step, Fail>, message: Seq<char>) -> bool {
    match r {
        Err(f) => f.exit == Exit::Usage && f.message@ == message,
        _ => false,
    }
}

pub open spec fn has_flag(p: ParsedView, name: Seq<char>) -> bool {
    exists|i: int| 0 <= i < p.1.len() && (#[trigger] p.1[i]).0 == name
}

/// A verb's arguments read: its help when asked for, else the verb to run, else the parser's refusal.
pub open spec fn verb_step(r: Result<Step, Fail>, name: Seq<char>, args: Seq<Seq<char>>) -> bool {
    match r {
        Ok(Step::Run(v, p)) => v.name@ == name && crate::recall::catalogue::recall_table().contains(crate::catalogue::verb_view(v))
            && parse_of(crate::recall::TOOL@, v, args) == Ok::<ParsedView, Seq<char>>(parsed_view(p))
            && !has_flag(parsed_view(p), "--help"@),
        Ok(Step::Print(s)) => exists|v: Verb, pv: ParsedView| #![auto] v.name@ == name
            && crate::recall::catalogue::recall_table().contains(crate::catalogue::verb_view(v))
            && parse_of(crate::recall::TOOL@, v, args) == Ok::<ParsedView, Seq<char>>(pv) && has_flag(pv, "--help"@)
            && s@ == crate::catalogue::help_for_view_text(crate::recall::TOOL@, crate::catalogue::verb_view(v)),
        Err(f) => f.exit == Exit::Usage && exists|v: Verb| #![auto] v.name@ == name
            && crate::recall::catalogue::recall_table().contains(crate::catalogue::verb_view(v))
            && parse_of(crate::recall::TOOL@, v, args) == Err::<ParsedView, Seq<char>>(f.message@),
    }
}

/// Route one invocation: the tool's own help and version, a verb's help, or a verb to run. An
/// unknown verb, or an argument the verb's grammar refuses, is a usage error naming it.
pub fn dispatch(args: &Vec<String>) -> (r: Result<Step, Fail>)
    ensures
        args@.len() == 0 || asks_help(args@[0]@) || (args@[0]@ == "help"@ && args@.len() == 1) ==> prints_help_all(r),
        args@.len() > 0 && args@[0]@ == "--version"@ ==> (match r {
            Ok(Step::Print(s)) => s@ == crate::recall::TOOL@ + " "@ + crate::recall::VERSION@ + "\n"@,
            _ => false,
        }),
        args@.len() > 1 && args@[0]@ == "help"@ ==> if recall_verb_names().contains(args@[1]@) {
            prints_help_for(r, args@[1]@)
        } else {
            fails_usage(r, unknown_message(args@[1]@))
        },
        args@.len() > 0 && !is_meta(args@[0]@) && !recall_verb_names().contains(args@[0]@) ==> fails_usage(r, unknown_message(args@[0]@)),
        args@.len() > 0 && !is_meta(args@[0]@) && recall_verb_names().contains(args@[0]@)
            ==> verb_step(r, args@[0]@, str_views(args@.drop_first())),
{
    proof {
        reveal_strlit("-h");
        reveal_strlit("--help");
        reveal_strlit("help");
        reveal_strlit("--version");
        assert("-h"@.len() == 2 && "--help"@.len() == 6 && "help"@.len() == 4 && "--version"@.len() == 9);
        assert("--help"@ != "help"@) by { assert("--help"@[0] != "help"@[0]); }
    }
    if args.len() == 0 {
        return Ok(Step::Print(help_all()));
    }
    let first = chars_of(args[0].as_str());
    if crate::text::eq_chars(&first, &chars_of("-h")) || crate::text::eq_chars(&first, &chars_of("--help")) {
        return Ok(Step::Print(help_all()));
    }
    if crate::text::eq_chars(&first, &chars_of("help")) {
        if args.len() == 1 {
            return Ok(Step::Print(help_all()));
        }
        return match find(args[1].as_str()) {
            Some(v) => {
                let text = help_for(&v);
                proof {
                    let k = choose|k: int| 0 <= k < crate::recall::catalogue::recall_table().len() && crate::recall::catalogue::recall_table()[k] == crate::catalogue::verb_view(v);
                    assert(crate::recall::catalogue::recall_table()[k].0 == args@[1]@);
                }
                Ok(Step::Print(text))
            },
            None => Err(unknown(crate::recall::TOOL, args[1].as_str(), names().as_str())),
        };
    }
    if crate::text::eq_chars(&first, &chars_of("--version")) {
        let mut s = String::from_str(crate::recall::TOOL);
        s.append(" ");
        s.append(crate::recall::VERSION);
        s.append("\n");
        return Ok(Step::Print(s));
    }
    let verb = match find(args[0].as_str()) {
        Some(v) => v,
        None => return Err(unknown(crate::recall::TOOL, args[0].as_str(), names().as_str())),
    };
    let mut rest: Vec<String> = Vec::new();
    let mut i: usize = 1;
    while i < args.len()
        invariant
            1 <= i <= args@.len(),
            str_views(rest@) == str_views(args@.subrange(1, i as int)),
        decreases args.len() - i,
    {
        let ghost before = rest@;
        rest.push(args[i].clone());
        assert(args@.subrange(1, i + 1) =~= args@.subrange(1, i as int).push(args@[i as int]));
        assert(str_views(rest@) =~= str_views(before).push(args@[i as int]@));
        i = i + 1;
    }
    assert(args@.subrange(1, args@.len() as int) =~= args@.drop_first());
    let parsed = parse(crate::recall::TOOL, &verb, &rest)?;
    proof {
        lemma_flag_views(parsed.flags@);
    }
    if parsed.has("--help") {
        let s = help_for(&verb);
        proof {
            let i = choose|i: int| 0 <= i < parsed.flags@.len() && (#[trigger] parsed.flags@[i]).0@ == "--help"@;
            assert(parsed_view(parsed).1[i].0 == "--help"@);
            let pv = parsed_view(parsed);
            assert(verb.name@ == args@[0]@ && crate::recall::catalogue::recall_table().contains(crate::catalogue::verb_view(verb))
                && parse_of(crate::recall::TOOL@, verb, str_views(args@.drop_first()))
                == Ok::<ParsedView, Seq<char>>(pv) && has_flag(pv, "--help"@));
        }
        return Ok(Step::Print(s));
    }
    assert(!has_flag(parsed_view(parsed), "--help"@)) by {
        if has_flag(parsed_view(parsed), "--help"@) {
            let i = choose|i: int| 0 <= i < parsed_view(parsed).1.len() && (#[trigger] parsed_view(parsed).1[i]).0 == "--help"@;
            assert(parsed.flags@[i].0@ == "--help"@);
        }
    }
    Ok(Step::Run(verb, parsed))
}

pub open spec fn runs(name: Seq<char>) -> bool {
    name == "state"@ || name == "diff"@ || name == "log"@ || name == "pr"@
}

/// What a verb's own grammar adds once the worktree is known: `state` takes no path, and a verb
/// the catalogue lists with nothing behind it fails loudly rather than being advertised and missing.
pub fn gate(verb: &Verb, parsed: &Parsed) -> (r: Result<(), Fail>)
    ensures
        match r {
            Ok(()) => runs(verb.name@) && !(verb.name@ == "state"@ && parsed.positionals@.len() > 0),
            Err(f) => f.exit == Exit::Usage && if verb.name@ == "state"@ {
                parsed.positionals@.len() > 0
                    && f.message@ == "`state` answers for the whole worktree and takes no path · "@ + verb.usage@
            } else {
                !runs(verb.name@) && f.message@ == "`"@ + verb.name@ + "` is catalogued but not implemented"@
            },
        },
{
    let name = chars_of(verb.name);
    if crate::text::eq_chars(&name, &chars_of("state")) {
        if parsed.positionals.len() > 0 {
            return Err(no_path(verb.usage));
        }
        return Ok(());
    }
    if crate::text::eq_chars(&name, &chars_of("diff")) || crate::text::eq_chars(&name, &chars_of("log"))
        || crate::text::eq_chars(&name, &chars_of("pr")) {
        return Ok(());
    }
    let mut m = String::from_str("`");
    m.append(verb.name);
    m.append("` is catalogued but not implemented");
    Err(Fail::usage(m))
}


/// What a flag's value asks for, as plain text.
pub open spec fn value_of(p: ParsedView, name: Seq<char>) -> Option<Seq<char>> {
    first_value(p.1, name)
}

/// The options a verb runs with, from what the parser found and the top of the worktree git
/// named: the limit and its clamp, whether the root was named, and each switch.
pub fn context(parsed: &Parsed, root: crate::peek::paths::Root) -> (r: Result<crate::recall::verbs::Opts, Fail>)
    ensures
        match r {
            Ok(o) => limits_of(value_of(parsed_view(*parsed), "--limit"@))
                    == Ok::<(nat, Option<nat>), Seq<char>>((o.limit as nat, match o.limit_clamped_from { Some(a) => Some(a as nat), None => None }))
                && o.root == root
                && o.root_was_explicit == (value_of(parsed_view(*parsed), "--root"@) is Some)
                && o.include_secret_paths == has_flag(parsed_view(*parsed), "--include-secret-paths"@)
                && o.patch == has_flag(parsed_view(*parsed), "--patch"@)
                && o.summary == has_flag(parsed_view(*parsed), "--summary"@)
                && o.ignore_space == has_flag(parsed_view(*parsed), "--ignore-space"@)
                && str_views(o.with@) == (match value_of(parsed_view(*parsed), "--with"@) {
                    Some(w) => crate::frontmatter::list_items(crate::text::split_on(w, ',')),
                    None => Seq::<Seq<char>>::empty(),
                })
                && crate::recall::facts::rev_view(o.base) == value_of(parsed_view(*parsed), "--base"@),
            Err(f) => f.exit == Exit::Usage
                && limits_of(value_of(parsed_view(*parsed), "--limit"@)) == Err::<(nat, Option<nat>), Seq<char>>(f.message@),
        },
{
    proof {
        lemma_flag_views(parsed.flags@);
    }
    let (limit, limit_clamped_from) = limits(parsed.value("--limit"))?;
    let root_was_explicit = parsed.value("--root").is_some();
    let with = match parsed.value("--with") {
        Some(w) => crate::frontmatter::split_list(w),
        None => {
            let v: Vec<String> = Vec::new();
            assert(str_views(v@) =~= Seq::<Seq<char>>::empty());
            v
        },
    };
    let base = match parsed.value("--base") {
        Some(b) => Some(String::from_str(b)),
        None => None,
    };
    let include_secret_paths = parsed.has("--include-secret-paths");
    let patch = parsed.has("--patch");
    let summary = parsed.has("--summary");
    let ignore_space = parsed.has("--ignore-space");
    proof {
        let pv = parsed_view(*parsed);
        assert forall|name: Seq<char>| (exists|i: int| 0 <= i < parsed.flags@.len() && (#[trigger] parsed.flags@[i]).0@ == name)
            <==> has_flag(pv, name) by {
            if exists|i: int| 0 <= i < parsed.flags@.len() && (#[trigger] parsed.flags@[i]).0@ == name {
                let i = choose|i: int| 0 <= i < parsed.flags@.len() && (#[trigger] parsed.flags@[i]).0@ == name;
                assert(pv.1[i].0 == name);
            }
            if has_flag(pv, name) {
                let i = choose|i: int| 0 <= i < pv.1.len() && (#[trigger] pv.1[i]).0 == name;
                assert(parsed.flags@[i].0@ == name);
            }
        }
    }
    Ok(crate::recall::verbs::Opts {
        root,
        root_was_explicit,
        limit,
        limit_clamped_from,
        include_secret_paths,
        patch,
        summary,
        ignore_space,
        with,
        base,
    })
}

} // verus!
