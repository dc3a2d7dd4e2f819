//! The `playbook` command line: its grammar, and the text each command prints from what the
//! resolution engine computed.
//!
//! The program around the library reads the tree, the environment and the repository; what it
//! hands here are plain values, and what it gets back is the text to print and the exit code.

use vstd::prelude::*;
use vstd::string::StringExecFns;

use crate::catalogue::{pad_left, pad_right, push_padded_left, push_padded_right};
use crate::load::{included_by_some_target, listed, rule_views, RuleCensus};
use crate::model::{act_text, lay_rank, lay_text, opt_view, Act, Project, ProjectView, Rule, RuleView, Target, TargetView};
use crate::peek::verbs::stat::{byte_len, max};
use crate::resolve::Resolved;
use crate::describe::Answer;
use crate::install::Outcome;
use crate::text::{chars_of, copy_strings, lex_lt, decimal, decimal_text, eq_chars, join, join_strings, push_char, starts_with, str_views};

verus! {

/// What `playbook --help` prints.
pub const USAGE: &'static str = "playbook — resolve and render agent rules for a project + target

usage: playbook <command> [options]

commands
  compose    print the managed block
  list       print the resolution table for a project + target
  install    write the block into a repository's agent file
  check      exit 1 if a repository's block is stale
  projects   list known projects and targets
  rules      list every rule, and which projects activate it

options
  --project <name>   project under projects/
  --target <name>    target under models/ (default: the project's default_target)
  --repo <path>      repository root (install, check)
  --file <name>      filename within the repo (default: the target's default_file)
  --out <file>       write to a file instead of stdout (compose)
  --root <dir>       playbook root (default: found from the working directory)
  -h, --help         this

examples
  playbook list --project shared-crates
  playbook compose --project shared-crates --target harness-code
  playbook install --project shared-crates --repo ~/code/defrag/shared-crates
  playbook check --project archivist --repo ~/code/hodlcroft/archivist
";

// ---------------------------------------------------------------------------------------
// Commands and options
// ---------------------------------------------------------------------------------------

/// The subcommand the first argument names.
#[derive(Debug, Clone, PartialEq, Eq)]
pub enum Command {
    /// No argument, or one that asks for help.
    Help,
    Compose,
    List,
    Install,
    Check,
    Projects,
    Rules,
    /// Anything else, by name.
    Unknown(String),
}

/// What a [`Command`] names, as plain text.
pub ghost enum Cmd {
    Help,
    Compose,
    List,
    Install,
    Check,
    Projects,
    Rules,
    Unknown(Seq<char>),
}

impl View for Command {
    type V = Cmd;

    open spec fn view(&self) -> Cmd {
        match self {
            Command::Help => Cmd::Help,
            Command::Compose => Cmd::Compose,
            Command::List => Cmd::List,
            Command::Install => Cmd::Install,
            Command::Check => Cmd::Check,
            Command::Projects => Cmd::Projects,
            Command::Rules => Cmd::Rules,
            Command::Unknown(n) => Cmd::Unknown(n@),
        }
    }
}

pub open spec fn asks_help(a: Seq<char>) -> bool {
    a == "-h"@ || a == "--help"@ || a == "help"@
}

/// The command the arguments name.
pub open spec fn command_of(args: Seq<Seq<char>>) -> Cmd {
    if args.len() == 0 || asks_help(args[0]) {
        Cmd::Help
    } else if args[0] == "compose"@ {
        Cmd::Compose
    } else if args[0] == "list"@ {
        Cmd::List
    } else if args[0] == "install"@ {
        Cmd::Install
    } else if args[0] == "check"@ {
        Cmd::Check
    } else if args[0] == "projects"@ {
        Cmd::Projects
    } else if args[0] == "rules"@ {
        Cmd::Rules
    } else {
        Cmd::Unknown(args[0])
    }
}

/// Read the command from the whole argument list.
pub fn command(args: &[String]) -> (r: Command)
    ensures
        r@ == command_of(str_views(args@)),
{
    if args.len() == 0 {
        return Command::Help;
    }
    let first = chars_of(args[0].as_str());
    assert(str_views(args@)[0] == args@[0]@);
    if eq_chars(&first, &chars_of("-h")) || eq_chars(&first, &chars_of("--help")) || eq_chars(&first, &chars_of("help")) {
        Command::Help
    } else if eq_chars(&first, &chars_of("compose")) {
        Command::Compose
    } else if eq_chars(&first, &chars_of("list")) {
        Command::List
    } else if eq_chars(&first, &chars_of("install")) {
        Command::Install
    } else if eq_chars(&first, &chars_of("check")) {
        Command::Check
    } else if eq_chars(&first, &chars_of("projects")) {
        Command::Projects
    } else if eq_chars(&first, &chars_of("rules")) {
        Command::Rules
    } else {
        Command::Unknown(args[0].clone())
    }
}

/// The refusal of a command the tool does not have.
pub fn unknown_command(name: &str) -> (r: String)
    ensures
        r@ == "unknown command `"@ + name@ + "`"@,
{
    let mut m = String::from_str("unknown command `");
    m.append(name);
    m.append("`");
    m
}

/// The options every command takes, each a flag followed by its value.
pub struct Opts {
    pub project: Option<String>,
    pub target: Option<String>,
    pub repo: Option<String>,
    pub file: Option<String>,
    pub out: Option<String>,
    pub root: Option<String>,
}

/// The options in flag order: project, target, repo, file, out, root.
pub open spec fn opts_view(o: Opts) -> Seq<Option<Seq<char>>> {
    seq![opt_view(o.project), opt_view(o.target), opt_view(o.repo), opt_view(o.file), opt_view(o.out), opt_view(o.root)]
}

/// Which option a flag sets, in flag order; `-1` for none.
pub open spec fn slot_of(key: Seq<char>) -> int {
    if key == "--project"@ {
        0
    } else if key == "--target"@ {
        1
    } else if key == "--repo"@ {
        2
    } else if key == "--file"@ {
        3
    } else if key == "--out"@ {
        4
    } else if key == "--root"@ {
        5
    } else {
        -1
    }
}

/// The options read from `args[i..]` on top of `acc`: a flag the tool does not take, or one
/// with nothing after it, is refused by name; a flag given twice keeps the later value.
pub open spec fn opts_from(args: Seq<Seq<char>>, i: int, acc: Seq<Option<Seq<char>>>) -> Result<Seq<Option<Seq<char>>>, Seq<char>>
    decreases args.len() - i,
{
    if i < 0 || i >= args.len() {
        Ok(acc)
    } else if slot_of(args[i]) < 0 {
        Err("unknown option `"@ + args[i] + "`"@)
    } else if i + 1 >= args.len() {
        Err("`"@ + args[i] + "` needs a value"@)
    } else {
        opts_from(args, i + 2, acc.update(slot_of(args[i]), Some(args[i + 1])))
    }
}

pub open spec fn no_opts() -> Seq<Option<Seq<char>>> {
    seq![None, None, None, None, None, None]
}

pub open spec fn opts_of(args: Seq<Seq<char>>) -> Result<Seq<Option<Seq<char>>>, Seq<char>> {
    opts_from(args, 0, no_opts())
}

fn slot(key: &str) -> (r: usize)
    ensures
        r <= 6,
        r == 6 <==> slot_of(key@) < 0,
        r < 6 ==> r as int == slot_of(key@),
{
    let k = chars_of(key);
    if eq_chars(&k, &chars_of("--project")) {
        0
    } else if eq_chars(&k, &chars_of("--target")) {
        1
    } else if eq_chars(&k, &chars_of("--repo")) {
        2
    } else if eq_chars(&k, &chars_of("--file")) {
        3
    } else if eq_chars(&k, &chars_of("--out")) {
        4
    } else if eq_chars(&k, &chars_of("--root")) {
        5
    } else {
        6
    }
}

/// Read the options after the command.
pub fn parse_opts(args: &[String]) -> (r: Result<Opts, String>)
    ensures
        match r {
            Ok(o) => opts_of(str_views(args@)) == Ok::<Seq<Option<Seq<char>>>, Seq<char>>(opts_view(o)),
            Err(e) => opts_of(str_views(args@)) == Err::<Seq<Option<Seq<char>>>, Seq<char>>(e@),
        },
{
    let ghost av = str_views(args@);
    let mut opts = Opts { project: None, target: None, repo: None, file: None, out: None, root: None };
    assert(opts_view(opts) =~= no_opts());
    let mut i: usize = 0;
    while i < args.len()
        invariant
            i <= args@.len(),
            av == str_views(args@),
            opts_of(av) == opts_from(av, i as int, opts_view(opts)),
        decreases args.len() - i,
    {
        let key = args[i].as_str();
        assert(av[i as int] == key@);
        let k = slot(key);
        if k == 6 {
            let mut m = String::from_str("unknown option `");
            m.append(key);
            m.append("`");
            return Err(m);
        }
        if i + 1 >= args.len() {
            let mut m = String::from_str("`");
            m.append(key);
            m.append("` needs a value");
            return Err(m);
        }
        let value = args[i + 1].clone();
        assert(av[i + 1] == value@);
        let ghost before = opts_view(opts);
        if k == 0 {
            opts.project = Some(value);
        } else if k == 1 {
            opts.target = Some(value);
        } else if k == 2 {
            opts.repo = Some(value);
        } else if k == 3 {
            opts.file = Some(value);
        } else if k == 4 {
            opts.out = Some(value);
        } else {
            opts.root = Some(value);
        }
        assert(opts_view(opts) =~= before.update(k as int, Some(av[i + 1])));
        i = i + 2;
    }
    Ok(opts)
}

// ---------------------------------------------------------------------------------------
// Paths
// ---------------------------------------------------------------------------------------

/// `rest` appended to `base` the way a path is pushed: an absolute `rest` replaces `base`, and
/// one separator stands between them unless `base` is empty or already ends in one.
pub open spec fn joined(base: Seq<char>, rest: Seq<char>) -> Seq<char> {
    if rest.len() > 0 && rest[0] == '/' {
        rest
    } else if base.len() == 0 || base.last() == '/' {
        base + rest
    } else {
        base + "/"@ + rest
    }
}

/// `~/x` read against the home directory, when there is one.
pub open spec fn expanded(path: Seq<char>, home: Option<Seq<char>>) -> Seq<char> {
    match home {
        Some(h) => if starts_with(path, "~/"@) { joined(h, path.skip(2)) } else { path },
        None => path,
    }
}

/// `~/x` to `$HOME/x`. The playbook stores repo paths with a tilde because that is how a
/// person writes them.
pub fn expand_tilde(path: &str, home: Option<&str>) -> (r: String)
    ensures
        r@ == expanded(path@, match home { Some(h) => Some(h@), None => None }),
{
    let p = chars_of(path);
    match home {
        Some(h) => {
            if crate::text::starts_with_exec(&p, &chars_of("~/")) {
                proof {
                    reveal_strlit("~/");
                }
                let rest = crate::text::slice_of(&p, 2, p.len());
                assert(rest@ =~= path@.skip(2));
                if rest.len() > 0 && rest[0] == '/' {
                    return crate::text::string_of(&rest);
                }
                let hv = chars_of(h);
                let mut out = String::from_str(h);
                if !(hv.len() == 0 || hv[hv.len() - 1] == '/') {
                    out.append("/");
                }
                crate::text::push_chars(&mut out, &rest);
                return out;
            }
            String::from_str(path)
        },
        None => String::from_str(path),
    }
}

// ---------------------------------------------------------------------------------------
// Small text
// ---------------------------------------------------------------------------------------

/// A list joined with commas, or `-` for none.
pub open spec fn dash_or(list: Seq<Seq<char>>) -> Seq<char> {
    if list.len() == 0 {
        "-"@
    } else {
        join(list, ", "@)
    }
}

pub fn or_dash(list: &Vec<String>) -> (r: String)
    ensures
        r@ == dash_or(str_views(list@)),
{
    if list.len() == 0 {
        String::from_str("-")
    } else {
        join_strings(list, ", ")
    }
}

/// An integer in decimal, with a minus sign when it is negative.
pub open spec fn signed_decimal(n: int) -> Seq<char> {
    if n < 0 {
        "-"@ + decimal((-n) as nat)
    } else {
        decimal(n as nat)
    }
}

pub fn signed_text(n: i32) -> (r: String)
    ensures
        r@ == signed_decimal(n as int),
{
    if n < 0 {
        let m: i64 = -(n as i64);
        let mut s = String::from_str("-");
        s.append(decimal_text(m as u64).as_str());
        s
    } else {
        decimal_text(n as u64)
    }
}

/// `n` dashes: a table's rule line.
pub open spec fn dashes(n: nat) -> Seq<char> {
    Seq::new(n, |_i: int| '-')
}

pub fn push_dashes(out: &mut String, n: usize)
    ensures
        final(out)@ == old(out)@ + dashes(n as nat),
{
    let ghost start = out@;
    let mut i: usize = 0;
    while i < n
        invariant
            i <= n,
            out@ == start + dashes(i as nat),
        decreases n - i,
    {
        push_char(out, '-');
        assert(start + dashes((i + 1) as nat) =~= start + dashes(i as nat) + seq!['-']);
        i = i + 1;
    }
}


// ---------------------------------------------------------------------------------------
// `list`
// ---------------------------------------------------------------------------------------

/// The width of the rule column: the widest path, and never under four.
pub open spec fn rel_width(rules: Seq<RuleView>) -> nat
    decreases rules.len(),
{
    if rules.len() == 0 {
        4
    } else {
        max(rel_width(rules.drop_last()), byte_len(rules.last().rel))
    }
}

/// The four columns of the resolution table.
pub open spec fn list_row(n: Seq<char>, layer: Seq<char>, pri: Seq<char>, rule: Seq<char>, w: nat) -> Seq<char> {
    "  "@ + pad_right(n, 3) + " "@ + pad_right(layer, 15) + " "@ + pad_left(pri, 4) + "  "@ + pad_right(rule, w)
}

pub open spec fn rule_rows(rules: Seq<RuleView>, w: nat) -> Seq<Seq<char>>
    decreases rules.len(),
{
    if rules.len() == 0 {
        seq![]
    } else {
        let r = rules.last();
        rule_rows(rules.drop_last(), w).push(list_row(decimal(rules.len()), lay_text(r.layer), signed_decimal(r.priority), r.rel, w))
    }
}

/// Each text on a line of its own, indented two spaces.
pub open spec fn indented(items: Seq<Seq<char>>) -> Seq<Seq<char>> {
    items.map_values(|x: Seq<char>| "  "@ + x)
}

pub open spec fn rule_ids(rules: Seq<RuleView>) -> Seq<Seq<char>> {
    rules.map_values(|r: RuleView| r.id)
}

/// A heading and its items, or nothing when there are none.
pub open spec fn listing(heading: Seq<char>, items: Seq<Seq<char>>) -> Seq<Seq<char>> {
    if items.len() == 0 {
        seq![]
    } else {
        seq![heading] + indented(items)
    }
}

/// What `playbook list` prints: who and what the set was resolved for, the rules in order with
/// their layer and priority, and what was superseded and emphasised.
pub open spec fn list_text(p: ProjectView, t: TargetView, rules: Seq<RuleView>, superseded: Seq<Seq<char>>, emphasis: Seq<RuleView>) -> Seq<Seq<char>> {
    let w = rel_width(rules);
    seq![
        "project: "@ + p.name + "   org: "@ + (match p.org { Some(o) => o, None => "-"@ }) + "   languages: "@ + dash_or(p.languages),
        "target:  "@ + t.name + "   model: "@ + t.model + "   harness: "@ + t.harness,
        "include: "@ + dash_or(t.includes) + "   exclude: "@ + dash_or(t.exclude) + "   emphasis: "@ + dash_or(t.emphasis),
        seq![],
        list_row("#"@, "layer"@, "pri"@, "rule"@, w),
        "  "@ + dashes(w + 26),
    ] + rule_rows(rules, w) + seq![seq![], decimal(rules.len()) + " rules"@]
        + listing("superseded by a higher layer:"@, superseded)
        + listing("emphasised in the preamble:"@, rule_ids(emphasis))
}

fn width_of_rels(rules: &Vec<Rule>) -> (r: usize)
    ensures
        r as nat == rel_width(rule_views(rules@)),
{
    let ghost rv = rule_views(rules@);
    let mut w: usize = 4;
    let mut i: usize = 0;
    assert(rv.take(0) =~= Seq::<RuleView>::empty());
    while i < rules.len()
        invariant
            i <= rules@.len(),
            rv == rule_views(rules@),
            w as nat == rel_width(rv.take(i as int)),
        decreases rules.len() - i,
    {
        assert(rv.take(i + 1).drop_last() =~= rv.take(i as int));
        assert(rv.take(i + 1).last() == rules@[i as int]@);
        w = crate::peek::verbs::stat::wider(w, rules[i].rel.as_str().len());
        i = i + 1;
    }
    assert(rv.take(rules@.len() as int) =~= rv);
    w
}

fn list_row_text(n: &str, layer: &str, pri: &str, rule: &str, w: usize) -> (r: String)
    ensures
        r@ == list_row(n@, layer@, pri@, rule@, w as nat),
{
    let mut out = String::from_str("  ");
    push_padded_right(&mut out, n, 3);
    out.append(" ");
    push_padded_right(&mut out, layer, 15);
    out.append(" ");
    push_padded_left(&mut out, pri, 4);
    out.append("  ");
    push_padded_right(&mut out, rule, w);
    out
}

/// Push a heading and two-space-indented items, when there are any.
fn push_listing(lines: &mut Vec<String>, heading: &str, items: &Vec<String>)
    ensures
        str_views(final(lines)@) == str_views(old(lines)@) + listing(heading@, str_views(items@)),
{
    let ghost start = str_views(lines@);
    let ghost iv = str_views(items@);
    if items.len() == 0 {
        assert(str_views(lines@) =~= start + listing(heading@, iv));
        return;
    }
    lines.push(String::from_str(heading));
    let mut i: usize = 0;
    while i < items.len()
        invariant
            0 < items@.len(),
            i <= items@.len(),
            iv == str_views(items@),
            str_views(lines@) == start + seq![heading@] + indented(iv.take(i as int)),
        decreases items.len() - i,
    {
        let ghost before = str_views(lines@);
        let mut line = String::from_str("  ");
        line.append(items[i].as_str());
        lines.push(line);
        assert(indented(iv.take(i + 1)) =~= indented(iv.take(i as int)).push("  "@ + iv[i as int]));
        assert(str_views(lines@) =~= before.push(line@));
        i = i + 1;
    }
    assert(iv.take(items@.len() as int) =~= iv);
}

/// Whether the resolution table's rule line can be counted out: the test before [`list_lines`].
pub fn list_fits(resolved: &Resolved) -> (r: bool)
    ensures
        r == (rel_width(rule_views(resolved.rules@)) + 26 <= usize::MAX),
{
    let w = width_of_rels(&resolved.rules);
    w <= usize::MAX - 26
}

/// What `playbook list` prints for a resolved set.
pub fn list_lines(resolved: &Resolved) -> (r: Vec<String>)
    requires
        rel_width(rule_views(resolved.rules@)) + 26 <= usize::MAX,
    ensures
        str_views(r@) == list_text(resolved.project@, resolved.target@, rule_views(resolved.rules@),
            str_views(resolved.superseded@), rule_views(resolved.emphasis@)),
{
    let p = &resolved.project;
    let t = &resolved.target;
    let mut lines: Vec<String> = Vec::new();

    let mut l0 = String::from_str("project: ");
    l0.append(p.name.as_str());
    l0.append("   org: ");
    match &p.org {
        Some(o) => l0.append(o.as_str()),
        None => l0.append("-"),
    }
    l0.append("   languages: ");
    l0.append(or_dash(&p.languages).as_str());
    let ghost l0v = l0@;
    lines.push(l0);

    let mut l1 = String::from_str("target:  ");
    l1.append(t.name.as_str());
    l1.append("   model: ");
    l1.append(t.model.as_str());
    l1.append("   harness: ");
    l1.append(t.harness.as_str());
    let ghost l1v = l1@;
    lines.push(l1);

    let mut l2 = String::from_str("include: ");
    l2.append(or_dash(&t.includes).as_str());
    l2.append("   exclude: ");
    l2.append(or_dash(&t.exclude).as_str());
    l2.append("   emphasis: ");
    l2.append(or_dash(&t.emphasis).as_str());
    let ghost l2v = l2@;
    lines.push(l2);

    lines.push(String::new());
    let w = width_of_rels(&resolved.rules);
    lines.push(list_row_text("#", "layer", "pri", "rule", w));
    let mut rule_line = String::from_str("  ");
    push_dashes(&mut rule_line, w + 26);
    lines.push(rule_line);

    let ghost head = str_views(lines@);
    assert(head =~= seq![l0v, l1v, l2v, seq![], list_row("#"@, "layer"@, "pri"@, "rule"@, w as nat), "  "@ + dashes((w + 26) as nat)]);
    let ghost rv = rule_views(resolved.rules@);
    let mut i: usize = 0;
    assert(rv.take(0) =~= Seq::<RuleView>::empty());
    assert(head =~= head + rule_rows(rv.take(0), w as nat));
    while i < resolved.rules.len()
        invariant
            i <= resolved.rules@.len(),
            rv == rule_views(resolved.rules@),
            str_views(lines@) == head + rule_rows(rv.take(i as int), w as nat),
        decreases resolved.rules.len() - i,
    {
        assert(rv.take(i + 1).drop_last() =~= rv.take(i as int));
        assert(rv.take(i + 1).last() == resolved.rules@[i as int]@);
        let rule = &resolved.rules[i];
        let n = decimal_text((i + 1) as u64);
        let row = list_row_text(n.as_str(), rule.layer.as_str().as_str(), signed_text(rule.priority).as_str(), rule.rel.as_str(), w);
        let ghost before = str_views(lines@);
        lines.push(row);
        assert(str_views(lines@) =~= before.push(row@));
        i = i + 1;
    }
    assert(rv.take(resolved.rules@.len() as int) =~= rv);

    lines.push(String::new());
    let mut count = decimal_text(resolved.rules.len() as u64);
    count.append(" rules");
    lines.push(count);
    let ghost mid = str_views(lines@);
    assert(mid =~= head + rule_rows(rv, w as nat) + seq![seq![], decimal(resolved.rules@.len()) + " rules"@]);

    push_listing(&mut lines, "superseded by a higher layer:", &resolved.superseded);
    let ghost mid2 = str_views(lines@);
    let mut ids: Vec<String> = Vec::new();
    let mut k: usize = 0;
    while k < resolved.emphasis.len()
        invariant
            k <= resolved.emphasis@.len(),
            str_views(ids@) == rule_ids(rule_views(resolved.emphasis@)).take(k as int),
        decreases resolved.emphasis.len() - k,
    {
        let ghost before = str_views(ids@);
        ids.push(resolved.emphasis[k].id.clone());
        assert(str_views(ids@) =~= before.push(resolved.emphasis@[k as int].id@));
        assert(rule_ids(rule_views(resolved.emphasis@)).take(k + 1) =~= before.push(resolved.emphasis@[k as int].id@));
        k = k + 1;
    }
    assert(rule_ids(rule_views(resolved.emphasis@)).take(resolved.emphasis@.len() as int) =~= rule_ids(rule_views(resolved.emphasis@)));
    push_listing(&mut lines, "emphasised in the preamble:", &ids);
    assert(str_views(lines@) =~= list_text(resolved.project@, resolved.target@, rule_views(resolved.rules@),
        str_views(resolved.superseded@), rule_views(resolved.emphasis@)));
    lines
}



// ---------------------------------------------------------------------------------------
// `rules`
// ---------------------------------------------------------------------------------------

/// A census row as plain values: the rule, and the projects it activates for.
pub type CensusView = (RuleView, Seq<Seq<char>>);

pub open spec fn census_view(c: RuleCensus) -> CensusView {
    (c.rule@, str_views(c.projects@))
}

pub open spec fn census_views(v: Seq<RuleCensus>) -> Seq<CensusView> {
    v.map_values(|c: RuleCensus| census_view(c))
}

/// `a` is listed strictly before `b`: a lower layer, or the same layer and a smaller id.
pub open spec fn listed_before(a: CensusView, b: CensusView) -> bool {
    ||| lay_rank(a.0.layer) < lay_rank(b.0.layer)
    ||| lay_rank(a.0.layer) == lay_rank(b.0.layer) && lex_lt(a.0.id, b.0.id)
}

/// Where `x` goes in `sorted`: after every row it does not sort strictly before.
pub open spec fn census_point(sorted: Seq<CensusView>, x: CensusView) -> int
    decreases sorted.len(),
{
    if sorted.len() == 0 {
        0
    } else if listed_before(x, sorted[0]) {
        0
    } else {
        1 + census_point(sorted.drop_first(), x)
    }
}

/// The rows by layer, then id; rows with equal keys keep their order.
pub open spec fn sort_census(s: Seq<CensusView>) -> Seq<CensusView>
    decreases s.len(),
{
    if s.len() == 0 {
        seq![]
    } else {
        let sorted = sort_census(s.drop_last());
        sorted.insert(census_point(sorted, s.last()), s.last())
    }
}

/// No row is listed strictly before one that precedes it.
pub open spec fn census_sorted(s: Seq<CensusView>) -> bool {
    forall|i: int, j: int| 0 <= i < j < s.len() ==> !#[trigger] listed_before(s[j], s[i])
}

proof fn lemma_listed_before_transitive(a: CensusView, b: CensusView, c: CensusView)
    requires
        listed_before(a, b),
        listed_before(b, c),
    ensures
        listed_before(a, c),
{
    if lay_rank(a.0.layer) == lay_rank(b.0.layer) && lay_rank(b.0.layer) == lay_rank(c.0.layer) {
        crate::text::lemma_lex_transitive(a.0.id, b.0.id, c.0.id);
    }
}

proof fn lemma_census_point(sorted: Seq<CensusView>, x: CensusView)
    ensures
        0 <= census_point(sorted, x) <= sorted.len(),
        forall|i: int| 0 <= i < census_point(sorted, x) ==> !listed_before(x, #[trigger] sorted[i]),
        census_point(sorted, x) < sorted.len() ==> listed_before(x, sorted[census_point(sorted, x)]),
    decreases sorted.len(),
{
    if sorted.len() > 0 && !listed_before(x, sorted[0]) {
        lemma_census_point(sorted.drop_first(), x);
        assert forall|i: int| 0 <= i < census_point(sorted, x) implies !listed_before(x, #[trigger] sorted[i]) by {
            if i > 0 {
                assert(sorted[i] == sorted.drop_first()[i - 1]);
            }
        }
    }
}

/// The `rules` table lists the rows by layer and then id, and lists each row exactly once.
pub proof fn law_rules_table_is_ordered(s: Seq<CensusView>)
    ensures
        census_sorted(sort_census(s)),
        sort_census(s).to_multiset() == s.to_multiset(),
    decreases s.len(),
{
    broadcast use vstd::seq_lib::group_to_multiset_ensures;
    if s.len() > 0 {
        let sorted = sort_census(s.drop_last());
        law_rules_table_is_ordered(s.drop_last());
        let x = s.last();
        let p = census_point(sorted, x);
        lemma_census_point(sorted, x);
        let out = sorted.insert(p, x);
        assert(out == sort_census(s));
        vstd::seq_lib::to_multiset_insert(sorted, p, x);
        assert(s =~= s.drop_last().push(x));
        assert forall|i: int, j: int| 0 <= i < j < out.len() implies !#[trigger] listed_before(out[j], out[i]) by {
            if j < p {
                assert(out[i] == sorted[i] && out[j] == sorted[j]);
            } else if j == p {
                assert(out[i] == sorted[i]);
            } else if i == p {
                assert(out[j] == sorted[j - 1]);
                if listed_before(sorted[j - 1], x) {
                    lemma_listed_before_transitive(sorted[j - 1], x, sorted[p]);
                    if j - 1 > p {
                        assert(!listed_before(sorted[j - 1], sorted[p]));
                    } else {
                        crate::text::lemma_lex_irreflexive(sorted[p].0.id);
                    }
                }
            } else if i < p {
                assert(out[i] == sorted[i] && out[j] == sorted[j - 1]);
            } else {
                assert(out[i] == sorted[i - 1] && out[j] == sorted[j - 1]);
            }
        }
    }
}

fn listed_before_exec(a: &RuleCensus, b: &RuleCensus) -> (r: bool)
    ensures
        r == listed_before(census_view(*a), census_view(*b)),
{
    let ra = a.rule.layer.rank();
    let rb = b.rule.layer.rank();
    if ra != rb {
        return ra < rb;
    }
    crate::text::lex_less(&chars_of(a.rule.id.as_str()), &chars_of(b.rule.id.as_str()))
}

fn copy_row(c: &RuleCensus) -> (r: RuleCensus)
    ensures
        census_view(r) == census_view(*c),
{
    RuleCensus { rule: c.rule.duplicate(), projects: copy_strings(&c.projects) }
}

/// The census in table order.
pub fn sorted_census(rows: &Vec<RuleCensus>) -> (r: Vec<RuleCensus>)
    ensures
        census_views(r@) == sort_census(census_views(rows@)),
{
    let ghost cs = census_views(rows@);
    let mut out: Vec<RuleCensus> = Vec::new();
    let mut i: usize = 0;
    assert(cs.take(0) =~= Seq::<CensusView>::empty());
    assert(census_views(out@) =~= Seq::<CensusView>::empty());
    while i < rows.len()
        invariant
            i <= rows@.len(),
            cs == census_views(rows@),
            census_views(out@) == sort_census(cs.take(i as int)),
        decreases rows.len() - i,
    {
        assert(cs.take(i + 1).drop_last() =~= cs.take(i as int));
        assert(cs.take(i + 1).last() == census_view(rows@[i as int]));
        let x = copy_row(&rows[i]);
        let ghost sorted = census_views(out@);
        let mut pos: usize = 0;
        assert(sorted.skip(0) =~= sorted);
        while pos < out.len() && !listed_before_exec(&x, &out[pos])
            invariant
                pos <= out@.len(),
                sorted == census_views(out@),
                census_point(sorted, census_view(x)) == pos + census_point(sorted.skip(pos as int), census_view(x)),
            decreases out.len() - pos,
        {
            assert(sorted.skip(pos as int)[0] == census_view(out@[pos as int]));
            assert(sorted.skip(pos as int).drop_first() =~= sorted.skip(pos + 1));
            pos = pos + 1;
        }
        proof {
            if pos < out@.len() {
                assert(sorted.skip(pos as int)[0] == census_view(out@[pos as int]));
            }
        }
        let ghost xv = census_view(x);
        out.insert(pos, x);
        assert(census_views(out@) =~= sorted.insert(pos as int, xv));
        i = i + 1;
    }
    assert(cs.take(rows@.len() as int) =~= cs);
    out
}

/// Whether some target's `include:` list names the rule.
pub open spec fn reached(targets: Seq<Target>, rule: RuleView) -> bool {
    exists|i: int| 0 <= i < targets.len() && listed((#[trigger] targets[i])@.includes, rule)
}

/// The widest text of a column, starting from `floor`.
pub open spec fn widest(texts: Seq<Seq<char>>, floor: nat) -> nat
    decreases texts.len(),
{
    if texts.len() == 0 {
        floor
    } else {
        max(widest(texts.drop_last(), floor), byte_len(texts.last()))
    }
}

pub open spec fn rels_of(rows: Seq<CensusView>) -> Seq<Seq<char>> {
    rows.map_values(|c: CensusView| c.0.rel)
}

pub open spec fn layers_of(rows: Seq<CensusView>) -> Seq<Seq<char>> {
    rows.map_values(|c: CensusView| lay_text(c.0.layer))
}

pub open spec fn acts_of(rows: Seq<CensusView>) -> Seq<Seq<char>> {
    rows.map_values(|c: CensusView| act_text(c.0.activation))
}

/// The three column widths: layer, activation, rule. The rule column is as wide as the widest
/// path, four when there are no rules; the other two never narrower than their headings.
pub open spec fn census_widths(rows: Seq<CensusView>) -> (nat, nat, nat) {
    (widest(layers_of(rows), 5), widest(acts_of(rows), 10), if rows.len() == 0 { 4 } else { widest(rels_of(rows), 0) })
}

/// Whether a row reaches nothing: no project activates it, and no target names it when it is
/// manual.
pub open spec fn orphaned(c: CensusView, targets: Seq<Target>) -> bool {
    c.1.len() == 0 && !(c.0.activation == Act::Manual && reached(targets, c.0))
}

/// What the last column says of a row.
pub open spec fn reach_text(c: CensusView, targets: Seq<Target>) -> Seq<char> {
    if c.1.len() > 0 {
        join(c.1, ", "@)
    } else if c.0.activation == Act::Manual {
        if reached(targets, c.0) {
            "manual (included by a target)"@
        } else {
            "UNREACHABLE — manual, and no target includes it"@
        }
    } else {
        "ORPHAN — no project activates this rule"@
    }
}

pub open spec fn census_row(layer: Seq<char>, act: Seq<char>, rule: Seq<char>, reach: Seq<char>, w: (nat, nat, nat)) -> Seq<char> {
    "  "@ + pad_right(layer, w.0) + "  "@ + pad_right(act, w.1) + "  "@ + pad_right(rule, w.2) + "  "@ + reach
}

pub open spec fn census_rows(rows: Seq<CensusView>, targets: Seq<Target>, w: (nat, nat, nat)) -> Seq<Seq<char>>
    decreases rows.len(),
{
    if rows.len() == 0 {
        seq![]
    } else {
        let c = rows.last();
        census_rows(rows.drop_last(), targets, w).push(census_row(lay_text(c.0.layer), act_text(c.0.activation), c.0.rel, reach_text(c, targets), w))
    }
}

pub open spec fn orphan_count(rows: Seq<CensusView>, targets: Seq<Target>) -> nat
    decreases rows.len(),
{
    if rows.len() == 0 {
        0
    } else {
        orphan_count(rows.drop_last(), targets) + if orphaned(rows.last(), targets) { 1nat } else { 0nat }
    }
}

/// What `playbook rules` prints: every rule in table order, which projects it reaches, and how
/// many reach nothing.
pub open spec fn rules_text(rows: Seq<CensusView>, targets: Seq<Target>) -> Seq<Seq<char>> {
    let sorted = sort_census(rows);
    let w = census_widths(sorted);
    seq![
        census_row("layer"@, "activation"@, "rule"@, "projects"@, w),
        "  "@ + dashes(w.0 + w.1 + w.2 + 8),
    ] + census_rows(sorted, targets, w) + seq![
        seq![],
        decimal(sorted.len()) + " rules, "@ + decimal(orphan_count(sorted, targets)) + " unreachable"@,
    ]
}

/// The column widths fit the machine's counters.
pub open spec fn census_fits(rows: Seq<CensusView>) -> bool {
    let w = census_widths(sort_census(rows));
    w.0 + w.1 + w.2 + 8 <= usize::MAX
}

fn widths_of_census(rows: &Vec<RuleCensus>) -> (r: (usize, usize, usize))
    ensures
        (r.0 as nat, r.1 as nat, r.2 as nat) == census_widths(census_views(rows@)),
{
    let ghost cv = census_views(rows@);
    let mut lw: usize = 5;
    let mut aw: usize = 10;
    let mut rw: usize = 0;
    let mut i: usize = 0;
    assert(layers_of(cv).take(0) =~= Seq::<Seq<char>>::empty());
    assert(acts_of(cv).take(0) =~= Seq::<Seq<char>>::empty());
    assert(rels_of(cv).take(0) =~= Seq::<Seq<char>>::empty());
    while i < rows.len()
        invariant
            i <= rows@.len(),
            cv == census_views(rows@),
            lw as nat == widest(layers_of(cv).take(i as int), 5),
            aw as nat == widest(acts_of(cv).take(i as int), 10),
            rw as nat == widest(rels_of(cv).take(i as int), 0),
        decreases rows.len() - i,
    {
        assert(layers_of(cv).take(i + 1).drop_last() =~= layers_of(cv).take(i as int));
        assert(acts_of(cv).take(i + 1).drop_last() =~= acts_of(cv).take(i as int));
        assert(rels_of(cv).take(i + 1).drop_last() =~= rels_of(cv).take(i as int));
        lw = crate::peek::verbs::stat::wider(lw, rows[i].rule.layer.as_str().as_str().len());
        aw = crate::peek::verbs::stat::wider(aw, rows[i].rule.activation.as_str().as_str().len());
        rw = crate::peek::verbs::stat::wider(rw, rows[i].rule.rel.as_str().len());
        i = i + 1;
    }
    assert(layers_of(cv).take(rows@.len() as int) =~= layers_of(cv));
    assert(acts_of(cv).take(rows@.len() as int) =~= acts_of(cv));
    assert(rels_of(cv).take(rows@.len() as int) =~= rels_of(cv));
    if rows.len() == 0 {
        rw = 4;
    }
    (lw, aw, rw)
}

fn census_row_text(layer: &str, act: &str, rule: &str, reach: &str, w: (usize, usize, usize)) -> (r: String)
    ensures
        r@ == census_row(layer@, act@, rule@, reach@, (w.0 as nat, w.1 as nat, w.2 as nat)),
{
    let mut out = String::from_str("  ");
    push_padded_right(&mut out, layer, w.0);
    out.append("  ");
    push_padded_right(&mut out, act, w.1);
    out.append("  ");
    push_padded_right(&mut out, rule, w.2);
    out.append("  ");
    out.append(reach);
    out
}

fn reach_of(row: &RuleCensus, targets: &Vec<Target>) -> (r: (String, bool))
    ensures
        r.0@ == reach_text(census_view(*row), targets@),
        r.1 == orphaned(census_view(*row), targets@),
{
    if row.projects.len() > 0 {
        return (join_strings(&row.projects, ", "), false);
    }
    match row.rule.activation {
        crate::model::Activation::Manual => {
            if included_by_some_target(&row.rule, targets) {
                (String::from_str("manual (included by a target)"), false)
            } else {
                (String::from_str("UNREACHABLE — manual, and no target includes it"), true)
            }
        },
        _ => (String::from_str("ORPHAN — no project activates this rule"), true),
    }
}

/// Whether the rules table's columns can be counted out: the test before [`rules_lines`].
pub fn rules_fit(rows: &Vec<RuleCensus>) -> (r: bool)
    ensures
        r == census_fits(census_views(rows@)),
{
    let sorted = sorted_census(rows);
    let w = widths_of_census(&sorted);
    w.0 <= usize::MAX - 8 && w.1 <= usize::MAX - 8 - w.0 && w.2 <= usize::MAX - 8 - w.0 - w.1
}

/// What `playbook rules` prints for the census, given every target for the manual rules.
pub fn rules_lines(rows: &Vec<RuleCensus>, targets: &Vec<Target>) -> (r: Vec<String>)
    requires
        census_fits(census_views(rows@)),
    ensures
        str_views(r@) == rules_text(census_views(rows@), targets@),
{
    let sorted = sorted_census(rows);
    let ghost sv = census_views(sorted@);
    let w = widths_of_census(&sorted);
    let ghost wv = (w.0 as nat, w.1 as nat, w.2 as nat);
    let mut lines: Vec<String> = Vec::new();
    lines.push(census_row_text("layer", "activation", "rule", "projects", w));
    let mut rule_line = String::from_str("  ");
    push_dashes(&mut rule_line, w.0 + w.1 + w.2 + 8);
    lines.push(rule_line);
    let ghost head = str_views(lines@);
    let mut orphans: usize = 0;
    let mut i: usize = 0;
    assert(sv.take(0) =~= Seq::<CensusView>::empty());
    assert(head =~= head + census_rows(sv.take(0), targets@, wv));
    while i < sorted.len()
        invariant
            i <= sorted@.len(),
            sv == census_views(sorted@),
            str_views(lines@) == head + census_rows(sv.take(i as int), targets@, wv),
            orphans as nat == orphan_count(sv.take(i as int), targets@),
            orphans <= i,
            wv == (w.0 as nat, w.1 as nat, w.2 as nat),
        decreases sorted.len() - i,
    {
        assert(sv.take(i + 1).drop_last() =~= sv.take(i as int));
        assert(sv.take(i + 1).last() == census_view(sorted@[i as int]));
        let row = &sorted[i];
        let ro = reach_of(row, targets);
        let reach = ro.0;
        let orphan = ro.1;
        let line = census_row_text(row.rule.layer.as_str().as_str(), row.rule.activation.as_str().as_str(), row.rule.rel.as_str(), reach.as_str(), w);
        let ghost before = str_views(lines@);
        lines.push(line);
        assert(str_views(lines@) =~= before.push(line@));
        proof {
            let c = census_view(sorted@[i as int]);
            assert(line@ == census_row(lay_text(c.0.layer), act_text(c.0.activation), c.0.rel, reach_text(c, targets@), wv));
            assert(census_rows(sv.take(i + 1), targets@, wv) == census_rows(sv.take(i as int), targets@, wv).push(line@));
            assert(str_views(lines@) =~= head + census_rows(sv.take(i + 1), targets@, wv));
        }
        if orphan {
            orphans = orphans + 1;
        }
        i = i + 1;
    }
    assert(sv.take(sorted@.len() as int) =~= sv);
    lines.push(String::new());
    let mut last = decimal_text(sorted.len() as u64);
    last.append(" rules, ");
    last.append(decimal_text(orphans as u64).as_str());
    last.append(" unreachable");
    let ghost lastv = last@;
    let ghost body = str_views(lines@);
    lines.push(last);
    proof {
        let sorted_v = sort_census(census_views(rows@));
        assert(sv == sorted_v);
        assert(wv == census_widths(sorted_v));
        assert(sv.len() == sorted@.len());
        assert(lastv == decimal(sorted_v.len()) + " rules, "@ + decimal(orphan_count(sorted_v, targets@)) + " unreachable"@);
        assert(head =~= seq![census_row("layer"@, "activation"@, "rule"@, "projects"@, wv), "  "@ + dashes(wv.0 + wv.1 + wv.2 + 8)]);
        assert(str_views(lines@) =~= body.push(lastv));
    }
    assert(str_views(lines@) =~= rules_text(census_views(rows@), targets@));
    lines
}


// ---------------------------------------------------------------------------------------
// `projects`
// ---------------------------------------------------------------------------------------

pub open spec fn project_text(p: ProjectView) -> Seq<char> {
    "  "@ + pad_right(p.name, 22) + " "@ + pad_right(match p.org { Some(o) => o, None => "-"@ }, 12) + " "@ + p.path
}

/// A project's row in `playbook projects`: its name, its org, and where it lives.
pub fn project_line(p: &Project) -> (r: String)
    ensures
        r@ == project_text(p@),
{
    let mut out = String::from_str("  ");
    push_padded_right(&mut out, p.name.as_str(), 22);
    out.append(" ");
    match &p.org {
        Some(o) => push_padded_right(&mut out, o.as_str(), 12),
        None => push_padded_right(&mut out, "-", 12),
    }
    out.append(" ");
    out.append(p.path.as_str());
    out
}

pub open spec fn target_text(t: TargetView) -> Seq<char> {
    "  "@ + pad_right(t.name, 22) + " model="@ + pad_right(t.model, 14) + " harness="@ + pad_right(t.harness, 14)
        + " file="@ + t.default_file
}

/// A target's row in `playbook projects`: its model, harness and default file.
pub fn target_line(t: &Target) -> (r: String)
    ensures
        r@ == target_text(t@),
{
    let mut out = String::from_str("  ");
    push_padded_right(&mut out, t.name.as_str(), 22);
    out.append(" model=");
    push_padded_right(&mut out, t.model.as_str(), 14);
    out.append(" harness=");
    push_padded_right(&mut out, t.harness.as_str(), 14);
    out.append(" file=");
    out.append(t.default_file.as_str());
    out
}

// ---------------------------------------------------------------------------------------
// `install` and `check`
// ---------------------------------------------------------------------------------------

/// The warning about a file that outranks the one being written, so that the harness would
/// never read the managed block.
pub open spec fn shadow_text(shadow: Seq<char>, file: Seq<char>, target: Seq<char>) -> Seq<char> {
    "warning: "@ + shadow + " outranks "@ + file + " in "@ + target
        + "'s instruction-file order — the managed block will NOT be read. Remove it, or install into it instead with `--file "@
        + shadow + "`."@
}

pub fn shadow_warning(shadow: &str, file: &str, target: &str) -> (r: String)
    ensures
        r@ == shadow_text(shadow@, file@, target@),
{
    let mut out = String::from_str("warning: ");
    out.append(shadow);
    out.append(" outranks ");
    out.append(file);
    out.append(" in ");
    out.append(target);
    out.append("'s instruction-file order — the managed block will NOT be read. Remove it, or install into it instead with `--file ");
    out.append(shadow);
    out.append("`.");
    out
}

/// What installing or checking printed, and how it exits: a write or a match succeeds, and
/// anything stale exits 1 with what to run.
pub open spec fn installed(o: Outcome, project: Seq<char>, target: Seq<char>, repo: Seq<char>) -> (int, Seq<char>, Seq<char>) {
    match o {
        Outcome::Created(p) => (0, "created "@ + p@ + "\n"@, seq![]),
        Outcome::Updated(p) => (0, "updated "@ + p@ + "\n"@, seq![]),
        Outcome::Unchanged(p) => (0, "unchanged "@ + p@ + "\n"@, seq![]),
        Outcome::UpToDate(p) => (0, "ok: "@ + p@ + " matches project="@ + project + " target="@ + target + "\n"@, seq![]),
        Outcome::Stale(p, d) => (1, seq![], "stale: "@ + p@ + " differs from the composed block\n"@ + d@
            + "\nrun: playbook install --project "@ + project + " --target "@ + target + " --repo "@ + repo + "\n"@),
        Outcome::Missing(p) => (1, seq![], "stale: "@ + p@ + " does not exist\n"@),
        Outcome::NoBlock(p) => (1, seq![], "stale: no agent-playbook block in "@ + p@ + "\n"@),
    }
}

pub fn install_answer(o: &Outcome, project: &str, target: &str, repo: &str) -> (r: Answer)
    ensures
        (r.code as int, r.out@, r.err@) == installed(*o, project@, target@, repo@),
{
    match o {
        Outcome::Created(p) => {
            let mut out = String::from_str("created ");
            out.append(p.as_str());
            out.append("\n");
            Answer { code: 0, out, err: String::new() }
        },
        Outcome::Updated(p) => {
            let mut out = String::from_str("updated ");
            out.append(p.as_str());
            out.append("\n");
            Answer { code: 0, out, err: String::new() }
        },
        Outcome::Unchanged(p) => {
            let mut out = String::from_str("unchanged ");
            out.append(p.as_str());
            out.append("\n");
            Answer { code: 0, out, err: String::new() }
        },
        Outcome::UpToDate(p) => {
            let mut out = String::from_str("ok: ");
            out.append(p.as_str());
            out.append(" matches project=");
            out.append(project);
            out.append(" target=");
            out.append(target);
            out.append("\n");
            Answer { code: 0, out, err: String::new() }
        },
        Outcome::Stale(p, d) => {
            let mut err = String::from_str("stale: ");
            err.append(p.as_str());
            err.append(" differs from the composed block\n");
            err.append(d.as_str());
            err.append("\nrun: playbook install --project ");
            err.append(project);
            err.append(" --target ");
            err.append(target);
            err.append(" --repo ");
            err.append(repo);
            err.append("\n");
            Answer { code: 1, out: String::new(), err }
        },
        Outcome::Missing(p) => {
            let mut err = String::from_str("stale: ");
            err.append(p.as_str());
            err.append(" does not exist\n");
            Answer { code: 1, out: String::new(), err }
        },
        Outcome::NoBlock(p) => {
            let mut err = String::from_str("stale: no agent-playbook block in ");
            err.append(p.as_str());
            err.append("\n");
            Answer { code: 1, out: String::new(), err }
        },
    }
}

} // verus!
