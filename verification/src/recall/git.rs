//! The one subprocess this toolkit runs, pinned so that "read-only" is a property of the code
//! rather than a hope about how git happens to be invoked.
//!
//! [`Noun`] is the complete set of git commands the tool can run; the argument list neutralises
//! everything a repository or a user can configure to make git run something itself; and
//! revisions are validated before they are passed, so one cannot become an option and `@{…}`
//! (the reflog) is not expressible.

use vstd::prelude::*;
use vstd::string::StringExecFns;

use crate::contract::{Exit, Fail};
use crate::text::{chars_of, contains, lines, lines_of, rsplit_once, rsplit_once_exec, split_once, split_once_exec,
    str_views, string_of, trim, trim_exec, views};

verus! {

/// Every git command `at-recall` may run. All of them read.
#[derive(Debug, Clone, Copy, PartialEq, Eq)]
pub enum Noun {
    Blame,
    CatFile,
    CheckAttr,
    Diff,
    ForEachRef,
    Log,
    RevList,
    RevParse,
    Status,
}

/// The word git knows a noun by.
pub open spec fn noun_text(n: Noun) -> Seq<char> {
    match n {
        Noun::Blame => "blame"@,
        Noun::CatFile => "cat-file"@,
        Noun::CheckAttr => "check-attr"@,
        Noun::Diff => "diff"@,
        Noun::ForEachRef => "for-each-ref"@,
        Noun::Log => "log"@,
        Noun::RevList => "rev-list"@,
        Noun::RevParse => "rev-parse"@,
        Noun::Status => "status"@,
    }
}

pub open spec fn nouns() -> Seq<Noun> {
    seq![Noun::Blame, Noun::CatFile, Noun::CheckAttr, Noun::Diff, Noun::ForEachRef, Noun::Log,
        Noun::RevList, Noun::RevParse, Noun::Status]
}

impl Noun {
    pub fn as_str(self) -> (r: &'static str)
        ensures
            r@ == noun_text(self),
    {
        match self {
            Noun::Blame => "blame",
            Noun::CatFile => "cat-file",
            Noun::CheckAttr => "check-attr",
            Noun::Diff => "diff",
            Noun::ForEachRef => "for-each-ref",
            Noun::Log => "log",
            Noun::RevList => "rev-list",
            Noun::RevParse => "rev-parse",
            Noun::Status => "status",
        }
    }

    /// Every noun, once.
    pub fn all() -> (r: [Noun; 9])
        ensures
            r@ == nouns(),
    {
        let r = [Noun::Blame, Noun::CatFile, Noun::CheckAttr, Noun::Diff, Noun::ForEachRef, Noun::Log,
            Noun::RevList, Noun::RevParse, Noun::Status];
        assert(r@ =~= nouns());
        r
    }
}

/// Words a read-only tool must never run: what a careless addition to [`Noun`] has to get past.
pub const MUTATING: [&'static str; 32] = [
    "add", "am", "apply", "branch", "checkout", "cherry-pick", "clean", "commit", "config", "fetch",
    "filter-branch", "gc", "hash-object", "merge", "mv", "notes", "prune", "pull", "push", "rebase",
    "reflog", "reset", "restore", "revert", "rm", "stash", "submodule", "switch", "tag",
    "update-index", "update-ref", "worktree",
];

/// The program, as a constant, so that "what can this binary execute" has one answer.
pub const GIT: &'static str = "git";

/// Paths per `check-attr` invocation: an argument list has to survive an operating system limit
/// that reports itself as a failing command rather than as a long one.
pub const CHECK_ATTR_CHUNK: usize = 500;

/// The settings every invocation carries, each after `-c`.
pub open spec fn neutral_settings(root: Seq<char>) -> Seq<Seq<char>> {
    seq!["core.pager=cat"@, "core.fsmonitor=false"@, "core.hooksPath=/dev/null"@, "diff.external="@,
        "core.quotePath=false"@, "safe.directory="@ + root]
}

pub open spec fn with_flags(settings: Seq<Seq<char>>) -> Seq<Seq<char>>
    decreases settings.len(),
{
    if settings.len() == 0 {
        seq![]
    } else {
        with_flags(settings.drop_last()) + seq!["-c"@, settings.last()]
    }
}

/// The whole argument list of one git run: the neutralising settings, then the noun, then its
/// arguments.
pub open spec fn git_argv(root: Seq<char>, noun: Noun, args: Seq<Seq<char>>) -> Seq<Seq<char>> {
    with_flags(neutral_settings(root)) + seq!["--no-pager"@, "--no-optional-locks"@, noun_text(noun)] + args
}

fn push_str(v: &mut Vec<String>, s: &str)
    ensures
        str_views(final(v)@) == str_views(old(v)@).push(s@),
{
    let ghost before = v@;
    v.push(String::from_str(s));
    assert(str_views(v@) =~= str_views(before).push(s@));
}

/// The one subprocess, bound to the top of a worktree.
pub struct Git {
    root: String,
}

impl Git {
    pub fn at(root: &str) -> (r: Git)
        ensures
            r.root_view() == root@,
    {
        Git { root: String::from_str(root) }
    }

    pub closed spec fn root_view(&self) -> Seq<char> {
        self.root@
    }

    pub fn root(&self) -> (r: &str)
        ensures
            r@ == self.root_view(),
    {
        self.root.as_str()
    }

    /// The argument list of one read command from this worktree.
    pub fn argv(&self, noun: Noun, args: &Vec<String>) -> (r: Vec<String>)
        ensures
            str_views(r@) == git_argv(self.root_view(), noun, str_views(args@)),
    {
        invocation(self.root.as_str(), noun, args)
    }
}

/// The argument list for one git command, run from the worktree at `root`.
pub fn invocation(root: &str, noun: Noun, args: &Vec<String>) -> (r: Vec<String>)
    ensures
        str_views(r@) == git_argv(root@, noun, str_views(args@)),
{
    let mut r: Vec<String> = Vec::new();
    let mut safe = String::from_str("safe.directory=");
    safe.append(root);
    let settings = vec![String::from_str("core.pager=cat"), String::from_str("core.fsmonitor=false"),
        String::from_str("core.hooksPath=/dev/null"), String::from_str("diff.external="),
        String::from_str("core.quotePath=false"), safe];
    let ghost sv = str_views(settings@);
    assert(sv =~= neutral_settings(root@));
    let mut i: usize = 0;
    assert(sv.take(0) =~= Seq::<Seq<char>>::empty());
    assert(str_views(r@) =~= with_flags(sv.take(0)));
    while i < settings.len()
        invariant
            i <= settings@.len(),
            sv == str_views(settings@),
            str_views(r@) == with_flags(sv.take(i as int)),
        decreases settings.len() - i,
    {
        assert(sv.take(i + 1).drop_last() =~= sv.take(i as int));
        push_str(&mut r, "-c");
        push_str(&mut r, settings[i].as_str());
        assert(str_views(r@) =~= with_flags(sv.take(i + 1)));
        i = i + 1;
    }
    assert(sv.take(settings@.len() as int) =~= sv);
    let ghost head = str_views(r@);
    push_str(&mut r, "--no-pager");
    push_str(&mut r, "--no-optional-locks");
    push_str(&mut r, noun.as_str());
    let ghost mid = str_views(r@);
    let mut k: usize = 0;
    assert(str_views(args@).take(0) =~= Seq::<Seq<char>>::empty());
    while k < args.len()
        invariant
            k <= args@.len(),
            str_views(r@) == mid + str_views(args@).take(k as int),
        decreases args.len() - k,
    {
        push_str(&mut r, args[k].as_str());
        assert(str_views(r@) =~= mid + str_views(args@).take(k + 1));
        k = k + 1;
    }
    assert(str_views(args@).take(args@.len() as int) =~= str_views(args@));
    assert(str_views(r@) =~= git_argv(root@, noun, str_views(args@)));
    r
}

/// The first line of a text that is not blank, trimmed; `no output` when there is none.
pub open spec fn first_nonblank(ls: Seq<Seq<char>>) -> Option<Seq<char>>
    decreases ls.len(),
{
    if ls.len() == 0 {
        None
    } else if trim(ls[0]).len() > 0 {
        Some(ls[0])
    } else {
        first_nonblank(ls.drop_first())
    }
}

pub open spec fn first_line_of(text: Seq<char>) -> Seq<char> {
    match first_nonblank(lines(text)) {
        Some(l) => trim(l),
        None => "no output"@,
    }
}

/// The first line of git's complaint: the one a message can carry.
pub fn first_line(text: &str) -> (r: String)
    ensures
        r@ == first_line_of(text@),
{
    let ls = lines_of(&chars_of(text));
    let ghost lv = views(ls@);
    let mut i: usize = 0;
    assert(lv.skip(0) =~= lv);
    while i < ls.len()
        invariant
            i <= ls@.len(),
            lv == views(ls@),
            lv == lines(text@),
            first_nonblank(lv) == first_nonblank(lv.skip(i as int)),
        decreases ls.len() - i,
    {
        assert(lv.skip(i as int)[0] == ls@[i as int]@);
        let t = trim_exec(&ls[i]);
        if t.len() > 0 {
            assert(lv.skip(i as int).len() > 0);
            assert(first_nonblank(lv.skip(i as int)) == Some(ls@[i as int]@));
            return string_of(&t);
        }
        assert(lv.skip(i as int).drop_first() =~= lv.skip(i + 1));
        i = i + 1;
    }
    String::from_str("no output")
}

/// What one git run means: its output, or the reason it could not be read.
pub fn run_result(noun: Noun, ok: bool, stdout: String, stderr: &str) -> (r: Result<String, Fail>)
    ensures
        match r {
            Ok(out) => ok && out@ == stdout@,
            Err(f) => !ok && f.exit == Exit::Environment
                && f.message@ == "git "@ + noun_text(noun) + " failed: "@ + first_line_of(stderr@),
        },
{
    if !ok {
        let mut m = String::from_str("git ");
        m.append(noun.as_str());
        m.append(" failed: ");
        m.append(first_line(stderr).as_str());
        return Err(Fail::environment(m));
    }
    Ok(stdout)
}

/// What a probe means: a probe whose failure is itself the answer.
pub fn probe_result(ok: bool, stdout: String) -> (r: Option<String>)
    ensures
        match r {
            Some(out) => ok && out@ == stdout@,
            None => !ok,
        },
{
    if ok { Some(stdout) } else { None }
}

/// The probe that asks whether a revision names a commit.
pub fn resolve_args(rev: &str) -> (r: Vec<String>)
    ensures
        str_views(r@) == seq!["--verify"@, "--quiet"@, rev@ + "^{commit}"@],
{
    let mut r: Vec<String> = Vec::new();
    push_str(&mut r, "--verify");
    push_str(&mut r, "--quiet");
    let mut last = String::from_str(rev);
    last.append("^{commit}");
    push_str(&mut r, last.as_str());
    assert(str_views(r@) =~= seq!["--verify"@, "--quiet"@, rev@ + "^{commit}"@]);
    r
}

/// The probe that asks whether there is a HEAD.
pub fn head_args() -> (r: Vec<String>)
    ensures
        str_views(r@) == seq!["--verify"@, "--quiet"@, "HEAD"@],
{
    let mut r: Vec<String> = Vec::new();
    push_str(&mut r, "--verify");
    push_str(&mut r, "--quiet");
    push_str(&mut r, "HEAD");
    assert(str_views(r@) =~= seq!["--verify"@, "--quiet"@, "HEAD"@]);
    r
}

/// An omitted end of a range means HEAD, which is what git means by it.
pub open spec fn or_head(end: Seq<char>) -> Seq<char> {
    if end.len() == 0 { "HEAD"@ } else { end }
}

/// `A..B` or `A...B` split into its two ends; `...` is tried first, or the merge-base form would
/// split into a name and `.B`.
pub open spec fn range_ends(token: Seq<char>) -> Option<(Seq<char>, Seq<char>)> {
    match split_once(token, "..."@) {
        Some((l, r)) => Some((or_head(l), or_head(r))),
        None => match split_once(token, ".."@) {
            Some((l, r)) => Some((or_head(l), or_head(r))),
            None => None,
        },
    }
}

fn or_head_exec(end: Vec<char>) -> (r: String)
    ensures
        r@ == or_head(end@),
{
    if end.len() == 0 { String::from_str("HEAD") } else { string_of(&end) }
}

/// Split `A..B` or `A...B` into its two ends, an omitted end meaning HEAD.
pub fn split_range(token: &str) -> (r: Option<(String, String)>)
    ensures
        match r {
            Some((a, b)) => range_ends(token@) == Some((a@, b@)),
            None => range_ends(token@) is None,
        },
{
    let v = chars_of(token);
    let three = chars_of("...");
    match split_once_exec(&v, &three) {
        Some((l, r)) => return Some((or_head_exec(l), or_head_exec(r))),
        None => {},
    }
    let two = chars_of("..");
    match split_once_exec(&v, &two) {
        Some((l, r)) => Some((or_head_exec(l), or_head_exec(r))),
        None => None,
    }
}

/// The revisions that have to resolve for a token to name one: both ends of a range, else the
/// token itself.
pub open spec fn revision_ends_of(token: Seq<char>) -> Seq<Seq<char>> {
    match range_ends(token) {
        Some((l, r)) => seq![l, r],
        None => seq![token],
    }
}

/// What to ask git about, to learn whether a token names a revision: a range is checked end by
/// end, because `--verify` asks about single revisions.
pub fn revision_ends(token: &str) -> (r: Vec<String>)
    ensures
        str_views(r@) == revision_ends_of(token@),
{
    let r = match split_range(token) {
        Some((l, r)) => vec![l, r],
        None => vec![String::from_str(token)],
    };
    assert(str_views(r@) =~= revision_ends_of(token@));
    r
}

/// The message that refuses reflog syntax.
pub open spec fn reflog_message(token: Seq<char>) -> Seq<char> {
    "`"@ + token + "` is reflog syntax, and this tool does not read the reflog · address the commit itself"@
}

/// Revisions this tool will not read, refused by name rather than left to fail elsewhere.
pub fn refuse_reflog(token: &str) -> (r: Result<(), Fail>)
    ensures
        match r {
            Ok(()) => !contains(token@, "@{"@),
            Err(f) => contains(token@, "@{"@) && f.exit == Exit::Usage && f.message@ == reflog_message(token@),
        },
{
    proof {
        lemma_find_contains(token@, "@{"@);
    }
    if crate::text::find_exec(&chars_of(token), &chars_of("@{")).is_some() {
        let mut m = String::from_str("`");
        m.append(token);
        m.append("` is reflog syntax, and this tool does not read the reflog · address the commit itself");
        return Err(Fail::usage(m));
    }
    proof {
        crate::render::lemma_find_bounds_pub(token@, "@{"@);
        lemma_find_contains(token@, "@{"@);
    }
    Ok(())
}

pub proof fn lemma_find_contains(s: Seq<char>, p: Seq<char>)
    ensures
        (crate::text::find(s, p) is Some) == contains(s, p),
    decreases s.len(),
{
    crate::render::lemma_find_bounds_pub(s, p);
    match crate::text::find(s, p) {
        Some(i) => {
            lemma_find_at(s, p);
            assert(crate::text::occurs_at(s, p, i));
        },
        None => {
            if contains(s, p) {
                let i = choose|i: int| crate::text::occurs_at(s, p, i);
                lemma_no_find(s, p, i);
            }
        },
    }
}

proof fn lemma_find_at(s: Seq<char>, p: Seq<char>)
    requires
        crate::text::find(s, p) is Some,
    ensures
        crate::text::find(s, p) matches Some(i) && s.subrange(i, i + p.len()) == p,
    decreases s.len(),
{
    crate::render::lemma_find_bounds_pub(s, p);
    if s.take(p.len() as int) == p {
        assert(s.subrange(0, p.len() as int) =~= s.take(p.len() as int));
    } else {
        lemma_find_at(s.drop_first(), p);
        crate::render::lemma_find_bounds_pub(s.drop_first(), p);
        let i = crate::text::find(s.drop_first(), p)->0;
        assert(s.subrange(i + 1, i + 1 + p.len()) =~= s.drop_first().subrange(i, i + p.len()));
    }
}

proof fn lemma_no_find(s: Seq<char>, p: Seq<char>, i: int)
    requires
        crate::text::occurs_at(s, p, i),
    ensures
        crate::text::find(s, p) is Some,
    decreases s.len(),
{
    if p.len() <= s.len() && s.take(p.len() as int) != p && s.len() > 0 {
        if i == 0 {
            assert(s.take(p.len() as int) =~= s.subrange(0, p.len() as int));
        } else {
            assert(s.drop_first().subrange(i - 1, i - 1 + p.len()) =~= s.subrange(i, i + p.len()));
            lemma_no_find(s.drop_first(), p, i - 1);
        }
    }
}

/// A character a revision may hold.
pub open spec fn rev_char(c: char) -> bool {
    ('a' <= c && c <= 'z') || ('A' <= c && c <= 'Z') || ('0' <= c && c <= '9')
        || c == '.' || c == '_' || c == '/' || c == '-' || c == '^' || c == '~' || c == '@'
}

/// What a revision the caller supplied is, validated: the token, or the reason it is refused.
pub open spec fn rev_of(token: Seq<char>) -> Result<Seq<char>, Seq<char>> {
    if token.len() == 0 {
        Err("empty revision"@)
    } else if token[0] == '-' {
        Err("`"@ + token + "` starts with `-`, which git would read as a flag"@)
    } else if contains(token, "@{"@) {
        Err(reflog_message(token))
    } else if token.contains('{') || token.contains('}') {
        Err("`"@ + token + "` is brace syntax, which this tool does not pass to git"@)
    } else if !(forall|i: int| 0 <= i < token.len() ==> rev_char(#[trigger] token[i])) {
        Err("`"@ + token + "` is not a revision this tool will pass to git"@)
    } else {
        Ok(token)
    }
}

fn rev_char_exec(c: char) -> (r: bool)
    ensures
        r == rev_char(c),
{
    ('a' <= c && c <= 'z') || ('A' <= c && c <= 'Z') || ('0' <= c && c <= '9')
        || c == '.' || c == '_' || c == '/' || c == '-' || c == '^' || c == '~' || c == '@'
}

/// A revision the caller supplied, validated. Conservative on purpose: names, ancestry and
/// separators are enough for everything this tool answers, and `{`, `}` are not in the set.
pub fn rev(token: &str) -> (r: Result<String, Fail>)
    ensures
        match r {
            Ok(t) => rev_of(token@) == Ok::<Seq<char>, Seq<char>>(t@),
            Err(f) => f.exit == Exit::Usage && rev_of(token@) == Err::<Seq<char>, Seq<char>>(f.message@),
        },
{
    let v = chars_of(token);
    if v.len() == 0 {
        return Err(Fail::usage(String::from_str("empty revision")));
    }
    if v[0] == '-' {
        let mut m = String::from_str("`");
        m.append(token);
        m.append("` starts with `-`, which git would read as a flag");
        return Err(Fail::usage(m));
    }
    match refuse_reflog(token) {
        Err(f) => return Err(f),
        Ok(()) => {},
    }
    let mut braces = false;
    let mut plain = true;
    let mut i: usize = 0;
    while i < v.len()
        invariant
            i <= v@.len(),
            braces == (exists|k: int| 0 <= k < i && (v@[k] == '{' || v@[k] == '}')),
            plain == (forall|k: int| 0 <= k < i ==> rev_char(#[trigger] v@[k])),
        decreases v.len() - i,
    {
        if v[i] == '{' || v[i] == '}' {
            braces = true;
        }
        if !rev_char_exec(v[i]) {
            plain = false;
        }
        i = i + 1;
    }
    proof {
        if braces {
            let k = choose|k: int| 0 <= k < v@.len() && (v@[k] == '{' || v@[k] == '}');
            if v@[k] == '{' {
                assert(token@.contains('{'));
            } else {
                assert(token@.contains('}'));
            }
        }
    }
    if braces {
        let mut m = String::from_str("`");
        m.append(token);
        m.append("` is brace syntax, which this tool does not pass to git");
        return Err(Fail::usage(m));
    }
    if !plain {
        let mut m = String::from_str("`");
        m.append(token);
        m.append("` is not a revision this tool will pass to git");
        return Err(Fail::usage(m));
    }
    Ok(String::from_str(token))
}

/// Pathspecs go after `--`: it is what makes a path beginning with `-` a path rather than a flag.
pub fn with_paths(argv: &mut Vec<String>, paths: &Vec<String>)
    ensures
        str_views(final(argv)@) == str_views(old(argv)@) + (if paths@.len() == 0 {
            Seq::<Seq<char>>::empty()
        } else {
            seq!["--"@] + str_views(paths@)
        }),
{
    if paths.len() == 0 {
        assert(str_views(argv@) =~= str_views(argv@) + Seq::<Seq<char>>::empty());
        return;
    }
    let ghost start = str_views(argv@);
    push_str(argv, "--");
    let mut i: usize = 0;
    assert(str_views(paths@).take(0) =~= Seq::<Seq<char>>::empty());
    while i < paths.len()
        invariant
            i <= paths@.len(),
            str_views(argv@) == start + seq!["--"@] + str_views(paths@).take(i as int),
        decreases paths.len() - i,
    {
        push_str(argv, paths[i].as_str());
        assert(str_views(argv@) =~= start + seq!["--"@] + str_views(paths@).take(i + 1));
        i = i + 1;
    }
    assert(str_views(paths@).take(paths@.len() as int) =~= str_views(paths@));
}

pub open spec fn static_views(v: Seq<&'static str>) -> Seq<Seq<char>> {
    v.map_values(|s: &'static str| s@)
}

/// Collect `&str` arguments into the owned form the runner takes.
pub fn owned(args: &Vec<&str>) -> (r: Vec<String>)
    ensures
        str_views(r@) == args@.map_values(|s: &str| s@),
{
    let mut r: Vec<String> = Vec::new();
    let mut i: usize = 0;
    while i < args.len()
        invariant
            i <= args@.len(),
            str_views(r@) == args@.take(i as int).map_values(|s: &str| s@),
        decreases args.len() - i,
    {
        push_str(&mut r, args[i]);
        assert(str_views(r@) =~= args@.take(i + 1).map_values(|s: &str| s@));
        i = i + 1;
    }
    assert(args@.take(args@.len() as int) =~= args@);
    r
}

/// The argument list of one `check-attr` run: the attribute, `--`, then the paths.
pub fn check_attr_args(chunk: &Vec<String>) -> (r: Vec<String>)
    ensures
        str_views(r@) == seq!["filter"@, "--"@] + str_views(chunk@),
{
    let mut r: Vec<String> = Vec::new();
    push_str(&mut r, "filter");
    push_str(&mut r, "--");
    let ghost head = str_views(r@);
    let mut i: usize = 0;
    while i < chunk.len()
        invariant
            i <= chunk@.len(),
            head == seq!["filter"@, "--"@],
            str_views(r@) == head + str_views(chunk@).take(i as int),
        decreases chunk.len() - i,
    {
        push_str(&mut r, chunk[i].as_str());
        assert(str_views(r@) =~= head + str_views(chunk@).take(i + 1));
        i = i + 1;
    }
    assert(str_views(chunk@).take(chunk@.len() as int) =~= str_views(chunk@));
    r
}

/// The paths in runs of at most `size`, in order: `slice::chunks`.
pub fn chunks(paths: &Vec<String>, size: usize) -> (r: Vec<Vec<String>>)
    requires
        size > 0,
    ensures
        r@.len() == (if paths@.len() == 0 { 0 } else { (paths@.len() - 1) as nat / size as nat + 1 }),
        forall|k: int| 0 <= k < r@.len() ==> str_views((#[trigger] r@[k])@)
            == str_views(paths@).subrange(k * size, if (k + 1) * size <= paths@.len() { (k + 1) * size } else { paths@.len() as int }),
{
    let mut r: Vec<Vec<String>> = Vec::new();
    let mut start: usize = 0;
    let n = paths.len();
    while start < n
        invariant
            n == paths@.len(),
            start <= n,
            size > 0,
            start == r@.len() * size,
            r@.len() == (if start == 0 { 0 } else { (start - 1) as nat / size as nat + 1 }),
            forall|k: int| 0 <= k < r@.len() ==> str_views((#[trigger] r@[k])@)
                == str_views(paths@).subrange(k * size, if (k + 1) * size <= paths@.len() { (k + 1) * size } else { paths@.len() as int }),
        decreases n - start,
    {
        let end = if n - start > size { start + size } else { n };
        let mut chunk: Vec<String> = Vec::new();
        let mut i = start;
        while i < end
            invariant
                start <= i <= end <= n,
                n == paths@.len(),
                str_views(chunk@) == str_views(paths@).subrange(start as int, i as int),
            decreases end - i,
        {
            push_str(&mut chunk, paths[i].as_str());
            assert(str_views(chunk@) =~= str_views(paths@).subrange(start as int, i + 1));
            i = i + 1;
        }
        let ghost k = r@.len() as int;
        r.push(chunk);
        proof {
            assert(k * size == start);
            assert((k + 1) * size == start + size) by (nonlinear_arith)
                requires k * size == start;
            if n - start > size {
                assert((k + 1) * size <= n);
            } else {
                assert((k + 1) * size >= n);
            }
        }
        let next = end;
        proof {
            if n - start > size {
                assert(next == (k + 1) * size);
            }
        }
        if n - start > size {
            start = start + size;
            proof {
                assert((start - 1) as nat / size as nat == k) by (nonlinear_arith)
                    requires start == (k + 1) * size, size > 0, k >= 0;
            }
        } else {
            proof {
                assert((n - 1) as nat / size as nat == k) by (nonlinear_arith)
                    requires k * size < n, n <= (k + 1) * size, size > 0, k >= 0;
            }
            start = n;
            assert(r@.len() == (n - 1) as nat / size as nat + 1);
            assert(r@.len() * size >= n) by (nonlinear_arith)
                requires r@.len() == k + 1, (k + 1) * size >= n;
            return r;
        }
    }
    r
}

/// One line of `check-attr`'s output, split from the right because a path may contain
/// `: filter: `.
pub open spec fn attribute_of(line: Seq<char>) -> Option<(Seq<char>, Seq<char>)> {
    rsplit_once(line, ": filter: "@)
}

pub open spec fn attributes_of(ls: Seq<Seq<char>>) -> Seq<(Seq<char>, Seq<char>)>
    decreases ls.len(),
{
    if ls.len() == 0 {
        seq![]
    } else {
        let rest = attributes_of(ls.drop_last());
        match attribute_of(ls.last()) {
            Some(pair) => rest.push(pair),
            None => rest,
        }
    }
}

pub open spec fn pair_views(v: Seq<(String, String)>) -> Seq<(Seq<char>, Seq<char>)>
    decreases v.len(),
{
    if v.len() == 0 { seq![] } else { pair_views(v.drop_last()).push((v.last().0@, v.last().1@)) }
}

/// The `filter` attribute of each path, from what `check-attr` printed for each chunk of them.
pub fn check_filter_attribute(outputs: &Vec<String>) -> (r: Vec<(String, String)>)
    ensures
        pair_views(r@) == filter_attributes(str_views(outputs@)),
{
    let ghost ov = str_views(outputs@);
    let mut r: Vec<(String, String)> = Vec::new();
    let mut i: usize = 0;
    assert(ov.take(0) =~= Seq::<Seq<char>>::empty());
    while i < outputs.len()
        invariant
            i <= outputs@.len(),
            ov == str_views(outputs@),
            pair_views(r@) == filter_attributes(ov.take(i as int)),
        decreases outputs.len() - i,
    {
        assert(ov.take(i + 1).drop_last() =~= ov.take(i as int));
        let more = parse_check_attr(outputs[i].as_str());
        let mut k: usize = 0;
        let ghost start = pair_views(r@);
        assert(pair_views(more@).take(0) =~= Seq::<(Seq<char>, Seq<char>)>::empty());
        while k < more.len()
            invariant
                k <= more@.len(),
                pair_views(r@) == start + pair_views(more@.take(k as int)),
            decreases more.len() - k,
        {
            let ghost before = r@;
            r.push((more[k].0.clone(), more[k].1.clone()));
            assert(more@.take(k + 1).drop_last() =~= more@.take(k as int));
            assert(r@.drop_last() =~= before);
            assert(pair_views(r@) =~= start + pair_views(more@.take(k + 1)));
            k = k + 1;
        }
        assert(more@.take(more@.len() as int) =~= more@);
        i = i + 1;
    }
    assert(ov.take(outputs@.len() as int) =~= ov);
    r
}

/// The attributes of every chunk's output, in order.
pub open spec fn filter_attributes(outputs: Seq<Seq<char>>) -> Seq<(Seq<char>, Seq<char>)>
    decreases outputs.len(),
{
    if outputs.len() == 0 {
        seq![]
    } else {
        filter_attributes(outputs.drop_last()) + attributes_of(lines(outputs.last()))
    }
}

/// The `filter` attribute of each path `check-attr` reported, as `(path, value)`.
pub fn parse_check_attr(raw: &str) -> (r: Vec<(String, String)>)
    ensures
        pair_views(r@) == attributes_of(lines(raw@)),
{
    let ls = lines_of(&chars_of(raw));
    let ghost lv = views(ls@);
    let sep = chars_of(": filter: ");
    let mut r: Vec<(String, String)> = Vec::new();
    let mut i: usize = 0;
    assert(lv.take(0) =~= Seq::<Seq<char>>::empty());
    while i < ls.len()
        invariant
            i <= ls@.len(),
            lv == views(ls@),
            lv == lines(raw@),
            sep@ == ": filter: "@,
            pair_views(r@) == attributes_of(lv.take(i as int)),
        decreases ls.len() - i,
    {
        assert(lv.take(i + 1).drop_last() =~= lv.take(i as int));
        assert(lv.take(i + 1).last() == ls@[i as int]@);
        match rsplit_once_exec(&ls[i], &sep) {
            Some((path, value)) => {
                let ghost before = r@;
                r.push((string_of(&path), string_of(&value)));
                assert(r@.drop_last() =~= before);
            },
            None => {},
        }
        i = i + 1;
    }
    assert(lv.take(ls@.len() as int) =~= lv);
    r
}

/// The words of [`MUTATING`].
pub open spec fn mutating_words() -> Seq<Seq<char>> {
    seq!["add"@, "am"@, "apply"@, "branch"@, "checkout"@, "cherry-pick"@, "clean"@, "commit"@, "config"@, "fetch"@, "filter-branch"@, "gc"@, "hash-object"@, "merge"@, "mv"@, "notes"@, "prune"@, "pull"@, "push"@, "rebase"@, "reflog"@, "reset"@, "restore"@, "revert"@, "rm"@, "stash"@, "submodule"@, "switch"@, "tag"@, "update-index"@, "update-ref"@, "worktree"@]
}

/// No git command the tool can run is one a read-only tool must never run: the enum is the
/// boundary, and every noun in it is outside the list of mutating words.
pub proof fn law_no_noun_mutates(n: Noun)
    ensures
        !mutating_words().contains(noun_text(n)),
        static_views(MUTATING@) == mutating_words(),
{
    reveal_strlit("add");
    reveal_strlit("am");
    reveal_strlit("apply");
    reveal_strlit("branch");
    reveal_strlit("checkout");
    reveal_strlit("cherry-pick");
    reveal_strlit("clean");
    reveal_strlit("commit");
    reveal_strlit("config");
    reveal_strlit("fetch");
    reveal_strlit("filter-branch");
    reveal_strlit("gc");
    reveal_strlit("hash-object");
    reveal_strlit("merge");
    reveal_strlit("mv");
    reveal_strlit("notes");
    reveal_strlit("prune");
    reveal_strlit("pull");
    reveal_strlit("push");
    reveal_strlit("rebase");
    reveal_strlit("reflog");
    reveal_strlit("reset");
    reveal_strlit("restore");
    reveal_strlit("revert");
    reveal_strlit("rm");
    reveal_strlit("stash");
    reveal_strlit("submodule");
    reveal_strlit("switch");
    reveal_strlit("tag");
    reveal_strlit("update-index");
    reveal_strlit("update-ref");
    reveal_strlit("worktree");
    assert(static_views(MUTATING@) =~= mutating_words());
    match n {
        Noun::Blame => {
            reveal_strlit("blame");
            assert(mutating_words()[0].len() != "blame"@.len());
            assert(mutating_words()[1].len() != "blame"@.len());
            assert(mutating_words()[2][0] != "blame"@[0]);
            assert(mutating_words()[3].len() != "blame"@.len());
            assert(mutating_words()[4].len() != "blame"@.len());
            assert(mutating_words()[5].len() != "blame"@.len());
            assert(mutating_words()[6][0] != "blame"@[0]);
            assert(mutating_words()[7].len() != "blame"@.len());
            assert(mutating_words()[8].len() != "blame"@.len());
            assert(mutating_words()[9][0] != "blame"@[0]);
            assert(mutating_words()[10].len() != "blame"@.len());
            assert(mutating_words()[11].len() != "blame"@.len());
            assert(mutating_words()[12].len() != "blame"@.len());
            assert(mutating_words()[13][0] != "blame"@[0]);
            assert(mutating_words()[14].len() != "blame"@.len());
            assert(mutating_words()[15][0] != "blame"@[0]);
            assert(mutating_words()[16][0] != "blame"@[0]);
            assert(mutating_words()[17].len() != "blame"@.len());
            assert(mutating_words()[18].len() != "blame"@.len());
            assert(mutating_words()[19].len() != "blame"@.len());
            assert(mutating_words()[20].len() != "blame"@.len());
            assert(mutating_words()[21][0] != "blame"@[0]);
            assert(mutating_words()[22].len() != "blame"@.len());
            assert(mutating_words()[23].len() != "blame"@.len());
            assert(mutating_words()[24].len() != "blame"@.len());
            assert(mutating_words()[25][0] != "blame"@[0]);
            assert(mutating_words()[26].len() != "blame"@.len());
            assert(mutating_words()[27].len() != "blame"@.len());
            assert(mutating_words()[28].len() != "blame"@.len());
            assert(mutating_words()[29].len() != "blame"@.len());
            assert(mutating_words()[30].len() != "blame"@.len());
            assert(mutating_words()[31].len() != "blame"@.len());
            assert forall|i: int| 0 <= i < 32 implies mutating_words()[i] != "blame"@ by {
                if i == 0 {} else if i == 1 {} else if i == 2 {} else if i == 3 {} else if i == 4 {} else if i == 5 {} else if i == 6 {} else if i == 7 {} else if i == 8 {} else if i == 9 {} else if i == 10 {} else if i == 11 {} else if i == 12 {} else if i == 13 {} else if i == 14 {} else if i == 15 {} else if i == 16 {} else if i == 17 {} else if i == 18 {} else if i == 19 {} else if i == 20 {} else if i == 21 {} else if i == 22 {} else if i == 23 {} else if i == 24 {} else if i == 25 {} else if i == 26 {} else if i == 27 {} else if i == 28 {} else if i == 29 {} else if i == 30 {} else if i == 31 {}
            }
        },
        Noun::CatFile => {
            reveal_strlit("cat-file");
            assert(mutating_words()[0].len() != "cat-file"@.len());
            assert(mutating_words()[1].len() != "cat-file"@.len());
            assert(mutating_words()[2].len() != "cat-file"@.len());
            assert(mutating_words()[3].len() != "cat-file"@.len());
            assert(mutating_words()[4][1] != "cat-file"@[1]);
            assert(mutating_words()[5].len() != "cat-file"@.len());
            assert(mutating_words()[6].len() != "cat-file"@.len());
            assert(mutating_words()[7].len() != "cat-file"@.len());
            assert(mutating_words()[8].len() != "cat-file"@.len());
            assert(mutating_words()[9].len() != "cat-file"@.len());
            assert(mutating_words()[10].len() != "cat-file"@.len());
            assert(mutating_words()[11].len() != "cat-file"@.len());
            assert(mutating_words()[12].len() != "cat-file"@.len());
            assert(mutating_words()[13].len() != "cat-file"@.len());
            assert(mutating_words()[14].len() != "cat-file"@.len());
            assert(mutating_words()[15].len() != "cat-file"@.len());
            assert(mutating_words()[16].len() != "cat-file"@.len());
            assert(mutating_words()[17].len() != "cat-file"@.len());
            assert(mutating_words()[18].len() != "cat-file"@.len());
            assert(mutating_words()[19].len() != "cat-file"@.len());
            assert(mutating_words()[20].len() != "cat-file"@.len());
            assert(mutating_words()[21].len() != "cat-file"@.len());
            assert(mutating_words()[22].len() != "cat-file"@.len());
            assert(mutating_words()[23].len() != "cat-file"@.len());
            assert(mutating_words()[24].len() != "cat-file"@.len());
            assert(mutating_words()[25].len() != "cat-file"@.len());
            assert(mutating_words()[26].len() != "cat-file"@.len());
            assert(mutating_words()[27].len() != "cat-file"@.len());
            assert(mutating_words()[28].len() != "cat-file"@.len());
            assert(mutating_words()[29].len() != "cat-file"@.len());
            assert(mutating_words()[30].len() != "cat-file"@.len());
            assert(mutating_words()[31][0] != "cat-file"@[0]);
            assert forall|i: int| 0 <= i < 32 implies mutating_words()[i] != "cat-file"@ by {
                if i == 0 {} else if i == 1 {} else if i == 2 {} else if i == 3 {} else if i == 4 {} else if i == 5 {} else if i == 6 {} else if i == 7 {} else if i == 8 {} else if i == 9 {} else if i == 10 {} else if i == 11 {} else if i == 12 {} else if i == 13 {} else if i == 14 {} else if i == 15 {} else if i == 16 {} else if i == 17 {} else if i == 18 {} else if i == 19 {} else if i == 20 {} else if i == 21 {} else if i == 22 {} else if i == 23 {} else if i == 24 {} else if i == 25 {} else if i == 26 {} else if i == 27 {} else if i == 28 {} else if i == 29 {} else if i == 30 {} else if i == 31 {}
            }
        },
        Noun::CheckAttr => {
            reveal_strlit("check-attr");
            assert(mutating_words()[0].len() != "check-attr"@.len());
            assert(mutating_words()[1].len() != "check-attr"@.len());
            assert(mutating_words()[2].len() != "check-attr"@.len());
            assert(mutating_words()[3].len() != "check-attr"@.len());
            assert(mutating_words()[4].len() != "check-attr"@.len());
            assert(mutating_words()[5].len() != "check-attr"@.len());
            assert(mutating_words()[6].len() != "check-attr"@.len());
            assert(mutating_words()[7].len() != "check-attr"@.len());
            assert(mutating_words()[8].len() != "check-attr"@.len());
            assert(mutating_words()[9].len() != "check-attr"@.len());
            assert(mutating_words()[10].len() != "check-attr"@.len());
            assert(mutating_words()[11].len() != "check-attr"@.len());
            assert(mutating_words()[12].len() != "check-attr"@.len());
            assert(mutating_words()[13].len() != "check-attr"@.len());
            assert(mutating_words()[14].len() != "check-attr"@.len());
            assert(mutating_words()[15].len() != "check-attr"@.len());
            assert(mutating_words()[16].len() != "check-attr"@.len());
            assert(mutating_words()[17].len() != "check-attr"@.len());
            assert(mutating_words()[18].len() != "check-attr"@.len());
            assert(mutating_words()[19].len() != "check-attr"@.len());
            assert(mutating_words()[20].len() != "check-attr"@.len());
            assert(mutating_words()[21].len() != "check-attr"@.len());
            assert(mutating_words()[22].len() != "check-attr"@.len());
            assert(mutating_words()[23].len() != "check-attr"@.len());
            assert(mutating_words()[24].len() != "check-attr"@.len());
            assert(mutating_words()[25].len() != "check-attr"@.len());
            assert(mutating_words()[26].len() != "check-attr"@.len());
            assert(mutating_words()[27].len() != "check-attr"@.len());
            assert(mutating_words()[28].len() != "check-attr"@.len());
            assert(mutating_words()[29].len() != "check-attr"@.len());
            assert(mutating_words()[30][0] != "check-attr"@[0]);
            assert(mutating_words()[31].len() != "check-attr"@.len());
            assert forall|i: int| 0 <= i < 32 implies mutating_words()[i] != "check-attr"@ by {
                if i == 0 {} else if i == 1 {} else if i == 2 {} else if i == 3 {} else if i == 4 {} else if i == 5 {} else if i == 6 {} else if i == 7 {} else if i == 8 {} else if i == 9 {} else if i == 10 {} else if i == 11 {} else if i == 12 {} else if i == 13 {} else if i == 14 {} else if i == 15 {} else if i == 16 {} else if i == 17 {} else if i == 18 {} else if i == 19 {} else if i == 20 {} else if i == 21 {} else if i == 22 {} else if i == 23 {} else if i == 24 {} else if i == 25 {} else if i == 26 {} else if i == 27 {} else if i == 28 {} else if i == 29 {} else if i == 30 {} else if i == 31 {}
            }
        },
        Noun::Diff => {
            reveal_strlit("diff");
            assert(mutating_words()[0].len() != "diff"@.len());
            assert(mutating_words()[1].len() != "diff"@.len());
            assert(mutating_words()[2].len() != "diff"@.len());
            assert(mutating_words()[3].len() != "diff"@.len());
            assert(mutating_words()[4].len() != "diff"@.len());
            assert(mutating_words()[5].len() != "diff"@.len());
            assert(mutating_words()[6].len() != "diff"@.len());
            assert(mutating_words()[7].len() != "diff"@.len());
            assert(mutating_words()[8].len() != "diff"@.len());
            assert(mutating_words()[9].len() != "diff"@.len());
            assert(mutating_words()[10].len() != "diff"@.len());
            assert(mutating_words()[11].len() != "diff"@.len());
            assert(mutating_words()[12].len() != "diff"@.len());
            assert(mutating_words()[13].len() != "diff"@.len());
            assert(mutating_words()[14].len() != "diff"@.len());
            assert(mutating_words()[15].len() != "diff"@.len());
            assert(mutating_words()[16].len() != "diff"@.len());
            assert(mutating_words()[17][0] != "diff"@[0]);
            assert(mutating_words()[18][0] != "diff"@[0]);
            assert(mutating_words()[19].len() != "diff"@.len());
            assert(mutating_words()[20].len() != "diff"@.len());
            assert(mutating_words()[21].len() != "diff"@.len());
            assert(mutating_words()[22].len() != "diff"@.len());
            assert(mutating_words()[23].len() != "diff"@.len());
            assert(mutating_words()[24].len() != "diff"@.len());
            assert(mutating_words()[25].len() != "diff"@.len());
            assert(mutating_words()[26].len() != "diff"@.len());
            assert(mutating_words()[27].len() != "diff"@.len());
            assert(mutating_words()[28].len() != "diff"@.len());
            assert(mutating_words()[29].len() != "diff"@.len());
            assert(mutating_words()[30].len() != "diff"@.len());
            assert(mutating_words()[31].len() != "diff"@.len());
            assert forall|i: int| 0 <= i < 32 implies mutating_words()[i] != "diff"@ by {
                if i == 0 {} else if i == 1 {} else if i == 2 {} else if i == 3 {} else if i == 4 {} else if i == 5 {} else if i == 6 {} else if i == 7 {} else if i == 8 {} else if i == 9 {} else if i == 10 {} else if i == 11 {} else if i == 12 {} else if i == 13 {} else if i == 14 {} else if i == 15 {} else if i == 16 {} else if i == 17 {} else if i == 18 {} else if i == 19 {} else if i == 20 {} else if i == 21 {} else if i == 22 {} else if i == 23 {} else if i == 24 {} else if i == 25 {} else if i == 26 {} else if i == 27 {} else if i == 28 {} else if i == 29 {} else if i == 30 {} else if i == 31 {}
            }
        },
        Noun::ForEachRef => {
            reveal_strlit("for-each-ref");
            assert(mutating_words()[0].len() != "for-each-ref"@.len());
            assert(mutating_words()[1].len() != "for-each-ref"@.len());
            assert(mutating_words()[2].len() != "for-each-ref"@.len());
            assert(mutating_words()[3].len() != "for-each-ref"@.len());
            assert(mutating_words()[4].len() != "for-each-ref"@.len());
            assert(mutating_words()[5].len() != "for-each-ref"@.len());
            assert(mutating_words()[6].len() != "for-each-ref"@.len());
            assert(mutating_words()[7].len() != "for-each-ref"@.len());
            assert(mutating_words()[8].len() != "for-each-ref"@.len());
            assert(mutating_words()[9].len() != "for-each-ref"@.len());
            assert(mutating_words()[10].len() != "for-each-ref"@.len());
            assert(mutating_words()[11].len() != "for-each-ref"@.len());
            assert(mutating_words()[12].len() != "for-each-ref"@.len());
            assert(mutating_words()[13].len() != "for-each-ref"@.len());
            assert(mutating_words()[14].len() != "for-each-ref"@.len());
            assert(mutating_words()[15].len() != "for-each-ref"@.len());
            assert(mutating_words()[16].len() != "for-each-ref"@.len());
            assert(mutating_words()[17].len() != "for-each-ref"@.len());
            assert(mutating_words()[18].len() != "for-each-ref"@.len());
            assert(mutating_words()[19].len() != "for-each-ref"@.len());
            assert(mutating_words()[20].len() != "for-each-ref"@.len());
            assert(mutating_words()[21].len() != "for-each-ref"@.len());
            assert(mutating_words()[22].len() != "for-each-ref"@.len());
            assert(mutating_words()[23].len() != "for-each-ref"@.len());
            assert(mutating_words()[24].len() != "for-each-ref"@.len());
            assert(mutating_words()[25].len() != "for-each-ref"@.len());
            assert(mutating_words()[26].len() != "for-each-ref"@.len());
            assert(mutating_words()[27].len() != "for-each-ref"@.len());
            assert(mutating_words()[28].len() != "for-each-ref"@.len());
            assert(mutating_words()[29][0] != "for-each-ref"@[0]);
            assert(mutating_words()[30].len() != "for-each-ref"@.len());
            assert(mutating_words()[31].len() != "for-each-ref"@.len());
            assert forall|i: int| 0 <= i < 32 implies mutating_words()[i] != "for-each-ref"@ by {
                if i == 0 {} else if i == 1 {} else if i == 2 {} else if i == 3 {} else if i == 4 {} else if i == 5 {} else if i == 6 {} else if i == 7 {} else if i == 8 {} else if i == 9 {} else if i == 10 {} else if i == 11 {} else if i == 12 {} else if i == 13 {} else if i == 14 {} else if i == 15 {} else if i == 16 {} else if i == 17 {} else if i == 18 {} else if i == 19 {} else if i == 20 {} else if i == 21 {} else if i == 22 {} else if i == 23 {} else if i == 24 {} else if i == 25 {} else if i == 26 {} else if i == 27 {} else if i == 28 {} else if i == 29 {} else if i == 30 {} else if i == 31 {}
            }
        },
        Noun::Log => {
            reveal_strlit("log");
            assert(mutating_words()[0][0] != "log"@[0]);
            assert(mutating_words()[1].len() != "log"@.len());
            assert(mutating_words()[2].len() != "log"@.len());
            assert(mutating_words()[3].len() != "log"@.len());
            assert(mutating_words()[4].len() != "log"@.len());
            assert(mutating_words()[5].len() != "log"@.len());
            assert(mutating_words()[6].len() != "log"@.len());
            assert(mutating_words()[7].len() != "log"@.len());
            assert(mutating_words()[8].len() != "log"@.len());
            assert(mutating_words()[9].len() != "log"@.len());
            assert(mutating_words()[10].len() != "log"@.len());
            assert(mutating_words()[11].len() != "log"@.len());
            assert(mutating_words()[12].len() != "log"@.len());
            assert(mutating_words()[13].len() != "log"@.len());
            assert(mutating_words()[14].len() != "log"@.len());
            assert(mutating_words()[15].len() != "log"@.len());
            assert(mutating_words()[16].len() != "log"@.len());
            assert(mutating_words()[17].len() != "log"@.len());
            assert(mutating_words()[18].len() != "log"@.len());
            assert(mutating_words()[19].len() != "log"@.len());
            assert(mutating_words()[20].len() != "log"@.len());
            assert(mutating_words()[21].len() != "log"@.len());
            assert(mutating_words()[22].len() != "log"@.len());
            assert(mutating_words()[23].len() != "log"@.len());
            assert(mutating_words()[24].len() != "log"@.len());
            assert(mutating_words()[25].len() != "log"@.len());
            assert(mutating_words()[26].len() != "log"@.len());
            assert(mutating_words()[27].len() != "log"@.len());
            assert(mutating_words()[28][0] != "log"@[0]);
            assert(mutating_words()[29].len() != "log"@.len());
            assert(mutating_words()[30].len() != "log"@.len());
            assert(mutating_words()[31].len() != "log"@.len());
            assert forall|i: int| 0 <= i < 32 implies mutating_words()[i] != "log"@ by {
                if i == 0 {} else if i == 1 {} else if i == 2 {} else if i == 3 {} else if i == 4 {} else if i == 5 {} else if i == 6 {} else if i == 7 {} else if i == 8 {} else if i == 9 {} else if i == 10 {} else if i == 11 {} else if i == 12 {} else if i == 13 {} else if i == 14 {} else if i == 15 {} else if i == 16 {} else if i == 17 {} else if i == 18 {} else if i == 19 {} else if i == 20 {} else if i == 21 {} else if i == 22 {} else if i == 23 {} else if i == 24 {} else if i == 25 {} else if i == 26 {} else if i == 27 {} else if i == 28 {} else if i == 29 {} else if i == 30 {} else if i == 31 {}
            }
        },
        Noun::RevList => {
            reveal_strlit("rev-list");
            assert(mutating_words()[0].len() != "rev-list"@.len());
            assert(mutating_words()[1].len() != "rev-list"@.len());
            assert(mutating_words()[2].len() != "rev-list"@.len());
            assert(mutating_words()[3].len() != "rev-list"@.len());
            assert(mutating_words()[4][0] != "rev-list"@[0]);
            assert(mutating_words()[5].len() != "rev-list"@.len());
            assert(mutating_words()[6].len() != "rev-list"@.len());
            assert(mutating_words()[7].len() != "rev-list"@.len());
            assert(mutating_words()[8].len() != "rev-list"@.len());
            assert(mutating_words()[9].len() != "rev-list"@.len());
            assert(mutating_words()[10].len() != "rev-list"@.len());
            assert(mutating_words()[11].len() != "rev-list"@.len());
            assert(mutating_words()[12].len() != "rev-list"@.len());
            assert(mutating_words()[13].len() != "rev-list"@.len());
            assert(mutating_words()[14].len() != "rev-list"@.len());
            assert(mutating_words()[15].len() != "rev-list"@.len());
            assert(mutating_words()[16].len() != "rev-list"@.len());
            assert(mutating_words()[17].len() != "rev-list"@.len());
            assert(mutating_words()[18].len() != "rev-list"@.len());
            assert(mutating_words()[19].len() != "rev-list"@.len());
            assert(mutating_words()[20].len() != "rev-list"@.len());
            assert(mutating_words()[21].len() != "rev-list"@.len());
            assert(mutating_words()[22].len() != "rev-list"@.len());
            assert(mutating_words()[23].len() != "rev-list"@.len());
            assert(mutating_words()[24].len() != "rev-list"@.len());
            assert(mutating_words()[25].len() != "rev-list"@.len());
            assert(mutating_words()[26].len() != "rev-list"@.len());
            assert(mutating_words()[27].len() != "rev-list"@.len());
            assert(mutating_words()[28].len() != "rev-list"@.len());
            assert(mutating_words()[29].len() != "rev-list"@.len());
            assert(mutating_words()[30].len() != "rev-list"@.len());
            assert(mutating_words()[31][0] != "rev-list"@[0]);
            assert forall|i: int| 0 <= i < 32 implies mutating_words()[i] != "rev-list"@ by {
                if i == 0 {} else if i == 1 {} else if i == 2 {} else if i == 3 {} else if i == 4 {} else if i == 5 {} else if i == 6 {} else if i == 7 {} else if i == 8 {} else if i == 9 {} else if i == 10 {} else if i == 11 {} else if i == 12 {} else if i == 13 {} else if i == 14 {} else if i == 15 {} else if i == 16 {} else if i == 17 {} else if i == 18 {} else if i == 19 {} else if i == 20 {} else if i == 21 {} else if i == 22 {} else if i == 23 {} else if i == 24 {} else if i == 25 {} else if i == 26 {} else if i == 27 {} else if i == 28 {} else if i == 29 {} else if i == 30 {} else if i == 31 {}
            }
        },
        Noun::RevParse => {
            reveal_strlit("rev-parse");
            assert(mutating_words()[0].len() != "rev-parse"@.len());
            assert(mutating_words()[1].len() != "rev-parse"@.len());
            assert(mutating_words()[2].len() != "rev-parse"@.len());
            assert(mutating_words()[3].len() != "rev-parse"@.len());
            assert(mutating_words()[4].len() != "rev-parse"@.len());
            assert(mutating_words()[5].len() != "rev-parse"@.len());
            assert(mutating_words()[6].len() != "rev-parse"@.len());
            assert(mutating_words()[7].len() != "rev-parse"@.len());
            assert(mutating_words()[8].len() != "rev-parse"@.len());
            assert(mutating_words()[9].len() != "rev-parse"@.len());
            assert(mutating_words()[10].len() != "rev-parse"@.len());
            assert(mutating_words()[11].len() != "rev-parse"@.len());
            assert(mutating_words()[12].len() != "rev-parse"@.len());
            assert(mutating_words()[13].len() != "rev-parse"@.len());
            assert(mutating_words()[14].len() != "rev-parse"@.len());
            assert(mutating_words()[15].len() != "rev-parse"@.len());
            assert(mutating_words()[16].len() != "rev-parse"@.len());
            assert(mutating_words()[17].len() != "rev-parse"@.len());
            assert(mutating_words()[18].len() != "rev-parse"@.len());
            assert(mutating_words()[19].len() != "rev-parse"@.len());
            assert(mutating_words()[20].len() != "rev-parse"@.len());
            assert(mutating_words()[21].len() != "rev-parse"@.len());
            assert(mutating_words()[22].len() != "rev-parse"@.len());
            assert(mutating_words()[23].len() != "rev-parse"@.len());
            assert(mutating_words()[24].len() != "rev-parse"@.len());
            assert(mutating_words()[25].len() != "rev-parse"@.len());
            assert(mutating_words()[26][0] != "rev-parse"@[0]);
            assert(mutating_words()[27].len() != "rev-parse"@.len());
            assert(mutating_words()[28].len() != "rev-parse"@.len());
            assert(mutating_words()[29].len() != "rev-parse"@.len());
            assert(mutating_words()[30].len() != "rev-parse"@.len());
            assert(mutating_words()[31].len() != "rev-parse"@.len());
            assert forall|i: int| 0 <= i < 32 implies mutating_words()[i] != "rev-parse"@ by {
                if i == 0 {} else if i == 1 {} else if i == 2 {} else if i == 3 {} else if i == 4 {} else if i == 5 {} else if i == 6 {} else if i == 7 {} else if i == 8 {} else if i == 9 {} else if i == 10 {} else if i == 11 {} else if i == 12 {} else if i == 13 {} else if i == 14 {} else if i == 15 {} else if i == 16 {} else if i == 17 {} else if i == 18 {} else if i == 19 {} else if i == 20 {} else if i == 21 {} else if i == 22 {} else if i == 23 {} else if i == 24 {} else if i == 25 {} else if i == 26 {} else if i == 27 {} else if i == 28 {} else if i == 29 {} else if i == 30 {} else if i == 31 {}
            }
        },
        Noun::Status => {
            reveal_strlit("status");
            assert(mutating_words()[0].len() != "status"@.len());
            assert(mutating_words()[1].len() != "status"@.len());
            assert(mutating_words()[2].len() != "status"@.len());
            assert(mutating_words()[3][0] != "status"@[0]);
            assert(mutating_words()[4].len() != "status"@.len());
            assert(mutating_words()[5].len() != "status"@.len());
            assert(mutating_words()[6].len() != "status"@.len());
            assert(mutating_words()[7][0] != "status"@[0]);
            assert(mutating_words()[8][0] != "status"@[0]);
            assert(mutating_words()[9].len() != "status"@.len());
            assert(mutating_words()[10].len() != "status"@.len());
            assert(mutating_words()[11].len() != "status"@.len());
            assert(mutating_words()[12].len() != "status"@.len());
            assert(mutating_words()[13].len() != "status"@.len());
            assert(mutating_words()[14].len() != "status"@.len());
            assert(mutating_words()[15].len() != "status"@.len());
            assert(mutating_words()[16].len() != "status"@.len());
            assert(mutating_words()[17].len() != "status"@.len());
            assert(mutating_words()[18].len() != "status"@.len());
            assert(mutating_words()[19][0] != "status"@[0]);
            assert(mutating_words()[20][0] != "status"@[0]);
            assert(mutating_words()[21].len() != "status"@.len());
            assert(mutating_words()[22].len() != "status"@.len());
            assert(mutating_words()[23][0] != "status"@[0]);
            assert(mutating_words()[24].len() != "status"@.len());
            assert(mutating_words()[25].len() != "status"@.len());
            assert(mutating_words()[26].len() != "status"@.len());
            assert(mutating_words()[27][1] != "status"@[1]);
            assert(mutating_words()[28].len() != "status"@.len());
            assert(mutating_words()[29].len() != "status"@.len());
            assert(mutating_words()[30].len() != "status"@.len());
            assert(mutating_words()[31].len() != "status"@.len());
            assert forall|i: int| 0 <= i < 32 implies mutating_words()[i] != "status"@ by {
                if i == 0 {} else if i == 1 {} else if i == 2 {} else if i == 3 {} else if i == 4 {} else if i == 5 {} else if i == 6 {} else if i == 7 {} else if i == 8 {} else if i == 9 {} else if i == 10 {} else if i == 11 {} else if i == 12 {} else if i == 13 {} else if i == 14 {} else if i == 15 {} else if i == 16 {} else if i == 17 {} else if i == 18 {} else if i == 19 {} else if i == 20 {} else if i == 21 {} else if i == 22 {} else if i == 23 {} else if i == 24 {} else if i == 25 {} else if i == 26 {} else if i == 27 {} else if i == 28 {} else if i == 29 {} else if i == 30 {} else if i == 31 {}
            }
        },
    }
}

} // verus!
