//! Roots, targets and ranges.
//!
//! One tree per invocation: every path must resolve inside the root. The program resolves and
//! canonicalises paths; this module says what a root is called, how a path reads relative to
//! it, and what a target argument — `path:40-60` — asks for.

use vstd::prelude::*;
use vstd::string::StringExecFns;

use crate::contract::Fail;
use crate::text::{
    all_digits, chars_of, decimal, decimal_text, is_digit, push_char, push_chars, slice_of,
    starts_with, starts_with_exec, string_of, unsigned_of, parse_usize,
};

verus! {

// ---------------------------------------------------------------------------------------
// The root
// ---------------------------------------------------------------------------------------

/// The tree an invocation reads: its canonical directory, and the name a header uses for it.
pub struct Root {
    dir: String,
    name: String,
}

/// The position of the last `c` in `s`.
pub open spec fn last_index(s: Seq<char>, c: char) -> Option<int>
    decreases s.len(),
{
    if s.len() == 0 {
        None
    } else if s.last() == c {
        Some(s.len() - 1)
    } else {
        last_index(s.drop_last(), c)
    }
}

/// What a header calls a root: its last path component, or the whole path when it has none.
pub open spec fn root_name(dir: Seq<char>) -> Seq<char> {
    match last_index(dir, '/') {
        Some(k) => if k + 1 < dir.len() { dir.skip(k + 1) } else { dir },
        None => if dir.len() > 0 { dir } else { dir },
    }
}

/// A canonical path lies inside a directory: it is the directory, or extends it by whole
/// components.
pub open spec fn within(path: Seq<char>, dir: Seq<char>) -> bool {
    ||| path == dir
    ||| dir.len() > 0 && dir.last() == '/' && starts_with(path, dir)
    ||| starts_with(path, dir.push('/'))
}

/// A path as a reader wants it: relative to the root when it is inside it, with forward slashes.
pub open spec fn relative_to(path: Seq<char>, dir: Seq<char>) -> Seq<char> {
    let rel = if path == dir {
        Seq::<char>::empty()
    } else if dir.len() > 0 && dir.last() == '/' && starts_with(path, dir) {
        path.skip(dir.len() as int)
    } else if starts_with(path, dir.push('/')) {
        path.skip(dir.len() + 1int)
    } else {
        path
    };
    rel.map_values(|c: char| if c == '\\' { '/' } else { c })
}

pub fn last_index_of(v: &[char], c: char) -> (r: Option<usize>)
    ensures
        match r {
            Some(k) => last_index(v@, c) == Some(k as int) && k < v@.len(),
            None => last_index(v@, c) is None,
        },
{
    let mut k = v.len();
    assert(v@.take(k as int) =~= v@);
    while k > 0
        invariant
            k <= v@.len(),
            last_index(v@, c) == last_index(v@.take(k as int), c),
        decreases k,
    {
        assert(v@.take(k as int).last() == v@[k - 1]);
        if v[k - 1] == c {
            return Some(k - 1);
        }
        assert(v@.take(k as int).drop_last() =~= v@.take(k - 1));
        k = k - 1;
    }
    None
}

impl Root {
    /// A root at a directory the program has canonicalised and found to be a directory.
    pub fn at(dir: &str) -> (r: Root)
        ensures
            r.dir_view() == dir@,
            r.name_view() == root_name(dir@),
    {
        let v = chars_of(dir);
        let name = match last_index_of(&v, '/') {
            Some(k) => {
                if k < v.len() - 1 {
                    assert(v@.subrange(k + 1, v@.len() as int) =~= v@.skip(k + 1));
                    string_of(&slice_of(&v, k + 1, v.len()))
                } else {
                    String::from_str(dir)
                }
            },
            None => String::from_str(dir),
        };
        Root { dir: String::from_str(dir), name }
    }

    /// The root an invocation without `--root` reads: the nearest of `ancestors` (the canonical
    /// working directory first, then each parent) that holds `.git`, as `has_git` reports, else
    /// the working directory itself.
    pub fn discover(ancestors: &Vec<String>, has_git: &Vec<bool>) -> (r: Root)
        requires
            ancestors@.len() > 0,
            has_git@.len() == ancestors@.len(),
        ensures
            (exists|i: int| 0 <= i < has_git@.len() && has_git@[i]) ==> exists|i: int| 0 <= i < has_git@.len()
                && #[trigger] has_git@[i] && r.dir_view() == ancestors@[i]@
                && forall|j: int| 0 <= j < i ==> !has_git@[j],
            (forall|i: int| 0 <= i < has_git@.len() ==> !has_git@[i]) ==> r.dir_view() == ancestors@[0]@,
            r.name_view() == root_name(r.dir_view()),
    {
        let mut i: usize = 0;
        while i < ancestors.len()
            invariant
                i <= ancestors@.len(),
                has_git@.len() == ancestors@.len(),
                forall|j: int| 0 <= j < i ==> !has_git@[j],
            decreases ancestors.len() - i,
        {
            if has_git[i] {
                return Root::at(ancestors[i].as_str());
            }
            i = i + 1;
        }
        Root::at(ancestors[0].as_str())
    }

    pub closed spec fn dir_view(&self) -> Seq<char> {
        self.dir@
    }

    pub closed spec fn name_view(&self) -> Seq<char> {
        self.name@
    }

    pub fn dir(&self) -> (r: &str)
        ensures
            r@ == self.dir_view(),
    {
        self.dir.as_str()
    }

    pub fn name(&self) -> (r: &str)
        ensures
            r@ == self.name_view(),
    {
        self.name.as_str()
    }

    /// Where a caller-supplied path points before it is resolved: itself when absolute, else
    /// joined to the root. An empty path is a usage error.
    pub fn candidate(&self, given: &str) -> (r: Result<String, Fail>)
        ensures
            match r {
                Ok(c) => given@.len() > 0 && c@ == crate::cli::joined(self.dir_view(), given@),
                Err(f) => given@.len() == 0 && f.exit == crate::contract::Exit::Usage && f.message@ == "empty path"@,
            },
    {
        let g = chars_of(given);
        if g.len() == 0 {
            return Err(Fail::usage(String::from_str("empty path")));
        }
        if g[0] == '/' {
            return Ok(String::from_str(given));
        }
        let d = chars_of(self.dir.as_str());
        let mut out = String::from_str(self.dir.as_str());
        if !(d.len() == 0 || d[d.len() - 1] == '/') {
            out.append("/");
        }
        out.append(given);
        Ok(out)
    }

    /// A resolved path kept only when it lies inside the root, component by component: the check
    /// that closes `..` segments and symlinks pointing out of the tree, once both are resolved.
    pub fn contain(&self, given: &str, resolved: String) -> (r: Result<String, Fail>)
        ensures
            match r {
                Ok(p) => within(resolved@, self.dir_view()) && p@ == resolved@,
                Err(f) => !within(resolved@, self.dir_view()) && f.exit == crate::contract::Exit::Refused
                    && f.message@ == given@ + " resolves outside the root ("@ + self.dir_view()
                        + ") · --root <path> addresses another tree on purpose"@,
            },
    {
        let p = chars_of(resolved.as_str());
        let d = chars_of(self.dir.as_str());
        let mut with_slash = d.clone();
        with_slash.push('/');
        assert(with_slash@ =~= d@.push('/'));
        if crate::text::eq_chars(&p, &d) || (d.len() > 0 && d[d.len() - 1] == '/' && starts_with_exec(&p, &d))
            || starts_with_exec(&p, &with_slash) {
            return Ok(resolved);
        }
        let mut m = String::from_str(given);
        m.append(" resolves outside the root (");
        m.append(self.dir.as_str());
        m.append(") · --root <path> addresses another tree on purpose");
        Err(Fail::refused(m))
    }

    /// The path as a reader wants it: relative to the root, forward slashes.
    pub fn relative(&self, path: &str) -> (r: String)
        ensures
            r@ == relative_to(path@, self.dir_view()),
    {
        let p = chars_of(path);
        let d = chars_of(self.dir.as_str());
        let mut with_slash = d.clone();
        with_slash.push('/');
        assert(with_slash@ =~= d@.push('/'));
        let rel: Vec<char> = if crate::text::eq_chars(&p, &d) {
            Vec::new()
        } else if d.len() > 0 && d[d.len() - 1] == '/' && starts_with_exec(&p, &d) {
            slice_of(&p, d.len(), p.len())
        } else if starts_with_exec(&p, &with_slash) {
            slice_of(&p, with_slash.len(), p.len())
        } else {
            p.clone()
        };
        proof {
            if p@ == d@ {
            } else if d@.len() > 0 && d@.last() == '/' && starts_with(p@, d@) {
                assert(rel@ =~= p@.skip(d@.len() as int));
            } else if starts_with(p@, d@.push('/')) {
                assert(rel@ =~= p@.skip(d@.len() + 1int));
            }
        }
        let mut out = String::new();
        let mut i: usize = 0;
        while i < rel.len()
            invariant
                i <= rel@.len(),
                out@ == rel@.take(i as int).map_values(|c: char| if c == '\\' { '/' } else { c }),
            decreases rel.len() - i,
        {
            let c = rel[i];
            push_char(&mut out, if c == '\\' { '/' } else { c });
            i = i + 1;
            assert(out@ =~= rel@.take(i as int).map_values(|c: char| if c == '\\' { '/' } else { c }));
        }
        assert(rel@.take(rel@.len() as int) =~= rel@);
        out
    }
}

// ---------------------------------------------------------------------------------------
// Ranges
// ---------------------------------------------------------------------------------------

/// A line range, as typed after the colon.
#[derive(Debug, Clone, Copy, PartialEq, Eq, Structural)]
pub enum Range {
    /// `path:40`
    Line(usize),
    /// `path:40-60`, inclusive at both ends.
    Span(usize, usize),
    /// `path:40+20` — twenty lines from 40.
    From(usize, usize),
}

/// A range as `parse_range` produces it: 1-based, a span that does not end before it starts,
/// and a count of at least one line.
pub open spec fn valid_range(r: Range) -> bool {
    match r {
        Range::Line(n) => n >= 1,
        Range::Span(s, e) => s >= 1 && e >= s,
        Range::From(s, c) => s >= 1 && c >= 1,
    }
}

pub open spec fn range_start(r: Range) -> int {
    match r {
        Range::Line(n) => n as int,
        Range::Span(s, _) => s as int,
        Range::From(s, _) => s as int,
    }
}

pub open spec fn range_text(r: Range) -> Seq<char> {
    match r {
        Range::Line(n) => decimal(n as nat),
        Range::Span(s, e) => decimal(s as nat) + "-"@ + decimal(e as nat),
        Range::From(s, c) => decimal(s as nat) + "+"@ + decimal(c as nat),
    }
}

impl Range {
    pub fn start(self) -> (r: usize)
        ensures
            r == range_start(self),
    {
        match self {
            Range::Line(n) => n,
            Range::Span(start, _) => start,
            Range::From(start, _) => start,
        }
    }

    /// How many lines the caller asked for, before the file or the limit cuts it.
    pub fn requested_lines(self) -> (r: usize)
        requires
            self matches Range::Span(s, e) ==> s <= e && e - s + 1 <= usize::MAX,
        ensures
            r == match self {
                Range::Line(_) => 1,
                Range::Span(s, e) => e - s + 1,
                Range::From(_, c) => c as int,
            },
    {
        match self {
            Range::Line(_) => 1,
            Range::Span(start, end) => end - start + 1,
            Range::From(_, count) => count,
        }
    }

    /// The range as it was typed, for the header.
    pub fn spec(self) -> (r: String)
        ensures
            r@ == range_text(self),
    {
        match self {
            Range::Line(n) => decimal_text(n as u64),
            Range::Span(start, end) => {
                let mut s = decimal_text(start as u64);
                s.append("-");
                s.append(decimal_text(end as u64).as_str());
                s
            },
            Range::From(start, count) => {
                let mut s = decimal_text(start as u64);
                s.append("+");
                s.append(decimal_text(count as u64).as_str());
                s
            },
        }
    }
}

// ---------------------------------------------------------------------------------------
// Targets
// ---------------------------------------------------------------------------------------

pub struct Target {
    pub path: String,
    pub range: Option<Range>,
}

impl Target {
    /// `path:40-60`, or the bare path when the whole file is meant.
    pub fn describe(&self, relative: &str) -> (r: String)
        ensures
            r@ == match self.range {
                Some(range) => relative@ + ":"@ + range_text(range),
                None => relative@,
            },
    {
        match self.range {
            Some(range) => {
                let mut s = String::from_str(relative);
                s.append(":");
                s.append(range.spec().as_str());
                s
            },
            None => String::from_str(relative),
        }
    }
}

pub open spec fn is_sep(c: char) -> bool {
    c == '-' || c == '+'
}

/// What follows the last colon reads as a range: one or two non-empty runs of digits, joined
/// by one `-` or `+` — what splitting at `-` and `+` and checking each part reads.
pub open spec fn looks_like_range_spec(tail: Seq<char>) -> bool {
    &&& tail.len() > 0
    &&& forall|i: int| 0 <= i < tail.len() ==> is_digit(#[trigger] tail[i]) || is_sep(tail[i])
    &&& forall|i: int, j: int| 0 <= i < j < tail.len() && is_sep(#[trigger] tail[i]) ==> !is_sep(#[trigger] tail[j])
    &&& !is_sep(tail[0])
    &&& !is_sep(tail.last())
}

fn looks_like_range(tail: &[char]) -> (r: bool)
    ensures
        r == looks_like_range_spec(tail@),
{
    let n = tail.len();
    if n == 0 {
        return false;
    }
    if tail[0] == '-' || tail[0] == '+' || tail[n - 1] == '-' || tail[n - 1] == '+' {
        return false;
    }
    let mut seen: Option<usize> = None;
    let mut i: usize = 0;
    while i < n
        invariant
            n == tail@.len(),
            i <= n,
            forall|k: int| 0 <= k < i ==> is_digit(#[trigger] tail@[k]) || is_sep(tail@[k]),
            match seen {
                Some(s) => s < i && is_sep(tail@[s as int]) && forall|k: int| 0 <= k < i && k != s ==> !is_sep(#[trigger] tail@[k]),
                None => forall|k: int| 0 <= k < i ==> !is_sep(#[trigger] tail@[k]),
            },
        decreases n - i,
    {
        let c = tail[i];
        if c == '-' || c == '+' {
            if let Some(s) = seen {
                assert(is_sep(tail@[s as int]) && is_sep(tail@[i as int]));
                return false;
            }
            seen = Some(i);
        } else if c < '0' || c > '9' {
            assert(!(is_digit(tail@[i as int]) || is_sep(tail@[i as int])));
            return false;
        }
        i = i + 1;
    }
    true
}


// ---------------------------------------------------------------------------------------
// Parsing a target
// ---------------------------------------------------------------------------------------

/// A line number as typed: `usize::from_str`.
pub open spec fn line_number(t: Seq<char>) -> Option<nat> {
    match unsigned_of(t) {
        Some(n) => if n <= usize::MAX { Some(n) } else { None },
        None => None,
    }
}

/// What `parse_range` reads a range as, or the complaint about it.
pub open spec fn range_of(spec: Seq<char>) -> Result<Range, Seq<char>> {
    let not_range = "`"@ + spec + "` is not a line range"@;
    let parsed: Result<Range, Seq<char>> = match crate::text::split_once(spec, "-"@) {
        Some((a, b)) => match (line_number(a), line_number(b)) {
            (Some(x), Some(y)) => if y < x {
                Err("`"@ + spec + "` ends before it starts"@)
            } else {
                Ok(Range::Span(x as usize, y as usize))
            },
            _ => Err(not_range),
        },
        None => match crate::text::split_once(spec, "+"@) {
            Some((a, c)) => match (line_number(a), line_number(c)) {
                (Some(x), Some(n)) => if n == 0 {
                    Err("`"@ + spec + "` asks for no lines"@)
                } else {
                    Ok(Range::From(x as usize, n as usize))
                },
                _ => Err(not_range),
            },
            None => match line_number(spec) {
                Some(x) => Ok(Range::Line(x as usize)),
                None => Err(not_range),
            },
        },
    };
    match parsed {
        Ok(r) => if range_start(r) == 0 {
            Err("`"@ + spec + "`: line numbers are 1-based, so 0 is not a line"@)
        } else {
            Ok(r)
        },
        Err(e) => Err(e),
    }
}

fn number(text: &[char], spec: &str) -> (r: Result<usize, Fail>)
    ensures
        match r {
            Ok(n) => line_number(text@) == Some(n as nat),
            Err(f) => line_number(text@) is None && f.exit == crate::contract::Exit::Usage
                && f.message@ == "`"@ + spec@ + "` is not a line range"@,
        },
{
    match parse_usize(text) {
        Some(n) => Ok(n),
        None => Err(Fail::usage(crate::load::text3("`", spec, "` is not a line range"))),
    }
}

/// Parse a range as typed after the colon: `40`, `40-60` or `40+20`.
pub fn parse_range(spec: &str) -> (r: Result<Range, Fail>)
    ensures
        match r {
            Ok(range) => range_of(spec@) == Ok::<Range, Seq<char>>(range),
            Err(f) => f.exit == crate::contract::Exit::Usage && range_of(spec@) == Err::<Range, Seq<char>>(f.message@),
        },
        r matches Ok(range) ==> valid_range(range),
{
    let v = chars_of(spec);
    let n = v.len();
    let dash = ['-'];
    let plus = ['+'];
    assert(dash@ =~= "-"@) by { reveal_strlit("-"); }
    assert(plus@ =~= "+"@) by { reveal_strlit("+"); }
    proof {
        reveal_strlit("-");
        reveal_strlit("+");
    }
    let range = match crate::text::find_exec(&v, &dash) {
        Some(at) => {
            proof { crate::render::lemma_find_bounds_pub(v@, "-"@); }
            let start = number(&slice_of(&v, 0, at), spec)?;
            let end = number(&slice_of(&v, at + 1, n), spec)?;
            assert(v@.subrange(0, at as int) =~= v@.take(at as int));
            assert(v@.subrange(at + 1, v@.len() as int) =~= v@.skip(at + 1));
            if end < start {
                return Err(Fail::usage(crate::load::text3("`", spec, "` ends before it starts")));
            }
            Range::Span(start, end)
        },
        None => match crate::text::find_exec(&v, &plus) {
            Some(at) => {
                proof { crate::render::lemma_find_bounds_pub(v@, "+"@); }
                let start = number(&slice_of(&v, 0, at), spec)?;
                let count = number(&slice_of(&v, at + 1, n), spec)?;
                assert(v@.subrange(0, at as int) =~= v@.take(at as int));
                assert(v@.subrange(at + 1, v@.len() as int) =~= v@.skip(at + 1));
                if count == 0 {
                    return Err(Fail::usage(crate::load::text3("`", spec, "` asks for no lines")));
                }
                Range::From(start, count)
            },
            None => Range::Line(number(&v, spec)?),
        },
    };
    if range.start() == 0 {
        return Err(Fail::usage(crate::load::text3("`", spec, "`: line numbers are 1-based, so 0 is not a line")));
    }
    Ok(range)
}

/// Whether `char::is_alphanumeric` holds of a character: Unicode `Alphabetic` or `Numeric`.
pub uninterp spec fn unicode_alphanumeric(c: char) -> bool;

/// Whether `char::is_alphabetic` holds of a character: Unicode `Alphabetic`.
pub uninterp spec fn unicode_alphabetic(c: char) -> bool;

/// `char::is_alphanumeric`: the contract names its result and claims nothing else of it.
#[verifier::external_body]
fn is_alphanumeric(c: char) -> (r: bool)
    ensures
        r == unicode_alphanumeric(c),
{
    c.is_alphanumeric()
}

/// `char::is_alphabetic`: the contract names its result and claims nothing else of it.
#[verifier::external_body]
fn is_alphabetic(c: char) -> (r: bool)
    ensures
        r == unicode_alphabetic(c),
{
    c.is_alphabetic()
}

/// What follows an `@` reads as a symbol name: letters, digits, `_` and `:`, starting with a
/// letter or `_`.
pub open spec fn plausible_symbol(tail: Seq<char>) -> bool {
    &&& tail.len() > 0
    &&& forall|i: int| 0 <= i < tail.len() ==> unicode_alphanumeric(#[trigger] tail[i]) || tail[i] == '_' || tail[i] == ':'
    &&& (unicode_alphabetic(tail[0]) || tail[0] == '_')
}

fn plausible_symbol_exec(tail: &[char]) -> (r: bool)
    ensures
        r == plausible_symbol(tail@),
{
    if tail.len() == 0 {
        return false;
    }
    let mut i: usize = 0;
    while i < tail.len()
        invariant
            i <= tail@.len(),
            forall|k: int| 0 <= k < i ==> unicode_alphanumeric(#[trigger] tail@[k]) || tail@[k] == '_' || tail@[k] == ':',
        decreases tail.len() - i,
    {
        let c = tail[i];
        if !(is_alphanumeric(c) || c == '_' || c == ':') {
            return false;
        }
        i = i + 1;
    }
    is_alphabetic(tail[0]) || tail[0] == '_'
}

/// The path and the range a target argument names, or the complaint about it.
pub open spec fn target_of(arg: Seq<char>) -> Result<(Seq<char>, Option<Range>), Seq<char>> {
    let symbol = match last_index(arg, '@') {
        Some(at) => arg.take(at).len() > 0 && plausible_symbol(arg.skip(at + 1)),
        None => false,
    };
    if symbol {
        let head = arg.take(last_index(arg, '@')->Some_0);
        Err("`"@ + arg + "` is a symbol target, which is not implemented yet · address the lines directly, as "@
            + head + ":40-60"@)
    } else {
        let (path, spec) = match last_index(arg, ':') {
            Some(c) => if arg.take(c).len() > 0 && looks_like_range_spec(arg.skip(c + 1)) {
                (arg.take(c), Some(arg.skip(c + 1)))
            } else {
                (arg, None)
            },
            None => (arg, None),
        };
        if path.len() == 0 {
            Err("`"@ + arg + "` has no path"@)
        } else {
            match spec {
                Some(t) => match range_of(t) {
                    Ok(r) => Ok((path, Some(r))),
                    Err(e) => Err(e),
                },
                None => Ok((path, None)),
            }
        }
    }
}

/// Parse a target argument.
///
/// The split is on the *last* colon, and only when what follows parses as a range — so a path
/// containing a colon still works, and a typo fails as a missing file rather than as a silently
/// different range.
pub fn parse_target(arg: &str) -> (r: Result<Target, Fail>)
    ensures
        match r {
            Ok(t) => target_of(arg@) == Ok::<(Seq<char>, Option<Range>), Seq<char>>((t.path@, t.range)),
            Err(f) => f.exit == crate::contract::Exit::Usage
                && target_of(arg@) == Err::<(Seq<char>, Option<Range>), Seq<char>>(f.message@),
        },
        r matches Ok(t) ==> (t.range matches Some(rg) ==> valid_range(rg)),
{
    let v = chars_of(arg);
    let n = v.len();
    if let Some(at) = last_index_of(&v, '@') {
        let head = slice_of(&v, 0, at);
        let tail = slice_of(&v, at + 1, n);
        assert(head@ =~= v@.take(at as int));
        assert(tail@ =~= v@.skip(at + 1));
        if head.len() > 0 && plausible_symbol_exec(&tail) {
            let mut m = crate::load::text3("`", arg, "` is a symbol target, which is not implemented yet · address the lines directly, as ");
            push_chars(&mut m, &head);
            m.append(":40-60");
            return Err(Fail::usage(m));
        }
    }
    let (path, spec): (Vec<char>, Option<Vec<char>>) = match last_index_of(&v, ':') {
        Some(colon) => {
            let head = slice_of(&v, 0, colon);
            let tail = slice_of(&v, colon + 1, n);
            assert(head@ =~= v@.take(colon as int));
            assert(tail@ =~= v@.skip(colon + 1));
            if head.len() > 0 && looks_like_range(&tail) {
                (head, Some(tail))
            } else {
                (v.clone(), None)
            }
        },
        None => (v.clone(), None),
    };
    if path.len() == 0 {
        return Err(Fail::usage(crate::load::text3("`", arg, "` has no path")));
    }
    let range = match spec {
        Some(t) => Some(parse_range(string_of(&t).as_str())?),
        None => None,
    };
    Ok(Target { path: string_of(&path), range })
}

} // verus!
