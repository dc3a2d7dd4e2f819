//! The repository's state, parsed from `git status --porcelain=v2 --branch -z`.
//!
//! One parser for the one git output that carries the branch, the upstream divergence and the
//! working-tree state in a single pass. Two verbs read it: `state` renders it, and `diff` uses it
//! to learn which paths a worktree comparison could touch. The second reader is a safety reader:
//! a path this parser misses is a path whose filter driver would run unchecked, so a record that
//! does not parse is counted, never dropped.

use vstd::prelude::*;
use vstd::string::StringExecFns;

use crate::contract::{Exit, Fail};
use crate::recall::git::{with_paths, GIT};
use crate::text::{chars_of, ends_with, find, index_of, slice_of, split_on, split_once, starts_with, str_views, string_of, views};

verus! {

/// One changed path as plain text: the code git reported, the path, and the other half of a
/// rename.
pub type EntryView = (Seq<char>, Seq<char>, Option<Seq<char>>);

/// One changed path.
pub struct Entry {
    /// The two-letter code git reported.
    pub code: String,
    pub path: String,
    /// The other half of a rename, when git detected one.
    pub original: Option<String>,
}

pub open spec fn opt_view(o: Option<String>) -> Option<Seq<char>> {
    match o {
        Some(s) => Some(s@),
        None => None,
    }
}

pub open spec fn entry_view(e: Entry) -> EntryView {
    (e.code@, e.path@, opt_view(e.original))
}

pub open spec fn entry_views(es: Seq<Entry>) -> Seq<EntryView>
    decreases es.len(),
{
    if es.len() == 0 { seq![] } else { entry_views(es.drop_last()).push(entry_view(es.last())) }
}

/// Porcelain v2 writes `.` where `git status --short` writes a space; rendered as the space,
/// because the two-letter column is the one thing a reader is expected to recognise.
pub open spec fn short_code_of(code: Seq<char>) -> Seq<char> {
    code.map_values(|c: char| if c == '.' { ' ' } else { c })
}

pub fn short_code(code: &str) -> (r: String)
    ensures
        r@ == short_code_of(code@),
{
    let v = chars_of(code);
    let mut out: Vec<char> = Vec::new();
    let mut i: usize = 0;
    while i < v.len()
        invariant
            i <= v@.len(),
            out@ == short_code_of(v@.take(i as int)),
        decreases v.len() - i,
    {
        out.push(if v[i] == '.' { ' ' } else { v[i] });
        assert(out@ =~= short_code_of(v@.take(i + 1)));
        i = i + 1;
    }
    assert(v@.take(v@.len() as int) =~= v@);
    string_of(&out)
}

/// An entry's line in `state`: the short code, then the path, a rename with both names.
pub open spec fn entry_line(e: EntryView) -> Seq<char> {
    match e.2 {
        Some(original) => short_code_of(e.0) + "  "@ + original + " -> "@ + e.1,
        None => short_code_of(e.0) + "  "@ + e.1,
    }
}

/// Both names of an entry, so a rename is checked on each side.
pub open spec fn entry_names(e: EntryView) -> Seq<Seq<char>> {
    match e.2 {
        Some(original) => seq![e.1, original],
        None => seq![e.1],
    }
}

impl Entry {
    pub fn line(&self) -> (r: String)
        ensures
            r@ == entry_line(entry_view(*self)),
    {
        let mut out = short_code(self.code.as_str());
        out.append("  ");
        match &self.original {
            Some(original) => {
                out.append(original.as_str());
                out.append(" -> ");
                out.append(self.path.as_str());
            },
            None => {
                out.append(self.path.as_str());
            },
        }
        out
    }

    pub fn names(&self) -> (r: Vec<String>)
        ensures
            str_views(r@) == entry_names(entry_view(*self)),
    {
        let r = match &self.original {
            Some(original) => vec![self.path.clone(), original.clone()],
            None => vec![self.path.clone()],
        };
        assert(str_views(r@) =~= entry_names(entry_view(*self)));
        r
    }
}

/// The text after the `k`-th space, if there are that many.
pub open spec fn after_spaces(s: Seq<char>, k: nat) -> Option<Seq<char>>
    decreases k,
{
    if k == 0 {
        Some(s)
    } else {
        let i = index_of(s, ' ') as int;
        if i < s.len() { after_spaces(s.skip(i + 1), (k - 1) as nat) } else { None }
    }
}

/// A `1`, `2` or `u` record split into its code and its path: the code is the first field, the
/// path is the remainder after the machine fields, so a path containing a space survives.
pub open spec fn record_of(rest: Seq<char>, fields: nat) -> Option<(Seq<char>, Seq<char>)> {
    let i = index_of(rest, ' ') as int;
    let code = if i < rest.len() { rest.take(i) } else { rest };
    match after_spaces(rest, (fields - 1) as nat) {
        Some(path) => Some((code, path)),
        None => None,
    }
}

/// Split a `1`, `2` or `u` record: the status code, then the machine fields, then the path as
/// the remainder of the record.
pub fn split_record(rest: &str, fields: usize) -> (r: Option<(String, String)>)
    requires
        fields >= 2,
    ensures
        match r {
            Some((code, path)) => record_of(rest@, fields as nat) == Some((code@, path@)),
            None => record_of(rest@, fields as nat) is None,
        },
{
    let v = chars_of(rest);
    let n = v.len();
    let first = crate::text::index_of_from(&v, 0, ' ');
    assert(v@.skip(0) =~= v@);
    let code = if first < n { slice_of(&v, 0, first) } else { slice_of(&v, 0, n) };
    assert(code@ =~= (if (index_of(v@, ' ') as int) < v@.len() { v@.take(index_of(v@, ' ') as int) } else { v@ }));
    let mut at: usize = 0;
    let mut k: usize = 0;
    let wanted = fields - 1;
    assert(v@.skip(0) =~= v@);
    while k < wanted
        invariant
            k <= wanted,
            at <= n,
            n == v@.len(),
            v@ == rest@,
            wanted == fields - 1,
            after_spaces(v@, wanted as nat) == after_spaces(v@.skip(at as int), (wanted - k) as nat),
        decreases wanted - k,
    {
        let j = crate::text::index_of_from(&v, at, ' ');
        if j >= n {
            assert(wanted - k > 0);
            assert(after_spaces(v@.skip(at as int), (wanted - k) as nat) is None);
            assert(after_spaces(rest@, (fields - 1) as nat) is None);
            assert(record_of(rest@, fields as nat) is None);
            return None;
        }
        assert(v@.skip(at as int).skip(j - at + 1) =~= v@.skip(j + 1));
        at = j + 1;
        k = k + 1;
    }
    let path = slice_of(&v, at, n);
    assert(path@ =~= v@.skip(at as int));
    Some((string_of(&code), string_of(&path)))
}

/// What the parser knows part-way through: the HEAD hash, whether the branch header was seen,
/// the branch, the upstream, the entries and the records that did not parse.
pub type StatusState = (Option<Seq<char>>, bool, Seq<char>, Seq<char>, Seq<EntryView>, nat);

/// The divergence from the upstream, as `origin/main · ahead 2 behind 1`.
pub open spec fn strip_all(s: Seq<char>, c: char) -> Seq<char>
    decreases s.len(),
{
    if s.len() > 0 && s[0] == c { strip_all(s.drop_first(), c) } else { s }
}

pub open spec fn diverged(upstream: Seq<char>, ab: Seq<char>) -> Seq<char> {
    match split_once(ab, " "@) {
        Some((ahead, behind)) => upstream + " · ahead "@ + strip_all(ahead, '+') + " behind "@ + strip_all(behind, '-'),
        None => upstream,
    }
}

/// One record, and where the next one starts: a `2` record takes the next field as its original
/// path, which is the only ordering git does not state inline.
pub open spec fn step(st: StatusState, recs: Seq<Seq<char>>, i: int) -> (StatusState, int) {
    let r = recs[i];
    let (oid, saw, branch, upstream, entries, unparsed) = st;
    if r.len() == 0 {
        (st, i + 1)
    } else if starts_with(r, "# branch.oid "@) {
        let rest = r.skip(13);
        ((if rest == "(initial)"@ { None } else { Some(rest) }, true, branch, upstream, entries, unparsed), i + 1)
    } else if starts_with(r, "# branch.head "@) {
        ((oid, saw, r.skip(14), upstream, entries, unparsed), i + 1)
    } else if starts_with(r, "# branch.upstream "@) {
        ((oid, saw, branch, r.skip(18), entries, unparsed), i + 1)
    } else if starts_with(r, "# branch.ab "@) {
        ((oid, saw, branch, diverged(upstream, r.skip(12)), entries, unparsed), i + 1)
    } else if starts_with(r, "? "@) {
        ((oid, saw, branch, upstream, entries.push(("??"@, r.skip(2), None)), unparsed), i + 1)
    } else if starts_with(r, "! "@) {
        (st, i + 1)
    } else if starts_with(r, "1 "@) {
        match record_of(r.skip(2), 8) {
            Some((code, path)) => ((oid, saw, branch, upstream, entries.push((code, path, None)), unparsed), i + 1),
            None => ((oid, saw, branch, upstream, entries, unparsed + 1), i + 1),
        }
    } else if starts_with(r, "2 "@) {
        match record_of(r.skip(2), 9) {
            Some((code, path)) => if i + 1 < recs.len() {
                ((oid, saw, branch, upstream, entries.push((code, path, Some(recs[i + 1]))), unparsed), i + 2)
            } else {
                ((oid, saw, branch, upstream, entries.push((code, path, None)), unparsed), i + 1)
            },
            None => ((oid, saw, branch, upstream, entries, unparsed + 1), i + 1),
        }
    } else if starts_with(r, "u "@) {
        match record_of(r.skip(2), 10) {
            Some((code, path)) => ((oid, saw, branch, upstream, entries.push((code, path, None)), unparsed), i + 1),
            None => ((oid, saw, branch, upstream, entries, unparsed + 1), i + 1),
        }
    } else {
        ((oid, saw, branch, upstream, entries, unparsed + 1), i + 1)
    }
}

/// The records from `i` on, read into the state.
pub open spec fn parse_from(st: StatusState, recs: Seq<Seq<char>>, i: int) -> StatusState
    decreases recs.len() - i,
{
    if i < 0 || i >= recs.len() {
        st
    } else {
        let (next, j) = step(st, recs, i);
        if j <= i { next } else { parse_from(next, recs, j) }
    }
}

/// What a status output holds, when it holds the branch header it was asked for.
pub open spec fn status_of(raw: Seq<char>) -> Option<StatusState> {
    let st = parse_from((None, false, seq![], "none"@, seq![], 0), split_on(raw, '\0'), 0);
    if !st.1 || st.2.len() == 0 { None } else { Some(st) }
}

/// The message for a status output with no branch header.
pub open spec fn no_branch_message() -> Seq<char> {
    "git status did not report a branch header · expected `--porcelain=v2 --branch`"@
}

/// The state of a worktree, from one `git status`.
pub struct Status {
    /// The full HEAD hash, or `None` on a branch with no commits yet.
    oid: Option<String>,
    /// The branch as git prints it, `(detached)` included.
    branch: String,
    upstream: String,
    entries: Vec<Entry>,
    /// Records that did not parse: counted rather than dropped silently, because a missing
    /// entry reads as a change that is not there.
    unparsed: usize,
}

impl Status {
    pub closed spec fn view_of(&self) -> StatusState {
        (opt_view(self.oid), true, self.branch@, self.upstream@, entry_views(self.entries@), self.unparsed as nat)
    }

    pub closed spec fn entries_view(&self) -> Seq<EntryView> {
        entry_views(self.entries@)
    }
}

fn stripped(v: &Vec<char>, at: usize) -> (r: Vec<char>)
    requires
        at <= v@.len(),
    ensures
        r@ == v@.skip(at as int),
{
    let n = v.len();
    let r = slice_of(v, at, n);
    assert(r@ =~= v@.skip(at as int));
    r
}

fn strip_all_exec(v: &Vec<char>, c: char) -> (r: Vec<char>)
    ensures
        r@ == strip_all(v@, c),
{
    let mut i: usize = 0;
    assert(v@.skip(0) =~= v@);
    while i < v.len() && v[i] == c
        invariant
            i <= v@.len(),
            strip_all(v@, c) == strip_all(v@.skip(i as int), c),
        decreases v.len() - i,
    {
        assert(v@.skip(i as int).drop_first() =~= v@.skip(i + 1));
        i = i + 1;
    }
    stripped(v, i)
}

fn has_prefix(v: &Vec<char>, p: &str) -> (r: bool)
    ensures
        r == starts_with(v@, p@),
{
    crate::text::starts_with_exec(v, &chars_of(p))
}

fn diverged_exec(upstream: &String, ab: &Vec<char>) -> (r: String)
    ensures
        r@ == diverged(upstream@, ab@),
{
    match crate::text::split_once_exec(ab, &chars_of(" ")) {
        Some((ahead, behind)) => {
            let mut out = upstream.clone();
            out.append(" · ahead ");
            out.append(string_of(&strip_all_exec(&ahead, '+')).as_str());
            out.append(" behind ");
            out.append(string_of(&strip_all_exec(&behind, '-')).as_str());
            out
        },
        None => upstream.clone(),
    }
}

fn push_entry(entries: &mut Vec<Entry>, code: String, path: String, original: Option<String>)
    ensures
        entry_views(final(entries)@) == entry_views(old(entries)@).push((code@, path@, opt_view(original))),
{
    let ghost before = entries@;
    entries.push(Entry { code, path, original });
    assert(entries@.drop_last() =~= before);
}

impl Status {
    /// Parse one `git status --porcelain=v2 --branch -z`. An output without the branch header is
    /// not what was asked for, and an empty branch would render as a repository with no name.
    #[verifier::rlimit(80)]
    pub fn parse(raw: &str) -> (r: Result<Status, Fail>)
        ensures
            match r {
                Ok(s) => status_of(raw@) == Some(s.view_of()),
                Err(f) => status_of(raw@) is None && f.exit == Exit::Environment && f.message@ == no_branch_message(),
            },
    {
        let recs = crate::text::split_char(&chars_of(raw), '\0');
        let ghost rv = views(recs@);
        let mut oid: Option<String> = None;
        let mut saw = false;
        let mut branch = String::new();
        let mut upstream = String::from_str("none");
        let mut entries: Vec<Entry> = Vec::new();
        let mut unparsed: usize = 0;
        let ghost init: StatusState = (None, false, seq![], "none"@, seq![], 0);
        assert(entry_views(entries@) =~= Seq::<EntryView>::empty());
        let mut i: usize = 0;
        while i < recs.len()
            invariant
                i <= recs@.len(),
                rv == views(recs@),
                unparsed <= i,
                parse_from(init, rv, 0) == parse_from((opt_view(oid), saw, branch@, upstream@, entry_views(entries@), unparsed as nat), rv, i as int),
            decreases recs.len() - i,
        {
            let ghost st: StatusState = (opt_view(oid), saw, branch@, upstream@, entry_views(entries@), unparsed as nat);
            let r = &recs[i];
            assert(rv[i as int] == r@);
            let ghost (nst, j) = step(st, rv, i as int);
            let mut next = i + 1;
            if r.len() == 0 {
            } else if has_prefix(r, "# branch.oid ") {
                proof { reveal_strlit("# branch.oid "); }
                let rest = stripped(r, 13);
                oid = if crate::text::eq_chars(&rest, &chars_of("(initial)")) { None } else { Some(string_of(&rest)) };
                saw = true;
            } else if has_prefix(r, "# branch.head ") {
                proof { reveal_strlit("# branch.head "); }
                branch = string_of(&stripped(r, 14));
            } else if has_prefix(r, "# branch.upstream ") {
                proof { reveal_strlit("# branch.upstream "); }
                upstream = string_of(&stripped(r, 18));
            } else if has_prefix(r, "# branch.ab ") {
                proof { reveal_strlit("# branch.ab "); }
                upstream = diverged_exec(&upstream, &stripped(r, 12));
            } else if has_prefix(r, "? ") {
                proof { reveal_strlit("? "); reveal_strlit("??"); }
                push_entry(&mut entries, String::from_str("??"), string_of(&stripped(r, 2)), None);
            } else if has_prefix(r, "! ") {
            } else if has_prefix(r, "1 ") {
                proof { reveal_strlit("1 "); }
                match split_record(string_of(&stripped(r, 2)).as_str(), 8) {
                    Some((code, path)) => push_entry(&mut entries, code, path, None),
                    None => unparsed = unparsed + 1,
                }
            } else if has_prefix(r, "2 ") {
                proof { reveal_strlit("2 "); }
                match split_record(string_of(&stripped(r, 2)).as_str(), 9) {
                    Some((code, path)) => {
                        if i + 1 < recs.len() {
                            assert(rv[i + 1] == recs@[i + 1]@);
                            push_entry(&mut entries, code, path, Some(string_of(&recs[i + 1])));
                            next = i + 2;
                        } else {
                            push_entry(&mut entries, code, path, None);
                        }
                    },
                    None => unparsed = unparsed + 1,
                }
            } else if has_prefix(r, "u ") {
                proof { reveal_strlit("u "); }
                match split_record(string_of(&stripped(r, 2)).as_str(), 10) {
                    Some((code, path)) => push_entry(&mut entries, code, path, None),
                    None => unparsed = unparsed + 1,
                }
            } else {
                unparsed = unparsed + 1;
            }
            assert((opt_view(oid), saw, branch@, upstream@, entry_views(entries@), unparsed as nat) == nst);
            assert(next as int == j);
            i = next;
        }
        if !saw || branch.unicode_len() == 0 {
            let mut m = String::from_str(GIT);
            m.append(" status did not report a branch header · expected `--porcelain=v2 --branch`");
            proof { reveal_strlit("git"); }
            assert(m@ =~= no_branch_message()) by {
                reveal_strlit("git");
                reveal_strlit(" status did not report a branch header · expected `--porcelain=v2 --branch`");
                reveal_strlit("git status did not report a branch header · expected `--porcelain=v2 --branch`");
            }
            return Err(Fail::environment(m));
        }
        Ok(Status { oid, branch, upstream, entries, unparsed })
    }
}

/// The branch as a reader names it: git's `(detached)` is said in words.
pub open spec fn shown_branch(b: Seq<char>) -> Seq<char> {
    if b == "(detached)"@ { "detached HEAD"@ } else { b }
}

pub open spec fn entry_lines(es: Seq<EntryView>) -> Seq<Seq<char>>
    decreases es.len(),
{
    if es.len() == 0 { seq![] } else { entry_lines(es.drop_last()).push(entry_line(es.last())) }
}

pub open spec fn all_names(es: Seq<EntryView>) -> Seq<Seq<char>>
    decreases es.len(),
{
    if es.len() == 0 { seq![] } else { all_names(es.drop_last()) + entry_names(es.last()) }
}

/// How many entries a test picks out.
pub open spec fn tracked_count(es: Seq<EntryView>) -> nat
    decreases es.len(),
{
    if es.len() == 0 { 0 } else { tracked_count(es.drop_last()) + if es.last().0 != "??"@ { 1nat } else { 0nat } }
}

pub open spec fn collapsed_count(es: Seq<EntryView>) -> nat
    decreases es.len(),
{
    if es.len() == 0 {
        0
    } else {
        collapsed_count(es.drop_last()) + if es.last().0 == "??"@ && ends_with(es.last().1, "/"@) { 1nat } else { 0nat }
    }
}

proof fn lemma_entry_views_len(es: Seq<Entry>)
    ensures
        entry_views(es).len() == es.len(),
        forall|i: int| 0 <= i < es.len() ==> #[trigger] entry_views(es)[i] == entry_view(es[i]),
    decreases es.len(),
{
    if es.len() > 0 {
        lemma_entry_views_len(es.drop_last());
        assert forall|i: int| 0 <= i < es.len() implies #[trigger] entry_views(es)[i] == entry_view(es[i]) by {
            if i < es.len() - 1 {
                assert(entry_views(es.drop_last())[i] == entry_view(es.drop_last()[i]));
            }
        }
    }
}

proof fn lemma_counts_bounded(es: Seq<EntryView>)
    ensures
        tracked_count(es) <= es.len(),
        collapsed_count(es) <= es.len(),
    decreases es.len(),
{
    if es.len() > 0 {
        lemma_counts_bounded(es.drop_last());
    }
}

fn is_untracked(code: &String) -> (r: bool)
    ensures
        r == (code@ == "??"@),
{
    crate::text::eq_chars(&chars_of(code.as_str()), &chars_of("??"))
}

impl Status {
    /// The full HEAD hash, or `None` on a branch with no commits yet.
    pub fn oid(&self) -> (r: Option<&String>)
        ensures
            match r {
                Some(o) => self.view_of().0 == Some(o@),
                None => self.view_of().0 is None,
            },
    {
        match &self.oid {
            Some(o) => Some(o),
            None => None,
        }
    }

    pub fn branch(&self) -> (r: String)
        ensures
            r@ == shown_branch(self.view_of().2),
    {
        if crate::text::eq_chars(&chars_of(self.branch.as_str()), &chars_of("(detached)")) {
            String::from_str("detached HEAD")
        } else {
            self.branch.clone()
        }
    }

    pub fn upstream(&self) -> (r: &str)
        ensures
            r@ == self.view_of().3,
    {
        self.upstream.as_str()
    }

    /// One line per entry, as `git status --short` would show it.
    pub fn lines(&self) -> (r: Vec<String>)
        ensures
            str_views(r@) == entry_lines(self.entries_view()),
    {
        proof {
            lemma_entry_views_len(self.entries@);
        }
        let ghost ev = entry_views(self.entries@);
        let mut r: Vec<String> = Vec::new();
        let mut i: usize = 0;
        while i < self.entries.len()
            invariant
                i <= self.entries@.len(),
                ev == entry_views(self.entries@),
                ev.len() == self.entries@.len(),
                forall|k: int| 0 <= k < self.entries@.len() ==> #[trigger] ev[k] == entry_view(self.entries@[k]),
                str_views(r@) == entry_lines(ev.take(i as int)),
            decreases self.entries.len() - i,
        {
            assert(ev.take(i + 1).drop_last() =~= ev.take(i as int));
            let ghost before = r@;
            r.push(self.entries[i].line());
            assert(str_views(r@) =~= str_views(before).push(entry_line(ev[i as int])));
            i = i + 1;
        }
        assert(ev.take(self.entries@.len() as int) =~= ev);
        r
    }

    pub fn len(&self) -> (r: usize)
        ensures
            r == self.entries_view().len(),
    {
        proof {
            lemma_entry_views_len(self.entries@);
        }
        self.entries.len()
    }

    pub fn is_empty(&self) -> (r: bool)
        ensures
            r == (self.entries_view().len() == 0),
    {
        proof {
            lemma_entry_views_len(self.entries@);
        }
        self.entries.len() == 0
    }

    /// Every path this status mentions, a rename contributing both of its names.
    pub fn paths(&self) -> (r: Vec<String>)
        ensures
            str_views(r@) == all_names(self.entries_view()),
    {
        proof {
            lemma_entry_views_len(self.entries@);
        }
        let ghost ev = entry_views(self.entries@);
        let mut r: Vec<String> = Vec::new();
        let mut i: usize = 0;
        while i < self.entries.len()
            invariant
                i <= self.entries@.len(),
                ev == entry_views(self.entries@),
                ev.len() == self.entries@.len(),
                forall|k: int| 0 <= k < self.entries@.len() ==> #[trigger] ev[k] == entry_view(self.entries@[k]),
                str_views(r@) == all_names(ev.take(i as int)),
            decreases self.entries.len() - i,
        {
            assert(ev.take(i + 1).drop_last() =~= ev.take(i as int));
            let names = self.entries[i].names();
            let ghost before = str_views(r@);
            let mut k: usize = 0;
            while k < names.len()
                invariant
                    k <= names@.len(),
                    str_views(r@) == before + str_views(names@).take(k as int),
                decreases names.len() - k,
            {
                let ghost b2 = r@;
                r.push(names[k].clone());
                assert(str_views(r@) =~= str_views(b2).push(names@[k as int]@));
                assert(str_views(r@) =~= before + str_views(names@).take(k + 1));
                k = k + 1;
            }
            assert(str_views(names@).take(names@.len() as int) =~= str_views(names@));
            i = i + 1;
        }
        assert(ev.take(self.entries@.len() as int) =~= ev);
        r
    }

    /// How many tracked paths differ from HEAD: untracked is excluded, because an untracked file
    /// has no version in HEAD to have changed from.
    pub fn tracked_changes(&self) -> (r: usize)
        ensures
            r == tracked_count(self.entries_view()),
    {
        proof {
            lemma_entry_views_len(self.entries@);
        }
        let ghost ev = entry_views(self.entries@);
        let mut n: usize = 0;
        let mut i: usize = 0;
        while i < self.entries.len()
            invariant
                i <= self.entries@.len(),
                ev == entry_views(self.entries@),
                ev.len() == self.entries@.len(),
                forall|k: int| 0 <= k < self.entries@.len() ==> #[trigger] ev[k] == entry_view(self.entries@[k]),
                n == tracked_count(ev.take(i as int)),
                n <= i,
            decreases self.entries.len() - i,
        {
            assert(ev.take(i + 1).drop_last() =~= ev.take(i as int));
            assert(ev.take(i + 1).last() == entry_view(self.entries@[i as int]));
            if !is_untracked(&self.entries[i].code) {
                n = n + 1;
            }
            i = i + 1;
        }
        assert(ev.take(self.entries@.len() as int) =~= ev);
        n
    }

    /// Whether any tracked path has changed.
    pub fn tracks_changes(&self) -> (r: bool)
        ensures
            r == (tracked_count(self.entries_view()) > 0),
    {
        self.tracked_changes() > 0
    }

    pub fn unparsed(&self) -> (r: usize)
        ensures
            r == self.view_of().5,
    {
        self.unparsed
    }

    /// Untracked names ending in `/` are directories git did not expand.
    pub fn collapsed_directories(&self) -> (r: usize)
        ensures
            r == collapsed_count(self.entries_view()),
    {
        proof {
            lemma_entry_views_len(self.entries@);
        }
        let ghost ev = entry_views(self.entries@);
        let slash = chars_of("/");
        let mut n: usize = 0;
        let mut i: usize = 0;
        while i < self.entries.len()
            invariant
                i <= self.entries@.len(),
                ev == entry_views(self.entries@),
                ev.len() == self.entries@.len(),
                forall|k: int| 0 <= k < self.entries@.len() ==> #[trigger] ev[k] == entry_view(self.entries@[k]),
                n == collapsed_count(ev.take(i as int)),
                n <= i,
                slash@ == "/"@,
            decreases self.entries.len() - i,
        {
            assert(ev.take(i + 1).drop_last() =~= ev.take(i as int));
            assert(ev.take(i + 1).last() == entry_view(self.entries@[i as int]));
            let e = &self.entries[i];
            if is_untracked(&e.code) && crate::text::ends_with_exec(&chars_of(e.path.as_str()), &slash) {
                n = n + 1;
            }
            i = i + 1;
        }
        assert(ev.take(self.entries@.len() as int) =~= ev);
        n
    }
}

/// The arguments of one `git status` read: porcelain v2 with the branch header, untracked files
/// as asked, NUL-separated, then the paths.
pub fn status_args(paths: &Vec<String>, untracked: &str) -> (r: Vec<String>)
    ensures
        str_views(r@) == seq!["--porcelain=v2"@, "--branch"@, "--untracked-files="@ + untracked@, "-z"@]
            + (if paths@.len() == 0 { Seq::<Seq<char>>::empty() } else { seq!["--"@] + str_views(paths@) }),
{
    let mut u = String::from_str("--untracked-files=");
    u.append(untracked);
    let mut r = vec![String::from_str("--porcelain=v2"), String::from_str("--branch"), u, String::from_str("-z")];
    assert(str_views(r@) =~= seq!["--porcelain=v2"@, "--branch"@, "--untracked-files="@ + untracked@, "-z"@]);
    with_paths(&mut r, paths);
    r
}

} // verus!
