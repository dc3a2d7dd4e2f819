//! `at-peek search` — every mention, bounded, with the true total attached.
//!
//! It prints the real number of matches beneath the ones it showed, and it walks a directory
//! itself. Matches are counted over every file the walk considers, even after the listing is
//! full: `# 50 of 143` is the difference between a fact and a guess, and it is why the walk is
//! bounded and the bound is stated.

use vstd::prelude::*;
use vstd::string::StringExecFns;

use crate::catalogue::{pad_left, pad_right, push_padded_left, push_padded_right};
use crate::contract::{bound_line, counted, header_line, secret_rule, secret_shaped, truncated, Exit, Fail, Report, MAX_FILES};
use crate::peek::verbs::slice::{clamp_bounds, width_bounds};
use crate::peek::verbs::stat::{byte_len, max};
use crate::peek::paths::{last_index, relative_to, Root};
use crate::peek::verbs::{Content, Opts};
use crate::contract::Outcome;
use crate::text::{chars_of, decimal, decimal_text, join, lines, lines_of, starts_with, str_views, string_of, trim, trim_exec};

verus! {

/// What a search prints for each file it found something in.
#[derive(Debug, Clone, Copy, PartialEq, Eq)]
pub enum Mode {
    Matches,
    Count,
    FilesOnly,
}

impl Mode {
    /// `--count` and `--files-only` ask different questions, so asking both is a usage error
    /// rather than a precedence rule nobody can remember.
    pub fn of(count: bool, files_only: bool) -> (r: Result<Mode, Fail>)
        ensures
            match r {
                Ok(Mode::Count) => count && !files_only,
                Ok(Mode::FilesOnly) => !count && files_only,
                Ok(Mode::Matches) => !count && !files_only,
                Err(f) => count && files_only && f.exit == Exit::Usage
                    && f.message@ == "--count and --files-only ask different questions · pass one"@,
            },
    {
        if count && files_only {
            Err(Fail::usage(String::from_str("--count and --files-only ask different questions · pass one")))
        } else if count {
            Ok(Mode::Count)
        } else if files_only {
            Ok(Mode::FilesOnly)
        } else {
            Ok(Mode::Matches)
        }
    }
}

/// `regex::Regex`, carried through opaque.
#[verifier::external_type_specification]
#[verifier::external_body]
pub struct ExRegex(regex::Regex);

/// The text `regex::Regex::new` reports for a pattern it refuses, or `None` where it accepts
/// the pattern.
pub uninterp spec fn regex_error(pattern: Seq<char>) -> Option<Seq<char>>;

/// Whether `regex::Regex::is_match` finds the pattern anywhere in the haystack.
pub uninterp spec fn regex_matches(pattern: Seq<char>, haystack: Seq<char>) -> bool;

/// `regex::Regex::new`, its error turned into the text its `Display` prints. The contract
/// claims only that the outcome is the named one for this pattern.
#[verifier::external_body]
fn compile_regex(pattern: &str) -> (r: Result<regex::Regex, String>)
    ensures
        match r {
            Ok(_) => regex_error(pattern@) is None,
            Err(e) => regex_error(pattern@) == Some(e@),
        },
{
    regex::Regex::new(pattern).map_err(|e| e.to_string())
}

/// A compiled search pattern and the text it was compiled from. Only [`Pattern::compile`]
/// makes one, so the regex inside is always the one its source names.
pub struct Pattern {
    source: String,
    regex: regex::Regex,
}

/// `regex::Regex::is_match` on the pattern's regex: the contract names the answer for the
/// pattern's source text and the haystack.
#[verifier::external_body]
fn regex_is_match(pattern: &Pattern, haystack: &str) -> (r: bool)
    ensures
        r == regex_matches(pattern.source_view(), haystack@),
{
    pattern.regex.is_match(haystack)
}

/// The last line of a text that is not blank.
pub open spec fn last_nonblank(ls: Seq<Seq<char>>) -> Option<Seq<char>>
    decreases ls.len(),
{
    if ls.len() == 0 {
        None
    } else if trim(ls.last()).len() > 0 {
        Some(ls.last())
    } else {
        last_nonblank(ls.drop_last())
    }
}

/// The text with every leading copy of `p` removed: `str::trim_start_matches`.
pub open spec fn strip_leading(s: Seq<char>, p: Seq<char>) -> Seq<char>
    decreases s.len(),
{
    if p.len() > 0 && starts_with(s, p) {
        strip_leading(s.skip(p.len() as int), p)
    } else {
        s
    }
}

/// What a refused pattern's complaint says: the last line that is not blank, which is the part
/// that says what is actually wrong.
pub open spec fn complaint_of(text: Seq<char>) -> Seq<char> {
    let line = match last_nonblank(lines(text)) {
        Some(l) => l,
        None => "invalid pattern"@,
    };
    strip_leading(trim(line), "error: "@)
}

fn last_nonblank_index(ls: &Vec<Vec<char>>) -> (r: Option<usize>)
    ensures
        match r {
            Some(i) => i < ls@.len() && last_nonblank(crate::text::views(ls@)) == Some(ls@[i as int]@),
            None => last_nonblank(crate::text::views(ls@)) is None,
        },
{
    let ghost lv = crate::text::views(ls@);
    let mut k = ls.len();
    assert(lv.take(k as int) =~= lv);
    while k > 0
        invariant
            k <= ls@.len(),
            lv == crate::text::views(ls@),
            last_nonblank(lv) == last_nonblank(lv.take(k as int)),
        decreases k,
    {
        assert(lv.take(k as int).last() == ls@[k - 1]@);
        if trim_exec(&ls[k - 1]).len() > 0 {
            return Some(k - 1);
        }
        assert(lv.take(k as int).drop_last() =~= lv.take(k - 1));
        k = k - 1;
    }
    None
}

/// The regex crate reports a parse error as a diagram of several lines. A usage message can
/// carry one line, and its last line is the part that says what is actually wrong.
pub fn complaint(text: &str) -> (r: String)
    ensures
        r@ == complaint_of(text@),
{
    let ls = lines_of(&chars_of(text));
    let line = match last_nonblank_index(&ls) {
        Some(i) => trim_exec(&ls[i]),
        None => trim_exec(&chars_of("invalid pattern")),
    };
    let prefix = chars_of("error: ");
    proof {
        reveal_strlit("error: ");
    }
    let ghost first = line@;
    let mut rest = line;
    while crate::text::starts_with_exec(&rest, &prefix)
        invariant
            prefix@ == "error: "@,
            prefix@.len() == 7,
            strip_leading(rest@, prefix@) == strip_leading(first, prefix@),
        decreases rest@.len(),
    {
        let n = rest.len();
        let ghost before = rest@;
        rest = crate::text::slice_of(&rest, 7, n);
        assert(rest@ =~= before.skip(7));
    }
    string_of(&rest)
}

impl Pattern {
    pub closed spec fn source_view(&self) -> Seq<char> {
        self.source@
    }

    /// Compile a pattern, or say in one line why it is not one.
    pub fn compile(pattern: &str) -> (r: Result<Pattern, Fail>)
        ensures
            match r {
                Ok(p) => p.source_view() == pattern@ && regex_error(pattern@) is None,
                Err(f) => f.exit == Exit::Usage && (regex_error(pattern@) matches Some(e)
                    && f.message@ == "`"@ + pattern@ + "` is not a valid regex: "@ + complaint_of(e)),
            },
    {
        match compile_regex(pattern) {
            Ok(regex) => Ok(Pattern { source: String::from_str(pattern), regex }),
            Err(e) => {
                let mut m = String::from_str("`");
                m.append(pattern);
                m.append("` is not a valid regex: ");
                m.append(complaint(e.as_str()).as_str());
                Err(Fail::usage(m))
            },
        }
    }

    /// Whether the pattern matches anywhere in the line.
    pub fn is_match(&self, line: &str) -> (r: bool)
        ensures
            r == regex_matches(self.source_view(), line@),
    {
        regex_is_match(self, line)
    }

    /// The text the pattern was compiled from.
    pub fn source(&self) -> (r: &str)
        ensures
            r@ == self.source_view(),
    {
        self.source.as_str()
    }
}

/// The pattern and the paths of a `search` invocation, the pattern compiled.
pub fn pattern_of(args: &Vec<String>) -> (r: Result<Pattern, Fail>)
    ensures
        match r {
            Ok(p) => args@.len() > 0 && p.source_view() == args@[0]@ && regex_error(args@[0]@) is None,
            Err(f) => f.exit == Exit::Usage && if args@.len() == 0 {
                f.message@ == "`search` needs a pattern · at-peek search <pattern> [path…]"@
            } else {
                regex_error(args@[0]@) matches Some(e) && f.message@ == "`"@ + args@[0]@ + "` is not a valid regex: "@ + complaint_of(e)
            },
        },
{
    if args.len() == 0 {
        return Err(Fail::usage(String::from_str("`search` needs a pattern · at-peek search <pattern> [path…]")));
    }
    Pattern::compile(args[0].as_str())
}

// ---------------------------------------------------------------------------------------
// The walk
// ---------------------------------------------------------------------------------------

/// Directory names the walk refuses outright, in the order a set of them sorts. Not gitignore
/// semantics (the output names what it skipped), just the names that would otherwise turn a
/// search of a repository into a walk of a build tree.
pub open spec fn skip_dirs() -> Seq<Seq<char>> {
    seq![".direnv"@, ".git"@, ".tmp"@, "dist"@, "node_modules"@, "result"@, "target"@]
}

pub open spec fn static_views(v: Seq<&'static str>) -> Seq<Seq<char>> {
    v.map_values(|n: &'static str| n@)
}

/// The directory names the walk refuses, in set order.
pub fn skip_dir_names() -> (r: Vec<&'static str>)
    ensures
        static_views(r@) == skip_dirs(),
{
    let r = vec![".direnv", ".git", ".tmp", "dist", "node_modules", "result", "target"];
    assert(static_views(r@) =~= skip_dirs());
    r
}

/// The order a set of paths iterates in: component by component, which is character order
/// with the separator below every other character.
pub open spec fn path_key(p: Seq<char>) -> Seq<char> {
    p.map_values(|c: char| if c == '/' { '\0' } else { c })
}

pub open spec fn path_lt(a: Seq<char>, b: Seq<char>) -> bool {
    crate::text::lex_lt(path_key(a), path_key(b))
}

pub open spec fn no_nul(p: Seq<char>) -> bool {
    forall|i: int| 0 <= i < p.len() ==> p[i] != '\0'
}

/// Strictly increasing in path order: a set, listed in the order it iterates.
pub open spec fn path_sorted(ps: Seq<Seq<char>>) -> bool {
    forall|i: int, j: int| 0 <= i < j < ps.len() ==> path_lt(#[trigger] ps[i], #[trigger] ps[j])
}

proof fn lemma_key_injective(a: Seq<char>, b: Seq<char>)
    requires
        no_nul(a),
        no_nul(b),
        path_key(a) == path_key(b),
    ensures
        a == b,
{
    assert(a.len() == path_key(a).len());
    assert forall|i: int| 0 <= i < a.len() implies a[i] == b[i] by {
        assert(path_key(a)[i] == path_key(b)[i]);
        assert(path_key(a)[i] == (if a[i] == '/' { '\0' } else { a[i] }));
        assert(path_key(b)[i] == (if b[i] == '/' { '\0' } else { b[i] }));
        assert(a[i] != '\0');
        assert(b[i] != '\0');
    }
    assert(a =~= b);
}

fn path_key_exec(p: &[char]) -> (r: Vec<char>)
    ensures
        r@ == path_key(p@),
{
    let mut r: Vec<char> = Vec::new();
    let mut i: usize = 0;
    while i < p.len()
        invariant
            i <= p@.len(),
            r@ == path_key(p@.take(i as int)),
        decreases p.len() - i,
    {
        let c = if p[i] == '/' { '\0' } else { p[i] };
        r.push(c);
        assert(r@ =~= path_key(p@.take(i + 1)));
        i = i + 1;
    }
    assert(p@.take(p@.len() as int) =~= p@);
    r
}

fn path_less(a: &str, b: &str) -> (r: bool)
    ensures
        r == path_lt(a@, b@),
{
    crate::text::lex_less(&path_key_exec(&chars_of(a)), &path_key_exec(&chars_of(b)))
}

/// What a walk found: the files it will search, as a set, and what it passed over.
pub struct Walk {
    files: Vec<String>,
    considered: usize,
    capped: bool,
    skipped: Vec<bool>,
    symlinks: usize,
    unreadable: usize,
}

/// The names of the skip rules that fired, in set order.
pub open spec fn fired(flags: Seq<bool>, names: Seq<Seq<char>>) -> Seq<Seq<char>>
    decreases flags.len(),
{
    if flags.len() == 0 || names.len() == 0 {
        seq![]
    } else {
        let rest = fired(flags.drop_last(), names.drop_last());
        if flags.last() { rest.push(names.last()) } else { rest }
    }
}

impl Walk {
    pub closed spec fn files_view(&self) -> Seq<Seq<char>> {
        crate::text::str_views(self.files@)
    }

    pub closed spec fn skipped_view(&self) -> Seq<Seq<char>> {
        fired(self.skipped@, skip_dirs())
    }

    pub closed spec fn considered_view(&self) -> nat {
        self.considered as nat
    }

    pub closed spec fn capped_view(&self) -> bool {
        self.capped
    }

    pub closed spec fn symlinks_view(&self) -> nat {
        self.symlinks as nat
    }

    pub closed spec fn unreadable_view(&self) -> nat {
        self.unreadable as nat
    }

    /// The walk's own invariant: its files are a set in path order, each counted once.
    pub closed spec fn wf(&self) -> bool {
        &&& path_sorted(self.files_view())
        &&& forall|i: int| 0 <= i < self.files@.len() ==> no_nul(#[trigger] self.files@[i]@)
        &&& self.considered == self.files@.len()
        &&& self.skipped@.len() == 7
    }

    pub fn new() -> (w: Walk)
        ensures
            w.wf(),
            w.files_view().len() == 0,
            w.skipped_view().len() == 0,
            w.considered_view() == 0,
            !w.capped_view(),
            w.symlinks_view() == 0,
            w.unreadable_view() == 0,
    {
        let w = Walk {
            files: Vec::new(),
            considered: 0,
            capped: false,
            skipped: vec![false, false, false, false, false, false, false],
            symlinks: 0,
            unreadable: 0,
        };
        assert(w.files_view() =~= Seq::<Seq<char>>::empty());
        assert(fired(w.skipped@, skip_dirs()) =~= Seq::<Seq<char>>::empty()) by {
            let f = w.skipped@;
            assert(f.drop_last().drop_last().drop_last().drop_last().drop_last().drop_last().drop_last().len() == 0);
            reveal_with_fuel(fired, 8);
        }
        w
    }

    /// The files to search, in path order.
    pub fn files(&self) -> (r: &Vec<String>)
        ensures
            crate::text::str_views(r@) == self.files_view(),
    {
        &self.files
    }

    /// Files considered so far.
    pub fn considered(&self) -> (r: usize)
        ensures
            r == self.considered_view(),
    {
        self.considered
    }

    /// Whether the walk stopped at `--max-files`.
    pub fn capped(&self) -> (r: bool)
        ensures
            r == self.capped_view(),
    {
        self.capped
    }

    /// Add a file to the set; a path named twice is searched once.
    pub fn add_file(&mut self, path: String) -> (added: bool)
        requires
            old(self).wf(),
            no_nul(path@),
        ensures
            final(self).wf(),
            added == !old(self).files_view().contains(path@),
            final(self).files_view().to_set() == old(self).files_view().to_set().insert(path@),
            final(self).skipped_view() == old(self).skipped_view(),
            final(self).capped_view() == old(self).capped_view(),
            final(self).symlinks_view() == old(self).symlinks_view(),
            final(self).unreadable_view() == old(self).unreadable_view(),
    {
        let ghost old_files = self.files_view();
        let mut i: usize = 0;
        while i < self.files.len() && path_less(self.files[i].as_str(), path.as_str())
            invariant
                i <= self.files@.len(),
                self.files_view() == old_files,
                path_sorted(old_files),
                forall|k: int| 0 <= k < i ==> path_lt(#[trigger] old_files[k], path@),
            decreases self.files.len() - i,
        {
            i = i + 1;
        }
        proof {
            assert forall|k: int| i <= k < old_files.len() implies !path_lt(#[trigger] old_files[k], path@) by {
                if k > i {
                    assert(path_lt(old_files[i as int], old_files[k]));
                    if path_lt(old_files[k], path@) {
                        crate::text::lemma_lex_transitive(path_key(old_files[i as int]), path_key(old_files[k]), path_key(path@));
                    }
                }
            }
        }
        if i < self.files.len() && self.files[i] == path {
            proof {
                assert(old_files[i as int] == path@);
                assert(old_files.to_set().insert(path@) =~= old_files.to_set());
            }
            return false;
        }
        proof {
            assert forall|k: int| 0 <= k < old_files.len() implies old_files[k] != path@ by {
                if k < i {
                    crate::text::lemma_lex_irreflexive(path_key(path@));
                } else if k == i {
                    assert(self.files@[k]@ == old_files[k]);
                }
                else {
                    assert(path_lt(old_files[i as int], old_files[k]));
                    if old_files[k] == path@ {
                        crate::text::lemma_lex_total(path_key(old_files[i as int]), path_key(path@));
                        if path_key(old_files[i as int]) == path_key(path@) {
                            lemma_key_injective(self.files@[i as int]@, path@);
                        }
                    }
                }
            }
            if i < old_files.len() {
                crate::text::lemma_lex_total(path_key(old_files[i as int]), path_key(path@));
                if path_key(old_files[i as int]) == path_key(path@) {
                    lemma_key_injective(self.files@[i as int]@, path@);
                }
                assert(path_lt(path@, old_files[i as int]));
            }
        }
        let ghost p = path@;
        self.files.insert(i, path);
        self.considered = self.files.len();
        proof {
            let nf = self.files_view();
            assert(nf =~= old_files.insert(i as int, p));
            assert forall|a: int, b: int| 0 <= a < b < nf.len() implies path_lt(#[trigger] nf[a], #[trigger] nf[b]) by {
                if b < i {
                } else if a < i && b == i {
                } else if a < i && b > i {
                    assert(nf[b] == old_files[b - 1]);
                    if i < old_files.len() {
                        crate::text::lemma_lex_transitive(path_key(nf[a]), path_key(p), path_key(old_files[i as int]));
                        if b - 1 > i {
                            crate::text::lemma_lex_transitive(path_key(nf[a]), path_key(old_files[i as int]), path_key(old_files[b - 1]));
                        }
                    }
                } else if a == i {
                    assert(nf[b] == old_files[b - 1]);
                    if b - 1 > i {
                        crate::text::lemma_lex_transitive(path_key(p), path_key(old_files[i as int]), path_key(old_files[b - 1]));
                    }
                } else {
                    assert(nf[a] == old_files[a - 1]);
                    assert(nf[b] == old_files[b - 1]);
                }
            }
            assert(nf.to_set() =~= old_files.to_set().insert(p)) by {
                assert forall|x: Seq<char>| nf.to_set().contains(x) <==> old_files.to_set().insert(p).contains(x) by {
                    if nf.to_set().contains(x) {
                        let k = choose|k: int| 0 <= k < nf.len() && nf[k] == x;
                        if k < i {
                            assert(old_files[k] == x);
                        } else if k > i {
                            assert(old_files[k - 1] == x);
                        }
                    }
                    if old_files.to_set().contains(x) {
                        let k = choose|k: int| 0 <= k < old_files.len() && old_files[k] == x;
                        if k < i {
                            assert(nf[k] == x);
                        } else {
                            assert(nf[k + 1] == x);
                        }
                    }
                    if x == p {
                        assert(nf[i as int] == x);
                    }
                }
            }
        }
        true
    }

    /// Whether the walk is full; a full walk says so in its answer.
    pub fn full(&mut self, max_files: usize) -> (r: bool)
        requires
            old(self).wf(),
        ensures
            final(self).wf(),
            r == (old(self).considered_view() >= max_files),
            final(self).capped_view() == (old(self).capped_view() || r),
            final(self).files_view() == old(self).files_view(),
            final(self).skipped_view() == old(self).skipped_view(),
            final(self).symlinks_view() == old(self).symlinks_view(),
            final(self).unreadable_view() == old(self).unreadable_view(),
    {
        if self.considered >= max_files {
            self.capped = true;
            true
        } else {
            false
        }
    }

    /// Pass over a directory when a skip rule names it; say whether one did.
    pub fn skip_dir(&mut self, name: &str) -> (r: bool)
        requires
            old(self).wf(),
        ensures
            final(self).wf(),
            r == skip_dirs().contains(name@),
            final(self).skipped_view().to_set() == (if r { old(self).skipped_view().to_set().insert(name@) } else { old(self).skipped_view().to_set() }),
            final(self).files_view() == old(self).files_view(),
            final(self).capped_view() == old(self).capped_view(),
            final(self).considered_view() == old(self).considered_view(),
            final(self).symlinks_view() == old(self).symlinks_view(),
            final(self).unreadable_view() == old(self).unreadable_view(),
    {
        let names = skip_dir_names();
        assert(names@.len() == static_views(names@).len());
        let mut k: usize = 0;
        while k < names.len()
            invariant
                k <= 7,
                static_views(names@) == skip_dirs(),
                names@.len() == 7,
                self.wf(),
                *self == *old(self),
                forall|j: int| 0 <= j < k ==> skip_dirs()[j] != name@,
            decreases 7 - k,
        {
            assert(names@[k as int]@ == static_views(names@)[k as int]);
            if eq_str(names[k], name) {
                let ghost before = self.skipped@;
                self.skipped.set(k, true);
                proof {
                    assert(skip_dirs()[k as int] == name@);
                    lemma_fired_set(before, skip_dirs(), k as int);
                }
                return true;
            }
            k = k + 1;
        }
        proof {
            assert forall|j: int| 0 <= j < skip_dirs().len() implies skip_dirs()[j] != name@ by {}
        }
        false
    }

    /// A symbolic link the walk did not follow.
    pub fn note_symlink(&mut self)
        requires
            old(self).wf(),
            old(self).symlinks_view() < usize::MAX,
        ensures
            final(self).wf(),
            final(self).symlinks_view() == old(self).symlinks_view() + 1,
            final(self).files_view() == old(self).files_view(),
            final(self).skipped_view() == old(self).skipped_view(),
            final(self).capped_view() == old(self).capped_view(),
            final(self).unreadable_view() == old(self).unreadable_view(),
    {
        self.symlinks = self.symlinks + 1;
    }

    /// An entry the walk could not read.
    pub fn note_unreadable(&mut self)
        requires
            old(self).wf(),
            old(self).unreadable_view() < usize::MAX,
        ensures
            final(self).wf(),
            final(self).unreadable_view() == old(self).unreadable_view() + 1,
            final(self).files_view() == old(self).files_view(),
            final(self).skipped_view() == old(self).skipped_view(),
            final(self).capped_view() == old(self).capped_view(),
            final(self).symlinks_view() == old(self).symlinks_view(),
    {
        self.unreadable = self.unreadable + 1;
    }
}

fn eq_str(a: &str, b: &str) -> (r: bool)
    ensures
        r == (a@ == b@),
{
    crate::text::eq_chars(&chars_of(a), &chars_of(b))
}

proof fn lemma_fired_set(flags: Seq<bool>, names: Seq<Seq<char>>, k: int)
    requires
        flags.len() == names.len(),
        0 <= k < flags.len(),
    ensures
        fired(flags.update(k, true), names).to_set() == fired(flags, names).to_set().insert(names[k]),
    decreases flags.len(),
{
    let f2 = flags.update(k, true);
    let rest = fired(flags.drop_last(), names.drop_last());
    if k == flags.len() - 1 {
        assert(f2.drop_last() =~= flags.drop_last());
        rest.lemma_push_to_set_commute(names.last());
        if flags.last() {
            assert(fired(flags, names).to_set() =~= fired(flags, names).to_set().insert(names[k]));
        }
    } else {
        assert(f2.drop_last() =~= flags.drop_last().update(k, true));
        lemma_fired_set(flags.drop_last(), names.drop_last(), k);
        let rest2 = fired(f2.drop_last(), names.drop_last());
        if flags.last() {
            rest.lemma_push_to_set_commute(names.last());
            rest2.lemma_push_to_set_commute(names.last());
            assert(fired(f2, names).to_set() =~= fired(flags, names).to_set().insert(names[k]));
        } else {
            assert(fired(f2, names).to_set() =~= fired(flags, names).to_set().insert(names[k]));
        }
    }
}

proof fn lemma_fired_contains(flags: Seq<bool>, names: Seq<Seq<char>>)
    requires
        flags.len() == names.len(),
    ensures
        forall|x: Seq<char>| #[trigger] fired(flags, names).contains(x) ==> names.contains(x),
    decreases flags.len(),
{
    if flags.len() > 0 {
        lemma_fired_contains(flags.drop_last(), names.drop_last());
        assert forall|x: Seq<char>| #[trigger] fired(flags, names).contains(x) implies names.contains(x) by {
            if fired(flags.drop_last(), names.drop_last()).contains(x) {
                let j = choose|j: int| 0 <= j < names.drop_last().len() && names.drop_last()[j] == x;
                assert(names[j] == x);
            } else {
                assert(names[names.len() - 1] == x);
            }
        }
    }
}

// ---------------------------------------------------------------------------------------
// Counting
// ---------------------------------------------------------------------------------------

/// The last component of a path: what the deny-list looks at.
pub open spec fn file_name(path: Seq<char>) -> Seq<char> {
    match last_index(path, '/') {
        Some(k) => path.skip(k + 1),
        None => path,
    }
}

/// A file as the search sees it: its path relative to the root, its name, and what reading
/// it produced (`None` where it could not be read, or was withheld and never read).
pub type ScanView = (Seq<char>, Seq<char>, Option<Content>);

/// A secret-shaped file the caller did not ask for by flag: never read, only counted.
pub open spec fn withheld(name: Seq<char>, include_secret_paths: bool) -> bool {
    !include_secret_paths && secret_rule(name) is Some
}

/// What became of a file: 0 withheld, 1 binary, 2 not UTF-8, 3 unreadable, 4 searched.
pub open spec fn kind(f: ScanView, secrets_too: bool) -> int {
    if withheld(f.1, secrets_too) {
        0
    } else {
        match f.2 {
            Some(Content::Binary(_)) => 1,
            Some(Content::NotUtf8(_)) => 2,
            None => 3,
            Some(Content::Text(_)) => 4,
        }
    }
}

pub open spec fn text_of(f: ScanView) -> Seq<char> {
    match f.2 {
        Some(Content::Text(t)) => t@,
        _ => seq![],
    }
}

/// The lines of a text the pattern matches, with their numbers from 1.
pub open spec fn hits_in(pattern: Seq<char>, ls: Seq<Seq<char>>) -> Seq<(nat, Seq<char>)>
    decreases ls.len(),
{
    if ls.len() == 0 {
        seq![]
    } else if regex_matches(pattern, ls.last()) {
        hits_in(pattern, ls.drop_last()).push((ls.len(), ls.last()))
    } else {
        hits_in(pattern, ls.drop_last())
    }
}

/// A file's matching lines, when it is searched at all.
pub open spec fn file_hits(f: ScanView, pattern: Seq<char>, secrets_too: bool) -> Seq<(nat, Seq<char>)> {
    if kind(f, secrets_too) == 4 { hits_in(pattern, lines(text_of(f))) } else { seq![] }
}

/// A match: the file's relative path, the line's number, the line.
pub type Hit = (Seq<char>, nat, Seq<char>);

pub open spec fn tagged(rel: Seq<char>, hs: Seq<(nat, Seq<char>)>) -> Seq<Hit>
    decreases hs.len(),
{
    if hs.len() == 0 {
        seq![]
    } else {
        tagged(rel, hs.drop_last()).push((rel, hs.last().0, hs.last().1))
    }
}

/// Every match in the files, in file order, then line order.
pub open spec fn all_hits(fs: Seq<ScanView>, pattern: Seq<char>, secrets_too: bool) -> Seq<Hit>
    decreases fs.len(),
{
    if fs.len() == 0 {
        seq![]
    } else {
        all_hits(fs.drop_last(), pattern, secrets_too) + tagged(fs.last().0, file_hits(fs.last(), pattern, secrets_too))
    }
}

/// The files with at least one match, each with its count.
pub open spec fn counted_files(fs: Seq<ScanView>, pattern: Seq<char>, secrets_too: bool) -> Seq<(Seq<char>, nat)>
    decreases fs.len(),
{
    if fs.len() == 0 {
        seq![]
    } else {
        let rest = counted_files(fs.drop_last(), pattern, secrets_too);
        let n = file_hits(fs.last(), pattern, secrets_too).len();
        if n > 0 { rest.push((fs.last().0, n)) } else { rest }
    }
}

/// How many files met the given fate.
pub open spec fn kind_count(fs: Seq<ScanView>, secrets_too: bool, k: int) -> nat
    decreases fs.len(),
{
    if fs.len() == 0 {
        0
    } else {
        kind_count(fs.drop_last(), secrets_too, k) + if kind(fs.last(), secrets_too) == k { 1nat } else { 0nat }
    }
}

/// The number of lines in the texts that were read.
pub open spec fn line_total(fs: Seq<ScanView>) -> nat
    decreases fs.len(),
{
    if fs.len() == 0 { 0 } else { line_total(fs.drop_last()) + lines(text_of(fs.last())).len() }
}

/// Whether the lines of the files' texts can be counted in a `usize`: what a search over them
/// needs, tested before it runs.
pub fn lines_fit(paths: &Vec<String>, contents: &Vec<Option<Content>>, root: &Root) -> (r: bool)
    requires
        paths@.len() == contents@.len(),
    ensures
        r == (line_total(scan_views(str_views(paths@), contents@, root.dir_view())) < usize::MAX),
{
    let ghost fs = scan_views(str_views(paths@), contents@, root.dir_view());
    let mut total: usize = 0;
    let mut i: usize = 0;
    assert(fs.take(0) =~= Seq::<ScanView>::empty());
    while i < contents.len()
        invariant
            i <= contents@.len(),
            paths@.len() == contents@.len(),
            fs == scan_views(str_views(paths@), contents@, root.dir_view()),
            total as nat == line_total(fs.take(i as int)),
            total < usize::MAX,
        decreases contents.len() - i,
    {
        assert(fs.take(i + 1).drop_last() =~= fs.take(i as int));
        assert(fs.take(i + 1).last() == fs[i as int]);
        assert(fs[i as int].2 == contents@[i as int]);
        let n: usize = match &contents[i] {
            Some(Content::Text(t)) => {
                let ls = lines_of(&chars_of(t.as_str()));
                assert(crate::text::views(ls@).len() == ls@.len());
                ls.len()
            },
            _ => {
                let ls = lines_of(&chars_of(""));
                assert(crate::text::views(ls@).len() == ls@.len());
                assert(text_of(fs[i as int]) == Seq::<char>::empty());
                proof {
                    reveal_strlit("");
                }
                assert(""@ =~= Seq::<char>::empty());
                ls.len()
            },
        };
        assert(n as nat == lines(text_of(fs[i as int])).len());
        if n >= usize::MAX - total {
            proof {
                lemma_line_total_prefix(fs, i + 1);
            }
            return false;
        }
        total = total + n;
        i = i + 1;
    }
    assert(fs.take(contents@.len() as int) =~= fs);
    true
}

/// At most the first `limit`.
pub open spec fn cap<T>(s: Seq<T>, limit: nat) -> Seq<T> {
    if s.len() <= limit { s } else { s.take(limit as int) }
}

/// The matches the listing shows: the first `--limit`, in the mode that lists them.
pub open spec fn shown_hits(fs: Seq<ScanView>, pattern: Seq<char>, secrets_too: bool, mode: Mode, limit: nat) -> Seq<Hit> {
    partial_shown(all_hits(fs, pattern, secrets_too), mode, limit)
}

/// A shown match as its line of the listing holds it: the line cut at the width cap.
pub open spec fn rendered(hs: Seq<Hit>) -> Seq<(Seq<char>, nat, Seq<char>)>
    decreases hs.len(),
{
    if hs.len() == 0 {
        seq![]
    } else {
        rendered(hs.drop_last()).push((hs.last().0, hs.last().1, truncated(hs.last().2).0))
    }
}

/// How many of the matches were cut at the width cap.
pub open spec fn hit_cuts(hs: Seq<Hit>) -> nat
    decreases hs.len(),
{
    if hs.len() == 0 { 0 } else { hit_cuts(hs.drop_last()) + if truncated(hs.last().2).1 { 1nat } else { 0nat } }
}

/// What a search found, before it is said.
pub struct Tally {
    pub counted: Vec<(String, usize)>,
    pub shown: Vec<(String, usize, String)>,
    pub total: usize,
    pub truncated: usize,
    pub secret: usize,
    pub binary: usize,
    pub not_utf8: usize,
    pub unreadable: usize,
}

pub open spec fn counted_view(v: Seq<(String, usize)>) -> Seq<(Seq<char>, nat)>
    decreases v.len(),
{
    if v.len() == 0 { seq![] } else { counted_view(v.drop_last()).push((v.last().0@, v.last().1 as nat)) }
}

pub open spec fn shown_view(v: Seq<(String, usize, String)>) -> Seq<(Seq<char>, nat, Seq<char>)>
    decreases v.len(),
{
    if v.len() == 0 { seq![] } else { shown_view(v.drop_last()).push((v.last().0@, v.last().1 as nat, v.last().2@)) }
}

/// The tally is exactly what the files hold.
pub open spec fn tally_of(t: Tally, fs: Seq<ScanView>, pattern: Seq<char>, secrets_too: bool, mode: Mode, limit: nat) -> bool {
    &&& counted_view(t.counted@) == counted_files(fs, pattern, secrets_too)
    &&& shown_view(t.shown@) == rendered(shown_hits(fs, pattern, secrets_too, mode, limit))
    &&& t.total == all_hits(fs, pattern, secrets_too).len()
    &&& t.truncated == hit_cuts(shown_hits(fs, pattern, secrets_too, mode, limit))
    &&& t.secret == kind_count(fs, secrets_too, 0)
    &&& t.binary == kind_count(fs, secrets_too, 1)
    &&& t.not_utf8 == kind_count(fs, secrets_too, 2)
    &&& t.unreadable == kind_count(fs, secrets_too, 3)
}

proof fn lemma_hits_bound(pattern: Seq<char>, ls: Seq<Seq<char>>)
    ensures
        hits_in(pattern, ls).len() <= ls.len(),
    decreases ls.len(),
{
    if ls.len() > 0 {
        lemma_hits_bound(pattern, ls.drop_last());
    }
}

proof fn lemma_tagged_len(rel: Seq<char>, hs: Seq<(nat, Seq<char>)>)
    ensures
        tagged(rel, hs).len() == hs.len(),
    decreases hs.len(),
{
    if hs.len() > 0 {
        lemma_tagged_len(rel, hs.drop_last());
    }
}

proof fn lemma_all_hits_bound(fs: Seq<ScanView>, pattern: Seq<char>, secrets_too: bool)
    ensures
        all_hits(fs, pattern, secrets_too).len() <= line_total(fs),
        counted_files(fs, pattern, secrets_too).len() <= fs.len(),
    decreases fs.len(),
{
    if fs.len() > 0 {
        lemma_all_hits_bound(fs.drop_last(), pattern, secrets_too);
        lemma_tagged_len(fs.last().0, file_hits(fs.last(), pattern, secrets_too));
        lemma_hits_bound(pattern, lines(text_of(fs.last())));
    }
}

proof fn lemma_line_total_prefix(fs: Seq<ScanView>, i: int)
    requires
        0 <= i <= fs.len(),
    ensures
        line_total(fs.take(i)) <= line_total(fs),
    decreases fs.len() - i,
{
    if i < fs.len() {
        lemma_line_total_prefix(fs, i + 1);
        assert(fs.take(i + 1).drop_last() =~= fs.take(i));
    } else {
        assert(fs.take(i) =~= fs);
    }
}

proof fn lemma_kind_bound(fs: Seq<ScanView>, secrets_too: bool, k: int)
    ensures
        kind_count(fs, secrets_too, k) <= fs.len(),
    decreases fs.len(),
{
    if fs.len() > 0 {
        lemma_kind_bound(fs.drop_last(), secrets_too, k);
    }
}

proof fn lemma_cap_push<T>(s: Seq<T>, x: T, limit: nat)
    ensures
        cap(s.push(x), limit) == (if s.len() < limit { cap(s, limit).push(x) } else { cap(s, limit) }),
{
    if s.len() < limit {
        assert(cap(s.push(x), limit) =~= cap(s, limit).push(x));
    } else {
        assert(cap(s.push(x), limit) =~= cap(s, limit));
    }
}

/// The state of a search part-way through a file: the files before it done, and the first
/// lines of this one.
pub open spec fn partial_hits(done: Seq<ScanView>, rel: Seq<char>, pattern: Seq<char>, ls: Seq<Seq<char>>, secrets_too: bool) -> Seq<Hit> {
    all_hits(done, pattern, secrets_too) + tagged(rel, hits_in(pattern, ls))
}

pub open spec fn partial_shown(hs: Seq<Hit>, mode: Mode, limit: nat) -> Seq<Hit> {
    match mode {
        Mode::Matches => cap(hs, limit),
        _ => seq![],
    }
}

fn listing(m: &Mode) -> (r: bool)
    ensures
        r == (*m is Matches),
{
    match m {
        Mode::Matches => true,
        _ => false,
    }
}

proof fn lemma_shown_len(v: Seq<(String, usize, String)>)
    ensures
        shown_view(v).len() == v.len(),
    decreases v.len(),
{
    if v.len() > 0 {
        lemma_shown_len(v.drop_last());
    }
}

proof fn lemma_rendered_len(hs: Seq<Hit>)
    ensures
        rendered(hs).len() == hs.len(),
        hit_cuts(hs) <= hs.len(),
    decreases hs.len(),
{
    if hs.len() > 0 {
        lemma_rendered_len(hs.drop_last());
    }
}

/// Search one text's lines, adding to the tally.
#[verifier::rlimit(40)]
fn tally_lines(t: &mut Tally, pattern: &Pattern, rel: &String, text: &String, mode: &Mode, limit: usize,
    Ghost(done): Ghost<Seq<ScanView>>, Ghost(secrets_too): Ghost<bool>) -> (hits: usize)
    requires
        old(t).total == all_hits(done, pattern.source_view(), secrets_too).len(),
        shown_view(old(t).shown@) == rendered(partial_shown(all_hits(done, pattern.source_view(), secrets_too), *mode, limit as nat)),
        old(t).truncated == hit_cuts(partial_shown(all_hits(done, pattern.source_view(), secrets_too), *mode, limit as nat)),
        all_hits(done, pattern.source_view(), secrets_too).len() + lines(text@).len() < usize::MAX,
    ensures
        hits == hits_in(pattern.source_view(), lines(text@)).len(),
        final(t).total == partial_hits(done, rel@, pattern.source_view(), lines(text@), secrets_too).len(),
        shown_view(final(t).shown@) == rendered(partial_shown(partial_hits(done, rel@, pattern.source_view(), lines(text@), secrets_too), *mode, limit as nat)),
        final(t).truncated == hit_cuts(partial_shown(partial_hits(done, rel@, pattern.source_view(), lines(text@), secrets_too), *mode, limit as nat)),
        final(t).counted == old(t).counted,
        final(t).secret == old(t).secret,
        final(t).binary == old(t).binary,
        final(t).not_utf8 == old(t).not_utf8,
        final(t).unreadable == old(t).unreadable,
{
    let ghost p = pattern.source_view();
    let ls = lines_of(&chars_of(text.as_str()));
    let ghost lv = crate::text::views(ls@);
    let ghost base = all_hits(done, p, secrets_too);
    let mut hits: usize = 0;
    let mut k: usize = 0;
    assert(lv.take(0) =~= Seq::<Seq<char>>::empty());
    assert(base + tagged(rel@, hits_in(p, lv.take(0))) =~= base);
    proof {
        lemma_rendered_len(partial_shown(base, *mode, limit as nat));
    }
    while k < ls.len()
        invariant
            k <= ls@.len(),
            lv == crate::text::views(ls@),
            lv == lines(text@),
            p == pattern.source_view(),
            base == all_hits(done, p, secrets_too),
            base.len() + lv.len() < usize::MAX,
            hits == hits_in(p, lv.take(k as int)).len(),
            hits <= k,
            t.total == partial_hits(done, rel@, p, lv.take(k as int), secrets_too).len(),
            t.total == base.len() + hits,
            shown_view(t.shown@) == rendered(partial_shown(partial_hits(done, rel@, p, lv.take(k as int), secrets_too), *mode, limit as nat)),
            t.truncated == hit_cuts(partial_shown(partial_hits(done, rel@, p, lv.take(k as int), secrets_too), *mode, limit as nat)),
            t.truncated <= t.total,
            t.counted == old(t).counted,
            t.secret == old(t).secret,
            t.binary == old(t).binary,
            t.not_utf8 == old(t).not_utf8,
            t.unreadable == old(t).unreadable,
        decreases ls.len() - k,
    {
        let ghost before = partial_hits(done, rel@, p, lv.take(k as int), secrets_too);
        assert(lv.take(k + 1).drop_last() =~= lv.take(k as int));
        assert(lv.take(k + 1).last() == ls@[k as int]@);
        proof {
            lemma_hits_bound(p, lv.take(k as int));
            lemma_tagged_len(rel@, hits_in(p, lv.take(k as int)));
        }
        let line = string_of(&ls[k]);
        if pattern.is_match(line.as_str()) {
            let ghost h: Hit = (rel@, (k + 1) as nat, lv[k as int]);
            proof {
                assert(hits_in(p, lv.take(k + 1)) == hits_in(p, lv.take(k as int)).push(((k + 1) as nat, lv[k as int])));
                assert(hits_in(p, lv.take(k + 1)).drop_last() =~= hits_in(p, lv.take(k as int)));
                assert(tagged(rel@, hits_in(p, lv.take(k + 1))) =~= tagged(rel@, hits_in(p, lv.take(k as int))).push(h));
                assert(partial_hits(done, rel@, p, lv.take(k + 1), secrets_too) =~= before.push(h));
                lemma_cap_push(before, h, limit as nat);
            }
            hits = hits + 1;
            t.total = t.total + 1;
            proof {
                lemma_shown_len(t.shown@);
                lemma_rendered_len(partial_shown(before, *mode, limit as nat));
            }
            if listing(mode) && t.shown.len() < limit {
                let (rendered_line, cut) = crate::contract::truncate(line.as_str());
                if cut {
                    t.truncated = t.truncated + 1;
                }
                let ghost prev = t.shown@;
                t.shown.push((rel.clone(), k + 1, rendered_line));
                proof {
                    assert(t.shown@.drop_last() =~= prev);
                    assert(cap(before, limit as nat).push(h).drop_last() =~= cap(before, limit as nat));
                }
            }
        } else {
            proof {
                assert(hits_in(p, lv.take(k + 1)) == hits_in(p, lv.take(k as int)));
            }
        }
        k = k + 1;
    }
    assert(lv.take(ls@.len() as int) =~= lv);
    hits
}

/// The files of a walk as the search sees them.
pub open spec fn scan_views(paths: Seq<Seq<char>>, contents: Seq<Option<Content>>, dir: Seq<char>) -> Seq<ScanView> {
    Seq::new(paths.len(), |i: int| (relative_to(paths[i], dir), file_name(paths[i]), contents[i]))
}

/// The last component of a path.
pub fn file_name_of(path: &str) -> (r: String)
    ensures
        r@ == file_name(path@),
{
    let v = chars_of(path);
    let n = v.len();
    match crate::peek::paths::last_index_of(&v, '/') {
        Some(k) => {
            let r = string_of(&crate::text::slice_of(&v, k + 1, n));
            assert(r@ =~= file_name(path@));
            r
        },
        None => String::from_str(path),
    }
}

/// Whether the program may read a file: a secret-shaped name is read only by flag.
pub fn may_read(name: &str, secrets_too: bool) -> (r: bool)
    ensures
        r == !withheld(name@, secrets_too),
{
    secrets_too || secret_shaped(name).is_none()
}

/// Count what every file holds: every match, though the listing stops at `--limit`.
#[verifier::rlimit(60)]
pub fn tally(pattern: &Pattern, paths: &Vec<String>, contents: &Vec<Option<Content>>, root: &Root, mode: &Mode,
    limit: usize, secrets_too: bool) -> (t: Tally)
    requires
        paths@.len() == contents@.len(),
        line_total(scan_views(str_views(paths@), contents@, root.dir_view())) < usize::MAX,
    ensures
        tally_of(t, scan_views(str_views(paths@), contents@, root.dir_view()), pattern.source_view(), secrets_too, *mode, limit as nat),
{
    let ghost fs = scan_views(str_views(paths@), contents@, root.dir_view());
    let ghost p = pattern.source_view();
    let mut t = Tally {
        counted: Vec::new(),
        shown: Vec::new(),
        total: 0,
        truncated: 0,
        secret: 0,
        binary: 0,
        not_utf8: 0,
        unreadable: 0,
    };
    assert(fs.take(0) =~= Seq::<ScanView>::empty());
    assert(counted_view(t.counted@) =~= Seq::<(Seq<char>, nat)>::empty());
    assert(shown_view(t.shown@) =~= rendered(shown_hits(fs.take(0), p, secrets_too, *mode, limit as nat)));
    let mut i: usize = 0;
    while i < paths.len()
        invariant
            i <= paths@.len(),
            paths@.len() == contents@.len(),
            fs == scan_views(str_views(paths@), contents@, root.dir_view()),
            p == pattern.source_view(),
            line_total(fs) < usize::MAX,
            tally_of(t, fs.take(i as int), p, secrets_too, *mode, limit as nat),
            t.counted@.len() <= i,
        decreases paths.len() - i,
    {
        let ghost done = fs.take(i as int);
        let ghost f = fs[i as int];
        assert(fs.take(i + 1).drop_last() =~= done);
        assert(fs.take(i + 1).last() == f);
        proof {
            lemma_all_hits_bound(done, p, secrets_too);
            lemma_line_total_prefix(fs, i + 1);
            lemma_kind_bound(done, secrets_too, 0);
            lemma_kind_bound(done, secrets_too, 1);
            lemma_kind_bound(done, secrets_too, 2);
            lemma_kind_bound(done, secrets_too, 3);
            lemma_counted_len(t.counted@);
        }
        let rel = root.relative(paths[i].as_str());
        let name = file_name_of(paths[i].as_str());
        assert(rel@ == f.0 && name@ == f.1);
        if !may_read(name.as_str(), secrets_too) {
            t.secret = t.secret + 1;
            assert(all_hits(fs.take(i + 1), p, secrets_too) =~= all_hits(done, p, secrets_too));
        } else {
            match &contents[i] {
                Some(Content::Text(text)) => {
                    assert(text_of(f) == text@);
                    let hits = tally_lines(&mut t, pattern, &rel, text, mode, limit, Ghost(done), Ghost(secrets_too));
                    assert(all_hits(fs.take(i + 1), p, secrets_too) =~= partial_hits(done, rel@, p, lines(text@), secrets_too));
                    if hits > 0 {
                        let ghost prev = t.counted@;
                        t.counted.push((rel, hits));
                        assert(t.counted@.drop_last() =~= prev);
                    }
                },
                Some(Content::Binary(_)) => {
                    t.binary = t.binary + 1;
                    assert(all_hits(fs.take(i + 1), p, secrets_too) =~= all_hits(done, p, secrets_too));
                },
                Some(Content::NotUtf8(_)) => {
                    t.not_utf8 = t.not_utf8 + 1;
                    assert(all_hits(fs.take(i + 1), p, secrets_too) =~= all_hits(done, p, secrets_too));
                },
                None => {
                    t.unreadable = t.unreadable + 1;
                    assert(all_hits(fs.take(i + 1), p, secrets_too) =~= all_hits(done, p, secrets_too));
                },
            }
        }
        i = i + 1;
    }
    assert(fs.take(paths@.len() as int) =~= fs);
    t
}

proof fn lemma_counted_len(v: Seq<(String, usize)>)
    ensures
        counted_view(v).len() == v.len(),
    decreases v.len(),
{
    if v.len() > 0 {
        lemma_counted_len(v.drop_last());
    }
}

// ---------------------------------------------------------------------------------------
// The answer
// ---------------------------------------------------------------------------------------

/// A tally as plain values: counted files, shown lines, total matches, cut lines, then the
/// files withheld, binary, not UTF-8 and unreadable.
pub type TallyView = (Seq<(Seq<char>, nat)>, Seq<(Seq<char>, nat, Seq<char>)>, nat, nat, nat, nat, nat, nat);

pub open spec fn tally_value(t: Tally) -> TallyView {
    (counted_view(t.counted@), shown_view(t.shown@), t.total as nat, t.truncated as nat, t.secret as nat,
        t.binary as nat, t.not_utf8 as nat, t.unreadable as nat)
}

/// What the files hold, as a tally.
pub open spec fn tally_view(fs: Seq<ScanView>, pattern: Seq<char>, secrets_too: bool, mode: Mode, limit: nat) -> TallyView {
    (counted_files(fs, pattern, secrets_too), rendered(shown_hits(fs, pattern, secrets_too, mode, limit)),
        all_hits(fs, pattern, secrets_too).len(), hit_cuts(shown_hits(fs, pattern, secrets_too, mode, limit)),
        kind_count(fs, secrets_too, 0), kind_count(fs, secrets_too, 1), kind_count(fs, secrets_too, 2),
        kind_count(fs, secrets_too, 3))
}

/// What the header says was searched.
pub open spec fn scope_of(named: Seq<Seq<char>>) -> Seq<char> {
    if named.len() == 0 {
        "."@
    } else if named.len() == 1 {
        named[0]
    } else {
        counted(named.len(), "path"@, "path"@ + "s"@)
    }
}

pub open spec fn files_clamp_bounds(clamped: Option<usize>) -> Seq<Seq<char>> {
    match clamped {
        Some(asked) => seq![bound_line("--max-files "@ + decimal(asked as nat) + " clamped to "@ + decimal(MAX_FILES as nat))],
        None => seq![],
    }
}

/// `plural` adds an `s`; "match" needs `es`.
pub open spec fn matches_text(count: nat) -> Seq<char> {
    if count == 1 { "1 match"@ } else { decimal(count) + " matches"@ }
}

pub open spec fn match_lines(rs: Seq<(Seq<char>, nat, Seq<char>)>) -> Seq<Seq<char>>
    decreases rs.len(),
{
    if rs.len() == 0 {
        seq![]
    } else {
        match_lines(rs.drop_last()).push(rs.last().0 + ":"@ + decimal(rs.last().1) + ":"@ + rs.last().2)
    }
}

/// The widths of the two columns of `--count`: the longest path, the longest count.
pub open spec fn count_widths(rows: Seq<(Seq<char>, nat)>) -> (nat, nat)
    decreases rows.len(),
{
    if rows.len() == 0 {
        (0, 1)
    } else {
        let w = count_widths(rows.drop_last());
        (max(w.0, byte_len(rows.last().0)), max(w.1, decimal(rows.last().1).len()))
    }
}

pub open spec fn count_lines(rows: Seq<(Seq<char>, nat)>, w: (nat, nat)) -> Seq<Seq<char>>
    decreases rows.len(),
{
    if rows.len() == 0 {
        seq![]
    } else {
        count_lines(rows.drop_last(), w).push(pad_right(rows.last().0, w.0) + "  "@ + pad_left(decimal(rows.last().1), w.1))
    }
}

pub open spec fn file_lines(rows: Seq<(Seq<char>, nat)>) -> Seq<Seq<char>>
    decreases rows.len(),
{
    if rows.len() == 0 { seq![] } else { file_lines(rows.drop_last()).push(rows.last().0) }
}

proof fn lemma_file_lines(rows: Seq<(Seq<char>, nat)>)
    ensures
        file_lines(rows).len() == rows.len(),
        forall|i: int| 0 <= i < rows.len() ==> #[trigger] file_lines(rows)[i] == rows[i].0,
    decreases rows.len(),
{
    if rows.len() > 0 {
        lemma_file_lines(rows.drop_last());
        assert forall|i: int| 0 <= i < rows.len() implies #[trigger] file_lines(rows)[i] == rows[i].0 by {
            if i < rows.len() - 1 {
                assert(file_lines(rows)[i] == file_lines(rows.drop_last())[i]);
            }
        }
    }
}

/// Whether `path` is the path of one of the files that holds a match.
pub open spec fn names_a_match(fs: Seq<ScanView>, pattern: Seq<char>, secrets_too: bool, path: Seq<char>) -> bool {
    exists|j: int| 0 <= j < fs.len() && fs[j].0 == path && #[trigger] file_hits(fs[j], pattern, secrets_too).len() > 0
}

proof fn lemma_counted_files_match(fs: Seq<ScanView>, pattern: Seq<char>, secrets_too: bool)
    ensures
        forall|i: int| 0 <= i < counted_files(fs, pattern, secrets_too).len()
            ==> names_a_match(fs, pattern, secrets_too, #[trigger] counted_files(fs, pattern, secrets_too)[i].0),
    decreases fs.len(),
{
    if fs.len() > 0 {
        let prev = fs.drop_last();
        lemma_counted_files_match(prev, pattern, secrets_too);
        let rows = counted_files(fs, pattern, secrets_too);
        assert forall|i: int| 0 <= i < rows.len() implies names_a_match(fs, pattern, secrets_too, #[trigger] rows[i].0) by {
            let before = counted_files(prev, pattern, secrets_too);
            if i < before.len() {
                assert(rows[i] == before[i]);
                assert(names_a_match(prev, pattern, secrets_too, before[i].0));
                let j = choose|j: int| 0 <= j < prev.len() && prev[j].0 == before[i].0
                    && #[trigger] file_hits(prev[j], pattern, secrets_too).len() > 0;
                assert(fs[j] == prev[j]);
            } else {
                let j = fs.len() - 1;
                assert(fs[j].0 == rows[i].0 && file_hits(fs[j], pattern, secrets_too).len() > 0);
            }
        }
    }
}

/// With `--files-only` the listing names files, never counts: it is the paths of the files that
/// matched, in the order the walk found them, one per line, the first `--limit` of them, and its
/// entry count is how many it names. Every path it names holds a match.
pub proof fn law_files_only_lists_the_matching_paths(fs: Seq<ScanView>, pattern: Seq<char>, secrets_too: bool, limit: nat)
    ensures
        listing_of(tally_view(fs, pattern, secrets_too, Mode::FilesOnly, limit), Mode::FilesOnly, limit).0.len()
            == if counted_files(fs, pattern, secrets_too).len() <= limit { counted_files(fs, pattern, secrets_too).len() } else { limit },
        listing_of(tally_view(fs, pattern, secrets_too, Mode::FilesOnly, limit), Mode::FilesOnly, limit).1
            == listing_of(tally_view(fs, pattern, secrets_too, Mode::FilesOnly, limit), Mode::FilesOnly, limit).0.len(),
        forall|i: int| 0 <= i < listing_of(tally_view(fs, pattern, secrets_too, Mode::FilesOnly, limit), Mode::FilesOnly, limit).0.len()
            ==> #[trigger] listing_of(tally_view(fs, pattern, secrets_too, Mode::FilesOnly, limit), Mode::FilesOnly, limit).0[i]
                == counted_files(fs, pattern, secrets_too)[i].0,
        forall|i: int| 0 <= i < listing_of(tally_view(fs, pattern, secrets_too, Mode::FilesOnly, limit), Mode::FilesOnly, limit).0.len()
            ==> names_a_match(fs, pattern, secrets_too,
                #[trigger] listing_of(tally_view(fs, pattern, secrets_too, Mode::FilesOnly, limit), Mode::FilesOnly, limit).0[i]),
{
    let rows = counted_files(fs, pattern, secrets_too);
    lemma_file_lines(cap(rows, limit));
    lemma_counted_files_match(fs, pattern, secrets_too);
    let out = listing_of(tally_view(fs, pattern, secrets_too, Mode::FilesOnly, limit), Mode::FilesOnly, limit).0;
    assert forall|i: int| 0 <= i < out.len() implies names_a_match(fs, pattern, secrets_too, #[trigger] out[i]) by {
        assert(out[i] == rows[i].0);
    }
}

/// The listing, and how many entries it holds.
pub open spec fn listing_of(t: TallyView, mode: Mode, limit: nat) -> (Seq<Seq<char>>, nat) {
    match mode {
        Mode::Matches => (match_lines(t.1), t.1.len()),
        Mode::Count => {
            let rows = cap(t.0, limit);
            (count_lines(rows, count_widths(rows)), rows.len())
        },
        Mode::FilesOnly => (file_lines(cap(t.0, limit)), cap(t.0, limit).len()),
    }
}

pub open spec fn walk_text(considered: nat, skipped: Seq<Seq<char>>) -> Seq<char> {
    "walked "@ + counted(considered, "file"@, "file"@ + "s"@)
        + if skipped.len() > 0 { " · skipped by rule: "@ + join(skipped, ", "@) } else { seq![] }
}

/// What the search passed over, named by count.
pub open spec fn skip_parts(secret: nat, binary: nat, not_utf8: nat, symlinks: nat, unreadable: nat) -> Seq<Seq<char>> {
    (if secret > 0 { seq![decimal(secret) + " secret-shaped"@] } else { seq![] })
        + (if binary > 0 { seq![decimal(binary) + " binary"@] } else { seq![] })
        + (if not_utf8 > 0 { seq![decimal(not_utf8) + " not UTF-8"@] } else { seq![] })
        + (if symlinks > 0 { seq![decimal(symlinks) + " symbolic link(s) not followed"@] } else { seq![] })
        + (if unreadable > 0 { seq![decimal(unreadable) + " unreadable"@] } else { seq![] })
}

pub open spec fn skip_bounds(parts: Seq<Seq<char>>) -> Seq<Seq<char>> {
    if parts.len() > 0 { seq![bound_line("skipped: "@ + join(parts, " · "@))] } else { seq![] }
}

pub open spec fn capped_bounds(capped: bool, considered: nat, max_files: nat) -> Seq<Seq<char>> {
    if capped {
        seq![bound_line("stopped after "@ + decimal(considered) + " files considered (--max-files "@ + decimal(max_files) + ")"@)]
    } else {
        seq![]
    }
}

/// The coverage line: how much of what was found the listing showed.
pub open spec fn coverage_text(mode: Mode, listed: nat, files: nat, total: nat, limit: nat) -> Seq<char> {
    let f = counted(files, "file"@, "file"@ + "s"@);
    let h = matches_text(total);
    match mode {
        Mode::Matches => if listed < total {
            decimal(listed) + " of "@ + h + " in "@ + f + " · --limit "@ + decimal(limit)
        } else {
            h + " in "@ + f
        },
        Mode::Count => if listed < files {
            h + " in "@ + f + " · "@ + decimal(listed) + " of "@ + decimal(files) + " files shown (--limit "@ + decimal(limit) + ")"@
        } else {
            h + " in "@ + f
        },
        Mode::FilesOnly => if listed < files {
            f + " · "@ + h + " · "@ + decimal(listed) + " of "@ + decimal(files) + " shown (--limit "@ + decimal(limit) + ")"@
        } else {
            f + " · "@ + h
        },
    }
}

/// The walk as plain values: files considered, skip rules that fired, whether it stopped at the
/// cap, symbolic links passed over, entries it could not read.
pub type WalkView = (nat, Seq<Seq<char>>, bool, nat, nat);

pub open spec fn walk_value(w: Walk) -> WalkView {
    (w.considered_view(), w.skipped_view(), w.capped_view(), w.symlinks_view(), w.unreadable_view())
}

/// The whole answer of a search.
pub open spec fn answer_lines(pattern: Seq<char>, named: Seq<Seq<char>>, w: WalkView, t: TallyView, root: Seq<char>,
    limit: nat, limit_clamped: Option<usize>, max_files: nat, max_files_clamped: Option<usize>, mode: Mode) -> Seq<Seq<char>> {
    let (listed_lines, listed) = listing_of(t, mode, limit);
    clamp_bounds(limit_clamped) + files_clamp_bounds(max_files_clamped)
        + seq![header_line(crate::peek::TOOL@, "search"@, root, "/"@ + pattern + "/ in "@ + scope_of(named))]
        + listed_lines
        + seq![bound_line(walk_text(w.0, w.1))]
        + skip_bounds(skip_parts(t.4, t.5, t.6, w.3, w.4 + t.7))
        + capped_bounds(w.2, w.0, max_files)
        + width_bounds(t.3)
        + seq![bound_line(coverage_text(mode, listed, t.0.len(), t.2, limit))]
}

pub(crate) fn push_joined(out: &mut String, first: bool, sep: &str, item: &str, Ghost(parts): Ghost<Seq<Seq<char>>>, Ghost(head): Ghost<Seq<char>>)
    requires
        old(out)@ == head + join(parts, sep@),
        first == (parts.len() == 0),
    ensures
        final(out)@ == head + join(parts.push(item@), sep@),
{
    if !first {
        out.append(sep);
    }
    out.append(item);
    assert(parts.push(item@).drop_last() =~= parts);
    assert(final(out)@ =~= head + join(parts.push(item@), sep@));
}

fn walk_bound_text(walk: &Walk) -> (r: String)
    requires
        walk.wf(),
    ensures
        r@ == walk_text(walk.considered_view(), walk.skipped_view()),
{
    let mut out = String::from_str("walked ");
    out.append(crate::contract::plural(walk.considered, "file").as_str());
    let names = skip_dir_names();
    let ghost head = out@;
    let ghost flags = walk.skipped@;
    let mut any = false;
    let mut k: usize = 0;
    assert(flags.take(0) =~= Seq::<bool>::empty());
    assert(skip_dirs().take(0) =~= Seq::<Seq<char>>::empty());
    assert(names@.len() == 7) by {
        assert(static_views(names@).len() == names@.len());
        assert(skip_dirs().len() == 7);
    }
    while k < 7
        invariant
            k <= 7,
            walk.wf(),
            flags == walk.skipped@,
            flags.len() == 7,
            names@.len() == 7,
            static_views(names@) == skip_dirs(),
            any == (fired(flags.take(k as int), skip_dirs().take(k as int)).len() > 0),
            any ==> out@ == head + " · skipped by rule: "@ + join(fired(flags.take(k as int), skip_dirs().take(k as int)), ", "@),
            !any ==> out@ == head,
        decreases 7 - k,
    {
        let ghost before = fired(flags.take(k as int), skip_dirs().take(k as int));
        assert(flags.take(k + 1).drop_last() =~= flags.take(k as int));
        assert(skip_dirs().take(k + 1).drop_last() =~= skip_dirs().take(k as int));
        assert(names@[k as int]@ == static_views(names@)[k as int]);
        if walk.skipped[k] {
            let ghost h2 = head + " · skipped by rule: "@;
            if !any {
                out.append(" · skipped by rule: ");
                assert(out@ =~= h2 + join(before, ", "@));
            }
            push_joined(&mut out, !any, ", ", names[k], Ghost(before), Ghost(h2));
            any = true;
        }
        k = k + 1;
    }
    assert(flags.take(7) =~= flags);
    assert(skip_dirs().take(7) =~= skip_dirs());
    proof {
        if !any {
            assert(out@ =~= head + seq![]);
        }
    }
    out
}

fn push_part(parts: &mut String, first: bool, count: usize, what: &str, Ghost(done): Ghost<Seq<Seq<char>>>)
    requires
        old(parts)@ == join(done, " · "@),
        first == (done.len() == 0),
    ensures
        count > 0 ==> final(parts)@ == join(done.push(decimal(count as nat) + what@), " · "@),
        count == 0 ==> final(parts)@ == old(parts)@,
{
    if count > 0 {
        let mut item = decimal_text(count as u64);
        item.append(what);
        push_joined(parts, first, " · ", item.as_str(), Ghost(done), Ghost(Seq::<char>::empty()));
        assert(parts@ =~= join(done.push(decimal(count as nat) + what@), " · "@));
    }
}

fn skip_bound(report: &mut Report, secret: usize, binary: usize, not_utf8: usize, symlinks: usize, unreadable: usize)
    ensures
        final(report)@ == (old(report)@.0 + skip_bounds(skip_parts(secret as nat, binary as nat, not_utf8 as nat, symlinks as nat, unreadable as nat)), old(report)@.1),
{
    let ghost p0: Seq<Seq<char>> = seq![];
    let ghost p1 = p0 + (if secret > 0 { seq![decimal(secret as nat) + " secret-shaped"@] } else { seq![] });
    let ghost p2 = p1 + (if binary > 0 { seq![decimal(binary as nat) + " binary"@] } else { seq![] });
    let ghost p3 = p2 + (if not_utf8 > 0 { seq![decimal(not_utf8 as nat) + " not UTF-8"@] } else { seq![] });
    let ghost p4 = p3 + (if symlinks > 0 { seq![decimal(symlinks as nat) + " symbolic link(s) not followed"@] } else { seq![] });
    let ghost p5 = p4 + (if unreadable > 0 { seq![decimal(unreadable as nat) + " unreadable"@] } else { seq![] });
    let mut parts = String::new();
    assert(parts@ =~= join(p0, " · "@));
    push_part(&mut parts, true, secret, " secret-shaped", Ghost(p0));
    assert(p1 =~= (if secret > 0 { p0.push(decimal(secret as nat) + " secret-shaped"@) } else { p0 }));
    push_part(&mut parts, !(secret > 0), binary, " binary", Ghost(p1));
    assert(p2 =~= (if binary > 0 { p1.push(decimal(binary as nat) + " binary"@) } else { p1 }));
    push_part(&mut parts, !(secret > 0 || binary > 0), not_utf8, " not UTF-8", Ghost(p2));
    assert(p3 =~= (if not_utf8 > 0 { p2.push(decimal(not_utf8 as nat) + " not UTF-8"@) } else { p2 }));
    push_part(&mut parts, !(secret > 0 || binary > 0 || not_utf8 > 0), symlinks, " symbolic link(s) not followed", Ghost(p3));
    assert(p4 =~= (if symlinks > 0 { p3.push(decimal(symlinks as nat) + " symbolic link(s) not followed"@) } else { p3 }));
    push_part(&mut parts, !(secret > 0 || binary > 0 || not_utf8 > 0 || symlinks > 0), unreadable, " unreadable", Ghost(p4));
    assert(p5 =~= (if unreadable > 0 { p4.push(decimal(unreadable as nat) + " unreadable"@) } else { p4 }));
    assert(p5 =~= skip_parts(secret as nat, binary as nat, not_utf8 as nat, symlinks as nat, unreadable as nat));
    if secret > 0 || binary > 0 || not_utf8 > 0 || symlinks > 0 || unreadable > 0 {
        let mut m = String::from_str("skipped: ");
        m.append(parts.as_str());
        let ghost before = report@.0;
        report.bound(m);
        assert(report@.0 =~= before + skip_bounds(p5));
    } else {
        assert(p5.len() == 0);
        assert(report@.0 =~= report@.0 + skip_bounds(p5));
    }
}

fn matches_of(count: usize) -> (r: String)
    ensures
        r@ == matches_text(count as nat),
{
    if count == 1 {
        String::from_str("1 match")
    } else {
        let mut s = decimal_text(count as u64);
        s.append(" matches");
        s
    }
}

fn coverage(mode: &Mode, listed: usize, files: usize, total: usize, limit: usize) -> (r: String)
    ensures
        r@ == coverage_text(*mode, listed as nat, files as nat, total as nat, limit as nat),
{
    let f = crate::contract::plural(files, "file");
    let h = matches_of(total);
    match mode {
        Mode::Matches => {
            if listed < total {
                let mut s = decimal_text(listed as u64);
                s.append(" of ");
                s.append(h.as_str());
                s.append(" in ");
                s.append(f.as_str());
                s.append(" · --limit ");
                s.append(decimal_text(limit as u64).as_str());
                s
            } else {
                let mut s = h;
                s.append(" in ");
                s.append(f.as_str());
                s
            }
        },
        Mode::Count => {
            let mut s = h;
            s.append(" in ");
            s.append(f.as_str());
            if listed < files {
                s.append(" · ");
                s.append(decimal_text(listed as u64).as_str());
                s.append(" of ");
                s.append(decimal_text(files as u64).as_str());
                s.append(" files shown (--limit ");
                s.append(decimal_text(limit as u64).as_str());
                s.append(")");
            }
            s
        },
        Mode::FilesOnly => {
            let mut s = f;
            s.append(" · ");
            s.append(h.as_str());
            if listed < files {
                s.append(" · ");
                s.append(decimal_text(listed as u64).as_str());
                s.append(" of ");
                s.append(decimal_text(files as u64).as_str());
                s.append(" shown (--limit ");
                s.append(decimal_text(limit as u64).as_str());
                s.append(")");
            }
            s
        },
    }
}

fn push_matches(report: &mut Report, shown: &Vec<(String, usize, String)>)
    requires
        old(report)@.1 + shown@.len() <= usize::MAX,
    ensures
        final(report)@.0 == old(report)@.0 + match_lines(shown_view(shown@)),
        final(report)@.1 == old(report)@.1 + shown@.len(),
{
    let ghost l0 = report@.0;
    let ghost c0 = report@.1;
    let mut i: usize = 0;
    assert(shown@.take(0) =~= Seq::<(String, usize, String)>::empty());
    while i < shown.len()
        invariant
            i <= shown@.len(),
            c0 + shown@.len() <= usize::MAX,
            report@.0 == l0 + match_lines(shown_view(shown@.take(i as int))),
            report@.1 == c0 + i,
        decreases shown.len() - i,
    {
        assert(shown@.take(i + 1).drop_last() =~= shown@.take(i as int));
        assert(shown@.take(i + 1).last() == shown@[i as int]);
        assert(shown_view(shown@.take(i + 1)).drop_last() =~= shown_view(shown@.take(i as int)));
        let (rel, n, text) = &shown[i];
        let mut line = rel.clone();
        line.append(":");
        line.append(decimal_text(*n as u64).as_str());
        line.append(":");
        line.append(text.as_str());
        report.content(line);
        assert(report@.0 =~= l0 + match_lines(shown_view(shown@.take(i + 1))));
        i = i + 1;
    }
    assert(shown@.take(shown@.len() as int) =~= shown@);
}

fn push_files(report: &mut Report, rows: &Vec<(String, usize)>, n: usize)
    requires
        n <= rows@.len(),
        old(report)@.1 + n <= usize::MAX,
    ensures
        final(report)@.0 == old(report)@.0 + file_lines(counted_view(rows@.take(n as int))),
        final(report)@.1 == old(report)@.1 + n,
{
    let ghost l0 = report@.0;
    let ghost c0 = report@.1;
    let mut i: usize = 0;
    assert(rows@.take(0) =~= Seq::<(String, usize)>::empty());
    while i < n
        invariant
            i <= n,
            n <= rows@.len(),
            c0 + n <= usize::MAX,
            report@.0 == l0 + file_lines(counted_view(rows@.take(i as int))),
            report@.1 == c0 + i,
        decreases n - i,
    {
        assert(rows@.take(i + 1).drop_last() =~= rows@.take(i as int));
        assert(rows@.take(i + 1).last() == rows@[i as int]);
        assert(counted_view(rows@.take(i + 1)).drop_last() =~= counted_view(rows@.take(i as int)));
        report.content(rows[i].0.clone());
        assert(report@.0 =~= l0 + file_lines(counted_view(rows@.take(i + 1))));
        i = i + 1;
    }
}

fn push_counts(report: &mut Report, rows: &Vec<(String, usize)>, n: usize)
    requires
        n <= rows@.len(),
        old(report)@.1 + n <= usize::MAX,
    ensures
        final(report)@.0 == old(report)@.0 + count_lines(counted_view(rows@.take(n as int)), count_widths(counted_view(rows@.take(n as int)))),
        final(report)@.1 == old(report)@.1 + n,
{
    let ghost rv = counted_view(rows@.take(n as int));
    let mut paths: usize = 0;
    let mut hits: usize = 1;
    let mut i: usize = 0;
    assert(rows@.take(0) =~= Seq::<(String, usize)>::empty());
    while i < n
        invariant
            i <= n,
            n <= rows@.len(),
            (paths as nat, hits as nat) == count_widths(counted_view(rows@.take(i as int))),
        decreases n - i,
    {
        assert(rows@.take(i + 1).drop_last() =~= rows@.take(i as int));
        assert(rows@.take(i + 1).last() == rows@[i as int]);
        assert(counted_view(rows@.take(i + 1)).drop_last() =~= counted_view(rows@.take(i as int)));
        paths = crate::peek::verbs::stat::wider(paths, rows[i].0.as_str().len());
        hits = crate::peek::verbs::stat::wider(hits, decimal_text(rows[i].1 as u64).as_str().unicode_len());
        i = i + 1;
    }
    let ghost w = count_widths(rv);
    let ghost l0 = report@.0;
    let ghost c0 = report@.1;
    let mut k: usize = 0;
    while k < n
        invariant
            k <= n,
            n <= rows@.len(),
            c0 + n <= usize::MAX,
            rv == counted_view(rows@.take(n as int)),
            w == count_widths(rv),
            w == (paths as nat, hits as nat),
            report@.0 == l0 + count_lines(counted_view(rows@.take(k as int)), w),
            report@.1 == c0 + k,
        decreases n - k,
    {
        assert(rows@.take(k + 1).drop_last() =~= rows@.take(k as int));
        assert(rows@.take(k + 1).last() == rows@[k as int]);
        assert(counted_view(rows@.take(k + 1)).drop_last() =~= counted_view(rows@.take(k as int)));
        let mut line = String::new();
        push_padded_right(&mut line, rows[k].0.as_str(), paths);
        line.append("  ");
        push_padded_left(&mut line, decimal_text(rows[k].1 as u64).as_str(), hits);
        report.content(line);
        assert(report@.0 =~= l0 + count_lines(counted_view(rows@.take(k + 1)), w));
        k = k + 1;
    }
}

proof fn lemma_counted_take(v: Seq<(String, usize)>, n: int)
    requires
        0 <= n <= v.len(),
    ensures
        counted_view(v.take(n)) == cap(counted_view(v), n as nat),
    decreases v.len(),
{
    lemma_counted_len(v);
    if n == v.len() {
        assert(v.take(n) =~= v);
    } else {
        lemma_counted_take(v.drop_last(), n);
        assert(v.drop_last().take(n) =~= v.take(n));
        lemma_counted_len(v.drop_last());
        assert(cap(counted_view(v.drop_last()), n as nat) =~= cap(counted_view(v), n as nat));
    }
}

/// Say what the search found: the listing, then every bound it ran into.
#[verifier::rlimit(60)]
fn answer(pattern: &Pattern, named: &Vec<String>, walk: &Walk, t: &Tally, opts: &Opts, mode: &Mode) -> (r: Outcome)
    requires
        walk.wf(),
        walk.unreadable_view() + t.unreadable < usize::MAX,
        t.counted@.len() < usize::MAX,
        t.shown@.len() < usize::MAX,
    ensures
        r.report@.0 == answer_lines(pattern.source_view(), str_views(named@), walk_value(*walk), tally_value(*t),
            opts.root.name_view(), opts.limit as nat, opts.limit_clamped_from, opts.max_files as nat,
            opts.max_files_clamped_from, *mode),
        r.report@.1 == listing_of(tally_value(*t), *mode, opts.limit as nat).1,
{
    let ghost tv = tally_value(*t);
    let mut report = Report::new();
    crate::peek::verbs::slice::clamp_bound(&mut report, opts.limit_clamped_from);
    let ghost l0 = report@.0;
    match opts.max_files_clamped_from {
        Some(asked) => {
            let mut m = String::from_str("--max-files ");
            m.append(decimal_text(asked as u64).as_str());
            m.append(" clamped to ");
            m.append(decimal_text(MAX_FILES as u64).as_str());
            report.bound(m);
        },
        None => {},
    }
    assert(report@.0 =~= l0 + files_clamp_bounds(opts.max_files_clamped_from));
    let ghost l1 = report@.0;
    let scope = if named.len() == 0 {
        String::from_str(".")
    } else if named.len() == 1 {
        named[0].clone()
    } else {
        crate::contract::plural(named.len(), "path")
    };
    let mut target = String::from_str("/");
    target.append(pattern.source());
    target.append("/ in ");
    target.append(scope.as_str());
    report.header(crate::peek::TOOL, "search", opts.root.name(), target.as_str());
    let ghost l2 = report@.0;
    proof {
        lemma_counted_len(t.counted@);
        lemma_shown_len(t.shown@);
    }
    let n = if t.counted.len() <= opts.limit { t.counted.len() } else { opts.limit };
    proof {
        lemma_counted_take(t.counted@, n as int);
    }
    let listed = match mode {
        Mode::Matches => {
            push_matches(&mut report, &t.shown);
            t.shown.len()
        },
        Mode::Count => {
            push_counts(&mut report, &t.counted, n);
            n
        },
        Mode::FilesOnly => {
            push_files(&mut report, &t.counted, n);
            n
        },
    };
    assert(report@.0 =~= l2 + listing_of(tv, *mode, opts.limit as nat).0);
    assert(listed == listing_of(tv, *mode, opts.limit as nat).1);
    let ghost l3 = report@.0;
    report.bound(walk_bound_text(walk));
    skip_bound(&mut report, t.secret, t.binary, t.not_utf8, walk.symlinks, walk.unreadable + t.unreadable);
    let ghost l4 = report@.0;
    if walk.capped {
        let mut m = String::from_str("stopped after ");
        m.append(decimal_text(walk.considered as u64).as_str());
        m.append(" files considered (--max-files ");
        m.append(decimal_text(opts.max_files as u64).as_str());
        m.append(")");
        report.bound(m);
    }
    assert(report@.0 =~= l4 + capped_bounds(walk.capped_view(), walk.considered_view(), opts.max_files as nat));
    crate::peek::verbs::slice::push_width(&mut report, t.truncated);
    report.bound(coverage(mode, listed, t.counted.len(), t.total, opts.limit));
    assert(report@.0 =~= answer_lines(pattern.source_view(), str_views(named@), walk_value(*walk), tv,
        opts.root.name_view(), opts.limit as nat, opts.limit_clamped_from, opts.max_files as nat,
        opts.max_files_clamped_from, *mode));
    Outcome::from_report(report)
}

/// `at-peek search`, from the compiled pattern, the paths named after it, the walk the program
/// made of them, and what reading each of the walk's files produced, in the walk's order: a
/// withheld file is not read, and one that could not be read is `None`.
pub fn run(pattern: &Pattern, named: &Vec<String>, walk: &Walk, contents: &Vec<Option<Content>>, opts: &Opts, mode: &Mode) -> (r: Outcome)
    requires
        walk.wf(),
        contents@.len() == walk.files_view().len(),
        line_total(scan_views(walk.files_view(), contents@, opts.root.dir_view())) < usize::MAX,
        walk.unreadable_view() + contents@.len() < usize::MAX,
    ensures
        r.report@.0 == answer_lines(pattern.source_view(), str_views(named@), walk_value(*walk),
            tally_view(scan_views(walk.files_view(), contents@, opts.root.dir_view()), pattern.source_view(),
                opts.include_secret_paths, *mode, opts.limit as nat),
            opts.root.name_view(), opts.limit as nat, opts.limit_clamped_from, opts.max_files as nat,
            opts.max_files_clamped_from, *mode),
        r.report@.1 == listing_of(tally_view(scan_views(walk.files_view(), contents@, opts.root.dir_view()),
            pattern.source_view(), opts.include_secret_paths, *mode, opts.limit as nat), *mode, opts.limit as nat).1,
{
    let t = tally(pattern, walk.files(), contents, &opts.root, mode, opts.limit, opts.include_secret_paths);
    let ghost fs = scan_views(walk.files_view(), contents@, opts.root.dir_view());
    proof {
        lemma_kind_bound(fs, opts.include_secret_paths, 3);
        lemma_all_hits_bound(fs, pattern.source_view(), opts.include_secret_paths);
        lemma_counted_len(t.counted@);
        lemma_shown_len(t.shown@);
        lemma_rendered_len(shown_hits(fs, pattern.source_view(), opts.include_secret_paths, *mode, opts.limit as nat));
        assert(tally_value(t) == tally_view(fs, pattern.source_view(), opts.include_secret_paths, *mode, opts.limit as nat));
    }
    answer(pattern, named, walk, &t, opts, mode)
}

/// No output exceeds the cap: a search lists at most `--limit` entries in any mode, though it
/// counts every match in every file it considered.
pub proof fn law_search_lists_within_the_limit(fs: Seq<ScanView>, pattern: Seq<char>, secrets_too: bool, mode: Mode, limit: nat)
    ensures
        listing_of(tally_view(fs, pattern, secrets_too, mode, limit), mode, limit).1 <= limit,
        tally_view(fs, pattern, secrets_too, mode, limit).2 == all_hits(fs, pattern, secrets_too).len(),
{
    lemma_rendered_len(shown_hits(fs, pattern, secrets_too, mode, limit));
}

} // verus!
