//! The reads two or more verbs need, as structs.
//!
//! A recipe composes the same reads its sibling verbs use, so `pr`'s commit count and `log`'s
//! cannot disagree, and `pr`'s diffstat is `diff`'s diffstat. What lives here is git-shaped: the
//! arguments a read needs, and the parser that fills its struct from what git printed.

use vstd::prelude::*;
use vstd::string::StringExecFns;

use crate::catalogue::{pad_right, push_padded_right};
use crate::contract::{Exit, Fail};
use crate::peek::verbs::stat::{byte_len, max, wider};
use crate::recall::git::{with_paths, GIT};
use crate::text::{chars_of, decimal, decimal_text, index_of, lines, lines_of, slice_of, split_on, split_once,
    split_once_exec, str_views, string_of, trim, trim_exec, unsigned_of, views};

verus! {

/// One line of `--numstat`.
pub struct FileStat {
    /// `None` for a binary file: git prints `-` where a count would be.
    pub added: Option<u64>,
    pub deleted: Option<u64>,
    /// The path as git wrote it, which for a rename is the factored `old => new` form.
    pub label: String,
    /// The one or two real names behind `label`: a rename is one line with two paths, and the
    /// deny-list has to see both.
    pub names: Vec<String>,
}

/// A numstat row as plain values.
pub type StatView = (Option<u64>, Option<u64>, Seq<char>, Seq<Seq<char>>);

pub open spec fn stat_view(f: FileStat) -> StatView {
    (f.added, f.deleted, f.label@, str_views(f.names@))
}

pub open spec fn stat_views(fs: Seq<FileStat>) -> Seq<StatView>
    decreases fs.len(),
{
    if fs.len() == 0 { seq![] } else { stat_views(fs.drop_last()).push(stat_view(fs.last())) }
}

/// The first column of a row: the counts, or the word for a file that has none.
pub open spec fn counts_of(f: StatView) -> Seq<char> {
    match (f.0, f.1) {
        (Some(a), Some(d)) => "+"@ + decimal(a as nat) + " -"@ + decimal(d as nat),
        _ => "binary"@,
    }
}

impl FileStat {
    pub fn counts(&self) -> (r: String)
        ensures
            r@ == counts_of(stat_view(*self)),
    {
        match (self.added, self.deleted) {
            (Some(a), Some(d)) => {
                let mut s = String::from_str("+");
                s.append(decimal_text(a).as_str());
                s.append(" -");
                s.append(decimal_text(d).as_str());
                s
            },
            _ => String::from_str("binary"),
        }
    }

    pub fn is_binary(&self) -> (r: bool)
        ensures
            r == (self.added is None),
    {
        self.added.is_none()
    }
}

/// What a count column reads as: a number that fits, or nothing.
pub open spec fn count_of(s: Seq<char>) -> Option<u64> {
    match unsigned_of(s) {
        Some(n) => if n <= u64::MAX { Some(n as u64) } else { None },
        None => None,
    }
}

/// `src/{old.rs => new.rs}` and `old.rs => new.rs` are git's two factored rename forms; the brace
/// form factors out a common prefix or suffix. Both names are rebuilt. A path containing the
/// literal text ` => ` is read as a rename: the misreading costs a broader refusal, never a file
/// printed that the deny-list meant to withhold.
pub open spec fn names_from(label: Seq<char>) -> Seq<Seq<char>> {
    let open = index_of(label, '{') as int;
    let close = index_of(label, '}') as int;
    let braced = if open < label.len() && close < label.len() && open < close {
        split_once(label.subrange(open + 1, close), " => "@)
    } else {
        None
    };
    match braced {
        Some((old, new)) => seq![label.take(open) + old + label.skip(close + 1), label.take(open) + new + label.skip(close + 1)],
        None => match split_once(label, " => "@) {
            Some((old, new)) => seq![old, new],
            None => seq![label],
        },
    }
}

/// A numstat line: added, deleted, then the path as the rest of the line, so a path with a tab
/// after it survives.
pub open spec fn numstat_of(line: Seq<char>) -> Option<StatView> {
    let i = index_of(line, '\t') as int;
    if i >= line.len() {
        None
    } else {
        let rest = line.skip(i + 1);
        let j = index_of(rest, '\t') as int;
        if j >= rest.len() {
            None
        } else {
            let label = rest.skip(j + 1);
            Some((count_of(line.take(i)), count_of(rest.take(j)), label, names_from(label)))
        }
    }
}

fn count_exec(v: &Vec<char>) -> (r: Option<u64>)
    ensures
        r == count_of(v@),
{
    crate::text::parse_u64(v)
}

fn cat3(a: &Vec<char>, b: &Vec<char>, c: &Vec<char>) -> (r: String)
    ensures
        r@ == a@ + b@ + c@,
{
    let mut s = string_of(a);
    crate::text::push_chars(&mut s, b);
    crate::text::push_chars(&mut s, c);
    s
}

/// The one or two real names behind a numstat label.
pub fn names_of(label: &str) -> (r: Vec<String>)
    ensures
        str_views(r@) == names_from(label@),
{
    let v = chars_of(label);
    let n = v.len();
    let open = crate::text::index_of_from(&v, 0, '{');
    let close = crate::text::index_of_from(&v, 0, '}');
    assert(v@.skip(0) =~= v@);
    let arrow = chars_of(" => ");
    if open < n && close < n && open < close {
        let inner = slice_of(&v, open + 1, close);
        match split_once_exec(&inner, &arrow) {
            Some((old, new)) => {
                let prefix = slice_of(&v, 0, open);
                let suffix = slice_of(&v, close + 1, n);
                assert(prefix@ =~= v@.take(open as int));
                assert(suffix@ =~= v@.skip(close + 1));
                let r = vec![cat3(&prefix, &old, &suffix), cat3(&prefix, &new, &suffix)];
                assert(str_views(r@) =~= names_from(label@));
                return r;
            },
            None => {},
        }
    }
    let r = match split_once_exec(&v, &arrow) {
        Some((old, new)) => vec![string_of(&old), string_of(&new)],
        None => vec![String::from_str(label)],
    };
    assert(str_views(r@) =~= names_from(label@));
    r
}

/// One `--numstat` line, or `None` when it is not one.
pub fn parse_numstat(line: &str) -> (r: Option<FileStat>)
    ensures
        match r {
            Some(f) => numstat_of(line@) == Some(stat_view(f)),
            None => numstat_of(line@) is None,
        },
{
    let v = chars_of(line);
    let n = v.len();
    let i = crate::text::index_of_from(&v, 0, '\t');
    assert(v@.skip(0) =~= v@);
    if i >= n {
        return None;
    }
    let j = crate::text::index_of_from(&v, i + 1, '\t');
    if j >= n {
        return None;
    }
    let added = slice_of(&v, 0, i);
    let deleted = slice_of(&v, i + 1, j);
    let label = slice_of(&v, j + 1, n);
    proof {
        let rest = v@.skip(i + 1);
        assert(added@ =~= v@.take(i as int));
        assert(deleted@ =~= rest.take(j - i - 1));
        assert(label@ =~= rest.skip(j - i));
    }
    let label_text = string_of(&label);
    let names = names_of(label_text.as_str());
    Some(FileStat { added: count_exec(&added), deleted: count_exec(&deleted), label: label_text, names })
}

/// The lines of a numstat read, each row that parses, in git's order.
pub open spec fn numstat_rows(ls: Seq<Seq<char>>) -> Seq<StatView>
    decreases ls.len(),
{
    if ls.len() == 0 {
        seq![]
    } else {
        let rest = numstat_rows(ls.drop_last());
        if ls.last().len() == 0 {
            rest
        } else {
            match numstat_of(ls.last()) {
                Some(f) => rest.push(f),
                None => rest,
            }
        }
    }
}

/// One `--numstat` row per changed file, from what git printed.
pub fn parse_numstats(raw: &str) -> (r: Vec<FileStat>)
    ensures
        stat_views(r@) == numstat_rows(lines(raw@)),
{
    let ls = lines_of(&chars_of(raw));
    let ghost lv = views(ls@);
    let mut r: Vec<FileStat> = Vec::new();
    let mut i: usize = 0;
    assert(lv.take(0) =~= Seq::<Seq<char>>::empty());
    while i < ls.len()
        invariant
            i <= ls@.len(),
            lv == views(ls@),
            lv == lines(raw@),
            stat_views(r@) == numstat_rows(lv.take(i as int)),
        decreases ls.len() - i,
    {
        assert(lv.take(i + 1).drop_last() =~= lv.take(i as int));
        assert(lv.take(i + 1).last() == ls@[i as int]@);
        if ls[i].len() > 0 {
            match parse_numstat(string_of(&ls[i]).as_str()) {
                Some(f) => {
                    let ghost before = r@;
                    r.push(f);
                    assert(r@.drop_last() =~= before);
                },
                None => {},
            }
        }
        i = i + 1;
    }
    assert(lv.take(ls@.len() as int) =~= lv);
    r
}

/// The argument list for one `diff` run: the neutralising flags, the mode's own flags, the
/// whitespace flag, the revision if there is one, then `--` and the paths.
pub open spec fn diff_args_of(rev: Option<Seq<char>>, paths: Seq<Seq<char>>, mode: Seq<Seq<char>>, ignore_space: bool) -> Seq<Seq<char>> {
    seq!["--no-color"@, "--no-ext-diff"@, "--no-textconv"@] + mode
        + (if ignore_space { seq!["--ignore-all-space"@] } else { seq![] })
        + (match rev { Some(r) => seq![r], None => seq![] })
        + (if paths.len() == 0 { seq![] } else { seq!["--"@] + paths })
}

pub open spec fn rev_view(rev: Option<String>) -> Option<Seq<char>> {
    match rev {
        Some(r) => Some(r@),
        None => None,
    }
}

/// Public because a verb that runs a second shape of the same comparison (the hunks behind a
/// table) must spell it exactly as the first one was spelled.
pub fn diff_args(rev: &Option<String>, paths: &Vec<String>, mode: &Vec<String>, ignore_space: bool) -> (r: Vec<String>)
    ensures
        str_views(r@) == diff_args_of(rev_view(*rev), str_views(paths@), str_views(mode@), ignore_space),
{
    let mut args = vec![String::from_str("--no-color"), String::from_str("--no-ext-diff"), String::from_str("--no-textconv")];
    let ghost head = str_views(args@);
    let mut i: usize = 0;
    assert(str_views(mode@).take(0) =~= Seq::<Seq<char>>::empty());
    while i < mode.len()
        invariant
            i <= mode@.len(),
            str_views(args@) == head + str_views(mode@).take(i as int),
        decreases mode.len() - i,
    {
        let ghost before = args@;
        args.push(mode[i].clone());
        assert(str_views(args@) =~= str_views(before).push(mode@[i as int]@));
        assert(str_views(args@) =~= head + str_views(mode@).take(i + 1));
        i = i + 1;
    }
    assert(str_views(mode@).take(mode@.len() as int) =~= str_views(mode@));
    let ghost l1 = str_views(args@);
    if ignore_space {
        args.push(String::from_str("--ignore-all-space"));
    }
    let ghost l2 = str_views(args@);
    assert(l2 =~= l1 + (if ignore_space { seq!["--ignore-all-space"@] } else { Seq::<Seq<char>>::empty() }));
    match rev {
        Some(r) => args.push(r.clone()),
        None => {},
    }
    assert(str_views(args@) =~= l2 + (match rev_view(*rev) { Some(r) => seq![r], None => Seq::<Seq<char>>::empty() }));
    with_paths(&mut args, paths);
    assert(str_views(args@) =~= diff_args_of(rev_view(*rev), str_views(paths@), str_views(mode@), ignore_space));
    args
}

/// The sums a totals line states.
pub open spec fn added_sum(fs: Seq<StatView>) -> nat
    decreases fs.len(),
{
    if fs.len() == 0 { 0 } else { added_sum(fs.drop_last()) + match fs.last().0 { Some(a) => a as nat, None => 0 } }
}

pub open spec fn deleted_sum(fs: Seq<StatView>) -> nat
    decreases fs.len(),
{
    if fs.len() == 0 { 0 } else { deleted_sum(fs.drop_last()) + match fs.last().1 { Some(d) => d as nat, None => 0 } }
}

pub open spec fn binary_count(fs: Seq<StatView>) -> nat
    decreases fs.len(),
{
    if fs.len() == 0 { 0 } else { binary_count(fs.drop_last()) + if fs.last().0 is None { 1nat } else { 0nat } }
}

/// `+12 -35`, and the binary count when there is one to state.
pub open spec fn totals_text(fs: Seq<StatView>) -> Seq<char> {
    "+"@ + decimal(added_sum(fs)) + " -"@ + decimal(deleted_sum(fs))
        + if binary_count(fs) == 0 { seq![] } else { " ("@ + decimal(binary_count(fs)) + " binary)"@ }
}

/// Whether the sums a totals line states fit the counters that hold them.
pub open spec fn sums_fit(fs: Seq<StatView>) -> bool {
    added_sum(fs) <= u64::MAX && deleted_sum(fs) <= u64::MAX
}

pub proof fn lemma_stat_views(fs: Seq<FileStat>)
    ensures
        stat_views(fs).len() == fs.len(),
        forall|i: int| 0 <= i < fs.len() ==> #[trigger] stat_views(fs)[i] == stat_view(fs[i]),
    decreases fs.len(),
{
    if fs.len() > 0 {
        lemma_stat_views(fs.drop_last());
        assert forall|i: int| 0 <= i < fs.len() implies #[trigger] stat_views(fs)[i] == stat_view(fs[i]) by {
            if i < fs.len() - 1 {
                assert(stat_views(fs.drop_last())[i] == stat_view(fs.drop_last()[i]));
            }
        }
    }
}

/// The three sums, as counters: what `totals` states.
pub fn sums(files: &Vec<FileStat>) -> (r: (u128, u128, usize))
    ensures
        r.0 == added_sum(stat_views(files@)),
        r.1 == deleted_sum(stat_views(files@)),
        r.2 == binary_count(stat_views(files@)),
{
    proof {
        lemma_stat_views(files@);
    }
    let ghost fv = stat_views(files@);
    let mut added: u128 = 0;
    let mut deleted: u128 = 0;
    let mut binary: usize = 0;
    let mut i: usize = 0;
    while i < files.len()
        invariant
            i <= files@.len(),
            fv == stat_views(files@),
            fv.len() == files@.len(),
            forall|k: int| 0 <= k < files@.len() ==> #[trigger] fv[k] == stat_view(files@[k]),
            added == added_sum(fv.take(i as int)),
            deleted == deleted_sum(fv.take(i as int)),
            binary == binary_count(fv.take(i as int)),
            added <= i * 0xffff_ffff_ffff_ffffu128,
            deleted <= i * 0xffff_ffff_ffff_ffffu128,
            binary <= i,
        decreases files.len() - i,
    {
        assert(fv.take(i + 1).drop_last() =~= fv.take(i as int));
        assert(fv.take(i + 1).last() == stat_view(files@[i as int]));
        proof {
            assert(i + 1 <= 0xffff_ffff_ffff_ffffu128);
            assert((i + 1) * 0xffff_ffff_ffff_ffffu128 == i * 0xffff_ffff_ffff_ffffu128 + 0xffff_ffff_ffff_ffffu128) by (nonlinear_arith);
            assert((i + 1) * 0xffff_ffff_ffff_ffffu128 <= 0xffff_ffff_ffff_ffff_ffff_ffff_ffff_ffffu128) by (nonlinear_arith)
                requires i + 1 <= 0xffff_ffff_ffff_ffffu128;
        }
        match files[i].added {
            Some(a) => added = added + a as u128,
            None => binary = binary + 1,
        }
        match files[i].deleted {
            Some(d) => deleted = deleted + d as u128,
            None => {},
        }
        i = i + 1;
    }
    assert(fv.take(files@.len() as int) =~= fv);
    (added, deleted, binary)
}

/// `+12 -35`, and the binary count when there is one to state.
pub fn totals(files: &Vec<FileStat>) -> (r: String)
    requires
        sums_fit(stat_views(files@)),
    ensures
        r@ == totals_text(stat_views(files@)),
{
    let (added, deleted, binary) = sums(files);
    let mut s = String::from_str("+");
    s.append(decimal_text(added as u64).as_str());
    s.append(" -");
    s.append(decimal_text(deleted as u64).as_str());
    if binary > 0 {
        s.append(" (");
        s.append(decimal_text(binary as u64).as_str());
        s.append(" binary)");
    }
    s
}

/// Whether the totals of these rows can be stated: each sum fits a 64-bit counter.
pub fn totals_fit(files: &Vec<FileStat>) -> (r: bool)
    ensures
        r == sums_fit(stat_views(files@)),
{
    let (added, deleted, _) = sums(files);
    added <= 0xffff_ffff_ffff_ffffu128 && deleted <= 0xffff_ffff_ffff_ffffu128
}

// ---------------------------------------------------------------------------------------
// What changed lately
// ---------------------------------------------------------------------------------------

pub struct Commit {
    pub short: String,
    pub date: String,
    pub author: String,
    pub subject: String,
}

/// A commit as plain text: short hash, date, author, subject.
pub type CommitView = (Seq<char>, Seq<char>, Seq<char>, Seq<char>);

pub open spec fn commit_view(c: Commit) -> CommitView {
    (c.short@, c.date@, c.author@, c.subject@)
}

pub open spec fn commit_views(cs: Seq<Commit>) -> Seq<CommitView>
    decreases cs.len(),
{
    if cs.len() == 0 { seq![] } else { commit_views(cs.drop_last()).push(commit_view(cs.last())) }
}

/// Commits, and how many there are in total: read together, because a listing without its true
/// total is the failure this toolkit exists to remove.
pub struct Commits {
    pub total: usize,
    pub rows: Vec<Commit>,
}

/// The widths of the hash and author columns.
pub open spec fn commit_widths(cs: Seq<CommitView>) -> (nat, nat)
    decreases cs.len(),
{
    if cs.len() == 0 {
        (1, 1)
    } else {
        let w = commit_widths(cs.drop_last());
        (max(w.0, byte_len(cs.last().0)), max(w.1, byte_len(cs.last().2)))
    }
}

pub open spec fn commit_line(c: CommitView, w: (nat, nat)) -> Seq<char> {
    pad_right(c.0, w.0) + "  "@ + c.1 + "  "@ + pad_right(c.2, w.1) + "  "@ + c.3
}

pub open spec fn commit_lines(cs: Seq<CommitView>, w: (nat, nat)) -> Seq<Seq<char>>
    decreases cs.len(),
{
    if cs.len() == 0 { seq![] } else { commit_lines(cs.drop_last(), w).push(commit_line(cs.last(), w)) }
}

pub proof fn lemma_commit_views(cs: Seq<Commit>)
    ensures
        commit_views(cs).len() == cs.len(),
        forall|i: int| 0 <= i < cs.len() ==> #[trigger] commit_views(cs)[i] == commit_view(cs[i]),
    decreases cs.len(),
{
    if cs.len() > 0 {
        lemma_commit_views(cs.drop_last());
        assert forall|i: int| 0 <= i < cs.len() implies #[trigger] commit_views(cs)[i] == commit_view(cs[i]) by {
            if i < cs.len() - 1 {
                assert(commit_views(cs.drop_last())[i] == commit_view(cs.drop_last()[i]));
            }
        }
    }
}

impl Commits {
    /// The rows as aligned lines: the widths come from the rows themselves, so the output is as
    /// narrow as its data allows and identical for identical input.
    pub fn lines(&self) -> (r: Vec<String>)
        ensures
            str_views(r@) == commit_lines(commit_views(self.rows@), commit_widths(commit_views(self.rows@))),
    {
        proof {
            lemma_commit_views(self.rows@);
        }
        let ghost cv = commit_views(self.rows@);
        let mut short: usize = 1;
        let mut author: usize = 1;
        let mut i: usize = 0;
        while i < self.rows.len()
            invariant
                i <= self.rows@.len(),
                cv == commit_views(self.rows@),
                cv.len() == self.rows@.len(),
                forall|k: int| 0 <= k < self.rows@.len() ==> #[trigger] cv[k] == commit_view(self.rows@[k]),
                (short as nat, author as nat) == commit_widths(cv.take(i as int)),
            decreases self.rows.len() - i,
        {
            assert(cv.take(i + 1).drop_last() =~= cv.take(i as int));
            assert(cv.take(i + 1).last() == commit_view(self.rows@[i as int]));
            short = wider(short, self.rows[i].short.as_str().len());
            author = wider(author, self.rows[i].author.as_str().len());
            i = i + 1;
        }
        assert(cv.take(self.rows@.len() as int) =~= cv);
        let ghost w = (short as nat, author as nat);
        let mut r: Vec<String> = Vec::new();
        let mut k: usize = 0;
        while k < self.rows.len()
            invariant
                k <= self.rows@.len(),
                cv == commit_views(self.rows@),
                cv.len() == self.rows@.len(),
                forall|j: int| 0 <= j < self.rows@.len() ==> #[trigger] cv[j] == commit_view(self.rows@[j]),
                w == (short as nat, author as nat),
                str_views(r@) == commit_lines(cv.take(k as int), w),
            decreases self.rows.len() - k,
        {
            assert(cv.take(k + 1).drop_last() =~= cv.take(k as int));
            assert(cv.take(k + 1).last() == commit_view(self.rows@[k as int]));
            let c = &self.rows[k];
            let mut line = String::new();
            push_padded_right(&mut line, c.short.as_str(), short);
            line.append("  ");
            line.append(c.date.as_str());
            line.append("  ");
            push_padded_right(&mut line, c.author.as_str(), author);
            line.append("  ");
            line.append(c.subject.as_str());
            let ghost before = r@;
            r.push(line);
            assert(str_views(r@) =~= str_views(before).push(commit_line(cv[k as int], w)));
            k = k + 1;
        }
        assert(cv.take(self.rows@.len() as int) =~= cv);
        r
    }
}

/// The arguments of the count: `rev-list --count` over the same revision and paths.
pub fn count_args(rev: &str, paths: &Vec<String>) -> (r: Vec<String>)
    ensures
        str_views(r@) == seq!["--count"@, rev@] + (if paths@.len() == 0 { Seq::<Seq<char>>::empty() } else { seq!["--"@] + str_views(paths@) }),
{
    let mut r = vec![String::from_str("--count"), String::from_str(rev)];
    assert(str_views(r@) =~= seq!["--count"@, rev@]);
    with_paths(&mut r, paths);
    r
}

/// The format for one line per commit: `%s` is a single line by construction, so a commit is a
/// line and the separator can be a byte no subject contains.
pub const FORMAT: &'static str = "--format=%h%x1f%as%x1f%an%x1f%s";

/// The arguments of the listing: `log` over the same revision and paths, at most `limit` rows.
pub fn log_args(rev: &str, paths: &Vec<String>, limit: usize) -> (r: Vec<String>)
    ensures
        str_views(r@) == seq!["--no-show-signature"@, "--max-count="@ + decimal(limit as nat), FORMAT@, rev@]
            + (if paths@.len() == 0 { Seq::<Seq<char>>::empty() } else { seq!["--"@] + str_views(paths@) }),
{
    let mut max = String::from_str("--max-count=");
    max.append(decimal_text(limit as u64).as_str());
    let mut r = vec![String::from_str("--no-show-signature"), max, String::from_str(FORMAT), String::from_str(rev)];
    assert(str_views(r@) =~= seq!["--no-show-signature"@, "--max-count="@ + decimal(limit as nat), FORMAT@, rev@]);
    with_paths(&mut r, paths);
    r
}

/// What the count read means: a number, or the reason it is not one.
pub open spec fn count_result(raw: Seq<char>) -> Result<nat, Seq<char>> {
    match unsigned_of(trim(raw)) {
        Some(n) => if n <= usize::MAX { Ok(n) } else {
            Err("git rev-list --count printed `"@ + trim(raw) + "`, which is not a number"@)
        },
        None => Err("git rev-list --count printed `"@ + trim(raw) + "`, which is not a number"@),
    }
}

pub fn parse_count(raw: &str) -> (r: Result<usize, Fail>)
    ensures
        match r {
            Ok(n) => count_result(raw@) == Ok::<nat, Seq<char>>(n as nat),
            Err(f) => f.exit == Exit::Environment && count_result(raw@) == Err::<nat, Seq<char>>(f.message@),
        },
{
    let t = trim_exec(&chars_of(raw));
    match crate::text::parse_usize(&t) {
        Some(n) => Ok(n),
        None => {
            let mut m = String::from_str("git rev-list --count printed `");
            m.append(string_of(&t).as_str());
            m.append("`, which is not a number");
            Err(Fail::environment(m))
        },
    }
}

/// A log line split on the unit separator.
pub open spec fn fields_of(line: Seq<char>) -> Seq<Seq<char>> {
    split_on(line, '\u{1f}')
}

/// The rows of a `log` read, or the reason a line did not render as the format asked.
pub open spec fn commits_from(ls: Seq<Seq<char>>) -> Result<Seq<CommitView>, Seq<char>>
    decreases ls.len(),
{
    if ls.len() == 0 {
        Ok(seq![])
    } else {
        match commits_from(ls.drop_last()) {
            Err(e) => Err(e),
            Ok(rows) => if ls.last().len() == 0 {
                Ok(rows)
            } else {
                let f = fields_of(ls.last());
                if f.len() == 4 {
                    Ok(rows.push((f[0], f[1], f[2], f[3])))
                } else {
                    Err("git printed "@ + decimal(f.len()) + " fields where the requested format has 4"@)
                }
            },
        }
    }
}

/// The commits of a `log` read in the one-line format.
pub fn parse_log(raw: &str) -> (r: Result<Vec<Commit>, Fail>)
    ensures
        match r {
            Ok(cs) => commits_from(lines(raw@)) == Ok::<Seq<CommitView>, Seq<char>>(commit_views(cs@)),
            Err(f) => f.exit == Exit::Environment && commits_from(lines(raw@)) == Err::<Seq<CommitView>, Seq<char>>(f.message@),
        },
{
    let ls = lines_of(&chars_of(raw));
    let ghost lv = views(ls@);
    let mut rows: Vec<Commit> = Vec::new();
    let mut i: usize = 0;
    assert(lv.take(0) =~= Seq::<Seq<char>>::empty());
    while i < ls.len()
        invariant
            i <= ls@.len(),
            lv == views(ls@),
            lv == lines(raw@),
            commits_from(lv.take(i as int)) == Ok::<Seq<CommitView>, Seq<char>>(commit_views(rows@)),
        decreases ls.len() - i,
    {
        assert(lv.take(i + 1).drop_last() =~= lv.take(i as int));
        assert(lv.take(i + 1).last() == ls@[i as int]@);
        if ls[i].len() > 0 {
            let f = crate::text::split_char(&ls[i], '\u{1f}');
            if f.len() == 4 {
                let ghost before = rows@;
                rows.push(Commit { short: string_of(&f[0]), date: string_of(&f[1]), author: string_of(&f[2]), subject: string_of(&f[3]) });
                assert(rows@.drop_last() =~= before);
            } else {
                let mut m = String::from_str(GIT);
                m.append(" printed ");
                m.append(decimal_text(f.len() as u64).as_str());
                m.append(" fields where the requested format has 4");
                proof {
                    reveal_strlit("git");
                    reveal_strlit(" printed ");
                    reveal_strlit("git printed ");
                    assert(views(f@).len() == f@.len());
                    assert(m@ =~= "git printed "@ + decimal(f@.len() as nat) + " fields where the requested format has 4"@);
                    assert(commits_from(lv.take(i + 1)) == Err::<Seq<CommitView>, Seq<char>>(m@));
                    lemma_commits_err_sticks(lv, i + 1);
                    assert(lv.take(ls@.len() as int) =~= lv);
                }
                return Err(Fail::environment(m));
            }
        }
        i = i + 1;
    }
    assert(lv.take(ls@.len() as int) =~= lv);
    Ok(rows)
}

proof fn lemma_commits_err_sticks(ls: Seq<Seq<char>>, i: int)
    requires
        0 <= i <= ls.len(),
        commits_from(ls.take(i)) is Err,
    ensures
        commits_from(ls) == commits_from(ls.take(i)),
    decreases ls.len() - i,
{
    if i < ls.len() {
        assert(ls.take(i + 1).drop_last() =~= ls.take(i));
        lemma_commits_err_sticks(ls, i + 1);
    } else {
        assert(ls.take(i) =~= ls);
    }
}

/// The count and the rows together.
pub fn commits(count_raw: &str, log_raw: &str) -> (r: Result<Commits, Fail>)
    ensures
        match r {
            Ok(c) => count_result(count_raw@) == Ok::<nat, Seq<char>>(c.total as nat)
                && commits_from(lines(log_raw@)) == Ok::<Seq<CommitView>, Seq<char>>(commit_views(c.rows@)),
            Err(f) => f.exit == Exit::Environment && (count_result(count_raw@) == Err::<nat, Seq<char>>(f.message@)
                || (count_result(count_raw@) is Ok && commits_from(lines(log_raw@)) == Err::<Seq<CommitView>, Seq<char>>(f.message@))),
        },
{
    let total = match parse_count(count_raw) {
        Ok(n) => n,
        Err(f) => return Err(f),
    };
    match parse_log(log_raw) {
        Ok(rows) => Ok(Commits { total, rows }),
        Err(f) => Err(f),
    }
}

/// The probe for a branch's upstream, asked through `for-each-ref` so that no `@{` appears in
/// this tool's arguments.
pub fn upstream_args(branch: &str) -> (r: Vec<String>)
    ensures
        str_views(r@) == seq!["--format=%(upstream:short)"@, "--count=1"@, "refs/heads/"@ + branch@],
{
    let mut reference = String::from_str("refs/heads/");
    reference.append(branch);
    let r = vec![String::from_str("--format=%(upstream:short)"), String::from_str("--count=1"), reference];
    assert(str_views(r@) =~= seq!["--format=%(upstream:short)"@, "--count=1"@, "refs/heads/"@ + branch@]);
    r
}

/// The upstream the probe named, or `None` when the branch tracks nothing.
pub open spec fn upstream_from(probe: Option<Seq<char>>) -> Option<Seq<char>> {
    match probe {
        Some(out) => if trim(out).len() > 0 { Some(trim(out)) } else { None },
        None => None,
    }
}

pub fn upstream_of(probe: Option<String>) -> (r: Option<String>)
    ensures
        rev_view(r) == upstream_from(rev_view(probe)),
{
    match probe {
        Some(out) => {
            let t = trim_exec(&chars_of(out.as_str()));
            if t.len() > 0 { Some(string_of(&t)) } else { None }
        },
        None => None,
    }
}


/// The arguments as borrowed text, in order.
pub fn borrowed(args: &Vec<String>) -> (r: Vec<&str>)
    ensures
        r@.len() == args@.len(),
        forall|i: int| 0 <= i < r@.len() ==> (#[trigger] r@[i])@ == args@[i]@,
{
    let mut r: Vec<&str> = Vec::new();
    let mut i: usize = 0;
    while i < args.len()
        invariant
            i <= args@.len(),
            r@.len() == i,
            forall|k: int| 0 <= k < i ==> (#[trigger] r@[k])@ == args@[k]@,
        decreases args.len() - i,
    {
        r.push(args[i].as_str());
        i = i + 1;
    }
    r
}

} // verus!
