//! `at-recall diff` — what is the difference.
//!
//! The default answer is a per-file table with the totals, and `--patch` is the caller asking for
//! the hunks as well. Nothing is reported for a path git does not track, and nothing looks exactly
//! like "unchanged", so an empty answer with paths named is explained. A diff prints content, so
//! `--patch` withholds the files the deny-list refuses and names them; the table does not, because
//! a file's name and its line counts are metadata.

use vstd::prelude::*;
use vstd::string::StringExecFns;

use crate::catalogue::{pad_right, push_padded_right};
use crate::contract::{bound_line, counted, header_line, next_line, plural, secret_rule, secret_shaped, Exit, Fail,
    Outcome, Report, MAX_LIMIT};
use crate::peek::verbs::search::file_name;
use crate::peek::verbs::slice::{clamp_bounds, width_bounds};
use crate::peek::verbs::stat::{byte_len, max, wider};
use crate::recall::facts::{counts_of, diff_args, diff_args_of, parse_numstats, rev_view, stat_view, stat_views,
    sums_fit, totals, totals_text, FileStat, StatView};
use crate::recall::git::{refuse_reflog, rev, rev_of, reflog_message};
use crate::recall::status::{all_names, Status};
use crate::recall::verbs::{again, again_of, budgeted, budget_cuts, limit_flag, min, push_all, Budget, Opts};
use crate::text::{chars_of, contains, decimal, decimal_text, join, lines, lines_of, split_on, starts_with, views,
    str_views, string_of, strictly_sorted, sorted_insert};

verus! {

/// Whether a path is one the deny-list refuses: the name catches `.env` in any directory, and
/// the whole path catches a file inside a directory that is itself named for secrets.
pub open spec fn secret_path(path: Seq<char>) -> bool {
    secret_rule(file_name(path)) is Some || secret_rule(path) is Some
}

pub fn secret_shaped_path(path: &str) -> (r: bool)
    ensures
        r == secret_path(path@),
{
    let name = crate::peek::verbs::search::file_name_of(path);
    secret_shaped(name.as_str()).is_some() || secret_shaped(path).is_some()
}

/// The secret-shaped names among the files', in order.
pub open spec fn secret_names(fs: Seq<StatView>) -> Seq<Seq<char>>
    decreases fs.len(),
{
    if fs.len() == 0 { seq![] } else { secret_names(fs.drop_last()) + secret_of(fs.last().3) }
}

pub open spec fn secret_of(names: Seq<Seq<char>>) -> Seq<Seq<char>>
    decreases names.len(),
{
    if names.len() == 0 {
        seq![]
    } else {
        secret_of(names.drop_last()) + if secret_path(names.last()) { seq![names.last()] } else { seq![] }
    }
}

/// The names a patch will not print: none when no patch was asked for or the caller asked for
/// them by flag, else every secret-shaped name, sorted, each once.
pub open spec fn is_withheld(w: Seq<Seq<char>>, fs: Seq<StatView>, patch: bool, secrets_too: bool) -> bool {
    if !patch || secrets_too {
        w.len() == 0
    } else {
        strictly_sorted(w) && w.to_set() == secret_names(fs).to_set()
    }
}

pub fn withheld(files: &Vec<FileStat>, opts: &Opts) -> (r: Vec<String>)
    ensures
        is_withheld(str_views(r@), stat_views(files@), opts.patch, opts.include_secret_paths),
{
    let mut r: Vec<String> = Vec::new();
    if !opts.patch || opts.include_secret_paths {
        return r;
    }
    proof {
        crate::recall::facts::lemma_stat_views(files@);
    }
    let ghost fv = stat_views(files@);
    let mut i: usize = 0;
    assert(fv.take(0) =~= Seq::<StatView>::empty());
    assert(str_views(r@).to_set() =~= secret_names(fv.take(0)).to_set());
    while i < files.len()
        invariant
            i <= files@.len(),
            fv == stat_views(files@),
            fv.len() == files@.len(),
            forall|k: int| 0 <= k < files@.len() ==> #[trigger] fv[k] == stat_view(files@[k]),
            strictly_sorted(str_views(r@)),
            str_views(r@).to_set() == secret_names(fv.take(i as int)).to_set(),
        decreases files.len() - i,
    {
        assert(fv.take(i + 1).drop_last() =~= fv.take(i as int));
        assert(fv.take(i + 1).last() == stat_view(files@[i as int]));
        let names = &files[i].names;
        let ghost nv = str_views(names@);
        let ghost base = secret_names(fv.take(i as int));
        let mut k: usize = 0;
        assert(nv.take(0) =~= Seq::<Seq<char>>::empty());
        assert(base + secret_of(nv.take(0)) =~= base);
        while k < names.len()
            invariant
                k <= names@.len(),
                nv == str_views(names@),
                strictly_sorted(str_views(r@)),
                str_views(r@).to_set() == (base + secret_of(nv.take(k as int))).to_set(),
            decreases names.len() - k,
        {
            assert(nv.take(k + 1).drop_last() =~= nv.take(k as int));
            assert(nv.take(k + 1).last() == names@[k as int]@);
            let ghost before = base + secret_of(nv.take(k as int));
            if secret_shaped_path(names[k].as_str()) {
                sorted_insert(&mut r, names[k].clone());
                proof {
                    before.lemma_push_to_set_commute(names@[k as int]@);
                    assert(base + secret_of(nv.take(k + 1)) =~= before.push(names@[k as int]@));
                }
            } else {
                assert(base + secret_of(nv.take(k + 1)) =~= before);
            }
            k = k + 1;
        }
        assert(nv.take(names@.len() as int) =~= nv);
        i = i + 1;
    }
    assert(fv.take(files@.len() as int) =~= fv);
    r
}

/// The comparison, in the words the caller would use for it: a range names its own comparison.
pub open spec fn comparison_of(rev: Option<Seq<char>>) -> Seq<char> {
    match rev {
        Some(r) => if contains(r, ".."@) { r } else { "working tree against "@ + r },
        None => "working tree against the index (no commits yet)"@,
    }
}

fn has_range(r: &str) -> (b: bool)
    ensures
        b == contains(r@, ".."@),
{
    proof {
        crate::recall::git::lemma_find_contains(r@, ".."@);
    }
    crate::text::find_exec(&chars_of(r), &chars_of("..")).is_some()
}

pub fn comparison(rev: &Option<String>) -> (r: String)
    ensures
        r@ == comparison_of(rev_view(*rev)),
{
    match rev {
        Some(r) => if has_range(r.as_str()) {
            r.clone()
        } else {
            let mut s = String::from_str("working tree against ");
            s.append(r.as_str());
            s
        },
        None => String::from_str("working tree against the index (no commits yet)"),
    }
}

/// What a comparison with no revision given is against: HEAD, stated rather than left to git's
/// default; on a branch with no commits there is no HEAD, and the index is what is in front.
pub fn default_revision(rev: Option<String>, head_exists: bool) -> (r: Option<String>)
    ensures
        rev_view(r) == (match rev_view(rev) {
            Some(v) => Some(v),
            None => if head_exists { Some("HEAD"@) } else { None },
        }),
{
    match rev {
        Some(r) => Some(r),
        None => if head_exists { Some(String::from_str("HEAD")) } else { None },
    }
}

/// The first argument is a revision when it names one and a path otherwise, the rule git uses.
/// A reflog reference is refused here rather than demoted to a path, and a token with a range in
/// it is meant as one whatever it resolves to.
pub open spec fn split_of(args: Seq<Seq<char>>, names_a_revision: bool, root: Seq<char>)
    -> Result<(Option<Seq<char>>, Seq<Seq<char>>), Seq<char>> {
    if args.len() == 0 {
        Ok((None, seq![]))
    } else {
        let first = args[0];
        if contains(first, "@{"@) {
            Err(reflog_message(first))
        } else if names_a_revision {
            match rev_of(first) {
                Ok(r) => Ok((Some(r), args.drop_first())),
                Err(e) => Err(e),
            }
        } else if contains(first, ".."@) {
            Err("`"@ + first + "` is not a revision range in "@ + root
                + " · a range needs both of its ends to resolve"@)
        } else {
            Ok((None, args))
        }
    }
}

/// Split the arguments into a revision and paths, given whether git resolved the first one (the
/// program asks only after [`refuse_reflog`] has passed it).
pub fn split(args: &Vec<String>, names_a_revision: bool, opts: &Opts) -> (r: Result<(Option<String>, Vec<String>), Fail>)
    ensures
        match r {
            Ok((rv, paths)) => split_of(str_views(args@), names_a_revision, opts.root.name_view())
                == Ok::<(Option<Seq<char>>, Seq<Seq<char>>), Seq<char>>((rev_view(rv), str_views(paths@))),
            Err(f) => split_of(str_views(args@), names_a_revision, opts.root.name_view())
                == Err::<(Option<Seq<char>>, Seq<Seq<char>>), Seq<char>>(f.message@)
                && (f.exit == Exit::Usage || f.exit == Exit::Environment),
        },
{
    if args.len() == 0 {
        let v: Vec<String> = Vec::new();
        assert(str_views(v@) =~= Seq::<Seq<char>>::empty());
        return Ok((None, v));
    }
    let first = args[0].as_str();
    match refuse_reflog(first) {
        Err(f) => return Err(f),
        Ok(()) => {},
    }
    if names_a_revision {
        let r = match rev(first) {
            Ok(r) => r,
            Err(f) => return Err(f),
        };
        let mut rest: Vec<String> = Vec::new();
        let mut i: usize = 1;
        while i < args.len()
            invariant
                1 <= i <= args@.len(),
                str_views(rest@) == str_views(args@).subrange(1, i as int),
            decreases args.len() - i,
        {
            let ghost before = rest@;
            rest.push(args[i].clone());
            assert(str_views(rest@) =~= str_views(before).push(args@[i as int]@));
            assert(str_views(rest@) =~= str_views(args@).subrange(1, i + 1));
            i = i + 1;
        }
        assert(str_views(args@).subrange(1, args@.len() as int) =~= str_views(args@).drop_first());
        return Ok((Some(r), rest));
    }
    if has_range(first) {
        let mut m = String::from_str("`");
        m.append(first);
        m.append("` is not a revision range in ");
        m.append(opts.root.name());
        m.append(" · a range needs both of its ends to resolve");
        return Err(Fail::environment(m));
    }
    let all = crate::text::copy_strings(args);
    Ok((None, all))
}

/// Whether a comparison needs the filter check: two commits and no worktree convert no file,
/// so no filter can run.
pub fn needs_filter_check(rev: &Option<String>) -> (r: bool)
    ensures
        r == !(rev_view(*rev) matches Some(v) && contains(v, ".."@)),
{
    match rev {
        Some(r) => !has_range(r.as_str()),
        None => true,
    }
}

/// The one diff that converts no working-tree file: the index against the revision.
pub fn index_args(rev: &Option<String>, paths: &Vec<String>) -> (r: Vec<String>)
    ensures
        str_views(r@) == seq!["--numstat"@, "--cached"@] + (match rev_view(*rev) { Some(v) => seq![v], None => Seq::<Seq<char>>::empty() })
            + (if paths@.len() == 0 { Seq::<Seq<char>>::empty() } else { seq!["--"@] + str_views(paths@) }),
{
    let mut r = vec![String::from_str("--numstat"), String::from_str("--cached")];
    match rev {
        Some(v) => r.push(v.clone()),
        None => {},
    }
    assert(str_views(r@) =~= seq!["--numstat"@, "--cached"@] + (match rev_view(*rev) { Some(v) => seq![v], None => Seq::<Seq<char>>::empty() }));
    crate::recall::git::with_paths(&mut r, paths);
    r
}

/// The names of every row of a numstat read.
pub open spec fn row_names(fs: Seq<StatView>) -> Seq<Seq<char>>
    decreases fs.len(),
{
    if fs.len() == 0 { seq![] } else { row_names(fs.drop_last()) + fs.last().3 }
}

/// Every tracked path the comparison could name: the paths the index differs on, and every path
/// the status mentions, as a sorted set. A status that did not parse cannot be checked.
pub fn changed_paths(index_raw: &str, status: &Status) -> (r: Result<Vec<String>, Fail>)
    ensures
        match r {
            Ok(set) => status.view_of().5 == 0 && strictly_sorted(str_views(set@))
                && str_views(set@).to_set() == (row_names(crate::recall::facts::numstat_rows(lines(index_raw@)))
                    + all_names(status.entries_view())).to_set(),
            Err(f) => status.view_of().5 > 0 && f.exit == Exit::Environment
                && f.message@ == "the working tree state did not parse, so this diff cannot be checked against the filters a repository may configure"@,
        },
{
    let rows = parse_numstats(index_raw);
    if status.unparsed() > 0 {
        return Err(Fail::environment(String::from_str(
            "the working tree state did not parse, so this diff cannot be checked against the filters a repository may configure")));
    }
    let mut names: Vec<String> = Vec::new();
    proof {
        crate::recall::facts::lemma_stat_views(rows@);
    }
    let ghost fv = stat_views(rows@);
    let mut i: usize = 0;
    assert(fv.take(0) =~= Seq::<StatView>::empty());
    while i < rows.len()
        invariant
            i <= rows@.len(),
            fv == stat_views(rows@),
            fv.len() == rows@.len(),
            forall|k: int| 0 <= k < rows@.len() ==> #[trigger] fv[k] == stat_view(rows@[k]),
            str_views(names@) == row_names(fv.take(i as int)),
        decreases rows.len() - i,
    {
        assert(fv.take(i + 1).drop_last() =~= fv.take(i as int));
        assert(fv.take(i + 1).last() == stat_view(rows@[i as int]));
        let ghost before = str_views(names@);
        let mut k: usize = 0;
        while k < rows[i].names.len()
            invariant
                i < rows@.len(),
                k <= rows@[i as int].names@.len(),
                str_views(names@) == before + str_views(rows@[i as int].names@).take(k as int),
            decreases rows@[i as int].names@.len() - k,
        {
            let ghost b2 = names@;
            names.push(rows[i].names[k].clone());
            assert(str_views(names@) =~= str_views(b2).push(rows@[i as int].names@[k as int]@));
            assert(str_views(names@) =~= before + str_views(rows@[i as int].names@).take(k + 1));
            k = k + 1;
        }
        assert(str_views(rows@[i as int].names@).take(rows@[i as int].names@.len() as int) =~= str_views(rows@[i as int].names@));
        i = i + 1;
    }
    assert(fv.take(rows@.len() as int) =~= fv);
    let from_status = status.paths();
    let ghost names0 = str_views(names@);
    let ghost all = names0 + str_views(from_status@);
    let mut j: usize = 0;
    let n = names.len();
    while j < from_status.len()
        invariant
            j <= from_status@.len(),
            names@.len() == n + j,
            names0.len() == n,
            all == names0 + str_views(from_status@),
            str_views(names@) == all.take(n + j),
            all == row_names(fv) + all_names(status.entries_view()),
            all.len() == n + from_status@.len(),
        decreases from_status.len() - j,
    {
        let ghost b2 = names@;
        names.push(from_status[j].clone());
        assert(all[n + j] == from_status@[j as int]@);
        assert(str_views(names@) =~= str_views(b2).push(from_status@[j as int]@));
        assert(str_views(names@) =~= all.take(n + j + 1));
        j = j + 1;
    }
    assert(all.take(all.len() as int) =~= all);
    let mut set: Vec<String> = Vec::new();
    let ghost nv = str_views(names@);
    let mut k: usize = 0;
    assert(str_views(set@).to_set() =~= nv.take(0).to_set());
    while k < names.len()
        invariant
            k <= names@.len(),
            nv == str_views(names@),
            strictly_sorted(str_views(set@)),
            str_views(set@).to_set() == nv.take(k as int).to_set(),
        decreases names.len() - k,
    {
        sorted_insert(&mut set, names[k].clone());
        proof {
            nv.take(k as int).lemma_push_to_set_commute(nv[k as int]);
            assert(nv.take(k + 1) =~= nv.take(k as int).push(nv[k as int]));
        }
        k = k + 1;
    }
    assert(nv.take(names@.len() as int) =~= nv);
    Ok(set)
}

/// The paths whose `filter` attribute names a driver, each with its value: `unspecified` is "no
/// pattern matched" and `unset` is a repository saying `-filter`, and neither names a driver.
pub open spec fn offenders_of(attrs: Seq<(Seq<char>, Seq<char>)>) -> Seq<Seq<char>>
    decreases attrs.len(),
{
    if attrs.len() == 0 {
        seq![]
    } else {
        let rest = offenders_of(attrs.drop_last());
        let (path, value) = attrs.last();
        if value != "unspecified"@ && value != "unset"@ {
            rest.push(path + " (filter="@ + value + ")"@)
        } else {
            rest
        }
    }
}

/// Refuse a worktree comparison when the repository routes any of its paths through a filter
/// driver: a worktree diff would run the program the repository names.
pub fn filter_verdict(attrs: &Vec<(String, String)>) -> (r: Result<(), Fail>)
    ensures
        match r {
            Ok(()) => offenders_of(crate::recall::git::pair_views(attrs@)).len() == 0,
            Err(f) => offenders_of(crate::recall::git::pair_views(attrs@)).len() > 0 && f.exit == Exit::Refused
                && f.message@ == join(offenders_of(crate::recall::git::pair_views(attrs@)), ", "@)
                    + " · a filter driver is a program the repository names, and this tool runs git only · `git diff` shows the filtered form"@,
        },
{
    let ghost av = crate::recall::git::pair_views(attrs@);
    let mut text = String::new();
    let mut count: usize = 0;
    let mut i: usize = 0;
    assert(attrs@.take(0) =~= Seq::<(String, String)>::empty());
    while i < attrs.len()
        invariant
            i <= attrs@.len(),
            count == offenders_of(crate::recall::git::pair_views(attrs@.take(i as int))).len(),
            count <= i,
            text@ == join(offenders_of(crate::recall::git::pair_views(attrs@.take(i as int))), ", "@),
        decreases attrs.len() - i,
    {
        assert(attrs@.take(i + 1).drop_last() =~= attrs@.take(i as int));
        let ghost prev = offenders_of(crate::recall::git::pair_views(attrs@.take(i as int)));
        let (path, value) = &attrs[i];
        assert(crate::recall::git::pair_views(attrs@.take(i + 1)).drop_last() =~= crate::recall::git::pair_views(attrs@.take(i as int)));
        assert(crate::recall::git::pair_views(attrs@.take(i + 1)).last() == (path@, value@));
        let v = chars_of(value.as_str());
        if !crate::text::eq_chars(&v, &chars_of("unspecified")) && !crate::text::eq_chars(&v, &chars_of("unset")) {
            let mut item = path.clone();
            item.append(" (filter=");
            item.append(value.as_str());
            item.append(")");
            crate::peek::verbs::search::push_joined(&mut text, count == 0, ", ", item.as_str(), Ghost(prev), Ghost(Seq::<char>::empty()));
            assert(text@ =~= join(prev.push(item@), ", "@));
            count = count + 1;
        }
        i = i + 1;
    }
    assert(attrs@.take(attrs@.len() as int) =~= attrs@);
    if count == 0 {
        return Ok(());
    }
    text.append(" · a filter driver is a program the repository names, and this tool runs git only · `git diff` shows the filtered form");
    Err(Fail::refused(text))
}

/// A path the empty-answer check can answer for: a pattern that matches nothing is
/// indistinguishable from a path that changed nothing.
pub open spec fn plain_path(path: Seq<char>) -> bool {
    !path.contains('*') && !path.contains('?') && !path.contains('[') && !path.contains(']')
        && !(path.len() > 0 && path[0] == ':')
}

pub fn is_plain_path(path: &str) -> (r: bool)
    ensures
        r == plain_path(path@),
{
    let v = chars_of(path);
    let mut i: usize = 0;
    while i < v.len()
        invariant
            i <= v@.len(),
            v@ == path@,
            forall|k: int| 0 <= k < i ==> v@[k] != '*' && v@[k] != '?' && v@[k] != '[' && v@[k] != ']',
        decreases v.len() - i,
    {
        if v[i] == '*' || v[i] == '?' || v[i] == '[' || v[i] == ']' {
            proof {
                let c = v@[i as int];
                assert(path@[i as int] == c);
                assert(path@.contains(c));
            }
            return false;
        }
        i = i + 1;
    }
    !(v.len() > 0 && v[0] == ':')
}

/// The probe that asks git what it knows of one path.
pub fn probe_args(path: &str) -> (r: Vec<String>)
    ensures
        str_views(r@) == seq!["--porcelain=v2"@, "-z"@, "--untracked-files=all"@, "--ignored=matching"@, "--"@, path@],
{
    let r = vec![String::from_str("--porcelain=v2"), String::from_str("-z"), String::from_str("--untracked-files=all"),
        String::from_str("--ignored=matching"), String::from_str("--"), String::from_str(path)];
    assert(str_views(r@) =~= seq!["--porcelain=v2"@, "-z"@, "--untracked-files=all"@, "--ignored=matching"@, "--"@, path@]);
    r
}

pub open spec fn any_record(recs: Seq<Seq<char>>, prefix: Seq<char>) -> bool {
    exists|i: int| 0 <= i < recs.len() && starts_with(#[trigger] recs[i], prefix)
}

/// What an empty answer says of one path: untracked, ignored, or not there at all.
pub open spec fn explained(path: Seq<char>, probe: Seq<char>, exists: bool, root: Seq<char>) -> Result<Seq<Seq<char>>, Seq<char>> {
    let recs = split_on(probe, '\0');
    if any_record(recs, "? "@) {
        Ok(seq![bound_line("caveat: "@ + path + " is untracked, and a diff between commits cannot show it"@)])
    } else if any_record(recs, "! "@) {
        Ok(seq![bound_line("caveat: "@ + path + " is ignored by this repository, so no diff shows it"@)])
    } else if !exists {
        Err(path + " is neither a revision nor a path in "@ + root + ", and no difference mentions it"@)
    } else {
        Ok(seq![])
    }
}

fn any_prefixed(recs: &Vec<Vec<char>>, prefix: &str) -> (r: bool)
    ensures
        r == any_record(views(recs@), prefix@),
{
    let p = chars_of(prefix);
    let mut i: usize = 0;
    while i < recs.len()
        invariant
            i <= recs@.len(),
            p@ == prefix@,
            forall|k: int| 0 <= k < i ==> !starts_with(#[trigger] views(recs@)[k], prefix@),
        decreases recs.len() - i,
    {
        assert(views(recs@)[i as int] == recs@[i as int]@);
        if crate::text::starts_with_exec(&recs[i], &p) {
            return true;
        }
        i = i + 1;
    }
    false
}

/// Say which of the three an unchanged path is, given what the probe printed (empty when git
/// declined) and whether the path exists; fail on a path that is not there at all.
pub fn explain(report: &mut Report, path: &str, probe: &str, exists: bool, opts: &Opts) -> (r: Result<(), Fail>)
    ensures
        match r {
            Ok(()) => explained(path@, probe@, exists, opts.root.name_view()) matches Ok(ls)
                && final(report)@ == (old(report)@.0 + ls, old(report)@.1),
            Err(f) => f.exit == Exit::Environment
                && explained(path@, probe@, exists, opts.root.name_view()) == Err::<Seq<Seq<char>>, Seq<char>>(f.message@),
        },
{
    let recs = crate::text::split_char(&chars_of(probe), '\0');
    let ghost before = report@.0;
    if any_prefixed(&recs, "? ") {
        let mut m = String::from_str("caveat: ");
        m.append(path);
        m.append(" is untracked, and a diff between commits cannot show it");
        report.bound(m);
        assert(report@.0 =~= before + seq![bound_line("caveat: "@ + path@ + " is untracked, and a diff between commits cannot show it"@)]);
        return Ok(());
    }
    if any_prefixed(&recs, "! ") {
        let mut m = String::from_str("caveat: ");
        m.append(path);
        m.append(" is ignored by this repository, so no diff shows it");
        report.bound(m);
        assert(report@.0 =~= before + seq![bound_line("caveat: "@ + path@ + " is ignored by this repository, so no diff shows it"@)]);
        return Ok(());
    }
    if !exists {
        let mut m = String::from_str(path);
        m.append(" is neither a revision nor a path in ");
        m.append(opts.root.name());
        m.append(", and no difference mentions it");
        return Err(Fail::environment(m));
    }
    assert(report@.0 =~= before + Seq::<Seq<char>>::empty());
    Ok(())
}

/// The report a diff starts with: the clamp, then the header naming the comparison.
pub fn begin(rev: &Option<String>, opts: &Opts) -> (r: Report)
    ensures
        r@.0 == clamp_bounds(opts.limit_clamped_from)
            + seq![header_line(crate::recall::TOOL@, "diff"@, opts.root.name_view(), comparison_of(rev_view(*rev)))],
        r@.1 == 0,
{
    let mut report = Report::new();
    crate::peek::verbs::slice::clamp_bound(&mut report, opts.limit_clamped_from);
    report.header(crate::recall::TOOL, "diff", opts.root.name(), comparison(rev).as_str());
    report
}

/// The pathspecs of the hunks: the caller's paths, then each withheld name excluded literally, so
/// git decides which file a hunk belongs to.
pub open spec fn excluded(names: Seq<Seq<char>>) -> Seq<Seq<char>>
    decreases names.len(),
{
    if names.len() == 0 { seq![] } else { excluded(names.drop_last()).push(":(exclude,literal)"@ + names.last()) }
}

pub fn patch_args(rev: &Option<String>, paths: &Vec<String>, withheld: &Vec<String>) -> (r: Vec<String>)
    ensures
        str_views(r@) == diff_args_of(rev_view(*rev), str_views(paths@) + excluded(str_views(withheld@)), seq!["--patch"@], false),
{
    let mut specs = crate::text::copy_strings(paths);
    let ghost head = str_views(specs@);
    let mut i: usize = 0;
    assert(str_views(withheld@).take(0) =~= Seq::<Seq<char>>::empty());
    while i < withheld.len()
        invariant
            i <= withheld@.len(),
            str_views(specs@) == head + excluded(str_views(withheld@).take(i as int)),
        decreases withheld.len() - i,
    {
        assert(str_views(withheld@).take(i + 1).drop_last() =~= str_views(withheld@).take(i as int));
        let mut s = String::from_str(":(exclude,literal)");
        s.append(withheld[i].as_str());
        let ghost before = specs@;
        specs.push(s);
        assert(str_views(specs@) =~= str_views(before).push(":(exclude,literal)"@ + withheld@[i as int]@));
        assert(str_views(specs@) =~= head + excluded(str_views(withheld@).take(i + 1)));
        i = i + 1;
    }
    assert(str_views(withheld@).take(withheld@.len() as int) =~= str_views(withheld@));
    let mode = vec![String::from_str("--patch")];
    assert(str_views(mode@) =~= seq!["--patch"@]);
    diff_args(rev, &specs, &mode, false)
}

/// The table's rows: the counts padded to their widest, then the label.
pub open spec fn counts_width(fs: Seq<StatView>) -> nat
    decreases fs.len(),
{
    if fs.len() == 0 { 0 } else { max(counts_width(fs.drop_last()), byte_len(counts_of(fs.last()))) }
}

pub open spec fn table_rows(fs: Seq<StatView>, w: nat) -> Seq<Seq<char>>
    decreases fs.len(),
{
    if fs.len() == 0 { seq![] } else { table_rows(fs.drop_last(), w).push(pad_right(counts_of(fs.last()), w) + "  "@ + fs.last().2) }
}

/// The line under the table: how many files, their totals, and how many were shown.
pub open spec fn count_bound(total: nat, shown: nat, totals: Seq<char>, limit: nat) -> Seq<char> {
    if shown == total {
        bound_line(counted(total, "file"@, "file"@ + "s"@) + ", "@ + totals)
    } else {
        bound_line(counted(total, "file"@, "file"@ + "s"@) + ", "@ + totals + " · "@ + decimal(shown) + " shown · --limit "@ + decimal(limit))
    }
}

/// The line naming what a patch withheld.
pub open spec fn withheld_bounds(w: Seq<Seq<char>>) -> Seq<Seq<char>> {
    if w.len() > 0 {
        seq![bound_line(counted(w.len(), "secret-shaped path"@, "secret-shaped path"@ + "s"@) + " withheld from the hunks: "@ + join(w, ", "@))]
    } else {
        seq![]
    }
}

/// The next questions this answer implies, in the order the contract fixes: widen what was cut,
/// then read what was held back, and the hunks only when neither applies and none were asked for.
pub open spec fn diff_exits(opts: Opts, rev: Option<Seq<char>>, paths: Seq<Seq<char>>, w: Seq<Seq<char>>, emitted: nat, dropped: nat) -> Seq<Seq<char>> {
    let total = emitted + dropped;
    let widest = if total <= MAX_LIMIT { total } else { MAX_LIMIT as nat };
    (if dropped > 0 {
        seq![next_line(again_of(opts, "diff"@, rev, paths,
            (if opts.patch { seq!["--patch"@] } else { seq![] }) + seq!["--limit "@ + decimal(widest)]),
            "all "@ + decimal(total) + " lines"@)]
    } else {
        seq![]
    }) + (if w.len() > 0 {
        seq![next_line(again_of(opts, "diff"@, rev, paths, seq!["--include-secret-paths"@]), "the hunks of those files"@)]
    } else {
        seq![]
    }) + (if dropped == 0 && w.len() == 0 && !opts.patch {
        seq![next_line(again_of(opts, "diff"@, rev, paths, seq!["--patch"@]), "the hunks"@)]
    } else {
        seq![]
    })
}

/// What the table adds to a diff's report, from its rows, the withheld names and the hunks.
pub open spec fn table_lines(fs: Seq<StatView>, w: Seq<Seq<char>>, hunks: Seq<Seq<char>>, opts: Opts,
    rev: Option<Seq<char>>, paths: Seq<Seq<char>>) -> Seq<Seq<char>> {
    let limit = opts.limit as nat;
    let rows = table_rows(fs, counts_width(fs));
    let shown = min(rows.len(), limit);
    let rem = (limit - shown) as nat;
    let hs = if opts.patch { hunks } else { seq![] };
    let hshown = min(hs.len(), rem);
    let emitted = shown + hshown;
    let dropped = ((rows.len() - shown) + (hs.len() - hshown)) as nat;
    budgeted(rows, limit)
        + seq![count_bound(fs.len(), shown, totals_text(fs), limit)]
        + (if opts.patch { withheld_bounds(w) + budgeted(hs, rem) } else { seq![] })
        + (if dropped > 0 {
            seq![bound_line(decimal(emitted) + " of "@ + decimal(emitted + dropped) + " lines · --limit "@ + decimal(limit) + " reached"@)]
        } else {
            seq![]
        })
        + width_bounds(budget_cuts(rows, limit) + budget_cuts(hs, rem))
        + diff_exits(opts, rev, paths, w, emitted, dropped)
}

fn push_next(report: &mut Report, command: String, why: &str)
    ensures
        final(report)@ == (old(report)@.0.push(next_line(command@, why@)), old(report)@.1),
{
    report.next(command, String::from_str(why));
}

fn exits(report: &mut Report, opts: &Opts, rev: &Option<String>, paths: &Vec<String>, withheld: &Vec<String>, emitted: usize, dropped: usize)
    requires
        emitted + dropped <= usize::MAX,
    ensures
        final(report)@ == (old(report)@.0 + diff_exits(*opts, rev_view(*rev), str_views(paths@), str_views(withheld@), emitted as nat, dropped as nat), old(report)@.1),
{
    let ghost l0 = report@.0;
    let r = match rev { Some(v) => Some(v.as_str()), None => None };
    assert(match r { Some(s) => Some(s@), None => None::<Seq<char>> } == rev_view(*rev));
    let total = emitted + dropped;
    if dropped > 0 {
        let mut flags: Vec<String> = Vec::new();
        if opts.patch {
            flags.push(String::from_str("--patch"));
        }
        let widest = if total <= MAX_LIMIT { total } else { MAX_LIMIT };
        flags.push(limit_flag(widest));
        assert(str_views(flags@) =~= (if opts.patch { seq!["--patch"@] } else { Seq::<Seq<char>>::empty() }) + seq!["--limit "@ + decimal(widest as nat)]);
        let mut why = String::from_str("all ");
        why.append(decimal_text(total as u64).as_str());
        why.append(" lines");
        report.next(again(opts, "diff", r, paths, &flags), why);
    }
    let ghost l1 = report@.0;
    if withheld.len() > 0 {
        let flags = vec![String::from_str("--include-secret-paths")];
        assert(str_views(flags@) =~= seq!["--include-secret-paths"@]);
        push_next(report, again(opts, "diff", r, paths, &flags), "the hunks of those files");
    }
    if dropped == 0 && withheld.len() == 0 && !opts.patch {
        let flags = vec![String::from_str("--patch")];
        assert(str_views(flags@) =~= seq!["--patch"@]);
        push_next(report, again(opts, "diff", r, paths, &flags), "the hunks");
    }
    assert(report@.0 =~= l0 + diff_exits(*opts, rev_view(*rev), str_views(paths@), str_views(withheld@), emitted as nat, dropped as nat));
}

fn table_row_texts(files: &Vec<FileStat>) -> (r: Vec<String>)
    ensures
        str_views(r@) == table_rows(stat_views(files@), counts_width(stat_views(files@))),
{
    proof {
        crate::recall::facts::lemma_stat_views(files@);
    }
    let ghost fv = stat_views(files@);
    let mut width: usize = 0;
    let mut i: usize = 0;
    assert(fv.take(0) =~= Seq::<StatView>::empty());
    while i < files.len()
        invariant
            i <= files@.len(),
            fv == stat_views(files@),
            fv.len() == files@.len(),
            forall|k: int| 0 <= k < files@.len() ==> #[trigger] fv[k] == stat_view(files@[k]),
            width as nat == counts_width(fv.take(i as int)),
        decreases files.len() - i,
    {
        assert(fv.take(i + 1).drop_last() =~= fv.take(i as int));
        assert(fv.take(i + 1).last() == stat_view(files@[i as int]));
        width = wider(width, files[i].counts().as_str().len());
        i = i + 1;
    }
    assert(fv.take(files@.len() as int) =~= fv);
    let ghost w = width as nat;
    let mut r: Vec<String> = Vec::new();
    let mut k: usize = 0;
    while k < files.len()
        invariant
            k <= files@.len(),
            fv == stat_views(files@),
            fv.len() == files@.len(),
            forall|j: int| 0 <= j < files@.len() ==> #[trigger] fv[j] == stat_view(files@[j]),
            w == width as nat,
            str_views(r@) == table_rows(fv.take(k as int), w),
        decreases files.len() - k,
    {
        assert(fv.take(k + 1).drop_last() =~= fv.take(k as int));
        assert(fv.take(k + 1).last() == stat_view(files@[k as int]));
        let mut line = String::new();
        push_padded_right(&mut line, files[k].counts().as_str(), width);
        line.append("  ");
        line.append(files[k].label.as_str());
        let ghost before = r@;
        r.push(line);
        assert(str_views(r@) =~= str_views(before).push(pad_right(counts_of(fv[k as int]), w) + "  "@ + fv[k as int].2));
        k = k + 1;
    }
    assert(fv.take(files@.len() as int) =~= fv);
    r
}

proof fn lemma_rows_len(fs: Seq<StatView>, w: nat)
    ensures
        table_rows(fs, w).len() == fs.len(),
    decreases fs.len(),
{
    if fs.len() > 0 {
        lemma_rows_len(fs.drop_last(), w);
    }
}

/// The table, the hunks when a patch was asked for, and every bound and exit after them: a diff
/// with at least one changed file. `report` is what [`begin`] made; `withheld` is what
/// [`withheld`] said of these rows; `hunks` is what git printed for [`patch_args`], when a patch
/// was asked for.
#[verifier::rlimit(80)]
pub fn table(report: Report, files: &Vec<FileStat>, rev: &Option<String>, paths: &Vec<String>, withheld: &Vec<String>,
    hunks: &str, opts: &Opts) -> (r: Outcome)
    requires
        report@.1 == 0,
        sums_fit(stat_views(files@)),
        is_withheld(str_views(withheld@), stat_views(files@), opts.patch, opts.include_secret_paths),
        files@.len() + lines(hunks@).len() < usize::MAX,
    ensures
        r.report@.0 == report@.0 + table_lines(stat_views(files@), str_views(withheld@), lines(hunks@), *opts,
            rev_view(*rev), str_views(paths@)),
        r.exit == (if r.report@.1 > 0 { Exit::Results } else { Exit::Nothing }),
{
    let mut report = report;
    let ghost l0 = report@.0;
    let ghost fv = stat_views(files@);
    proof {
        crate::recall::facts::lemma_stat_views(files@);
        lemma_rows_len(fv, counts_width(fv));
    }
    let rows = table_row_texts(files);
    let mut budget = Budget::new(opts.limit);
    push_all(&mut budget, &mut report, &rows);
    let total = files.len();
    let shown = total - budget.dropped();
    let sums = totals(files);
    let mut line = plural(total, "file");
    line.append(", ");
    line.append(sums.as_str());
    if shown != total {
        line.append(" · ");
        line.append(decimal_text(shown as u64).as_str());
        line.append(" shown · --limit ");
        line.append(decimal_text(opts.limit as u64).as_str());
    }
    report.bound(line);
    let ghost l1 = report@.0;
    let hunk_lines: Vec<String> = if opts.patch {
        let ls = lines_of(&chars_of(hunks));
        let mut v: Vec<String> = Vec::new();
        let mut i: usize = 0;
        while i < ls.len()
            invariant
                i <= ls@.len(),
                str_views(v@) == crate::text::views(ls@).take(i as int),
            decreases ls.len() - i,
        {
            let ghost before = v@;
            v.push(string_of(&ls[i]));
            assert(str_views(v@) =~= str_views(before).push(ls@[i as int]@));
            assert(str_views(v@) =~= crate::text::views(ls@).take(i + 1));
            i = i + 1;
        }
        assert(crate::text::views(ls@).take(ls@.len() as int) =~= crate::text::views(ls@));
        v
    } else {
        Vec::new()
    };
    assert(str_views(hunk_lines@) =~= (if opts.patch { lines(hunks@) } else { Seq::<Seq<char>>::empty() }));
    if opts.patch {
        if withheld.len() > 0 {
            let mut m = plural(withheld.len(), "secret-shaped path");
            m.append(" withheld from the hunks: ");
            let joined = crate::text::join_exec(&strings_to_chars(withheld), &chars_of(", "));
            m.append(string_of(&joined).as_str());
            report.bound(m);
        }
        assert(report@.0 =~= l1 + withheld_bounds(str_views(withheld@)));
        push_all(&mut budget, &mut report, &hunk_lines);
    }
    let emitted = report.content_lines();
    let dropped = budget.dropped();
    if dropped > 0 {
        let mut m = decimal_text(emitted as u64);
        m.append(" of ");
        m.append(decimal_text((emitted + dropped) as u64).as_str());
        m.append(" lines · --limit ");
        m.append(decimal_text(opts.limit as u64).as_str());
        m.append(" reached");
        report.bound(m);
    }
    budget.width_caveat(&mut report);
    exits(&mut report, opts, rev, paths, withheld, emitted, dropped);
    assert(report@.0 =~= l0 + table_lines(fv, str_views(withheld@), lines(hunks@), *opts, rev_view(*rev), str_views(paths@)));
    Outcome::from_report(report)
}

fn strings_to_chars(v: &Vec<String>) -> (r: Vec<Vec<char>>)
    ensures
        crate::text::views(r@) == str_views(v@),
{
    let mut r: Vec<Vec<char>> = Vec::new();
    let mut i: usize = 0;
    while i < v.len()
        invariant
            i <= v@.len(),
            crate::text::views(r@) == str_views(v@).take(i as int),
        decreases v.len() - i,
    {
        let ghost before = r@;
        r.push(chars_of(v[i].as_str()));
        assert(crate::text::views(r@) =~= crate::text::views(before).push(v@[i as int]@));
        assert(crate::text::views(r@) =~= str_views(v@).take(i + 1));
        i = i + 1;
    }
    assert(str_views(v@).take(v@.len() as int) =~= str_views(v@));
    r
}

} // verus!
