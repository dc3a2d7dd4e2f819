//! `at-recall pr` — the facts a PR description is written from.
//!
//! The archaeology a description starts with (branch, base, the commits on top of it, the
//! diffstat) as one read. It prints facts, never conclusions: a path's kind comes from its name,
//! not its contents. Every section carries its count, so a cut section says what it was cut
//! from. What it does not do is write the description: why the change exists is the one fact
//! not in the repository.

use vstd::prelude::*;
use vstd::string::StringExecFns;

use crate::catalogue::{pad_right, push_padded_right};
use crate::contract::{ascii_lower, bound_line, counted, header_line, lowered, next_line, plural, Exit, Fail,
    Outcome, Report, MAX_LIMIT};
use crate::peek::verbs::search::{file_name, file_name_of};
use crate::peek::verbs::slice::{clamp_bounds, width_bounds};
use crate::peek::verbs::stat::{byte_len, max, wider};
use crate::recall::facts::{added_sum, commit_lines, commit_views, commit_widths, counts_of, deleted_sum,
    lemma_commit_views, lemma_stat_views, stat_view, stat_views, sums, sums_fit, totals, totals_text, CommitView,
    Commits, FileStat, StatView};
use crate::recall::git::{rev, rev_of};
use crate::recall::verbs::{again, again_of, budgeted, budget_cuts, limit_flag, min, push_all, Budget, Opts};
use crate::text::{chars_of, contains, decimal, decimal_text, ends_with, join, starts_with, str_views, string_of,
    trim, trim_exec};

verus! {

/// The section labels share a column width so the counts start at the same character.
pub const LABEL: usize = 9;

/// One section's label and its count.
pub open spec fn label_text(name: Seq<char>, rest: Seq<char>) -> Seq<char> {
    pad_right(name, LABEL as nat) + "  "@ + rest
}

pub fn label(name: &str, rest: &str) -> (r: String)
    ensures
        r@ == label_text(name@, rest@),
{
    let mut out = String::new();
    push_padded_right(&mut out, name, LABEL);
    out.append("  ");
    out.append(rest);
    out
}

// ---------------------------------------------------------------------------------------
// Kinds
// ---------------------------------------------------------------------------------------

/// The kinds a changed path can be, in the order the rules are tried.
pub open spec fn kinds() -> Seq<Seq<char>> {
    seq!["manifest"@, "lockfile"@, "schema"@, "generated"@, "docs"@, "tests"@, "assets"@, "code"@]
}

pub open spec fn manifests() -> Seq<Seq<char>> {
    seq!["Cargo.toml"@, "package.json"@, "flake.nix"@, "pyproject.toml"@, "go.mod"@, "Makefile"@, "Gemfile"@, "composer.json"@]
}

pub open spec fn lockfiles() -> Seq<Seq<char>> {
    seq!["Cargo.lock"@, "package-lock.json"@, "pnpm-lock.yaml"@, "yarn.lock"@, "flake.lock"@, "poetry.lock"@,
        "Gemfile.lock"@, "composer.lock"@]
}

pub open spec fn asset_suffixes() -> Seq<Seq<char>> {
    seq![".png"@, ".jpg"@, ".jpeg"@, ".gif"@, ".webp"@, ".avif"@, ".ico"@, ".woff"@, ".woff2"@, ".ttf"@, ".otf"@,
        ".mp4"@, ".mov"@, ".pdf"@]
}

/// What a changed path is, by its name alone: the rules are tried in the order of [`kinds`],
/// first match wins, so a `Cargo.toml` under `tests/` is a manifest. The path is compared in
/// ASCII lower case: every rule's text is ASCII without a `k`, and no other character lowercases
/// to an ASCII letter other than `k`, so full Unicode lowercasing classifies every path alike.
pub open spec fn area_of(path: Seq<char>) -> Seq<char> {
    let name = file_name(path);
    let lower = ascii_lower(path);
    if manifests().contains(name) {
        "manifest"@
    } else if lockfiles().contains(name) {
        "lockfile"@
    } else if ends_with(lower, ".sql"@) || contains(lower, "/migrations/"@) {
        "schema"@
    } else if contains(lower, "/generated/"@) || contains(lower, ".generated."@) || ends_with(lower, ".snap"@) {
        "generated"@
    } else if ends_with(lower, ".md"@) {
        "docs"@
    } else if contains(lower, "/tests/"@) || contains(lower, "/test/"@) || ends_with(lower, "_test.rs"@)
        || starts_with(lower, "test_"@) || ends_with(lower, ".spec.ts"@) || ends_with(lower, ".test.ts"@) {
        "tests"@
    } else if exists|i: int| 0 <= i < asset_suffixes().len() && ends_with(lower, #[trigger] asset_suffixes()[i]) {
        "assets"@
    } else {
        "code"@
    }
}

fn has(v: &Vec<char>, p: &str) -> (r: bool)
    ensures
        r == contains(v@, p@),
{
    proof {
        crate::recall::git::lemma_find_contains(v@, p@);
    }
    crate::text::find_exec(v, &chars_of(p)).is_some()
}

fn ends(v: &Vec<char>, p: &str) -> (r: bool)
    ensures
        r == ends_with(v@, p@),
{
    crate::text::ends_with_exec(v, &chars_of(p))
}

fn is_one_of(name: &Vec<char>, list: &Vec<&'static str>, Ghost(spec_list): Ghost<Seq<Seq<char>>>) -> (r: bool)
    requires
        list@.len() == spec_list.len(),
        forall|i: int| 0 <= i < list@.len() ==> (#[trigger] list@[i])@ == spec_list[i],
    ensures
        r == spec_list.contains(name@),
{
    let mut i: usize = 0;
    while i < list.len()
        invariant
            i <= list@.len(),
            list@.len() == spec_list.len(),
            forall|k: int| 0 <= k < list@.len() ==> (#[trigger] list@[k])@ == spec_list[k],
            forall|k: int| 0 <= k < i ==> spec_list[k] != name@,
        decreases list.len() - i,
    {
        assert(list@[i as int]@ == spec_list[i as int]);
        if crate::text::eq_chars(name, &chars_of(list[i])) {
            assert(spec_list[i as int] == name@);
            return true;
        }
        i = i + 1;
    }
    false
}

fn ends_with_any(v: &Vec<char>, list: &Vec<&'static str>, Ghost(spec_list): Ghost<Seq<Seq<char>>>) -> (r: bool)
    requires
        list@.len() == spec_list.len(),
        forall|i: int| 0 <= i < list@.len() ==> (#[trigger] list@[i])@ == spec_list[i],
    ensures
        r == exists|i: int| 0 <= i < spec_list.len() && ends_with(v@, #[trigger] spec_list[i]),
{
    let mut i: usize = 0;
    while i < list.len()
        invariant
            i <= list@.len(),
            list@.len() == spec_list.len(),
            forall|k: int| 0 <= k < list@.len() ==> (#[trigger] list@[k])@ == spec_list[k],
            forall|k: int| 0 <= k < i ==> !ends_with(v@, #[trigger] spec_list[k]),
        decreases list.len() - i,
    {
        assert(list@[i as int]@ == spec_list[i as int]);
        if ends(v, list[i]) {
            return true;
        }
        i = i + 1;
    }
    false
}

/// What a changed path is, by its name alone: never by its contents.
pub fn area(path: &str) -> (r: &'static str)
    ensures
        r@ == area_of(path@),
{
    let name = chars_of(file_name_of(path).as_str());
    let lower = lowered(&chars_of(path));
    let m = vec!["Cargo.toml", "package.json", "flake.nix", "pyproject.toml", "go.mod", "Makefile", "Gemfile", "composer.json"];
    let l = vec!["Cargo.lock", "package-lock.json", "pnpm-lock.yaml", "yarn.lock", "flake.lock", "poetry.lock",
        "Gemfile.lock", "composer.lock"];
    let a = vec![".png", ".jpg", ".jpeg", ".gif", ".webp", ".avif", ".ico", ".woff", ".woff2", ".ttf", ".otf",
        ".mp4", ".mov", ".pdf"];
    if is_one_of(&name, &m, Ghost(manifests())) {
        "manifest"
    } else if is_one_of(&name, &l, Ghost(lockfiles())) {
        "lockfile"
    } else if ends(&lower, ".sql") || has(&lower, "/migrations/") {
        "schema"
    } else if has(&lower, "/generated/") || has(&lower, ".generated.") || ends(&lower, ".snap") {
        "generated"
    } else if ends(&lower, ".md") {
        "docs"
    } else if has(&lower, "/tests/") || has(&lower, "/test/") || ends(&lower, "_test.rs")
        || crate::text::starts_with_exec(&lower, &chars_of("test_")) || ends(&lower, ".spec.ts") || ends(&lower, ".test.ts") {
        "tests"
    } else if ends_with_any(&lower, &a, Ghost(asset_suffixes())) {
        "assets"
    } else {
        "code"
    }
}

/// The name of the `k`-th kind a changed path can be.
pub open spec fn kind_name(k: int) -> Seq<char> {
    if k == 0 { "manifest"@ }
    else if k == 1 { "lockfile"@ }
    else if k == 2 { "schema"@ }
    else if k == 3 { "generated"@ }
    else if k == 4 { "docs"@ }
    else if k == 5 { "tests"@ }
    else if k == 6 { "assets"@ }
    else { "code"@ }
}

/// Whether `path` fits the rule of the `k`-th kind, judged alone: a manifest or lock file by its
/// file name; schema, generated, docs, tests and assets by its lower-cased path; anything fits
/// `code`.
pub open spec fn fits_kind(k: int, path: Seq<char>) -> bool {
    let name = file_name(path);
    let lower = ascii_lower(path);
    if k == 0 {
        seq!["Cargo.toml"@, "package.json"@, "flake.nix"@, "pyproject.toml"@, "go.mod"@, "Makefile"@,
            "Gemfile"@, "composer.json"@].contains(name)
    } else if k == 1 {
        seq!["Cargo.lock"@, "package-lock.json"@, "pnpm-lock.yaml"@, "yarn.lock"@, "flake.lock"@,
            "poetry.lock"@, "Gemfile.lock"@, "composer.lock"@].contains(name)
    } else if k == 2 {
        ends_with(lower, ".sql"@) || contains(lower, "/migrations/"@)
    } else if k == 3 {
        contains(lower, "/generated/"@) || contains(lower, ".generated."@) || ends_with(lower, ".snap"@)
    } else if k == 4 {
        ends_with(lower, ".md"@)
    } else if k == 5 {
        contains(lower, "/tests/"@) || contains(lower, "/test/"@) || ends_with(lower, "_test.rs"@)
            || starts_with(lower, "test_"@) || ends_with(lower, ".spec.ts"@) || ends_with(lower, ".test.ts"@)
    } else if k == 6 {
        ends_with(lower, ".png"@) || ends_with(lower, ".jpg"@) || ends_with(lower, ".jpeg"@)
            || ends_with(lower, ".gif"@) || ends_with(lower, ".webp"@) || ends_with(lower, ".avif"@)
            || ends_with(lower, ".ico"@) || ends_with(lower, ".woff"@) || ends_with(lower, ".woff2"@)
            || ends_with(lower, ".ttf"@) || ends_with(lower, ".otf"@) || ends_with(lower, ".mp4"@)
            || ends_with(lower, ".mov"@) || ends_with(lower, ".pdf"@)
    } else {
        true
    }
}

/// A changed path's kind is decided by the first rule it fits: a path that fits the rule of a
/// kind is of that kind or of one tried before it, and a path is of a kind only when it fits
/// that kind's rule and none tried before.
pub proof fn law_a_path_is_the_first_kind_it_fits(path: Seq<char>, k: int)
    requires
        0 <= k < 8,
    ensures
        fits_kind(k, path) ==> exists|j: int| 0 <= j <= k && area_of(path) == #[trigger] kind_name(j),
        area_of(path) == kind_name(k) ==> fits_kind(k, path) && forall|j: int| 0 <= j < k ==> !#[trigger] fits_kind(j, path),
{
    reveal_strlit("manifest");
    reveal_strlit("lockfile");
    reveal_strlit("schema");
    reveal_strlit("generated");
    reveal_strlit("docs");
    reveal_strlit("tests");
    reveal_strlit("assets");
    reveal_strlit("code");
    let a = area_of(path);
    let lower = ascii_lower(path);
    let sfx = asset_suffixes();
    assert(sfx[0] == ".png"@ && sfx[1] == ".jpg"@ && sfx[2] == ".jpeg"@ && sfx[3] == ".gif"@ && sfx[4] == ".webp"@
        && sfx[5] == ".avif"@ && sfx[6] == ".ico"@ && sfx[7] == ".woff"@ && sfx[8] == ".woff2"@ && sfx[9] == ".ttf"@
        && sfx[10] == ".otf"@ && sfx[11] == ".mp4"@ && sfx[12] == ".mov"@ && sfx[13] == ".pdf"@);
    assert((exists|i: int| 0 <= i < sfx.len() && ends_with(lower, #[trigger] sfx[i])) == fits_kind(6, path)) by {
        if exists|i: int| 0 <= i < sfx.len() && ends_with(lower, #[trigger] sfx[i]) {
            let i = choose|i: int| 0 <= i < sfx.len() && ends_with(lower, #[trigger] sfx[i]);
            assert(0 <= i < 14);
        }
        if fits_kind(6, path) {
            if ends_with(lower, ".png"@) { assert(ends_with(lower, sfx[0])); }
            else if ends_with(lower, ".jpg"@) { assert(ends_with(lower, sfx[1])); }
            else if ends_with(lower, ".jpeg"@) { assert(ends_with(lower, sfx[2])); }
            else if ends_with(lower, ".gif"@) { assert(ends_with(lower, sfx[3])); }
            else if ends_with(lower, ".webp"@) { assert(ends_with(lower, sfx[4])); }
            else if ends_with(lower, ".avif"@) { assert(ends_with(lower, sfx[5])); }
            else if ends_with(lower, ".ico"@) { assert(ends_with(lower, sfx[6])); }
            else if ends_with(lower, ".woff"@) { assert(ends_with(lower, sfx[7])); }
            else if ends_with(lower, ".woff2"@) { assert(ends_with(lower, sfx[8])); }
            else if ends_with(lower, ".ttf"@) { assert(ends_with(lower, sfx[9])); }
            else if ends_with(lower, ".otf"@) { assert(ends_with(lower, sfx[10])); }
            else if ends_with(lower, ".mp4"@) { assert(ends_with(lower, sfx[11])); }
            else if ends_with(lower, ".mov"@) { assert(ends_with(lower, sfx[12])); }
            else { assert(ends_with(lower, sfx[13])); }
        }
    }
    let first = if fits_kind(0, path) { 0int } else if fits_kind(1, path) { 1int } else if fits_kind(2, path) { 2int }
        else if fits_kind(3, path) { 3int } else if fits_kind(4, path) { 4int } else if fits_kind(5, path) { 5int }
        else if fits_kind(6, path) { 6int } else { 7int };
    assert(a == kind_name(first));
    assert(forall|j: int| 0 <= j < first ==> !#[trigger] fits_kind(j, path));
    assert(fits_kind(first, path));
    if fits_kind(k, path) {
        assert(first <= k);
    }
    if a == kind_name(k) {
        assert(kind_name(first).len() == kind_name(k).len());
        assert(kind_name(first)[0] == kind_name(k)[0]);
        assert(first == k);
    }
}

/// How many of the rows are of one kind.
pub open spec fn kind_total(fs: Seq<StatView>, kind: Seq<char>) -> nat
    decreases fs.len(),
{
    if fs.len() == 0 { 0 } else { kind_total(fs.drop_last(), kind) + if area_of(fs.last().2) == kind { 1nat } else { 0nat } }
}

/// The kinds present, each as `{count} {kind}`, in rule order.
pub open spec fn area_parts(fs: Seq<StatView>, ks: Seq<Seq<char>>) -> Seq<Seq<char>>
    decreases ks.len(),
{
    if ks.len() == 0 {
        seq![]
    } else {
        let rest = area_parts(fs, ks.drop_last());
        let n = kind_total(fs, ks.last());
        if n > 0 { rest.push(decimal(n) + " "@ + ks.last()) } else { rest }
    }
}

/// The change set by kind, as `1 manifest · 1 lockfile · 2 docs`.
pub open spec fn areas_text(fs: Seq<StatView>) -> Seq<char> {
    join(area_parts(fs, kinds()), " · "@)
}

fn kind_count_exec(files: &Vec<FileStat>, kind: &str) -> (r: usize)
    ensures
        r == kind_total(stat_views(files@), kind@),
{
    proof {
        lemma_stat_views(files@);
    }
    let ghost fv = stat_views(files@);
    let mut n: usize = 0;
    let mut i: usize = 0;
    assert(fv.take(0) =~= Seq::<StatView>::empty());
    while i < files.len()
        invariant
            i <= files@.len(),
            fv == stat_views(files@),
            fv.len() == files@.len(),
            forall|k: int| 0 <= k < files@.len() ==> #[trigger] fv[k] == stat_view(files@[k]),
            n == kind_total(fv.take(i as int), kind@),
            n <= i,
        decreases files.len() - i,
    {
        assert(fv.take(i + 1).drop_last() =~= fv.take(i as int));
        assert(fv.take(i + 1).last() == stat_view(files@[i as int]));
        if crate::text::eq_chars(&chars_of(area(files[i].label.as_str())), &chars_of(kind)) {
            n = n + 1;
        }
        i = i + 1;
    }
    assert(fv.take(files@.len() as int) =~= fv);
    n
}

pub fn areas(files: &Vec<FileStat>) -> (r: String)
    ensures
        r@ == areas_text(stat_views(files@)),
{
    let ks = vec!["manifest", "lockfile", "schema", "generated", "docs", "tests", "assets", "code"];
    let ghost kv = kinds();
    assert(ks@.len() == 8);
    let ghost fv = stat_views(files@);
    let mut out = String::new();
    let mut any = false;
    let mut i: usize = 0;
    assert(kv.take(0) =~= Seq::<Seq<char>>::empty());
    while i < ks.len()
        invariant
            i <= 8,
            ks@.len() == 8,
            kv == kinds(),
            fv == stat_views(files@),
            forall|k: int| 0 <= k < 8 ==> (#[trigger] ks@[k])@ == kv[k],
            any == (area_parts(fv, kv.take(i as int)).len() > 0),
            out@ == join(area_parts(fv, kv.take(i as int)), " · "@),
        decreases 8 - i,
    {
        assert(kv.take(i + 1).drop_last() =~= kv.take(i as int));
        assert(kv.take(i + 1).last() == kv[i as int]);
        assert(ks@[i as int]@ == kv[i as int]);
        let ghost before = area_parts(fv, kv.take(i as int));
        let n = kind_count_exec(files, ks[i]);
        if n > 0 {
            let mut item = decimal_text(n as u64);
            item.append(" ");
            item.append(ks[i]);
            crate::peek::verbs::search::push_joined(&mut out, !any, " · ", item.as_str(), Ghost(before), Ghost(Seq::<char>::empty()));
            assert(out@ =~= join(before.push(item@), " · "@));
            any = true;
        }
        i = i + 1;
    }
    assert(kv.take(8) =~= kv);
    out
}

/// The `areas` section: its own count, then the breakdown, and nothing after the count when there
/// is no breakdown.
pub open spec fn area_line_text(fs: Seq<StatView>) -> Seq<char> {
    let count = counted(fs.len(), "file"@, "file"@ + "s"@);
    if areas_text(fs).len() == 0 { label_text("areas"@, count) } else { label_text("areas"@, count + " · "@ + areas_text(fs)) }
}

pub fn area_line(files: &Vec<FileStat>) -> (r: String)
    ensures
        r@ == area_line_text(stat_views(files@)),
{
    proof {
        lemma_stat_views(files@);
    }
    let count = plural(files.len(), "file");
    let kinds = areas(files);
    if kinds.unicode_len() == 0 {
        label("areas", count.as_str())
    } else {
        let mut rest = count;
        rest.append(" · ");
        rest.append(kinds.as_str());
        label("areas", rest.as_str())
    }
}

// ---------------------------------------------------------------------------------------
// Whitespace
// ---------------------------------------------------------------------------------------

/// How many of the raw rows have no row with the same label once whitespace is ignored.
pub open spec fn only_whitespace(ignored: Seq<StatView>, raw: Seq<StatView>) -> nat
    decreases raw.len(),
{
    if raw.len() == 0 {
        0
    } else {
        only_whitespace(ignored, raw.drop_last())
            + if (exists|i: int| 0 <= i < ignored.len() && (#[trigger] ignored[i]).2 == raw.last().2) { 0nat } else { 1nat }
    }
}

/// What ignoring whitespace would have hidden: the files that change only whitespace, and how
/// many of the lines are whitespace; nothing when no file is whitespace-only.
pub open spec fn delta_of(ignored: Seq<StatView>, raw: Seq<StatView>) -> Option<Seq<char>> {
    let only = only_whitespace(ignored, raw);
    if only == 0 {
        None
    } else {
        Some("whitespace only: "@ + counted(only, "file"@, "file"@ + "s"@) + ", +"@
            + decimal((added_sum(raw) - added_sum(ignored)) as nat) + " -"@
            + decimal((deleted_sum(raw) - deleted_sum(ignored)) as nat) + " of the lines"@)
    }
}

/// The sums of both reads fit their counters, and ignoring whitespace removed lines rather than
/// adding them.
pub open spec fn deltas_fit(ignored: Seq<StatView>, raw: Seq<StatView>) -> bool {
    sums_fit(ignored) && sums_fit(raw) && added_sum(ignored) <= added_sum(raw) && deleted_sum(ignored) <= deleted_sum(raw)
}

pub fn whitespace_fits(ignored: &Vec<FileStat>, raw: &Vec<FileStat>) -> (r: bool)
    ensures
        r == deltas_fit(stat_views(ignored@), stat_views(raw@)),
{
    let (ia, id, _) = sums(ignored);
    let (ra, rd, _) = sums(raw);
    ia <= 0xffff_ffff_ffff_ffffu128 && id <= 0xffff_ffff_ffff_ffffu128 && ra <= 0xffff_ffff_ffff_ffffu128
        && rd <= 0xffff_ffff_ffff_ffffu128 && ia <= ra && id <= rd
}

pub fn whitespace_delta(ignored: &Vec<FileStat>, raw: &Vec<FileStat>) -> (r: Option<String>)
    requires
        deltas_fit(stat_views(ignored@), stat_views(raw@)),
    ensures
        match r {
            Some(s) => delta_of(stat_views(ignored@), stat_views(raw@)) == Some(s@),
            None => delta_of(stat_views(ignored@), stat_views(raw@)) is None,
        },
{
    proof {
        lemma_stat_views(ignored@);
        lemma_stat_views(raw@);
    }
    let ghost iv = stat_views(ignored@);
    let ghost rv = stat_views(raw@);
    let mut only: usize = 0;
    let mut i: usize = 0;
    assert(rv.take(0) =~= Seq::<StatView>::empty());
    while i < raw.len()
        invariant
            i <= raw@.len(),
            iv == stat_views(ignored@),
            iv.len() == ignored@.len(),
            forall|k: int| 0 <= k < ignored@.len() ==> #[trigger] iv[k] == stat_view(ignored@[k]),
            rv == stat_views(raw@),
            rv.len() == raw@.len(),
            forall|k: int| 0 <= k < raw@.len() ==> #[trigger] rv[k] == stat_view(raw@[k]),
            only == only_whitespace(iv, rv.take(i as int)),
            only <= i,
        decreases raw.len() - i,
    {
        assert(rv.take(i + 1).drop_last() =~= rv.take(i as int));
        assert(rv.take(i + 1).last() == stat_view(raw@[i as int]));
        let mut kept = false;
        let mut k: usize = 0;
        while k < ignored.len()
            invariant
                k <= ignored@.len(),
                i < raw@.len(),
                iv == stat_views(ignored@),
                forall|j: int| 0 <= j < ignored@.len() ==> #[trigger] iv[j] == stat_view(ignored@[j]),
                rv[i as int] == stat_view(raw@[i as int]),
                kept == (exists|j: int| 0 <= j < k && (#[trigger] iv[j]).2 == rv[i as int].2),
            decreases ignored.len() - k,
        {
            assert(iv[k as int] == stat_view(ignored@[k as int]));
            if ignored[k].label == raw[i].label {
                kept = true;
            }
            k = k + 1;
        }
        if !kept {
            only = only + 1;
        }
        i = i + 1;
    }
    assert(rv.take(raw@.len() as int) =~= rv);
    if only == 0 {
        return None;
    }
    let (ia, id, _) = sums(ignored);
    let (ra, rd, _) = sums(raw);
    let mut s = String::from_str("whitespace only: ");
    s.append(plural(only, "file").as_str());
    s.append(", +");
    s.append(decimal_text((ra - ia) as u64).as_str());
    s.append(" -");
    s.append(decimal_text((rd - id) as u64).as_str());
    s.append(" of the lines");
    Some(s)
}

// ---------------------------------------------------------------------------------------
// Sections and the base
// ---------------------------------------------------------------------------------------

/// Which sections were asked for.
pub struct Sections {
    pub commits: bool,
    pub diffstat: bool,
    pub areas: bool,
}

/// What `--with` asks for: every section when it names none, else the ones it names, or the first
/// name that is not a section.
pub open spec fn sections_of(with: Seq<Seq<char>>) -> Result<(bool, bool, bool), Seq<char>> {
    if with.len() == 0 {
        Ok((true, true, true))
    } else if exists|i: int| 0 <= i < with.len() && !crate::recall::catalogue::pr_sections().contains(#[trigger] with[i]) {
        let i = choose|i: int| 0 <= i < with.len() && !crate::recall::catalogue::pr_sections().contains(#[trigger] with[i])
            && forall|j: int| 0 <= j < i ==> crate::recall::catalogue::pr_sections().contains(#[trigger] with[j]);
        Err("`"@ + with[i] + "` is not a section of this recipe · sections: commits, diffstat, areas"@)
    } else {
        Ok((with.contains("commits"@), with.contains("diffstat"@), with.contains("areas"@)))
    }
}

fn named(with: &Vec<String>, name: &str) -> (r: bool)
    ensures
        r == str_views(with@).contains(name@),
{
    let mut i: usize = 0;
    while i < with.len()
        invariant
            i <= with@.len(),
            forall|k: int| 0 <= k < i ==> str_views(with@)[k] != name@,
        decreases with.len() - i,
    {
        assert(str_views(with@)[i as int] == with@[i as int]@);
        if crate::text::eq_chars(&chars_of(with[i].as_str()), &chars_of(name)) {
            return true;
        }
        i = i + 1;
    }
    false
}

impl Sections {
    /// An unknown name is a usage error naming the ones that exist, because the set is fixed and
    /// a reader who mistypes should not silently get fewer sections.
    pub fn of(with: &Vec<String>) -> (r: Result<Sections, Fail>)
        ensures
            match r {
                Ok(s) => sections_of(str_views(with@)) == Ok::<(bool, bool, bool), Seq<char>>((s.commits, s.diffstat, s.areas)),
                Err(f) => f.exit == Exit::Usage && sections_of(str_views(with@)) == Err::<(bool, bool, bool), Seq<char>>(f.message@),
            },
    {
        if with.len() == 0 {
            return Ok(Sections { commits: true, diffstat: true, areas: true });
        }
        let known = vec!["commits", "diffstat", "areas"];
        let ghost wv = str_views(with@);
        let mut i: usize = 0;
        while i < with.len()
            invariant
                i <= with@.len(),
                wv == str_views(with@),
                known@.len() == 3,
                forall|k: int| 0 <= k < 3 ==> (#[trigger] known@[k])@ == crate::recall::catalogue::pr_sections()[k],
                forall|k: int| 0 <= k < i ==> crate::recall::catalogue::pr_sections().contains(#[trigger] wv[k]),
            decreases with.len() - i,
        {
            assert(wv[i as int] == with@[i as int]@);
            if !is_one_of(&chars_of(with[i].as_str()), &known, Ghost(crate::recall::catalogue::pr_sections())) {
                let mut m = String::from_str("`");
                m.append(with[i].as_str());
                m.append("` is not a section of this recipe · sections: commits, diffstat, areas");
                proof {
                    let c = choose|j: int| 0 <= j < wv.len() && !crate::recall::catalogue::pr_sections().contains(#[trigger] wv[j])
                        && forall|k: int| 0 <= k < j ==> crate::recall::catalogue::pr_sections().contains(#[trigger] wv[k]);
                    assert(c == i) by {
                        if c < i {
                        } else if c > i {
                            assert(crate::recall::catalogue::pr_sections().contains(wv[i as int]));
                        }
                    }
                }
                return Err(Fail::usage(m));
            }
            i = i + 1;
        }
        Ok(Sections { commits: named(with, "commits"), diffstat: named(with, "diffstat"), areas: named(with, "areas") })
    }
}

/// A base the caller named: one revision, because the recipe builds both ranges from it.
pub open spec fn named_base_of(name: Seq<char>) -> Result<Seq<char>, Seq<char>> {
    if contains(name, ".."@) {
        Err("`"@ + name + "` is a range, and a base is one revision · this recipe builds the range from the base and HEAD"@)
    } else {
        rev_of(name)
    }
}

pub fn named_base(name: &str) -> (r: Result<String, Fail>)
    ensures
        match r {
            Ok(b) => named_base_of(name@) == Ok::<Seq<char>, Seq<char>>(b@),
            Err(f) => f.exit == Exit::Usage && named_base_of(name@) == Err::<Seq<char>, Seq<char>>(f.message@),
        },
{
    if has(&chars_of(name), "..") {
        let mut m = String::from_str("`");
        m.append(name);
        m.append("` is a range, and a base is one revision · this recipe builds the range from the base and HEAD");
        return Err(Fail::usage(m));
    }
    rev(name)
}

/// A named base that git does not resolve.
pub fn unknown_base(base: &str, opts: &Opts) -> (f: Fail)
    ensures
        f.exit == Exit::Environment,
        f.message@ == "`"@ + base@ + "` is not a revision in "@ + opts.root.name_view(),
{
    let mut m = String::from_str("`");
    m.append(base);
    m.append("` is not a revision in ");
    m.append(opts.root.name());
    Fail::environment(m)
}

/// The probes that find a base when none was named.
pub fn branch_args() -> (r: Vec<String>)
    ensures
        str_views(r@) == seq!["--abbrev-ref"@, "HEAD"@],
{
    let r = vec![String::from_str("--abbrev-ref"), String::from_str("HEAD")];
    assert(str_views(r@) =~= seq!["--abbrev-ref"@, "HEAD"@]);
    r
}

pub fn origin_args() -> (r: Vec<String>)
    ensures
        str_views(r@) == seq!["--abbrev-ref"@, "origin/HEAD"@],
{
    let r = vec![String::from_str("--abbrev-ref"), String::from_str("origin/HEAD")];
    assert(str_views(r@) =~= seq!["--abbrev-ref"@, "origin/HEAD"@]);
    r
}

/// The branch HEAD is on, from the probe: detached HEAD has none.
pub open spec fn branch_from(probe: Option<Seq<char>>) -> Option<Seq<char>> {
    match probe {
        Some(out) => if trim(out) != "HEAD"@ { Some(trim(out)) } else { None },
        None => None,
    }
}

pub fn branch_of(probe: Option<String>) -> (r: Option<String>)
    ensures
        crate::recall::facts::rev_view(r) == branch_from(crate::recall::facts::rev_view(probe)),
{
    match probe {
        Some(out) => {
            let t = trim_exec(&chars_of(out.as_str()));
            if crate::text::eq_chars(&t, &chars_of("HEAD")) { None } else { Some(string_of(&t)) }
        },
        None => None,
    }
}

/// What the branch diverged from when none was named: its upstream, else `origin/HEAD`, and
/// nothing else, because a guess would be a base the reader did not choose and cannot see.
pub open spec fn fallback_of(upstream: Option<Seq<char>>, origin: Option<Seq<char>>) -> Result<Seq<char>, Seq<char>> {
    match upstream {
        Some(u) => Ok(u),
        None => match origin {
            Some(o) => if trim(o).len() > 0 { Ok(trim(o)) } else {
                Err("no base to compare against: this branch tracks nothing and there is no origin/HEAD · name one with --base <rev>"@)
            },
            None => Err("no base to compare against: this branch tracks nothing and there is no origin/HEAD · name one with --base <rev>"@),
        },
    }
}

pub fn fallback_base(upstream: Option<String>, origin: Option<String>) -> (r: Result<String, Fail>)
    ensures
        match r {
            Ok(b) => fallback_of(crate::recall::facts::rev_view(upstream), crate::recall::facts::rev_view(origin)) == Ok::<Seq<char>, Seq<char>>(b@),
            Err(f) => f.exit == Exit::Usage && fallback_of(crate::recall::facts::rev_view(upstream), crate::recall::facts::rev_view(origin))
                == Err::<Seq<char>, Seq<char>>(f.message@),
        },
{
    match upstream {
        Some(u) => return Ok(u),
        None => {},
    }
    match origin {
        Some(o) => {
            let t = trim_exec(&chars_of(o.as_str()));
            if t.len() > 0 {
                return Ok(string_of(&t));
            }
        },
        None => {},
    }
    Err(Fail::usage(String::from_str(
        "no base to compare against: this branch tracks nothing and there is no origin/HEAD · name one with --base <rev>")))
}

// ---------------------------------------------------------------------------------------
// The answer
// ---------------------------------------------------------------------------------------

/// The widths of the diffstat's count and path columns.
pub open spec fn stat_widths(fs: Seq<StatView>) -> (nat, nat)
    decreases fs.len(),
{
    if fs.len() == 0 {
        (0, 0)
    } else {
        let w = stat_widths(fs.drop_last());
        (max(w.0, byte_len(counts_of(fs.last()))), max(w.1, byte_len(fs.last().2)))
    }
}

/// A diffstat row: its counts, its path, and its kind.
pub open spec fn stat_rows(fs: Seq<StatView>, w: (nat, nat)) -> Seq<Seq<char>>
    decreases fs.len(),
{
    if fs.len() == 0 {
        seq![]
    } else {
        stat_rows(fs.drop_last(), w).push("  "@ + pad_right(counts_of(fs.last()), w.0) + "  "@ + pad_right(fs.last().2, w.1)
            + "  "@ + area_of(fs.last().2))
    }
}

/// The commit lines as the `commits` section prints them, indented under its label.
pub open spec fn indented(ls: Seq<Seq<char>>) -> Seq<Seq<char>>
    decreases ls.len(),
{
    if ls.len() == 0 { seq![] } else { indented(ls.drop_last()).push("  "@ + ls.last()) }
}

/// A section's lines, the budget it leaves, how much it was cut from, its labels, its rows, and
/// the lines it cut at the width cap.
pub type Section = (Seq<Seq<char>>, nat, nat, nat, nat, nat);

pub open spec fn commit_section(c: Option<(Seq<CommitView>, nat)>, limit: nat) -> Section {
    match c {
        None => (seq![], limit, 0, 0, 0, 0),
        Some((cs, total)) => {
            let rows = indented(commit_lines(cs, commit_widths(cs)));
            let shown = min(rows.len(), limit);
            (seq![label_text("commits"@, counted(total, "commit"@, "commit"@ + "s"@))] + budgeted(rows, limit)
                + (if shown < total { seq![bound_line(decimal(shown) + " of "@ + counted(total, "commit"@, "commit"@ + "s"@))] } else { seq![] }),
                (limit - shown) as nat, if shown < total { total } else { 0 }, 1, total, budget_cuts(rows, limit))
        },
    }
}

pub open spec fn file_section(f: Option<(Seq<StatView>, Seq<StatView>)>, diffstat: bool, areas: bool, remaining: nat) -> Section {
    match f {
        None => (seq![], remaining, 0, 0, 0, 0),
        Some((fs, ws)) => {
            let rows = stat_rows(fs, stat_widths(fs));
            let shown = min(rows.len(), remaining);
            let n = fs.len();
            let stat: Section = if diffstat {
                (seq![label_text("diffstat"@, counted(n, "file"@, "file"@ + "s"@) + ", "@ + totals_text(fs))]
                    + budgeted(rows, remaining)
                    + (if shown < n { seq![bound_line(decimal(shown) + " of "@ + counted(n, "file"@, "file"@ + "s"@))] } else { seq![] })
                    + (match delta_of(ws, fs) { Some(d) => seq![bound_line(d)], None => seq![] }),
                    (remaining - shown) as nat, if shown < n { n } else { 0 }, 1, n, budget_cuts(rows, remaining))
            } else {
                (seq![], remaining, 0, 0, 0, 0)
            };
            if areas {
                (stat.0 + seq![area_line_text(fs)], stat.1, stat.2, stat.3 + 1, stat.4, stat.5)
            } else {
                stat
            }
        },
    }
}

/// The exits: widen what was cut, then the hunks behind the table. Each names a primitive rather
/// than this recipe, because that is where the detail lives.
pub open spec fn pr_exits(opts: Opts, base: Seq<char>, cut_commits: nat, cut_files: nat, read_files: bool) -> Seq<Seq<char>> {
    let commit_range = base + "..HEAD"@;
    let diff_range = base + "...HEAD"@;
    (if cut_commits > 0 {
        seq![next_line(again_of(opts, "log"@, Some(commit_range), seq![],
            seq!["--limit "@ + decimal(if cut_commits <= MAX_LIMIT { cut_commits } else { MAX_LIMIT as nat })]),
            "all "@ + counted(cut_commits, "commit"@, "commit"@ + "s"@))]
    } else {
        seq![]
    }) + (if cut_files > 0 {
        seq![next_line(again_of(opts, "diff"@, Some(diff_range), seq![],
            seq!["--limit "@ + decimal(if cut_files <= MAX_LIMIT { cut_files } else { MAX_LIMIT as nat })]),
            "all "@ + counted(cut_files, "file"@, "file"@ + "s"@))]
    } else {
        seq![]
    }) + (if cut_commits == 0 && cut_files == 0 && read_files {
        seq![next_line(again_of(opts, "diff"@, Some(diff_range), seq![], seq!["--patch"@]), "the hunks"@)]
    } else {
        seq![]
    })
}

/// Whether there is nothing between the base and HEAD.
pub open spec fn empty_of(c: Option<(Seq<CommitView>, nat)>, f: Option<(Seq<StatView>, Seq<StatView>)>) -> bool {
    (match c { Some((_, total)) => total == 0, None => true }) && (match f { Some((fs, _)) => fs.len() == 0, None => true })
}

/// The whole answer of `pr`, and whether it found nothing to describe.
pub open spec fn pr_lines(base: Seq<char>, c: Option<(Seq<CommitView>, nat)>, f: Option<(Seq<StatView>, Seq<StatView>)>,
    diffstat: bool, areas: bool, opts: Opts) -> Seq<Seq<char>> {
    let limit = opts.limit as nat;
    let cs = commit_section(c, limit);
    let fsec = file_section(f, diffstat, areas, cs.1);
    let empty = empty_of(c, f);
    let labels = cs.3 + fsec.3;
    let rows = cs.4 + fsec.4;
    let emitted = (labels + (limit - fsec.1)) as nat;
    clamp_bounds(opts.limit_clamped_from)
        + seq![header_line(crate::recall::TOOL@, "pr"@, opts.root.name_view(), "base "@ + base),
            bound_line("caveat: "@ + base + " is a local ref and this tool never fetches — the remote may be ahead"@)]
        + cs.0 + fsec.0
        + (if empty { seq![bound_line("nothing between "@ + base + " and HEAD"@)] } else { seq![] })
        + (if emitted < rows + labels {
            seq![bound_line(decimal(emitted) + " of "@ + decimal(rows + labels) + " lines · --limit "@ + decimal(limit) + " reached"@)]
        } else {
            seq![]
        })
        + width_bounds(cs.5 + fsec.5)
        + pr_exits(opts, base, cs.2, fsec.2, !empty && f is Some)
}

pub open spec fn commits_arg(c: Option<&Commits>) -> Option<(Seq<CommitView>, nat)> {
    match c {
        Some(c) => Some((commit_views(c.rows@), c.total as nat)),
        None => None,
    }
}

pub open spec fn files_arg(f: Option<&Vec<FileStat>>, w: Option<&Vec<FileStat>>) -> Option<(Seq<StatView>, Seq<StatView>)> {
    match (f, w) {
        (Some(f), Some(w)) => Some((stat_views(f@), stat_views(w@))),
        _ => None,
    }
}

proof fn lemma_indented_len(ls: Seq<Seq<char>>)
    ensures
        indented(ls).len() == ls.len(),
    decreases ls.len(),
{
    if ls.len() > 0 {
        lemma_indented_len(ls.drop_last());
    }
}

proof fn lemma_commit_lines_len(cs: Seq<CommitView>, w: (nat, nat))
    ensures
        commit_lines(cs, w).len() == cs.len(),
    decreases cs.len(),
{
    if cs.len() > 0 {
        lemma_commit_lines_len(cs.drop_last(), w);
    }
}

proof fn lemma_stat_rows_len(fs: Seq<StatView>, w: (nat, nat))
    ensures
        stat_rows(fs, w).len() == fs.len(),
    decreases fs.len(),
{
    if fs.len() > 0 {
        lemma_stat_rows_len(fs.drop_last(), w);
    }
}

fn indent_all(lines: Vec<String>) -> (r: Vec<String>)
    ensures
        str_views(r@) == indented(str_views(lines@)),
{
    let ghost lv = str_views(lines@);
    let mut r: Vec<String> = Vec::new();
    let mut i: usize = 0;
    assert(lv.take(0) =~= Seq::<Seq<char>>::empty());
    while i < lines.len()
        invariant
            i <= lines@.len(),
            lv == str_views(lines@),
            str_views(r@) == indented(lv.take(i as int)),
        decreases lines.len() - i,
    {
        assert(lv.take(i + 1).drop_last() =~= lv.take(i as int));
        assert(lv.take(i + 1).last() == lines@[i as int]@);
        let mut line = String::from_str("  ");
        line.append(lines[i].as_str());
        let ghost before = r@;
        r.push(line);
        assert(str_views(r@) =~= str_views(before).push("  "@ + lines@[i as int]@));
        i = i + 1;
    }
    assert(lv.take(lines@.len() as int) =~= lv);
    r
}

fn stat_row_texts(files: &Vec<FileStat>) -> (r: Vec<String>)
    ensures
        str_views(r@) == stat_rows(stat_views(files@), stat_widths(stat_views(files@))),
{
    proof {
        lemma_stat_views(files@);
    }
    let ghost fv = stat_views(files@);
    let mut counts: usize = 0;
    let mut labels: usize = 0;
    let mut i: usize = 0;
    assert(fv.take(0) =~= Seq::<StatView>::empty());
    while i < files.len()
        invariant
            i <= files@.len(),
            fv == stat_views(files@),
            fv.len() == files@.len(),
            forall|k: int| 0 <= k < files@.len() ==> #[trigger] fv[k] == stat_view(files@[k]),
            (counts as nat, labels as nat) == stat_widths(fv.take(i as int)),
        decreases files.len() - i,
    {
        assert(fv.take(i + 1).drop_last() =~= fv.take(i as int));
        assert(fv.take(i + 1).last() == stat_view(files@[i as int]));
        counts = wider(counts, files[i].counts().as_str().len());
        labels = wider(labels, files[i].label.as_str().len());
        i = i + 1;
    }
    assert(fv.take(files@.len() as int) =~= fv);
    let ghost w = (counts as nat, labels as nat);
    let mut r: Vec<String> = Vec::new();
    let mut k: usize = 0;
    while k < files.len()
        invariant
            k <= files@.len(),
            fv == stat_views(files@),
            fv.len() == files@.len(),
            forall|j: int| 0 <= j < files@.len() ==> #[trigger] fv[j] == stat_view(files@[j]),
            w == (counts as nat, labels as nat),
            str_views(r@) == stat_rows(fv.take(k as int), w),
        decreases files.len() - k,
    {
        assert(fv.take(k + 1).drop_last() =~= fv.take(k as int));
        assert(fv.take(k + 1).last() == stat_view(files@[k as int]));
        let mut line = String::from_str("  ");
        push_padded_right(&mut line, files[k].counts().as_str(), counts);
        line.append("  ");
        push_padded_right(&mut line, files[k].label.as_str(), labels);
        line.append("  ");
        line.append(area(files[k].label.as_str()));
        let ghost before = r@;
        r.push(line);
        assert(str_views(r@) =~= str_views(before).push("  "@ + pad_right(counts_of(fv[k as int]), w.0) + "  "@
            + pad_right(fv[k as int].2, w.1) + "  "@ + area_of(fv[k as int].2)));
        k = k + 1;
    }
    assert(fv.take(files@.len() as int) =~= fv);
    r
}

fn push_commits(report: &mut Report, budget: &mut Budget, commits: &Commits, limit: usize)
    requires
        old(budget).wf(),
        old(budget).view_of() == (limit as nat, 0nat, 0nat),
        old(report)@.1 == 0,
        limit < usize::MAX,
    ensures
        final(budget).wf(),
        final(report)@.0 == old(report)@.0 + commit_section(commits_arg(Some(commits)), limit as nat).0,
        final(report)@.1 == 1 + (limit - commit_section(commits_arg(Some(commits)), limit as nat).1),
        final(budget).view_of().0 == commit_section(commits_arg(Some(commits)), limit as nat).1,
        final(budget).view_of().1 == commits.rows@.len() - min(commits.rows@.len(), limit as nat),
        final(budget).view_of().2 == commit_section(commits_arg(Some(commits)), limit as nat).5,
{
    let ghost l0 = report@.0;
    proof {
        lemma_commit_views(commits.rows@);
        lemma_commit_lines_len(commit_views(commits.rows@), commit_widths(commit_views(commits.rows@)));
        lemma_indented_len(commit_lines(commit_views(commits.rows@), commit_widths(commit_views(commits.rows@))));
    }
    report.content(label("commits", plural(commits.total, "commit").as_str()));
    let n = commits.rows.len();
    let lines = indent_all(commits.lines());
    assert(str_views(lines@).len() == lines@.len());
    assert(lines@.len() == n);
    push_all(budget, report, &lines);
    let shown = n - budget.dropped();
    if shown < commits.total {
        let mut m = decimal_text(shown as u64);
        m.append(" of ");
        m.append(plural(commits.total, "commit").as_str());
        report.bound(m);
    }
    assert(report@.0 =~= l0 + commit_section(commits_arg(Some(commits)), limit as nat).0);
}

#[verifier::rlimit(40)]
fn push_files(report: &mut Report, budget: &mut Budget, files: &Vec<FileStat>, without: &Vec<FileStat>, diffstat: bool,
    areas: bool) -> (cut: usize)
    requires
        old(budget).wf(),
        old(report)@.1 + old(budget).view_of().0 + 2 <= usize::MAX,
        old(budget).view_of().1 <= usize::MAX - files@.len(),
        deltas_fit(stat_views(without@), stat_views(files@)),
    ensures
        final(budget).wf(),
        final(report)@.0 == old(report)@.0 + file_section(files_arg(Some(files), Some(without)), diffstat, areas, old(budget).view_of().0).0,
        final(report)@.1 == old(report)@.1 + file_section(files_arg(Some(files), Some(without)), diffstat, areas, old(budget).view_of().0).3
            + (old(budget).view_of().0 - file_section(files_arg(Some(files), Some(without)), diffstat, areas, old(budget).view_of().0).1),
        final(budget).view_of().0 == file_section(files_arg(Some(files), Some(without)), diffstat, areas, old(budget).view_of().0).1,
        final(budget).view_of().1 == old(budget).view_of().1 + if diffstat { files@.len() - min(files@.len(), old(budget).view_of().0) } else { 0 },
        final(budget).view_of().2 == old(budget).view_of().2 + file_section(files_arg(Some(files), Some(without)), diffstat, areas, old(budget).view_of().0).5,
        cut == file_section(files_arg(Some(files), Some(without)), diffstat, areas, old(budget).view_of().0).2,
{
    let ghost l0 = report@.0;
    let ghost rem = budget.view_of().0;
    let ghost fv = stat_views(files@);
    proof {
        lemma_stat_views(files@);
        lemma_stat_rows_len(fv, stat_widths(fv));
    }
    let mut cut: usize = 0;
    if diffstat {
        let n = files.len();
        let mut head = plural(n, "file");
        head.append(", ");
        head.append(totals(files).as_str());
        report.content(label("diffstat", head.as_str()));
        let before = budget.dropped();
        let rows = stat_row_texts(files);
        assert(str_views(rows@).len() == rows@.len());
        push_all(budget, report, &rows);
        let shown = n - (budget.dropped() - before);
        if shown < n {
            cut = n;
            let mut m = decimal_text(shown as u64);
            m.append(" of ");
            m.append(plural(n, "file").as_str());
            report.bound(m);
        }
        match whitespace_delta(without, files) {
            Some(d) => report.bound(d),
            None => {},
        }
    }
    let ghost l1 = report@.0;
    if areas {
        report.content(area_line(files));
    }
    assert(report@.0 =~= l0 + file_section(files_arg(Some(files), Some(without)), diffstat, areas, rem).0);
    cut
}

fn pr_exits_exec(report: &mut Report, opts: &Opts, base: &str, cut_commits: usize, cut_files: usize, read_files: bool)
    ensures
        final(report)@ == (old(report)@.0 + pr_exits(*opts, base@, cut_commits as nat, cut_files as nat, read_files), old(report)@.1),
{
    let ghost l0 = report@.0;
    let mut commit_range = String::from_str(base);
    commit_range.append("..HEAD");
    let mut diff_range = String::from_str(base);
    diff_range.append("...HEAD");
    let none: Vec<String> = Vec::new();
    assert(str_views(none@) =~= Seq::<Seq<char>>::empty());
    if cut_commits > 0 {
        let flags = vec![limit_flag(if cut_commits <= MAX_LIMIT { cut_commits } else { MAX_LIMIT })];
        assert(str_views(flags@) =~= seq!["--limit "@ + decimal(if cut_commits <= MAX_LIMIT { cut_commits as nat } else { MAX_LIMIT as nat })]);
        let mut why = String::from_str("all ");
        why.append(plural(cut_commits, "commit").as_str());
        report.next(again(opts, "log", Some(commit_range.as_str()), &none, &flags), why);
    }
    if cut_files > 0 {
        let flags = vec![limit_flag(if cut_files <= MAX_LIMIT { cut_files } else { MAX_LIMIT })];
        assert(str_views(flags@) =~= seq!["--limit "@ + decimal(if cut_files <= MAX_LIMIT { cut_files as nat } else { MAX_LIMIT as nat })]);
        let mut why = String::from_str("all ");
        why.append(plural(cut_files, "file").as_str());
        report.next(again(opts, "diff", Some(diff_range.as_str()), &none, &flags), why);
    }
    if cut_commits == 0 && cut_files == 0 && read_files {
        let flags = vec![String::from_str("--patch")];
        assert(str_views(flags@) =~= seq!["--patch"@]);
        report.next(again(opts, "diff", Some(diff_range.as_str()), &none, &flags), String::from_str("the hunks"));
    }
    assert(report@.0 =~= l0 + pr_exits(*opts, base@, cut_commits as nat, cut_files as nat, read_files));
}

/// The sections of the answer, spending one budget: returns how much the commits and the files
/// were cut from, the labels and rows printed, and whether there was nothing to describe.
#[verifier::rlimit(60)]
fn sections(report: &mut Report, wanted: &Sections, commits: Option<&Commits>, files: Option<&Vec<FileStat>>,
    without: Option<&Vec<FileStat>>, limit: usize) -> (r: (usize, usize, usize, usize, bool, usize))
    requires
        old(report)@.1 == 0,
        limit < usize::MAX / 2,
        without is Some == files is Some,
        files matches Some(f) ==> f@.len() < usize::MAX / 4,
        files matches Some(f) ==> without matches Some(w) && deltas_fit(stat_views(w@), stat_views(f@)),
        commits matches Some(c) ==> c.total < usize::MAX / 4,
        commits matches Some(c) ==> c.rows@.len() < usize::MAX / 4,
    ensures
        ({
            let cs = commit_section(commits_arg(commits), limit as nat);
            let fsec = file_section(files_arg(files, without), wanted.diffstat, wanted.areas, cs.1);
            &&& final(report)@.0 == old(report)@.0 + cs.0 + fsec.0
            &&& final(report)@.1 == r.2 + (limit - fsec.1)
            &&& r.0 == cs.2
            &&& r.1 == fsec.2
            &&& r.2 == cs.3 + fsec.3
            &&& r.3 == cs.4 + fsec.4
            &&& r.4 == empty_of(commits_arg(commits), files_arg(files, without))
            &&& r.5 == cs.5 + fsec.5
            &&& r.2 + r.3 < usize::MAX
        }),
{
    let ghost l0 = report@.0;
    let ghost cs = commit_section(commits_arg(commits), limit as nat);
    let mut budget = Budget::new(limit);
    let mut cut_commits: usize = 0;
    let mut labels: usize = 0;
    let mut rows: usize = 0;
    let mut commits_total: usize = 0;
    match commits {
        Some(c) => {
            proof {
                lemma_commit_views(c.rows@);
                lemma_commit_lines_len(commit_views(c.rows@), commit_widths(commit_views(c.rows@)));
                lemma_indented_len(commit_lines(commit_views(c.rows@), commit_widths(commit_views(c.rows@))));
            }
            push_commits(report, &mut budget, c, limit);
            labels = 1;
            rows = c.total;
            commits_total = c.total;
            let n = c.rows.len();
            let shown = n - budget.dropped();
            if shown < c.total {
                cut_commits = c.total;
            }
        },
        None => {},
    }
    assert(report@.0 =~= l0 + cs.0);
    let ghost l1 = report@.0;
    let ghost fsec = file_section(files_arg(files, without), wanted.diffstat, wanted.areas, cs.1);
    let mut cut_files: usize = 0;
    let mut files_empty = true;
    match (files, without) {
        (Some(f), Some(w)) => {
            proof {
                lemma_stat_views(f@);
            }
            cut_files = push_files(report, &mut budget, f, w, wanted.diffstat, wanted.areas);
            if wanted.diffstat {
                rows = rows + f.len();
            }
            if wanted.areas {
                labels = labels + 1;
            }
            if wanted.diffstat {
                labels = labels + 1;
            }
            files_empty = f.len() == 0;
        },
        _ => {},
    }
    assert(report@.0 =~= l1 + fsec.0);
    let empty = (commits.is_none() || commits_total == 0) && files_empty;
    assert(report@.1 == labels + (limit - fsec.1));
    assert(budget.view_of().2 == cs.5 + fsec.5);
    assert(cut_commits == cs.2);
    assert(cut_files == fsec.2);
    assert(labels == cs.3 + fsec.3);
    assert(rows == cs.4 + fsec.4);
    assert(empty == empty_of(commits_arg(commits), files_arg(files, without)));
    (cut_commits, cut_files, labels, rows, empty, budget.cut_count())
}

/// `at-recall pr`, from the base, the sections asked for, and the reads they need: the commits
/// between the base and HEAD when `commits` was asked for, and the diffstat with and without
/// whitespace when `diffstat` or `areas` was.
#[verifier::rlimit(60)]
pub fn answer(base: &str, wanted: &Sections, commits: Option<&Commits>, files: Option<&Vec<FileStat>>,
    without: Option<&Vec<FileStat>>, opts: &Opts) -> (r: Outcome)
    requires
        commits is Some == wanted.commits,
        files is Some == (wanted.diffstat || wanted.areas),
        without is Some == files is Some,
        opts.limit < usize::MAX / 2,
        files matches Some(f) ==> f@.len() < usize::MAX / 4,
        files matches Some(f) ==> without matches Some(w) && deltas_fit(stat_views(w@), stat_views(f@)),
        commits matches Some(c) ==> c.total < usize::MAX / 4,
        commits matches Some(c) ==> c.rows@.len() < usize::MAX / 4,
    ensures
        r.report@.0 == pr_lines(base@, commits_arg(commits), files_arg(files, without), wanted.diffstat, wanted.areas, *opts),
        r.exit == (if empty_of(commits_arg(commits), files_arg(files, without)) || r.report@.1 == 0 { Exit::Nothing } else { Exit::Results }),
{
    let mut report = Report::new();
    crate::peek::verbs::slice::clamp_bound(&mut report, opts.limit_clamped_from);
    let mut target = String::from_str("base ");
    target.append(base);
    report.header(crate::recall::TOOL, "pr", opts.root.name(), target.as_str());
    let mut caveat = String::from_str("caveat: ");
    caveat.append(base);
    caveat.append(" is a local ref and this tool never fetches — the remote may be ahead");
    report.bound(caveat);
    let ghost l0 = report@.0;
    let (cut_commits, cut_files, labels, rows, empty, cuts) = sections(&mut report, wanted, commits, files, without, opts.limit);
    let ghost l1 = report@.0;
    if empty {
        let mut m = String::from_str("nothing between ");
        m.append(base);
        m.append(" and HEAD");
        report.bound(m);
    }
    let emitted = report.content_lines();
    if emitted < rows + labels {
        let mut m = decimal_text(emitted as u64);
        m.append(" of ");
        m.append(decimal_text((rows + labels) as u64).as_str());
        m.append(" lines · --limit ");
        m.append(decimal_text(opts.limit as u64).as_str());
        m.append(" reached");
        report.bound(m);
    }
    let ghost l2 = report@.0;
    crate::peek::verbs::slice::push_width(&mut report, cuts);
    pr_exits_exec(&mut report, opts, base, cut_commits, cut_files, !empty && files.is_some());
    assert(report@.0 =~= pr_lines(base@, commits_arg(commits), files_arg(files, without), wanted.diffstat, wanted.areas, *opts));
    let mut outcome = Outcome::from_report(report);
    if empty {
        outcome.exit = Exit::Nothing;
    }
    outcome
}

} // verus!
