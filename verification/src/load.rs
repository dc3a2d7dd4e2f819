//! Reading the data tree: what a project, a target and a rule file say, where the playbook
//! root is, and what the rule set as a whole reports.
//!
//! The program around this library does the reading — it lists directories, opens files and
//! asks whether a directory looks like a playbook — and hands the text here. Everything that
//! decides something about that text is in this module.

use vstd::prelude::*;
use vstd::string::StringExecFns;

use crate::frontmatter::{key_order, conf_fields, document_body, document_fields, list_items, parse_conf, split_document, split_list, Fields};
use crate::model::{
    act_matches, any_error, diag_views, err, layer_of, activation_of, opt_view, sections_of,
    split_sections, trim_blank_lines, warn, Activation, DiagView, Diagnostic, Layer, Project,
    ProjectView, Rule, RuleView, Section, Severity, Target, TargetView,
};
use crate::text::{
    eq_chars, chars_of, lex_le, lex_lt, lines, parse_i32, push_chars, signed_of, sort_strings, split_on,
    starts_with, starts_with_exec, str_views, string_of,
};

verus! {

// ---------------------------------------------------------------------------------------
// Finding the root
// ---------------------------------------------------------------------------------------

/// How the root was found, so a caller can say which tree it resolved against.
///
/// It matters because a verdict reads the same either way: `check` against the packaged copy and
/// `check` against the checkout you are editing both print `ok`, and only one of them is about the
/// rules you just changed.
#[derive(Debug, Clone, Copy, PartialEq, Eq, Structural)]
pub enum RootSource {
    /// `--root <path>`
    Named,
    /// `PLAYBOOK_ROOT`
    Environment,
    /// An ancestor of the working directory: the checkout the caller is standing in.
    WorkingDirectory,
    /// Beside the installed binary, in `share/playbook` — the copy this binary was packaged with.
    Installed,
    /// The directory this binary was compiled in, which is a checkout under `cargo run`.
    BuildDirectory,
}

pub open spec fn source_text(s: RootSource) -> Seq<char> {
    match s {
        RootSource::Named => "--root"@,
        RootSource::Environment => "PLAYBOOK_ROOT"@,
        RootSource::WorkingDirectory => "the working directory"@,
        RootSource::Installed => "the packaged copy"@,
        RootSource::BuildDirectory => "the build directory"@,
    }
}

impl RootSource {
    pub fn as_str(&self) -> (r: &'static str)
        ensures
            r@ == source_text(*self),
    {
        match self {
            RootSource::Named => "--root",
            RootSource::Environment => "PLAYBOOK_ROOT",
            RootSource::WorkingDirectory => "the working directory",
            RootSource::Installed => "the packaged copy",
            RootSource::BuildDirectory => "the build directory",
        }
    }

    /// Whether this is the copy that shipped with the binary rather than a tree the caller is
    /// standing in or named.
    pub fn is_packaged(&self) -> (r: bool)
        ensures
            r == (*self == RootSource::Installed),
    {
        match self {
            RootSource::Installed => true,
            _ => false,
        }
    }
}

/// A directory that might be the playbook root, and whether it holds `rules/`, `models/` and
/// `projects/`.
pub struct Candidate {
    pub dir: String,
    pub looks_like_root: bool,
}

pub open spec fn not_a_root(dir: Seq<char>) -> Seq<char> {
    dir + " is not a playbook root (expected rules/, models/ and projects/)"@
}

/// The candidate as a root, or why it is not one.
pub open spec fn validated(c: (Seq<char>, bool)) -> Result<Seq<char>, Seq<char>> {
    if c.1 { Ok(c.0) } else { Err(not_a_root(c.0)) }
}

pub open spec fn candidate_view(c: Candidate) -> (Seq<char>, bool) {
    (c.dir@, c.looks_like_root)
}

pub open spec fn candidate_views(cs: Seq<Candidate>) -> Seq<(Seq<char>, bool)> {
    cs.map_values(|c: Candidate| candidate_view(c))
}

/// The first of the candidates that looks like a root.
pub open spec fn first_root(cs: Seq<(Seq<char>, bool)>) -> Option<Seq<char>>
    decreases cs.len(),
{
    if cs.len() == 0 {
        None
    } else if cs[0].1 {
        Some(cs[0].0)
    } else {
        first_root(cs.drop_first())
    }
}

pub open spec fn tagged(r: Result<Seq<char>, Seq<char>>, s: RootSource) -> Result<(Seq<char>, RootSource), Seq<char>> {
    match r {
        Ok(d) => Ok((d, s)),
        Err(e) => Err(e),
    }
}

/// Where the root is, and how it was found: an explicit `--root`, `PLAYBOOK_ROOT`, the nearest
/// ancestor of the working directory that looks like the playbook, the data an installed binary
/// carries beside itself, then the directory this binary was built in.
pub open spec fn found_root(
    explicit: Option<(Seq<char>, bool)>,
    environment: Option<(Seq<char>, bool)>,
    ancestors: Seq<(Seq<char>, bool)>,
    packaged: Option<Seq<char>>,
    build: (Seq<char>, bool),
) -> Result<(Seq<char>, RootSource), Seq<char>> {
    match explicit {
        Some(c) => tagged(validated(c), RootSource::Named),
        None => match environment {
            Some(c) => tagged(validated(c), RootSource::Environment),
            None => match first_root(ancestors) {
                Some(d) => Ok((d, RootSource::WorkingDirectory)),
                None => match packaged {
                    Some(d) => Ok((d, RootSource::Installed)),
                    None => tagged(validated(build), RootSource::BuildDirectory),
                },
            },
        },
    }
}

fn validate_root(c: &Candidate, source: RootSource) -> (r: Result<(String, RootSource), String>)
    ensures
        match r {
            Ok((d, s)) => validated(candidate_view(*c)) == Ok::<Seq<char>, Seq<char>>(d@) && s == source,
            Err(e) => validated(candidate_view(*c)) == Err::<Seq<char>, Seq<char>>(e@),
        },
{
    if c.looks_like_root {
        Ok((c.dir.clone(), source))
    } else {
        let mut e = c.dir.clone();
        e.append(" is not a playbook root (expected rules/, models/ and projects/)");
        Err(e)
    }
}

/// Locate the playbook root, and say how.
///
/// The last two candidates are for a binary invoked from somewhere else entirely; the build
/// directory is last because in a packaged build it is a directory that no longer exists, so
/// naming it is the honest failure. `packaged` is the installed copy when it was found.
pub fn find_root_with_source(
    explicit: Option<Candidate>,
    environment: Option<Candidate>,
    ancestors: &Vec<Candidate>,
    packaged: Option<String>,
    build: Candidate,
) -> (r: Result<(String, RootSource), String>)
    ensures
        match r {
            Ok((d, s)) => found_root(
                match explicit { Some(c) => Some(candidate_view(c)), None => None },
                match environment { Some(c) => Some(candidate_view(c)), None => None },
                candidate_views(ancestors@),
                opt_view(packaged),
                candidate_view(build),
            ) == Ok::<(Seq<char>, RootSource), Seq<char>>((d@, s)),
            Err(e) => found_root(
                match explicit { Some(c) => Some(candidate_view(c)), None => None },
                match environment { Some(c) => Some(candidate_view(c)), None => None },
                candidate_views(ancestors@),
                opt_view(packaged),
                candidate_view(build),
            ) == Err::<(Seq<char>, RootSource), Seq<char>>(e@),
        },
{
    if let Some(c) = &explicit {
        return validate_root(c, RootSource::Named);
    }
    if let Some(c) = &environment {
        return validate_root(c, RootSource::Environment);
    }
    let ghost cs = candidate_views(ancestors@);
    let mut i: usize = 0;
    assert(cs.skip(0) =~= cs);
    while i < ancestors.len()
        invariant
            explicit is None,
            environment is None,
            i <= ancestors@.len(),
            cs == candidate_views(ancestors@),
            first_root(cs) == first_root(cs.skip(i as int)),
        decreases ancestors.len() - i,
    {
        assert(cs.skip(i as int)[0] == candidate_view(ancestors@[i as int]));
        if ancestors[i].looks_like_root {
            assert(first_root(cs) == Some(ancestors@[i as int].dir@));
            return Ok((ancestors[i].dir.clone(), RootSource::WorkingDirectory));
        }
        assert(cs.skip(i as int).drop_first() =~= cs.skip(i + 1));
        i = i + 1;
    }
    assert(cs.skip(i as int).len() == 0);
    match packaged {
        Some(d) => Ok((d, RootSource::Installed)),
        None => validate_root(&build, RootSource::BuildDirectory),
    }
}

/// The root alone, without the provenance.
pub fn find_root(
    explicit: Option<Candidate>,
    environment: Option<Candidate>,
    ancestors: &Vec<Candidate>,
    packaged: Option<String>,
    build: Candidate,
) -> (r: Result<String, String>)
    ensures
        match r {
            Ok(d) => found_root(
                match explicit { Some(c) => Some(candidate_view(c)), None => None },
                match environment { Some(c) => Some(candidate_view(c)), None => None },
                candidate_views(ancestors@),
                opt_view(packaged),
                candidate_view(build),
            ) matches Ok((found, _)) && found == d@,
            Err(e) => found_root(
                match explicit { Some(c) => Some(candidate_view(c)), None => None },
                match environment { Some(c) => Some(candidate_view(c)), None => None },
                candidate_views(ancestors@),
                opt_view(packaged),
                candidate_view(build),
            ) == Err::<(Seq<char>, RootSource), Seq<char>>(e@),
        },
{
    match find_root_with_source(explicit, environment, ancestors, packaged, build) {
        Ok((d, _)) => Ok(d),
        Err(e) => Err(e),
    }
}

// ---------------------------------------------------------------------------------------
// Listing
// ---------------------------------------------------------------------------------------

/// The projects, given the directory names under `projects/`: sorted.
pub fn list_projects(entries: &Vec<String>) -> (r: Vec<String>)
    ensures
        str_views(r@) == str_views(entries@).sort_by(|a: Seq<char>, b: Seq<char>| lex_le(a, b)),
{
    sort_strings(entries)
}

/// The targets, given the directory names under `models/`: sorted.
pub fn list_targets(entries: &Vec<String>) -> (r: Vec<String>)
    ensures
        str_views(r@) == str_views(entries@).sort_by(|a: Seq<char>, b: Seq<char>| lex_le(a, b)),
{
    sort_strings(entries)
}

// ---------------------------------------------------------------------------------------
// Projects and targets
// ---------------------------------------------------------------------------------------

/// A field's value; a missing key reads as empty.
pub open spec fn field(m: Map<Seq<char>, Seq<char>>, key: Seq<char>) -> Seq<char> {
    if m.contains_key(key) { m[key] } else { Seq::empty() }
}

/// A field's value when it is set and not empty.
pub open spec fn nonempty_field(m: Map<Seq<char>, Seq<char>>, key: Seq<char>) -> Option<Seq<char>> {
    if m.contains_key(key) && m[key].len() > 0 { Some(m[key]) } else { None }
}

/// A field's value read as a comma-separated list; a missing key is an empty list.
pub open spec fn list_field(m: Map<Seq<char>, Seq<char>>, key: Seq<char>) -> Seq<Seq<char>> {
    if m.contains_key(key) { list_items(split_on(m[key], ',')) } else { Seq::empty() }
}

/// The project a `project.conf` describes.
pub open spec fn project_of(name: Seq<char>, m: Map<Seq<char>, Seq<char>>) -> ProjectView {
    ProjectView {
        name,
        path: field(m, "path"@),
        org: nonempty_field(m, "org"@),
        languages: list_field(m, "languages"@),
        default_target: nonempty_field(m, "default_target"@),
    }
}

/// The target an `overlay.conf` describes.
pub open spec fn target_of(name: Seq<char>, m: Map<Seq<char>, Seq<char>>) -> TargetView {
    TargetView {
        name,
        model: field(m, "model"@),
        harness: field(m, "harness"@),
        title: match nonempty_field(m, "title"@) { Some(t) => t, None => "Agent rules"@ },
        includes: list_field(m, "include"@),
        exclude: list_field(m, "exclude"@),
        exclude_activation: list_field(m, "exclude_activation"@),
        emphasis: list_field(m, "emphasis"@),
        addenda: list_field(m, "addenda"@),
        memory: list_field(m, "memory"@),
        default_file: match nonempty_field(m, "default_file"@) { Some(f) => f, None => "AGENTS.md"@ },
        instruction_files: list_field(m, "instruction_files"@),
    }
}

fn field_of(conf: &Fields, key: &str) -> (r: String)
    requires
        conf.sorted(),
    ensures
        r@ == field(conf@, key@),
{
    match conf.get(key) {
        Some(v) => v.clone(),
        None => String::new(),
    }
}

fn nonempty_of(conf: &Fields, key: &str) -> (r: Option<String>)
    requires
        conf.sorted(),
    ensures
        opt_view(r) == nonempty_field(conf@, key@),
{
    match conf.get(key) {
        Some(v) => {
            if v.as_str().unicode_len() > 0 {
                Some(v.clone())
            } else {
                None
            }
        },
        None => None,
    }
}

fn list_of(conf: &Fields, key: &str) -> (r: Vec<String>)
    requires
        conf.sorted(),
    ensures
        str_views(r@) == list_field(conf@, key@),
{
    match conf.get(key) {
        Some(v) => split_list(v.as_str()),
        None => {
            let r: Vec<String> = Vec::new();
            assert(str_views(r@) =~= Seq::<Seq<char>>::empty());
            r
        },
    }
}

/// `no such <kind>: <name> (expected <path>)`.
pub open spec fn no_such(kind: Seq<char>, name: Seq<char>, path: Seq<char>) -> Seq<char> {
    "no such "@ + kind + ": "@ + name + " (expected "@ + path + ")"@
}

fn no_such_text(kind: &str, name: &str, path: &str) -> (r: String)
    ensures
        r@ == no_such(kind@, name@, path@),
{
    let mut e = String::from_str("no such ");
    e.append(kind);
    e.append(": ");
    e.append(name);
    e.append(" (expected ");
    e.append(path);
    e.append(")");
    e
}

/// The project `name`, from the text of its `project.conf` at `path`; `None` when there is no
/// such file.
pub fn load_project(name: &str, path: &str, conf: Option<&str>) -> (r: Result<Project, String>)
    ensures
        match conf {
            None => r == Err::<Project, String>(r->Err_0) && r->Err_0@ == no_such("project"@, name@, path@),
            Some(text) => r matches Ok(p) && p@ == project_of(name@, conf_fields(lines(text@))),
        },
{
    let text = match conf {
        None => return Err(no_such_text("project", name, path)),
        Some(t) => t,
    };
    let conf = parse_conf(text);
    Ok(Project {
        name: String::from_str(name),
        path: field_of(&conf, "path"),
        org: nonempty_of(&conf, "org"),
        languages: list_of(&conf, "languages"),
        default_target: nonempty_of(&conf, "default_target"),
    })
}

/// The target `name`, from the text of its `overlay.conf` at `path`; `None` when there is no
/// such file.
pub fn load_target(name: &str, path: &str, conf: Option<&str>) -> (r: Result<Target, String>)
    ensures
        match conf {
            None => r == Err::<Target, String>(r->Err_0) && r->Err_0@ == no_such("target"@, name@, path@),
            Some(text) => r matches Ok(t) && t@ == target_of(name@, conf_fields(lines(text@))),
        },
{
    let text = match conf {
        None => return Err(no_such_text("target", name, path)),
        Some(t) => t,
    };
    let conf = parse_conf(text);
    let title = match nonempty_of(&conf, "title") {
        Some(t) => t,
        None => String::from_str("Agent rules"),
    };
    let default_file = match nonempty_of(&conf, "default_file") {
        Some(f) => f,
        None => String::from_str("AGENTS.md"),
    };
    Ok(Target {
        name: String::from_str(name),
        model: field_of(&conf, "model"),
        harness: field_of(&conf, "harness"),
        title,
        includes: list_of(&conf, "include"),
        exclude: list_of(&conf, "exclude"),
        exclude_activation: list_of(&conf, "exclude_activation"),
        emphasis: list_of(&conf, "emphasis"),
        addenda: list_of(&conf, "addenda"),
        memory: list_of(&conf, "memory"),
        default_file,
        instruction_files: list_of(&conf, "instruction_files"),
    })
}


// ---------------------------------------------------------------------------------------
// Rules
// ---------------------------------------------------------------------------------------

/// The keys a rule's header may carry.
pub open spec fn rule_keys() -> Seq<Seq<char>> {
    seq!["id"@, "title"@, "layer"@, "activation"@, "priority"@, "overrides"@, "targets"@]
}

/// One warning per key that is not a rule key, in the order given.
pub open spec fn unknown_warnings(rel: Seq<char>, ks: Seq<Seq<char>>) -> Seq<DiagView>
    decreases ks.len(),
{
    if ks.len() == 0 {
        seq![]
    } else {
        let before = unknown_warnings(rel, ks.drop_last());
        if rule_keys().contains(ks.last()) {
            before
        } else {
            before.push(warn(rel + ": unknown key `"@ + ks.last() + "`"@))
        }
    }
}

pub open spec fn missing_field(rel: Seq<char>, key: Seq<char>) -> DiagView {
    err(rel + ": `"@ + key + ":` is required and is missing or empty"@)
}

/// The complaint about a required field, if it is missing or empty.
pub open spec fn required_diags(rel: Seq<char>, m: Map<Seq<char>, Seq<char>>, key: Seq<char>) -> Seq<DiagView> {
    if field(m, key).len() == 0 { seq![missing_field(rel, key)] } else { seq![] }
}

pub open spec fn layer_diags(rel: Seq<char>, m: Map<Seq<char>, Seq<char>>) -> Seq<DiagView> {
    if field(m, "layer"@).len() == 0 {
        seq![missing_field(rel, "layer"@)]
    } else {
        match layer_of(field(m, "layer"@)) {
            Ok(_) => seq![],
            Err(e) => seq![err(rel + ": "@ + e)],
        }
    }
}

pub open spec fn activation_diags(rel: Seq<char>, m: Map<Seq<char>, Seq<char>>) -> Seq<DiagView> {
    if field(m, "activation"@).len() == 0 {
        seq![missing_field(rel, "activation"@)]
    } else {
        match activation_of(field(m, "activation"@)) {
            Ok(_) => seq![],
            Err(e) => seq![err(rel + ": "@ + e)],
        }
    }
}

/// A rule's priority: 50 when unset, else the field read as an `i32`.
pub open spec fn priority_of(raw: Seq<char>) -> Option<int> {
    if raw.len() == 0 {
        Some(50)
    } else {
        match signed_of(raw) {
            Some(n) => if i32::MIN <= n <= i32::MAX { Some(n) } else { None },
            None => None,
        }
    }
}

pub open spec fn priority_diags(rel: Seq<char>, m: Map<Seq<char>, Seq<char>>) -> Seq<DiagView> {
    let raw = field(m, "priority"@);
    if priority_of(raw) is None {
        seq![err(rel + ": priority `"@ + raw + "` is not an integer"@)]
    } else {
        seq![]
    }
}

/// The directive a rule body carries.
pub open spec fn directive_of(body: Seq<char>) -> Seq<char> {
    trim_blank_lines(sections_of(lines(body)).0)
}

pub open spec fn directive_diags(rel: Seq<char>, body: Seq<char>) -> Seq<DiagView> {
    if directive_of(body).len() == 0 {
        seq![err(rel + ": rule has no directive — a heading with no text cannot constrain anything"@)]
    } else {
        seq![]
    }
}

/// Everything wrong with a rule's fields and body, in the order it is reported.
pub open spec fn field_diags(rel: Seq<char>, m: Map<Seq<char>, Seq<char>>, body: Seq<char>) -> Seq<DiagView> {
    required_diags(rel, m, "id"@) + required_diags(rel, m, "title"@) + layer_diags(rel, m)
        + activation_diags(rel, m) + priority_diags(rel, m) + directive_diags(rel, body)
}

/// The rule a header and body declare, when nothing is wrong with them.
pub open spec fn rule_of(rel: Seq<char>, m: Map<Seq<char>, Seq<char>>, body: Seq<char>) -> Option<RuleView> {
    if field_diags(rel, m, body).len() == 0 {
        Some(RuleView {
            id: field(m, "id"@),
            title: field(m, "title"@),
            layer: layer_of(field(m, "layer"@))->Ok_0,
            activation: activation_of(field(m, "activation"@))->Ok_0,
            priority: priority_of(field(m, "priority"@))->Some_0,
            overrides: list_field(m, "overrides"@),
            targets: list_field(m, "targets"@),
            rel,
            directive: directive_of(body),
            rationale: trim_blank_lines(sections_of(lines(body)).1),
        })
    } else {
        None
    }
}

/// What reading a rule file yields: the rule, if it is one, and everything worth reporting
/// about it — both, because a rule can parse and still carry a problem.
pub open spec fn parsed_rule(rel: Seq<char>, source: Result<Seq<char>, Seq<char>>) -> (Option<RuleView>, Seq<DiagView>) {
    match source {
        Err(e) => (None, seq![err(rel + ": cannot read ("@ + e + ")"@)]),
        Ok(text) => {
            let m = document_fields(text);
            let body = document_body(text);
            (rule_of(rel, m, body), unknown_warnings(rel, key_order(m)) + field_diags(rel, m, body))
        },
    }
}

pub(crate) fn text3(a: &str, b: &str, c: &str) -> (r: String)
    ensures
        r@ == a@ + b@ + c@,
{
    let mut m = String::from_str(a);
    m.append(b);
    m.append(c);
    m
}

pub(crate) fn text4(a: &str, b: &str, c: &str, d: &str) -> (r: String)
    ensures
        r@ == a@ + b@ + c@ + d@,
{
    let mut m = String::from_str(a);
    m.append(b);
    m.append(c);
    m.append(d);
    m
}

fn is_rule_key(k: &str) -> (r: bool)
    ensures
        r == rule_keys().contains(k@),
{
    let kc = chars_of(k);
    let r = eq_chars(&kc, &chars_of("id")) || eq_chars(&kc, &chars_of("title"))
        || eq_chars(&kc, &chars_of("layer")) || eq_chars(&kc, &chars_of("activation"))
        || eq_chars(&kc, &chars_of("priority")) || eq_chars(&kc, &chars_of("overrides"))
        || eq_chars(&kc, &chars_of("targets"));
    proof {
        let rk = rule_keys();
        if rk.contains(k@) {
            let j = choose|j: int| 0 <= j < rk.len() && rk[j] == k@;
            assert(r);
        }
        if r {
            if k@ == "id"@ { assert(rk[0] == k@); }
            if k@ == "title"@ { assert(rk[1] == k@); }
            if k@ == "layer"@ { assert(rk[2] == k@); }
            if k@ == "activation"@ { assert(rk[3] == k@); }
            if k@ == "priority"@ { assert(rk[4] == k@); }
            if k@ == "overrides"@ { assert(rk[5] == k@); }
            if k@ == "targets"@ { assert(rk[6] == k@); }
        }
    }
    r
}

fn unknown_key_diags(rel: &str, keys: &Vec<String>, diagnostics: &mut Vec<Diagnostic>)
    ensures
        diag_views(final(diagnostics)@) == diag_views(old(diagnostics)@) + unknown_warnings(rel@, str_views(keys@)),
{
    let ghost start = diag_views(diagnostics@);
    let mut i: usize = 0;
    proof {
        assert(str_views(keys@).take(0) =~= Seq::<Seq<char>>::empty());
        assert(start + unknown_warnings(rel@, Seq::<Seq<char>>::empty()) =~= start);
    }
    while i < keys.len()
        invariant
            i <= keys@.len(),
            diag_views(diagnostics@) == start + unknown_warnings(rel@, str_views(keys@).take(i as int)),
        decreases keys.len() - i,
    {
        let ghost kv = str_views(keys@);
        assert(kv.take(i + 1).drop_last() =~= kv.take(i as int));
        assert(kv.take(i + 1).last() == keys@[i as int]@);
        let k = keys[i].as_str();
        let ghost before = diagnostics@;
        if !is_rule_key(k) {
            let d = Diagnostic::warning(text4(rel, ": unknown key `", k, "`"));
            diagnostics.push(d);
            assert(diag_views(diagnostics@) =~= diag_views(before).push(d@));
        } else {
            assert(diag_views(diagnostics@) =~= diag_views(before));
        }
        i = i + 1;
    }
    assert(str_views(keys@).take(keys@.len() as int) =~= str_views(keys@));
}

/// A required field's value, or the complaint that it is missing.
fn required_field(rel: &str, fields: &Fields, key: &str, diagnostics: &mut Vec<Diagnostic>) -> (r: Option<String>)
    requires
        fields.sorted(),
    ensures
        diag_views(final(diagnostics)@) == diag_views(old(diagnostics)@) + required_diags(rel@, fields@, key@),
        match r {
            Some(v) => v@ == field(fields@, key@) && v@.len() > 0,
            None => field(fields@, key@).len() == 0,
        },
{
    let value = match fields.get(key) {
        Some(v) => v.clone(),
        None => String::new(),
    };
    let ghost before = diagnostics@;
    if value.as_str().unicode_len() == 0 {
        let d = Diagnostic::error(text4(rel, ": `", key, ":` is required and is missing or empty"));
        diagnostics.push(d);
        assert(diag_views(diagnostics@) =~= diag_views(before) + required_diags(rel@, fields@, key@));
        None
    } else {
        assert(diag_views(diagnostics@) =~= diag_views(before) + required_diags(rel@, fields@, key@));
        Some(value)
    }
}

fn layer_field(rel: &str, fields: &Fields, diagnostics: &mut Vec<Diagnostic>) -> (r: Option<Layer>)
    requires
        fields.sorted(),
    ensures
        diag_views(final(diagnostics)@) == diag_views(old(diagnostics)@) + layer_diags(rel@, fields@),
        match r {
            Some(l) => layer_diags(rel@, fields@).len() == 0 && layer_of(field(fields@, "layer"@)) == Ok::<crate::model::Lay, Seq<char>>(l@),
            None => layer_diags(rel@, fields@).len() > 0,
        },
{
    let ghost before = diagnostics@;
    match required_field(rel, fields, "layer", diagnostics) {
        Some(raw) => match Layer::parse(raw.as_str()) {
            Ok(layer) => {
                assert(diag_views(diagnostics@) =~= diag_views(before) + layer_diags(rel@, fields@));
                Some(layer)
            },
            Err(e) => {
                let ghost mid = diagnostics@;
                let d = Diagnostic::error(text3(rel, ": ", e.as_str()));
                diagnostics.push(d);
                assert(diag_views(diagnostics@) =~= diag_views(mid).push(d@));
                assert(diag_views(diagnostics@) =~= diag_views(before) + layer_diags(rel@, fields@));
                None
            },
        },
        None => None,
    }
}

fn activation_field(rel: &str, fields: &Fields, diagnostics: &mut Vec<Diagnostic>) -> (r: Option<Activation>)
    requires
        fields.sorted(),
    ensures
        diag_views(final(diagnostics)@) == diag_views(old(diagnostics)@) + activation_diags(rel@, fields@),
        match r {
            Some(a) => activation_diags(rel@, fields@).len() == 0 && activation_of(field(fields@, "activation"@)) == Ok::<crate::model::Act, Seq<char>>(a@),
            None => activation_diags(rel@, fields@).len() > 0,
        },
{
    let ghost before = diagnostics@;
    match required_field(rel, fields, "activation", diagnostics) {
        Some(raw) => match Activation::parse(raw.as_str()) {
            Ok(a) => {
                assert(diag_views(diagnostics@) =~= diag_views(before) + activation_diags(rel@, fields@));
                Some(a)
            },
            Err(e) => {
                let ghost mid = diagnostics@;
                let d = Diagnostic::error(text3(rel, ": ", e.as_str()));
                diagnostics.push(d);
                assert(diag_views(diagnostics@) =~= diag_views(mid).push(d@));
                assert(diag_views(diagnostics@) =~= diag_views(before) + activation_diags(rel@, fields@));
                None
            },
        },
        None => None,
    }
}

fn priority_field(rel: &str, fields: &Fields, diagnostics: &mut Vec<Diagnostic>) -> (r: Option<i32>)
    requires
        fields.sorted(),
    ensures
        diag_views(final(diagnostics)@) == diag_views(old(diagnostics)@) + priority_diags(rel@, fields@),
        match r {
            Some(p) => priority_diags(rel@, fields@).len() == 0 && priority_of(field(fields@, "priority"@)) == Some(p as int),
            None => priority_diags(rel@, fields@).len() > 0,
        },
{
    let ghost before = diagnostics@;
    let raw = match fields.get("priority") {
        Some(v) => v.as_str(),
        None => "",
    };
    proof {
        reveal_strlit("");
    }
    if raw.unicode_len() == 0 {
        assert(diag_views(diagnostics@) =~= diag_views(before) + priority_diags(rel@, fields@));
        return Some(50);
    }
    match parse_i32(&chars_of(raw)) {
        Some(p) => {
            assert(diag_views(diagnostics@) =~= diag_views(before) + priority_diags(rel@, fields@));
            Some(p)
        },
        None => {
            let d = Diagnostic::error(text4(rel, ": priority `", raw, "` is not an integer"));
            diagnostics.push(d);
            assert(diag_views(diagnostics@) =~= diag_views(before).push(d@));
            assert(diag_views(diagnostics@) =~= diag_views(before) + priority_diags(rel@, fields@));
            None
        },
    }
}

fn directive_check(rel: &str, directive: &String, diagnostics: &mut Vec<Diagnostic>)
    ensures
        diag_views(final(diagnostics)@) == diag_views(old(diagnostics)@) + (if directive@.len() == 0 {
            seq![err(rel@ + ": rule has no directive — a heading with no text cannot constrain anything"@)]
        } else {
            seq![]
        }),
{
    let ghost before = diagnostics@;
    if directive.as_str().unicode_len() == 0 {
        let mut m = String::from_str(rel);
        m.append(": rule has no directive — a heading with no text cannot constrain anything");
        let d = Diagnostic::error(m);
        diagnostics.push(d);
        assert(diag_views(diagnostics@) =~= diag_views(before).push(d@));
    }
    assert(diag_views(diagnostics@) =~= diag_views(before) + (if directive@.len() == 0 {
        seq![err(rel@ + ": rule has no directive — a heading with no text cannot constrain anything"@)]
    } else {
        seq![]
    }));
}

/// The rule a parsed header and body declare, and what is wrong with them.
fn rule_from_fields(rel: &str, fields: &Fields, body: &str) -> (r: (Option<Rule>, Vec<Diagnostic>))
    requires
        fields.sorted(),
    ensures
        diag_views(r.1@) == unknown_warnings(rel@, key_order(fields@)) + field_diags(rel@, fields@, body@),
        match r.0 {
            Some(rule) => rule_of(rel@, fields@, body@) == Some(rule@),
            None => rule_of(rel@, fields@, body@) is None,
        },
{
    let mut diagnostics: Vec<Diagnostic> = Vec::new();
    let keys = fields.keys();
    unknown_key_diags(rel, &keys, &mut diagnostics);
    assert(diag_views(diagnostics@) =~= unknown_warnings(rel@, key_order(fields@)));
    let id = required_field(rel, fields, "id", &mut diagnostics);
    let title = required_field(rel, fields, "title", &mut diagnostics);
    let layer = layer_field(rel, fields, &mut diagnostics);
    let activation = activation_field(rel, fields, &mut diagnostics);
    let priority = priority_field(rel, fields, &mut diagnostics);
    let sections = split_sections(body);
    directive_check(rel, &sections.directive, &mut diagnostics);
    assert(diag_views(diagnostics@) =~= unknown_warnings(rel@, key_order(fields@)) + field_diags(rel@, fields@, body@));
    if sections.directive.as_str().unicode_len() == 0 {
        return (None, diagnostics);
    }
    let id = match id { Some(v) => v, None => return (None, diagnostics) };
    let title = match title { Some(v) => v, None => return (None, diagnostics) };
    let layer = match layer { Some(v) => v, None => return (None, diagnostics) };
    let activation = match activation { Some(v) => v, None => return (None, diagnostics) };
    let priority = match priority { Some(v) => v, None => return (None, diagnostics) };
    assert(field_diags(rel@, fields@, body@) =~= Seq::<DiagView>::empty());
    let rule = Rule {
        id,
        title,
        layer,
        activation,
        priority,
        overrides: list_of(fields, "overrides"),
        targets: list_of(fields, "targets"),
        rel: String::from_str(rel),
        directive: sections.directive,
        rationale: sections.rationale,
    };
    (Some(rule), diagnostics)
}

/// Parse one rule file, given its path relative to the root and what reading it produced.
pub fn parse_rule(rel: &str, source: Result<&str, &str>) -> (r: (Option<Rule>, Vec<Diagnostic>))
    ensures
        diag_views(r.1@) == parsed_rule(rel@, match source { Ok(t) => Ok(t@), Err(e) => Err(e@) }).1,
        match r.0 {
            Some(rule) => parsed_rule(rel@, match source { Ok(t) => Ok(t@), Err(e) => Err(e@) }).0 == Some(rule@),
            None => parsed_rule(rel@, match source { Ok(t) => Ok(t@), Err(e) => Err(e@) }).0 is None,
        },
{
    match source {
        Err(e) => {
            let mut d: Vec<Diagnostic> = Vec::new();
            d.push(Diagnostic::error(text4(rel, ": cannot read (", e, ")")));
            assert(diag_views(d@) =~= seq![err(rel@ + ": cannot read ("@ + e@ + ")"@)]);
            (None, d)
        },
        Ok(text) => {
            let split = split_document(text);
            rule_from_fields(rel, &split.fields, split.body)
        },
    }
}


// ---------------------------------------------------------------------------------------
// The rule set
// ---------------------------------------------------------------------------------------

pub open spec fn rule_views(v: Seq<Rule>) -> Seq<RuleView> {
    v.map_values(|r: Rule| r@)
}

pub open spec fn source_view(source: Result<String, String>) -> Result<Seq<char>, Seq<char>> {
    match source {
        Ok(t) => Ok(t@),
        Err(e) => Err(e@),
    }
}

/// Rule files as plain text: each path relative to the root, with what reading it produced.
pub open spec fn file_views(files: Seq<(String, Result<String, String>)>) -> Seq<(Seq<char>, Result<Seq<char>, Seq<char>>)> {
    files.map_values(|f: (String, Result<String, String>)| (f.0@, source_view(f.1)))
}

/// The rules the files declare, in file order, and everything reported while reading them.
pub open spec fn parsed_files(fs: Seq<(Seq<char>, Result<Seq<char>, Seq<char>>)>) -> (Seq<RuleView>, Seq<DiagView>)
    decreases fs.len(),
{
    if fs.len() == 0 {
        (seq![], seq![])
    } else {
        let (rs, ds) = parsed_files(fs.drop_last());
        let (r, d) = parsed_rule(fs.last().0, fs.last().1);
        (match r { Some(x) => rs.push(x), None => rs }, ds + d)
    }
}

/// The position of the last rule in `rs` with this id.
pub open spec fn last_with_id(rs: Seq<RuleView>, id: Seq<char>) -> Option<int>
    decreases rs.len(),
{
    if rs.len() == 0 {
        None
    } else if rs.last().id == id {
        Some(rs.len() - 1)
    } else {
        last_with_id(rs.drop_last(), id)
    }
}

/// One error per rule whose id an earlier rule already declared, naming the latest such.
pub open spec fn duplicate_diags(rs: Seq<RuleView>) -> Seq<DiagView>
    decreases rs.len(),
{
    if rs.len() == 0 {
        seq![]
    } else {
        let before = duplicate_diags(rs.drop_last());
        match last_with_id(rs.drop_last(), rs.last().id) {
            Some(j) => before.push(err("duplicate rule id `"@ + rs.last().id + "` — declared in both "@
                + rs[j].rel + " and "@ + rs.last().rel)),
            None => before,
        }
    }
}

fn last_index_with_id(rules: &Vec<Rule>, k: usize, id: &String) -> (r: Option<usize>)
    requires
        k <= rules@.len(),
    ensures
        match r {
            Some(j) => last_with_id(rule_views(rules@).take(k as int), id@) == Some(j as int) && j < k,
            None => last_with_id(rule_views(rules@).take(k as int), id@) is None,
        },
{
    let ghost rs = rule_views(rules@);
    let mut j = k;
    while j > 0
        invariant
            j <= k <= rules@.len(),
            rs == rule_views(rules@),
            last_with_id(rs.take(k as int), id@) == last_with_id(rs.take(j as int), id@),
        decreases j,
    {
        assert(rs.take(j as int).last() == rules@[j - 1]@);
        if rules[j - 1].id == *id {
            return Some(j - 1);
        }
        assert(rs.take(j as int).drop_last() =~= rs.take(j - 1));
        j = j - 1;
    }
    None
}

fn text6(a: &str, b: &str, c: &str, d: &str, e: &str, f: &str) -> (r: String)
    ensures
        r@ == a@ + b@ + c@ + d@ + e@ + f@,
{
    let mut m = String::from_str(a);
    m.append(b);
    m.append(c);
    m.append(d);
    m.append(e);
    m.append(f);
    m
}

/// Read every rule, given the rule files in path order. A duplicate id makes `overrides:` and
/// `emphasis:` ambiguous, so it is reported as an error after the files' own diagnostics.
pub fn load_rules(files: &Vec<(String, Result<String, String>)>) -> (r: (Vec<Rule>, Vec<Diagnostic>))
    ensures
        rule_views(r.0@) == parsed_files(file_views(files@)).0,
        diag_views(r.1@) == parsed_files(file_views(files@)).1 + duplicate_diags(parsed_files(file_views(files@)).0),
{
    let ghost fv = file_views(files@);
    let mut rules: Vec<Rule> = Vec::new();
    let mut diagnostics: Vec<Diagnostic> = Vec::new();
    let mut i: usize = 0;
    assert(fv.take(0) =~= Seq::<(Seq<char>, Result<Seq<char>, Seq<char>>)>::empty());
    assert(rule_views(rules@) =~= Seq::<RuleView>::empty());
    assert(diag_views(diagnostics@) =~= Seq::<DiagView>::empty());
    while i < files.len()
        invariant
            i <= files@.len(),
            fv == file_views(files@),
            rule_views(rules@) == parsed_files(fv.take(i as int)).0,
            diag_views(diagnostics@) == parsed_files(fv.take(i as int)).1,
        decreases files.len() - i,
    {
        assert(fv.take(i + 1).drop_last() =~= fv.take(i as int));
        assert(fv.take(i + 1).last() == fv[i as int]);
        let rel = files[i].0.as_str();
        let parsed = match &files[i].1 {
            Ok(text) => parse_rule(rel, Ok(text.as_str())),
            Err(e) => parse_rule(rel, Err(e.as_str())),
        };
        let (rule, diags) = parsed;
        let ghost before_rules = rules@;
        let ghost before_diags = diagnostics@;
        let mut k: usize = 0;
        while k < diags.len()
            invariant
                k <= diags@.len(),
                diag_views(diagnostics@) == diag_views(before_diags) + diag_views(diags@).take(k as int),
            decreases diags.len() - k,
        {
            let d = Diagnostic { severity: diags[k].severity, message: diags[k].message.clone() };
            let ghost mid = diagnostics@;
            diagnostics.push(d);
            assert(diag_views(diagnostics@) =~= diag_views(mid).push(d@));
            assert(diag_views(diags@).take(k + 1) =~= diag_views(diags@).take(k as int).push(diags@[k as int]@));
            k = k + 1;
        }
        assert(diag_views(diags@).take(diags@.len() as int) =~= diag_views(diags@));
        match rule {
            Some(rule) => {
                rules.push(rule);
                assert(rule_views(rules@) =~= rule_views(before_rules).push(rules@.last()@));
            },
            None => {},
        }
        i = i + 1;
    }
    assert(fv.take(files@.len() as int) =~= fv);
    let ghost parsed_diags = diagnostics@;
    let ghost rs = rule_views(rules@);
    let mut k: usize = 0;
    assert(rs.take(0) =~= Seq::<RuleView>::empty());
    assert(diag_views(parsed_diags) + duplicate_diags(rs.take(0)) =~= diag_views(parsed_diags));
    while k < rules.len()
        invariant
            k <= rules@.len(),
            rs == rule_views(rules@),
            diag_views(diagnostics@) == diag_views(parsed_diags) + duplicate_diags(rs.take(k as int)),
        decreases rules.len() - k,
    {
        assert(rs.take(k + 1).drop_last() =~= rs.take(k as int));
        assert(rs.take(k + 1).last() == rules@[k as int]@);
        let ghost before = diagnostics@;
        match last_index_with_id(&rules, k, &rules[k].id) {
            Some(j) => {
                assert(rs.take(k as int)[j as int] == rules@[j as int]@);
                let d = Diagnostic::error(text6(
                    "duplicate rule id `",
                    rules[k].id.as_str(),
                    "` — declared in both ",
                    rules[j].rel.as_str(),
                    " and ",
                    rules[k].rel.as_str(),
                ));
                diagnostics.push(d);
                assert(diag_views(diagnostics@) =~= diag_views(before).push(d@));
            },
            None => {},
        }
        k = k + 1;
    }
    assert(rs.take(rules@.len() as int) =~= rs);
    (rules, diagnostics)
}

/// Whether any diagnostic is an error, so the caller can decide the exit code.
pub fn has_errors(diagnostics: &Vec<Diagnostic>) -> (r: bool)
    ensures
        r == any_error(diag_views(diagnostics@)),
{
    let mut i: usize = 0;
    while i < diagnostics.len()
        invariant
            i <= diagnostics@.len(),
            forall|j: int| 0 <= j < i ==> (#[trigger] diagnostics@[j]).severity != Severity::Error,
        decreases diagnostics.len() - i,
    {
        if diagnostics[i].severity == Severity::Error {
            assert(diag_views(diagnostics@)[i as int].0 == Severity::Error);
            return true;
        }
        i = i + 1;
    }
    proof {
        if any_error(diag_views(diagnostics@)) {
            let j = choose|j: int| 0 <= j < diag_views(diagnostics@).len() && (#[trigger] diag_views(diagnostics@)[j]).0 == Severity::Error;
            assert(diagnostics@[j].severity == Severity::Error);
        }
    }
    false
}

/// An addendum under `models/<target>/addenda/`, from what reading it produced.
pub fn load_addendum(name: &str, read: Result<String, String>) -> (r: Result<Section, String>)
    ensures
        match read {
            Ok(body) => r matches Ok(s) && s.name@ == name@ && s.body@ == body@,
            Err(e) => r matches Err(m) && m@ == e@,
        },
{
    match read {
        Ok(body) => Ok(Section { name: String::from_str(name), body }),
        Err(e) => Err(e),
    }
}

/// A file from the `memory/` layer, from what reading it produced.
pub fn load_memory(name: &str, read: Result<String, String>) -> (r: Result<Section, String>)
    ensures
        match read {
            Ok(body) => r matches Ok(s) && s.name@ == name@ && s.body@ == body@,
            Err(e) => r matches Err(m) && m@ == e@,
        },
{
    match read {
        Ok(body) => Ok(Section { name: String::from_str(name), body }),
        Err(e) => Err(e),
    }
}

// ---------------------------------------------------------------------------------------
// Reach
// ---------------------------------------------------------------------------------------

/// Everything the `rules` subcommand needs to report orphans.
pub struct RuleCensus {
    pub rule: Rule,
    /// Projects for which this rule activates.
    pub projects: Vec<String>,
}

/// The names of the projects an activation applies to, in the order given.
pub open spec fn activated_for(a: crate::model::Act, ps: Seq<ProjectView>) -> Seq<Seq<char>>
    decreases ps.len(),
{
    if ps.len() == 0 {
        seq![]
    } else {
        let before = activated_for(a, ps.drop_last());
        if act_matches(a, ps.last()) { before.push(ps.last().name) } else { before }
    }
}

pub open spec fn project_views(v: Seq<Project>) -> Seq<ProjectView> {
    v.map_values(|p: Project| p@)
}

/// Every rule, with the projects it activates for.
pub fn census(rules: &Vec<Rule>, projects: &Vec<Project>) -> (r: Vec<RuleCensus>)
    ensures
        r@.len() == rules@.len(),
        forall|i: int| 0 <= i < r@.len() ==> (#[trigger] r@[i]).rule@ == rules@[i]@
            && str_views(r@[i].projects@) == activated_for(rules@[i].activation@, project_views(projects@)),
{
    let mut out: Vec<RuleCensus> = Vec::new();
    let mut i: usize = 0;
    while i < rules.len()
        invariant
            i <= rules@.len(),
            out@.len() == i,
            forall|k: int| 0 <= k < i ==> (#[trigger] out@[k]).rule@ == rules@[k]@
                && str_views(out@[k].projects@) == activated_for(rules@[k].activation@, project_views(projects@)),
        decreases rules.len() - i,
    {
        let ghost pv = project_views(projects@);
        let mut names: Vec<String> = Vec::new();
        let mut j: usize = 0;
        assert(pv.take(0) =~= Seq::<ProjectView>::empty());
        assert(str_views(names@) =~= Seq::<Seq<char>>::empty());
        while j < projects.len()
            invariant
                j <= projects@.len(),
                i < rules@.len(),
                pv == project_views(projects@),
                str_views(names@) == activated_for(rules@[i as int].activation@, pv.take(j as int)),
            decreases projects.len() - j,
        {
            assert(pv.take(j + 1).drop_last() =~= pv.take(j as int));
            assert(pv.take(j + 1).last() == projects@[j as int]@);
            let ghost before = names@;
            if rules[i].activation.matches(&projects[j]) {
                names.push(projects[j].name.clone());
                assert(str_views(names@) =~= str_views(before).push(projects@[j as int].name@));
            }
            j = j + 1;
        }
        assert(pv.take(projects@.len() as int) =~= pv);
        out.push(RuleCensus { rule: rules[i].duplicate(), projects: names });
        i = i + 1;
    }
    out
}

/// Whether a target's `include:` entry names a rule: its id, or a prefix of its path.
pub open spec fn names_rule(entry: Seq<char>, rule: RuleView) -> bool {
    entry == rule.id || starts_with(rule.rel, entry)
}

/// Whether a target's list names the rule.
pub open spec fn listed(entries: Seq<Seq<char>>, rule: RuleView) -> bool {
    exists|i: int| 0 <= i < entries.len() && names_rule(#[trigger] entries[i], rule)
}

pub(crate) fn listed_exec(entries: &Vec<String>, rule: &Rule) -> (r: bool)
    ensures
        r == listed(str_views(entries@), rule@),
{
    let rel = chars_of(rule.rel.as_str());
    let mut i: usize = 0;
    while i < entries.len()
        invariant
            i <= entries@.len(),
            rel@ == rule.rel@,
            forall|j: int| 0 <= j < i ==> !names_rule(#[trigger] str_views(entries@)[j], rule@),
        decreases entries.len() - i,
    {
        if entries[i] == rule.id || starts_with_exec(&rel, &chars_of(entries[i].as_str())) {
            assert(names_rule(str_views(entries@)[i as int], rule@));
            return true;
        }
        i = i + 1;
    }
    false
}

/// True when the rule is reachable from some target's `include:` list.
pub fn included_by_some_target(rule: &Rule, targets: &Vec<Target>) -> (r: bool)
    ensures
        r == exists|i: int| 0 <= i < targets@.len() && listed((#[trigger] targets@[i])@.includes, rule@),
{
    let mut i: usize = 0;
    while i < targets.len()
        invariant
            i <= targets@.len(),
            forall|j: int| 0 <= j < i ==> !listed((#[trigger] targets@[j])@.includes, rule@),
        decreases targets.len() - i,
    {
        if listed_exec(&targets[i].includes, rule) {
            return true;
        }
        i = i + 1;
    }
    false
}

/// A project claims a directory when its `path:` is set and names it.
pub open spec fn claims(p: (ProjectView, Seq<char>), dir: Seq<char>) -> bool {
    p.0.path.len() > 0 && p.1 == dir
}

/// The first project to claim a directory.
pub open spec fn first_claimant(ps: Seq<(ProjectView, Seq<char>)>, dir: Seq<char>) -> Option<int>
    decreases ps.len(),
{
    if ps.len() == 0 {
        None
    } else if claims(ps[0], dir) {
        Some(0)
    } else {
        match first_claimant(ps.drop_first(), dir) {
            Some(p) => Some(p + 1),
            None => None,
        }
    }
}

/// The first directory, walking up from the one asked about, that a project claims as its
/// checkout, with the first project to claim it.
pub open spec fn claimed(ancestors: Seq<Seq<char>>, ps: Seq<(ProjectView, Seq<char>)>) -> Option<(int, int)>
    decreases ancestors.len(),
{
    if ancestors.len() == 0 {
        None
    } else {
        match first_claimant(ps, ancestors[0]) {
            Some(p) => Some((0, p)),
            None => match claimed(ancestors.drop_first(), ps) {
                Some((a, p)) => Some((a + 1, p)),
                None => None,
            },
        }
    }
}

pub open spec fn claim_views(v: Seq<(Project, String)>) -> Seq<(ProjectView, Seq<char>)> {
    v.map_values(|x: (Project, String)| (x.0@, x.1@))
}

fn first_claimant_exec(projects: &Vec<(Project, String)>, dir: &String) -> (r: Option<usize>)
    ensures
        match r {
            Some(p) => first_claimant(claim_views(projects@), dir@) == Some(p as int) && p < projects@.len(),
            None => first_claimant(claim_views(projects@), dir@) is None,
        },
{
    let ghost ps = claim_views(projects@);
    let mut p: usize = 0;
    assert(ps.skip(0) =~= ps);
    while p < projects.len()
        invariant
            p <= projects@.len(),
            ps == claim_views(projects@),
            first_claimant(ps, dir@) == (match first_claimant(ps.skip(p as int), dir@) {
                Some(q) => Some(q + p),
                None => None::<int>,
            }),
        decreases projects.len() - p,
    {
        assert(ps.skip(p as int)[0] == (projects@[p as int].0@, projects@[p as int].1@));
        if projects[p].0.path.as_str().unicode_len() > 0 && projects[p].1 == *dir {
            return Some(p);
        }
        assert(ps.skip(p as int).drop_first() =~= ps.skip(p + 1));
        p = p + 1;
    }
    None
}

/// The project that claims a directory — or the nearest ancestor of it that a project claims —
/// with the directory it claimed.
///
/// `ancestors` is the directory and its ancestors, nearest first, each in canonical form;
/// `projects` pairs each project with its `path:` expanded and canonicalised where it exists.
pub fn claiming_project(ancestors: &Vec<String>, projects: &Vec<(Project, String)>) -> (r: Option<(Project, String)>)
    ensures
        match r {
            Some((p, dir)) => claimed(str_views(ancestors@), claim_views(projects@)) matches Some((a, q))
                && dir@ == ancestors@[a]@ && p@ == projects@[q].0@,
            None => claimed(str_views(ancestors@), claim_views(projects@)) is None,
        },
{
    let ghost av = str_views(ancestors@);
    let ghost ps = claim_views(projects@);
    let mut a: usize = 0;
    assert(av.skip(0) =~= av);
    while a < ancestors.len()
        invariant
            a <= ancestors@.len(),
            av == str_views(ancestors@),
            ps == claim_views(projects@),
            claimed(av, ps) == (match claimed(av.skip(a as int), ps) {
                Some((x, q)) => Some((x + a, q)),
                None => None::<(int, int)>,
            }),
        decreases ancestors.len() - a,
    {
        assert(av.skip(a as int)[0] == ancestors@[a as int]@);
        match first_claimant_exec(projects, &ancestors[a]) {
            Some(p) => {
                assert(ps[p as int] == (projects@[p as int].0@, projects@[p as int].1@));
                return Some((projects[p].0.duplicate(), ancestors[a].clone()));
            },
            None => {},
        }
        assert(av.skip(a as int).drop_first() =~= av.skip(a + 1));
        a = a + 1;
    }
    None
}

} // verus!
