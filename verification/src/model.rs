//! The vocabulary: what a rule, a project and a target are.

use vstd::prelude::*;
use vstd::string::StringExecFns;

use crate::text::{
    copy_strings, chars_of, eq_chars, join, join_exec, lines, lines_of, push_char, push_chars, slice_of,
    starts_with, starts_with_exec, str_views, string_of, trim, trim_exec, trim_end, trim_start, is_ws, views,
};

verus! {

// ---------------------------------------------------------------------------------------
// Activation
// ---------------------------------------------------------------------------------------

/// When a rule is included in a resolved set.
#[derive(Debug, Clone, PartialEq, Eq)]
pub enum Activation {
    /// Every model, every language, every repo.
    Always,
    /// Only when the project declares the language.
    Language(String),
    /// Only when the project declares the org.
    Org(String),
    /// Exactly one project.
    Project(String),
    /// Never automatic — a target must name the rule in its list of rules to add.
    Manual,
}

/// What an [`Activation`] says, as plain text.
pub ghost enum Act {
    Always,
    Language(Seq<char>),
    Org(Seq<char>),
    Project(Seq<char>),
    Manual,
}

impl View for Activation {
    type V = Act;

    open spec fn view(&self) -> Act {
        match self {
            Activation::Always => Act::Always,
            Activation::Language(l) => Act::Language(l@),
            Activation::Org(o) => Act::Org(o@),
            Activation::Project(p) => Act::Project(p@),
            Activation::Manual => Act::Manual,
        }
    }
}

/// `value` trimmed, or the complaint that `whole` names nothing.
pub open spec fn named(value: Seq<char>, whole: Seq<char>) -> Result<Seq<char>, Seq<char>> {
    if trim(value).len() == 0 {
        Err("`"@ + whole + "` names nothing"@)
    } else {
        Ok(trim(value))
    }
}

pub open spec fn act_with(r: Result<Seq<char>, Seq<char>>, kind: int) -> Result<Act, Seq<char>> {
    match r {
        Ok(v) => Ok(if kind == 0 { Act::Language(v) } else if kind == 1 { Act::Org(v) } else { Act::Project(v) }),
        Err(e) => Err(e),
    }
}

/// What `Activation::parse` reads `raw` as.
pub open spec fn activation_of(raw: Seq<char>) -> Result<Act, Seq<char>> {
    let t = trim(raw);
    if t.len() == 0 || t == "always"@ {
        Ok(Act::Always)
    } else if t == "manual"@ {
        Ok(Act::Manual)
    } else if starts_with(t, "language:"@) {
        act_with(named(t.skip(9), t), 0)
    } else if starts_with(t, "org:"@) {
        act_with(named(t.skip(4), t), 1)
    } else if starts_with(t, "project:"@) {
        act_with(named(t.skip(8), t), 2)
    } else {
        Err("unknown activation `"@ + t
            + "` — expected always, manual, language:<name>, org:<name> or project:<name>"@)
    }
}

/// The text an activation is written as.
pub open spec fn act_text(a: Act) -> Seq<char> {
    match a {
        Act::Always => "always"@,
        Act::Manual => "manual"@,
        Act::Language(l) => "language:"@ + l,
        Act::Org(o) => "org:"@ + o,
        Act::Project(p) => "project:"@ + p,
    }
}

/// The kind of an activation: the text it is written as, up to its first `:`.
pub open spec fn act_kind(a: Act) -> Seq<char> {
    match a {
        Act::Always => "always"@,
        Act::Manual => "manual"@,
        Act::Language(_) => "language"@,
        Act::Org(_) => "org"@,
        Act::Project(_) => "project"@,
    }
}

/// Does an activation apply to a project?
pub open spec fn act_matches(a: Act, p: ProjectView) -> bool {
    match a {
        Act::Always => true,
        Act::Manual => false,
        Act::Language(l) => p.languages.contains(l),
        Act::Org(o) => p.org == Some(o),
        Act::Project(n) => p.name == n,
    }
}

proof fn lemma_trim_end_len(s: Seq<char>)
    ensures
        trim_end(s).len() <= s.len(),
        trim_end(s).len() == s.len() ==> trim_end(s) == s,
    decreases s.len(),
{
    if s.len() > 0 && is_ws(s.last()) {
        lemma_trim_end_len(s.drop_last());
    }
}

proof fn lemma_trim_start_len(s: Seq<char>)
    ensures
        trim_start(s).len() <= s.len(),
        trim_start(s).len() == s.len() ==> trim_start(s) == s,
    decreases s.len(),
{
    if s.len() > 0 && is_ws(s[0]) {
        lemma_trim_start_len(s.drop_first());
    }
}

/// A text that trimming leaves as it is, and that is not empty, ends in a character that is
/// not whitespace.
proof fn lemma_trimmed_ends_plain(s: Seq<char>)
    requires
        s.len() > 0,
        trim(s) == s,
    ensures
        !is_ws(s.last()),
{
    lemma_trim_start_len(s);
    lemma_trim_end_len(trim_start(s));
    assert(trim_start(s) == s);
    if is_ws(s.last()) {
        lemma_trim_end_len(s.drop_last());
        assert(trim_end(s) == trim_end(s.drop_last()));
        assert(false);
    }
}

/// Prefixing a text that trimming leaves as it is with a word that starts with a letter gives
/// a text that trimming leaves as it is.
proof fn lemma_prefixed_is_trimmed(p: Seq<char>, s: Seq<char>)
    requires
        p.len() > 0,
        !is_ws(p[0]),
        s.len() > 0,
        trim(s) == s,
    ensures
        trim(p + s) == p + s,
{
    lemma_trimmed_ends_plain(s);
    let t = p + s;
    assert(t[0] == p[0]);
    assert(trim_start(t) == t);
    assert(t.last() == s.last());
    assert(trim_end(t) == t);
}

/// Writing an activation and reading it back gives the same activation, for every activation
/// whose name is not empty and carries no surrounding whitespace.
pub proof fn law_activation_reads_back(a: Act)
    requires
        match a {
            Act::Language(s) => s.len() > 0 && trim(s) == s,
            Act::Org(s) => s.len() > 0 && trim(s) == s,
            Act::Project(s) => s.len() > 0 && trim(s) == s,
            _ => true,
        },
    ensures
        activation_of(act_text(a)) == Ok::<Act, Seq<char>>(a),
{
    reveal_strlit("always");
    reveal_strlit("manual");
    reveal_strlit("language:");
    reveal_strlit("org:");
    reveal_strlit("project:");
    let t = act_text(a);
    match a {
        Act::Always => {
            assert(trim_start(t) == t);
            assert(trim_end(t) == t);
        },
        Act::Manual => {
            assert(trim_start(t) == t);
            assert(trim_end(t) == t);
            assert(t != "always"@);
        },
        Act::Language(s) => {
            lemma_prefixed_is_trimmed("language:"@, s);
            assert(t.len() > 0 && t != "always"@ && t != "manual"@) by {
                assert(t[0] == 'l');
            }
            assert(t.take(9) =~= "language:"@);
            assert(t.skip(9) =~= s);
        },
        Act::Org(s) => {
            lemma_prefixed_is_trimmed("org:"@, s);
            assert(t.len() > 0 && t != "always"@ && t != "manual"@) by {
                assert(t[0] == 'o');
            }
            assert(!starts_with(t, "language:"@)) by {
                if t.len() >= 9 {
                    assert(t.take(9)[0] == 'o');
                }
            }
            assert(t.take(4) =~= "org:"@);
            assert(t.skip(4) =~= s);
        },
        Act::Project(s) => {
            lemma_prefixed_is_trimmed("project:"@, s);
            assert(t.len() > 0 && t != "always"@ && t != "manual"@) by {
                assert(t[0] == 'p');
            }
            assert(!starts_with(t, "language:"@)) by {
                if t.len() >= 9 {
                    assert(t.take(9)[0] == 'p');
                }
            }
            assert(!starts_with(t, "org:"@)) by {
                assert(t.take(4)[0] == 'p');
            }
            assert(t.take(8) =~= "project:"@);
            assert(t.skip(8) =~= s);
        },
    }
}

fn non_empty(value: &[char], whole: &[char]) -> (r: Result<String, String>)
    ensures
        match r {
            Ok(v) => named(value@, whole@) == Ok::<Seq<char>, Seq<char>>(v@),
            Err(e) => named(value@, whole@) == Err::<Seq<char>, Seq<char>>(e@),
        },
{
    let v = trim_exec(value);
    if v.len() == 0 {
        let mut e = String::from_str("`");
        push_chars(&mut e, whole);
        e.append("` names nothing");
        return Err(e);
    }
    Ok(string_of(&v))
}

impl Activation {
    pub fn parse(raw: &str) -> (r: Result<Self, String>)
        ensures
            match r {
                Ok(a) => activation_of(raw@) == Ok::<Act, Seq<char>>(a@),
                Err(e) => activation_of(raw@) == Err::<Act, Seq<char>>(e@),
            },
    {
        let t = trim_exec(&chars_of(raw));
        if t.len() == 0 || eq_chars(&t, &chars_of("always")) {
            return Ok(Activation::Always);
        }
        if eq_chars(&t, &chars_of("manual")) {
            return Ok(Activation::Manual);
        }
        let language = chars_of("language:");
        if starts_with_exec(&t, &language) {
            proof {
                reveal_strlit("language:");
            }
            return match non_empty(&slice_of(&t, 9, t.len()), &t) {
                Ok(v) => Ok(Activation::Language(v)),
                Err(e) => Err(e),
            };
        }
        let org = chars_of("org:");
        if starts_with_exec(&t, &org) {
            proof {
                reveal_strlit("org:");
            }
            return match non_empty(&slice_of(&t, 4, t.len()), &t) {
                Ok(v) => Ok(Activation::Org(v)),
                Err(e) => Err(e),
            };
        }
        let project = chars_of("project:");
        if starts_with_exec(&t, &project) {
            proof {
                reveal_strlit("project:");
            }
            return match non_empty(&slice_of(&t, 8, t.len()), &t) {
                Ok(v) => Ok(Activation::Project(v)),
                Err(e) => Err(e),
            };
        }
        let mut e = String::from_str("unknown activation `");
        push_chars(&mut e, &t);
        e.append("` — expected always, manual, language:<name>, org:<name> or project:<name>");
        Err(e)
    }

    /// Does this rule activate for `project`?
    pub fn matches(&self, project: &Project) -> (r: bool)
        ensures
            r == act_matches(self@, project@),
    {
        match self {
            Activation::Always => true,
            Activation::Manual => false,
            Activation::Language(lang) => contains_string(&project.languages, lang.as_str()),
            Activation::Org(org) => match &project.org {
                Some(o) => eq_chars(&chars_of(o.as_str()), &chars_of(org.as_str())),
                None => false,
            },
            Activation::Project(name) => eq_chars(
                &chars_of(project.name.as_str()),
                &chars_of(name.as_str()),
            ),
        }
    }

    /// The activation's kind, as a target's `exclude_activation` names it.
    pub fn kind(&self) -> (r: &'static str)
        ensures
            r@ == act_kind(self@),
    {
        match self {
            Activation::Always => "always",
            Activation::Manual => "manual",
            Activation::Language(_) => "language",
            Activation::Org(_) => "org",
            Activation::Project(_) => "project",
        }
    }

    pub fn as_str(&self) -> (r: String)
        ensures
            r@ == act_text(self@),
    {
        match self {
            Activation::Always => String::from_str("always"),
            Activation::Manual => String::from_str("manual"),
            Activation::Language(l) => {
                let mut s = String::from_str("language:");
                s.append(l.as_str());
                s
            },
            Activation::Org(o) => {
                let mut s = String::from_str("org:");
                s.append(o.as_str());
                s
            },
            Activation::Project(p) => {
                let mut s = String::from_str("project:");
                s.append(p.as_str());
                s
            },
        }
    }
}

/// Whether `list` holds `item`.
pub fn contains_string(list: &Vec<String>, item: &str) -> (r: bool)
    ensures
        r == str_views(list@).contains(item@),
{
    let target = chars_of(item);
    let mut i: usize = 0;
    while i < list.len()
        invariant
            i <= list@.len(),
            target@ == item@,
            forall|j: int| 0 <= j < i ==> (#[trigger] list@[j])@ != item@,
        decreases list.len() - i,
    {
        if eq_chars(&chars_of(list[i].as_str()), &target) {
            assert(str_views(list@)[i as int] == item@);
            return true;
        }
        i = i + 1;
    }
    proof {
        if str_views(list@).contains(item@) {
            let j = choose|j: int| 0 <= j < str_views(list@).len() && str_views(list@)[j] == item@;
            assert(list@[j]@ == item@);
        }
    }
    false
}

// ---------------------------------------------------------------------------------------
// Layer
// ---------------------------------------------------------------------------------------

/// Where a rule sits in the precedence order.
///
/// The layer name in frontmatter is one of `core`, `org`, `project` or
/// `language:<name>` — spelled out rather than bare (`language:rust`, not `rust`) so
/// that a typo fails to parse instead of silently sorting into the wrong place.
#[derive(Debug, Clone, PartialEq, Eq, PartialOrd, Ord)]
pub enum Layer {
    Core,
    Language(String),
    Org,
    Project,
}

/// What a [`Layer`] says, as plain text.
pub ghost enum Lay {
    Core,
    Language(Seq<char>),
    Org,
    Project,
}

impl View for Layer {
    type V = Lay;

    open spec fn view(&self) -> Lay {
        match self {
            Layer::Core => Lay::Core,
            Layer::Language(l) => Lay::Language(l@),
            Layer::Org => Lay::Org,
            Layer::Project => Lay::Project,
        }
    }
}

/// What `Layer::parse` reads `raw` as.
pub open spec fn layer_of(raw: Seq<char>) -> Result<Lay, Seq<char>> {
    let t = trim(raw);
    if t == "core"@ {
        Ok(Lay::Core)
    } else if t == "org"@ {
        Ok(Lay::Org)
    } else if t == "project"@ {
        Ok(Lay::Project)
    } else if starts_with(t, "language:"@) && trim(t.skip(9)).len() > 0 {
        Ok(Lay::Language(trim(t.skip(9))))
    } else {
        Err("unknown layer `"@ + t + "` — expected core, org, project or language:<name>"@)
    }
}

pub open spec fn lay_rank(l: Lay) -> int {
    match l {
        Lay::Core => 10,
        Lay::Language(_) => 20,
        Lay::Org => 30,
        Lay::Project => 40,
    }
}

pub open spec fn lay_text(l: Lay) -> Seq<char> {
    match l {
        Lay::Core => "core"@,
        Lay::Language(n) => "language:"@ + n,
        Lay::Org => "org"@,
        Lay::Project => "project"@,
    }
}

impl Layer {
    pub fn parse(raw: &str) -> (r: Result<Self, String>)
        ensures
            match r {
                Ok(l) => layer_of(raw@) == Ok::<Lay, Seq<char>>(l@),
                Err(e) => layer_of(raw@) == Err::<Lay, Seq<char>>(e@),
            },
    {
        let t = trim_exec(&chars_of(raw));
        if eq_chars(&t, &chars_of("core")) {
            return Ok(Layer::Core);
        }
        if eq_chars(&t, &chars_of("org")) {
            return Ok(Layer::Org);
        }
        if eq_chars(&t, &chars_of("project")) {
            return Ok(Layer::Project);
        }
        let language = chars_of("language:");
        if starts_with_exec(&t, &language) {
            proof {
                reveal_strlit("language:");
            }
            let name = trim_exec(&slice_of(&t, 9, t.len()));
            if name.len() > 0 {
                return Ok(Layer::Language(string_of(&name)));
            }
        }
        let mut e = String::from_str("unknown layer `");
        push_chars(&mut e, &t);
        e.append("` — expected core, org, project or language:<name>");
        Err(e)
    }

    pub fn rank(&self) -> (r: u8)
        ensures
            r == lay_rank(self@),
    {
        match self {
            Layer::Core => 10,
            Layer::Language(_) => 20,
            Layer::Org => 30,
            Layer::Project => 40,
        }
    }

    pub fn as_str(&self) -> (r: String)
        ensures
            r@ == lay_text(self@),
    {
        match self {
            Layer::Core => String::from_str("core"),
            Layer::Language(l) => {
                let mut s = String::from_str("language:");
                s.append(l.as_str());
                s
            },
            Layer::Org => String::from_str("org"),
            Layer::Project => String::from_str("project"),
        }
    }
}

// ---------------------------------------------------------------------------------------
// Rules
// ---------------------------------------------------------------------------------------

/// One standing constraint.
///
/// The body is split into two sections, and the split is the point: `directive` is what the
/// compiler emits, `rationale` is why the rule exists and stays at source. The compiled block
/// is optimised for an agent's attention budget; the argument for the rule is optimised for
/// the person deciding whether to keep it.
#[derive(Debug, Clone)]
pub struct Rule {
    pub id: String,
    pub title: String,
    pub layer: Layer,
    pub activation: Activation,
    pub priority: i32,
    pub overrides: Vec<String>,
    pub targets: Vec<String>,
    /// Path relative to the playbook root, e.g. `rules/core/working-first.md`.
    pub rel: String,
    /// The terse direction. Emitted.
    pub directive: String,
    /// The incident, the measurement, the history. Not emitted.
    pub rationale: String,
}

pub ghost struct RuleView {
    pub id: Seq<char>,
    pub title: Seq<char>,
    pub layer: Lay,
    pub activation: Act,
    pub priority: int,
    pub overrides: Seq<Seq<char>>,
    pub targets: Seq<Seq<char>>,
    pub rel: Seq<char>,
    pub directive: Seq<char>,
    pub rationale: Seq<char>,
}

impl View for Rule {
    type V = RuleView;

    open spec fn view(&self) -> RuleView {
        RuleView {
            id: self.id@,
            title: self.title@,
            layer: self.layer@,
            activation: self.activation@,
            priority: self.priority as int,
            overrides: str_views(self.overrides@),
            targets: str_views(self.targets@),
            rel: self.rel@,
            directive: self.directive@,
            rationale: self.rationale@,
        }
    }
}

pub open spec fn is_bullet(t: Seq<char>) -> bool {
    starts_with(t, "- "@) || starts_with(t, "* "@)
}

pub open spec fn blank(line: Seq<char>) -> bool {
    trim(line).len() == 0
}

/// The position of the first line that is not blank, or `ls.len()`.
pub open spec fn first_nonblank(ls: Seq<Seq<char>>) -> nat
    decreases ls.len(),
{
    if ls.len() == 0 {
        0
    } else if !blank(ls[0]) {
        0
    } else {
        1 + first_nonblank(ls.drop_first())
    }
}

/// The position of the last line that is not blank, or -1.
pub open spec fn last_nonblank(ls: Seq<Seq<char>>) -> int
    decreases ls.len(),
{
    if ls.len() == 0 {
        -1
    } else if !blank(ls.last()) {
        ls.len() - 1
    } else {
        last_nonblank(ls.drop_last())
    }
}

/// Whether a line after the first continues the lead. Inside a bullet, continuations are
/// indented, including nested bullets; inside a prose paragraph, a bullet stops it.
pub open spec fn continues(line: Seq<char>, bullet: bool) -> bool {
    if bullet {
        starts_with(line, "  "@) || starts_with(line, "\t"@)
    } else {
        !is_bullet(trim(line))
    }
}

/// The continuation lines of a lead, each trimmed and prefixed by a space.
pub open spec fn lead_tail(ls: Seq<Seq<char>>, bullet: bool) -> Seq<char>
    decreases ls.len(),
{
    if ls.len() == 0 || blank(ls[0]) || !continues(ls[0], bullet) {
        seq![]
    } else {
        " "@ + trim(ls[0]) + lead_tail(ls.drop_first(), bullet)
    }
}

/// The lead of a directive: its first complete instruction.
pub open spec fn lead_of(directive: Seq<char>) -> Seq<char> {
    let ls = lines(directive);
    let s = first_nonblank(ls) as int;
    if s >= ls.len() {
        seq![]
    } else {
        let first = trim(ls[s]);
        let bullet = is_bullet(first);
        (if bullet { first.skip(2) } else { first }) + lead_tail(ls.skip(s + 1), bullet)
    }
}

proof fn lemma_first_nonblank(ls: Seq<Seq<char>>, i: int)
    requires
        0 <= i <= ls.len(),
        forall|j: int| 0 <= j < i ==> blank(#[trigger] ls[j]),
        i < ls.len() ==> !blank(ls[i]),
    ensures
        first_nonblank(ls) == i,
    decreases i,
{
    if i > 0 {
        assert(blank(ls[0]));
        lemma_first_nonblank(ls.drop_first(), i - 1);
    }
}

proof fn lemma_last_nonblank(ls: Seq<Seq<char>>, i: int)
    requires
        -1 <= i < ls.len(),
        forall|j: int| i < j < ls.len() ==> blank(#[trigger] ls[j]),
        i >= 0 ==> !blank(ls[i]),
    ensures
        last_nonblank(ls) == i,
    decreases ls.len(),
{
    if ls.len() > 0 && i < ls.len() - 1 {
        assert(blank(ls.last()));
        lemma_last_nonblank(ls.drop_last(), i);
    }
}

fn is_bullet_exec(t: &[char]) -> (r: bool)
    ensures
        r == is_bullet(t@),
{
    starts_with_exec(t, &chars_of("- ")) || starts_with_exec(t, &chars_of("* "))
}

fn is_blank_exec(line: &[char]) -> (r: bool)
    ensures
        r == blank(line@),
{
    trim_exec(line).len() == 0
}

impl Rule {
    /// The actionable lead, repeated verbatim by a target's `emphasis:`.
    ///
    /// Directives are written two ways — as a prose lead paragraph, or as a bullet list — and
    /// the lead has to be the same thing in both cases: the first complete instruction. For a
    /// bullet list that is the first bullet plus its continuation lines, not the whole list
    /// run together into a paragraph.
    pub fn lead(&self) -> (r: String)
        ensures
            r@ == lead_of(self.directive@),
    {
        let ls = lines_of(&chars_of(self.directive.as_str()));
        let ghost lv = views(ls@);
        assert(lv == lines(self.directive@));
        let mut start: usize = 0;
        while start < ls.len() && is_blank_exec(&ls[start])
            invariant
                lv == views(ls@),
                start <= ls@.len(),
                forall|j: int| 0 <= j < start ==> blank(#[trigger] lv[j]),
            decreases ls.len() - start,
        {
            start = start + 1;
        }
        proof {
            lemma_first_nonblank(lv, start as int);
        }
        if start == ls.len() {
            return String::new();
        }
        let first = trim_exec(&ls[start]);
        let bullet = is_bullet_exec(&first);
        let mut out = if bullet {
            proof {
                reveal_strlit("- ");
                reveal_strlit("* ");
            }
            string_of(&slice_of(&first, 2, first.len()))
        } else {
            string_of(&first)
        };
        let mut k = start + 1;
        proof {
            assert(lv.skip(start as int + 1) =~= lv.skip(k as int));
        }
        while k < ls.len()
            invariant
                lv == views(ls@),
                start < k <= ls@.len(),
                lead_of(self.directive@) == out@ + lead_tail(lv.skip(k as int), bullet),
                bullet == is_bullet(trim(lv[start as int])),
            ensures
                lead_of(self.directive@) == out@,
            decreases ls.len() - k,
        {
            assert(lv.skip(k as int)[0] == lv[k as int]);
            assert(lv.skip(k as int).drop_first() =~= lv.skip(k + 1));
            assert(ls@[k as int]@ == lv[k as int]);
            let trimmed = trim_exec(&ls[k]);
            if trimmed.len() == 0 {
                assert(out@ + Seq::<char>::empty() =~= out@);
                break;
            }
            let continues = if bullet {
                starts_with_exec(&ls[k], &chars_of("  ")) || starts_with_exec(&ls[k], &chars_of("\t"))
            } else {
                !is_bullet_exec(&trimmed)
            };
            if !continues {
                proof {
                    reveal_strlit("  ");
                    reveal_strlit("\t");
                    reveal_strlit("- ");
                    reveal_strlit("* ");
                }
                assert(out@ + Seq::<char>::empty() =~= out@);
                break;
            }
            let ghost before = out@;
            push_char(&mut out, ' ');
            push_chars(&mut out, &trimmed);
            proof {
                reveal_strlit(" ");
                assert(" "@ =~= seq![' ']);
                assert(out@ =~= before + (" "@ + trim(lv[k as int])));
                assert(before + (" "@ + trim(lv[k as int]) + lead_tail(lv.skip(k + 1), bullet))
                    =~= out@ + lead_tail(lv.skip(k + 1), bullet));
            }
            k = k + 1;
        }
        out
    }

    pub fn short_id(&self) -> (r: &str)
        ensures
            r@ == self.id@,
    {
        self.id.as_str()
    }
}

// ---------------------------------------------------------------------------------------
// Sections of a rule body
// ---------------------------------------------------------------------------------------

/// A character's ASCII lowercase code.
pub open spec fn lower_code(c: char) -> int {
    if 'A' <= c && c <= 'Z' {
        (c as int) + 32
    } else {
        c as int
    }
}

/// `eq_ignore_ascii_case`.
pub open spec fn ci_eq(a: Seq<char>, b: Seq<char>) -> bool {
    a.len() == b.len() && forall|i: int| 0 <= i < a.len() ==> lower_code(#[trigger] a[i]) == lower_code(b[i])
}

/// A `## <name>` heading, in any case.
pub open spec fn is_section(line: Seq<char>, name: Seq<char>) -> bool {
    let t = trim(line);
    starts_with(t, "## "@) && ci_eq(trim(t.skip(3)), name)
}

/// Lines to the directive and to the rationale, as `split_sections` reads them.
pub open spec fn sections_of(ls: Seq<Seq<char>>) -> (Seq<Seq<char>>, Seq<Seq<char>>, bool, bool)
    decreases ls.len(),
{
    if ls.len() == 0 {
        (seq![], seq![], false, false)
    } else {
        let (d, r, has, inr) = sections_of(ls.drop_last());
        let line = ls.last();
        if is_section(line, "directive"@) {
            (d, r, true, inr)
        } else if is_section(line, "rationale"@) {
            (d, r, has, true)
        } else if inr {
            (d, r.push(line), has, inr)
        } else {
            (d.push(line), r, has, inr)
        }
    }
}

/// Lines with the blank ones at either end dropped, joined by newlines.
pub open spec fn trim_blank_lines(ls: Seq<Seq<char>>) -> Seq<char> {
    let s = first_nonblank(ls) as int;
    if s >= ls.len() {
        seq![]
    } else {
        join(ls.subrange(s, last_nonblank(ls) + 1), "\n"@)
    }
}

/// Split a rule body into its directive and rationale sections.
///
/// `## Directive` runs to `## Rationale` (or the end of the file); anything before
/// `## Directive` is prepended to the directive rather than dropped, so a stray preamble
/// costs verbosity instead of losing content. A body with no `## Directive` at all is
/// returned whole, with `has_directive` false so the loader can warn — the test suite is
/// what makes it a hard failure.
pub struct Sections {
    pub directive: String,
    pub rationale: String,
    pub has_directive: bool,
}

fn ci_char_eq(a: char, b: char) -> (r: bool)
    ensures
        r == (lower_code(a) == lower_code(b)),
{
    let x = if 'A' <= a && a <= 'Z' { (a as u32) + 32 } else { a as u32 };
    let y = if 'A' <= b && b <= 'Z' { (b as u32) + 32 } else { b as u32 };
    x == y
}

fn is_section_exec(line: &[char], name: &[char]) -> (r: bool)
    ensures
        r == is_section(line@, name@),
{
    let t = trim_exec(line);
    if !starts_with_exec(&t, &chars_of("## ")) {
        return false;
    }
    proof {
        reveal_strlit("## ");
    }
    let rest = trim_exec(&slice_of(&t, 3, t.len()));
    assert(t@.subrange(3, t@.len() as int) =~= t@.skip(3));
    if rest.len() != name.len() {
        return false;
    }
    let mut i: usize = 0;
    while i < rest.len()
        invariant
            rest@.len() == name@.len(),
            rest@ == trim(trim(line@).skip(3)),
            starts_with(trim(line@), "## "@),
            i <= rest@.len(),
            forall|j: int| 0 <= j < i ==> lower_code(#[trigger] rest@[j]) == lower_code(name@[j]),
        decreases rest.len() - i,
    {
        if !ci_char_eq(rest[i], name[i]) {
            assert(lower_code(rest@[i as int]) != lower_code(name@[i as int]));
            return false;
        }
        i = i + 1;
    }
    true
}

fn trim_blank(lines: &Vec<Vec<char>>) -> (r: String)
    ensures
        r@ == trim_blank_lines(views(lines@)),
{
    let ghost lv = views(lines@);
    let mut start: usize = 0;
    while start < lines.len() && is_blank_exec(&lines[start])
        invariant
            lv == views(lines@),
            start <= lines@.len(),
            forall|j: int| 0 <= j < start ==> blank(#[trigger] lv[j]),
        decreases lines.len() - start,
    {
        start = start + 1;
    }
    proof {
        lemma_first_nonblank(lv, start as int);
    }
    if start == lines.len() {
        return String::new();
    }
    let mut end = lines.len() - 1;
    while is_blank_exec(&lines[end])
        invariant
            lv == views(lines@),
            start <= end < lines@.len(),
            !blank(lv[start as int]),
            forall|j: int| end < j < lines@.len() ==> blank(#[trigger] lv[j]),
        decreases end,
    {
        end = end - 1;
    }
    proof {
        lemma_last_nonblank(lv, end as int);
    }
    let mut kept: Vec<Vec<char>> = Vec::new();
    let mut i = start;
    while i <= end
        invariant
            lv == views(lines@),
            lines@.len() == lines.len(),
            start <= i <= end + 1,
            end < lines@.len(),
            views(kept@) == lv.subrange(start as int, i as int),
        decreases end + 1 - i,
    {
        let ghost before = views(kept@);
        kept.push(slice_of(&lines[i], 0, lines[i].len()));
        assert(lines@[i as int]@.subrange(0, lines@[i as int]@.len() as int) =~= lv[i as int]);
        assert(views(kept@) =~= before.push(lv[i as int]));
        assert(views(kept@) =~= lv.subrange(start as int, i + 1));
        i = i + 1;
    }
    string_of(&join_exec(&kept, &chars_of("\n")))
}

pub fn split_sections(body: &str) -> (r: Sections)
    ensures
        r.directive@ == trim_blank_lines(sections_of(lines(body@)).0),
        r.rationale@ == trim_blank_lines(sections_of(lines(body@)).1),
        r.has_directive == sections_of(lines(body@)).2,
{
    let ls = lines_of(&chars_of(body));
    let ghost lv = views(ls@);
    let directive_name = chars_of("directive");
    let rationale_name = chars_of("rationale");
    let mut directive: Vec<Vec<char>> = Vec::new();
    let mut rationale: Vec<Vec<char>> = Vec::new();
    let mut has_directive = false;
    let mut in_rationale = false;
    let mut i: usize = 0;
    while i < ls.len()
        invariant
            lv == views(ls@),
            lv == lines(body@),
            directive_name@ == "directive"@,
            rationale_name@ == "rationale"@,
            i <= ls@.len(),
            sections_of(lv.take(i as int)) == (views(directive@), views(rationale@), has_directive, in_rationale),
        decreases ls.len() - i,
    {
        assert(lv.take(i + 1).drop_last() =~= lv.take(i as int));
        assert(ls@[i as int]@ == lv[i as int]);
        if is_section_exec(&ls[i], &directive_name) {
            has_directive = true;
        } else if is_section_exec(&ls[i], &rationale_name) {
            in_rationale = true;
        } else if in_rationale {
            let ghost before = views(rationale@);
            rationale.push(slice_of(&ls[i], 0, ls[i].len()));
            assert(ls@[i as int]@.subrange(0, ls@[i as int]@.len() as int) =~= lv[i as int]);
            assert(views(rationale@) =~= before.push(lv[i as int]));
        } else {
            let ghost before = views(directive@);
            directive.push(slice_of(&ls[i], 0, ls[i].len()));
            assert(ls@[i as int]@.subrange(0, ls@[i as int]@.len() as int) =~= lv[i as int]);
            assert(views(directive@) =~= before.push(lv[i as int]));
        }
        i = i + 1;
    }
    assert(lv.take(ls@.len() as int) =~= lv);
    Sections {
        directive: trim_blank(&directive),
        rationale: trim_blank(&rationale),
        has_directive,
    }
}

// ---------------------------------------------------------------------------------------
// Projects and targets
// ---------------------------------------------------------------------------------------

/// A repository the playbook knows about.
#[derive(Debug, Clone)]
pub struct Project {
    pub name: String,
    pub path: String,
    pub org: Option<String>,
    pub languages: Vec<String>,
    pub default_target: Option<String>,
}

pub ghost struct ProjectView {
    pub name: Seq<char>,
    pub path: Seq<char>,
    pub org: Option<Seq<char>>,
    pub languages: Seq<Seq<char>>,
    pub default_target: Option<Seq<char>>,
}

pub open spec fn opt_view(o: Option<String>) -> Option<Seq<char>> {
    match o {
        Some(s) => Some(s@),
        None => None,
    }
}

impl View for Project {
    type V = ProjectView;

    open spec fn view(&self) -> ProjectView {
        ProjectView {
            name: self.name@,
            path: self.path@,
            org: opt_view(self.org),
            languages: str_views(self.languages@),
            default_target: opt_view(self.default_target),
        }
    }
}

/// A consumer of rules — usually a model+harness pair.
#[derive(Debug, Clone)]
pub struct Target {
    pub name: String,
    pub model: String,
    pub harness: String,
    /// The heading for the generated block. Defaults to `Agent rules`.
    pub title: String,
    pub includes: Vec<String>,
    pub exclude: Vec<String>,
    /// Activation kinds to drop, e.g. `always`.
    ///
    /// For a target whose rules are delivered somewhere else. The personal instructions file
    /// is the worked case: the universal rules ship in each repository's block, so repeating
    /// them in a file that loads for every project is duplication with no reader.
    pub exclude_activation: Vec<String>,
    pub emphasis: Vec<String>,
    pub addenda: Vec<String>,
    /// Files under `memory/`, emitted after the rules.
    pub memory: Vec<String>,
    pub default_file: String,
    /// The harness's instruction-file priority order, most significant first.
    ///
    /// Only meaningful for harnesses that read a single file — see
    /// [`crate::install::shadowing_files`]. Empty means the harness merges every file it
    /// finds, so nothing can shadow anything.
    pub instruction_files: Vec<String>,
}

pub ghost struct TargetView {
    pub name: Seq<char>,
    pub model: Seq<char>,
    pub harness: Seq<char>,
    pub title: Seq<char>,
    pub includes: Seq<Seq<char>>,
    pub exclude: Seq<Seq<char>>,
    pub exclude_activation: Seq<Seq<char>>,
    pub emphasis: Seq<Seq<char>>,
    pub addenda: Seq<Seq<char>>,
    pub memory: Seq<Seq<char>>,
    pub default_file: Seq<char>,
    pub instruction_files: Seq<Seq<char>>,
}

impl View for Target {
    type V = TargetView;

    open spec fn view(&self) -> TargetView {
        TargetView {
            name: self.name@,
            model: self.model@,
            harness: self.harness@,
            title: self.title@,
            includes: str_views(self.includes@),
            exclude: str_views(self.exclude@),
            exclude_activation: str_views(self.exclude_activation@),
            emphasis: str_views(self.emphasis@),
            addenda: str_views(self.addenda@),
            memory: str_views(self.memory@),
            default_file: self.default_file@,
            instruction_files: str_views(self.instruction_files@),
        }
    }
}

/// A block of prose appended to the generated output — an addendum, or a memory file.
///
/// One shape for both, because they are the same thing mechanically: a markdown file from a
/// directory, demoted one heading level and appended. They differ only in what they are for
/// and where they sit in the output.
#[derive(Debug, Clone)]
pub struct Section {
    pub name: String,
    pub body: String,
}

// ---------------------------------------------------------------------------------------
// Diagnostics
// ---------------------------------------------------------------------------------------

#[derive(Debug, Clone, Copy, PartialEq, Eq, Structural)]
pub enum Severity {
    Warning,
    Error,
}

#[derive(Debug, Clone)]
pub struct Diagnostic {
    pub severity: Severity,
    pub message: String,
}

impl Diagnostic {
    pub fn error(message: String) -> (r: Self)
        ensures
            r.severity == Severity::Error,
            r.message@ == message@,
    {
        Diagnostic { severity: Severity::Error, message }
    }

    pub fn warning(message: String) -> (r: Self)
        ensures
            r.severity == Severity::Warning,
            r.message@ == message@,
    {
        Diagnostic { severity: Severity::Warning, message }
    }

    /// `error: …` or `warning: …`, as the diagnostic is printed.
    pub fn to_text(&self) -> (r: String)
        ensures
            r@ == (if self.severity == Severity::Error { "error"@ } else { "warning"@ }) + ": "@
                + self.message@,
    {
        let mut s = match self.severity {
            Severity::Error => String::from_str("error"),
            Severity::Warning => String::from_str("warning"),
        };
        s.append(": ");
        s.append(self.message.as_str());
        s
    }
}


/// What a diagnostic says: how serious it is, and its text.
pub type DiagView = (Severity, Seq<char>);

impl View for Diagnostic {
    type V = DiagView;

    open spec fn view(&self) -> DiagView {
        (self.severity, self.message@)
    }
}

pub open spec fn diag_views(v: Seq<Diagnostic>) -> Seq<DiagView> {
    v.map_values(|d: Diagnostic| d@)
}

pub open spec fn err(message: Seq<char>) -> DiagView {
    (Severity::Error, message)
}

pub open spec fn warn(message: Seq<char>) -> DiagView {
    (Severity::Warning, message)
}

/// Whether any diagnostic in the list is an error.
pub open spec fn any_error(ds: Seq<DiagView>) -> bool {
    exists|i: int| 0 <= i < ds.len() && (#[trigger] ds[i]).0 == Severity::Error
}

// ---------------------------------------------------------------------------------------
// Copies
// ---------------------------------------------------------------------------------------

impl Activation {
    /// A copy of this activation.
    pub fn duplicate(&self) -> (r: Activation)
        ensures
            r@ == self@,
    {
        match self {
            Activation::Always => Activation::Always,
            Activation::Language(l) => Activation::Language(l.clone()),
            Activation::Org(o) => Activation::Org(o.clone()),
            Activation::Project(p) => Activation::Project(p.clone()),
            Activation::Manual => Activation::Manual,
        }
    }
}

impl Layer {
    /// A copy of this layer.
    pub fn duplicate(&self) -> (r: Layer)
        ensures
            r@ == self@,
    {
        match self {
            Layer::Core => Layer::Core,
            Layer::Language(l) => Layer::Language(l.clone()),
            Layer::Org => Layer::Org,
            Layer::Project => Layer::Project,
        }
    }
}

impl Rule {
    /// A copy of this rule.
    pub fn duplicate(&self) -> (r: Rule)
        ensures
            r@ == self@,
    {
        Rule {
            id: self.id.clone(),
            title: self.title.clone(),
            layer: self.layer.duplicate(),
            activation: self.activation.duplicate(),
            priority: self.priority,
            overrides: copy_strings(&self.overrides),
            targets: copy_strings(&self.targets),
            rel: self.rel.clone(),
            directive: self.directive.clone(),
            rationale: self.rationale.clone(),
        }
    }
}

fn copy_opt(o: &Option<String>) -> (r: Option<String>)
    ensures
        opt_view(r) == opt_view(*o),
{
    match o {
        Some(s) => Some(s.clone()),
        None => None,
    }
}

impl Project {
    /// A copy of this project.
    pub fn duplicate(&self) -> (r: Project)
        ensures
            r@ == self@,
    {
        Project {
            name: self.name.clone(),
            path: self.path.clone(),
            org: copy_opt(&self.org),
            languages: copy_strings(&self.languages),
            default_target: copy_opt(&self.default_target),
        }
    }
}

impl Target {
    /// A copy of this target.
    pub fn duplicate(&self) -> (r: Target)
        ensures
            r@ == self@,
    {
        Target {
            name: self.name.clone(),
            model: self.model.clone(),
            harness: self.harness.clone(),
            title: self.title.clone(),
            includes: copy_strings(&self.includes),
            exclude: copy_strings(&self.exclude),
            exclude_activation: copy_strings(&self.exclude_activation),
            emphasis: copy_strings(&self.emphasis),
            addenda: copy_strings(&self.addenda),
            memory: copy_strings(&self.memory),
            default_file: self.default_file.clone(),
            instruction_files: copy_strings(&self.instruction_files),
        }
    }
}

impl View for Section {
    type V = (Seq<char>, Seq<char>);

    open spec fn view(&self) -> (Seq<char>, Seq<char>) {
        (self.name@, self.body@)
    }
}

pub open spec fn section_views(v: Seq<Section>) -> Seq<(Seq<char>, Seq<char>)> {
    v.map_values(|s: Section| s@)
}

impl Section {
    /// A copy of this section.
    pub fn duplicate(&self) -> (r: Section)
        ensures
            r.name@ == self.name@,
            r.body@ == self.body@,
    {
        Section { name: self.name.clone(), body: self.body.clone() }
    }
}

/// A rule plus where it came from on disk.
#[derive(Debug, Clone)]
pub struct RuleFile {
    pub path: String,
    pub rel: String,
    pub source: String,
}

} // verus!
