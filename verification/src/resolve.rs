//! The resolution engine.
//!
//! Collect low → high, drop what a higher layer supersedes, sort, then amplify for the
//! target.

use vstd::prelude::*;
use vstd::string::StringExecFns;

use crate::load::{has_errors, listed, listed_exec, rule_views, text3, text4};
use crate::model::{
    act_kind, act_matches, any_error, diag_views, err, lay_rank, lay_text, section_views, warn, Act, Activation,
    DiagView, Diagnostic, Lay, Layer, Project, ProjectView, Rule, RuleView, Section, Target,
    TargetView,
};
use crate::text::{
    chars_of, lex_le, lex_less, lex_lt, lemma_lex_irreflexive, lemma_lex_total, lemma_lex_transitive,
    sort_strings, str_views,
};

verus! {

/// A resolved rule set for one project and target.
pub struct Resolved {
    /// The playbook root this was resolved from.
    pub root: String,
    pub project: Project,
    pub target: Target,
    /// Sorted: layer rank, then priority descending, then id.
    pub rules: Vec<Rule>,
    /// Ids removed because a higher layer named them in `overrides:`.
    pub superseded: Vec<String>,
    /// In overlay order, looked up from the resolved set.
    pub emphasis: Vec<Rule>,
    pub addenda: Vec<Section>,
    /// The target's memory files, emitted after the rules and before the addenda.
    pub memory: Vec<Section>,
    pub diagnostics: Vec<Diagnostic>,
}

impl Resolved {
    pub fn has_errors(&self) -> (r: bool)
        ensures
            r == any_error(diag_views(self.diagnostics@)),
    {
        has_errors(&self.diagnostics)
    }
}

/// Is the rule's layer a language layer?
pub fn layer_is_language(layer: &Layer) -> (r: bool)
    ensures
        r == (layer@ is Language),
{
    match layer {
        Layer::Language(_) => true,
        _ => false,
    }
}

/// The target a resolution is for: the one named, else the project's `default_target`.
pub fn target_name_for(project: &Project, given: Option<&str>) -> (r: Result<String, String>)
    ensures
        match given {
            Some(t) => r matches Ok(n) && n@ == t@,
            None => match project@.default_target {
                Some(d) => r matches Ok(n) && n@ == d,
                None => r matches Err(e) && e@ == "no --target given and "@ + project@.name + " has no default_target"@,
            },
        },
{
    match given {
        Some(t) => Ok(String::from_str(t)),
        None => match &project.default_target {
            Some(d) => Ok(d.clone()),
            None => Err(text3("no --target given and ", project.name.as_str(), " has no default_target")),
        },
    }
}

// ---------------------------------------------------------------------------------------
// Include
// ---------------------------------------------------------------------------------------

/// Whether a rule is part of the set for this project and target: restricted to the target if
/// it names targets, activated for the project (a manual rule only when the target's `include:`
/// names it), not in the target's `exclude:`, and of an activation kind that the target's
/// `exclude_activation:` does not name.
pub open spec fn included(rule: RuleView, project: ProjectView, target: TargetView) -> bool {
    &&& (rule.targets.len() == 0 || rule.targets.contains(target.name))
    &&& match rule.activation {
        Act::Manual => listed(target.includes, rule),
        a => act_matches(a, project),
    }
    &&& !listed(target.exclude, rule)
    &&& !target.exclude_activation.contains(act_kind(rule.activation))
}

/// The rules that are included, in the order given.
pub open spec fn kept_of(rs: Seq<RuleView>, project: ProjectView, target: TargetView) -> Seq<RuleView>
    decreases rs.len(),
{
    if rs.len() == 0 {
        seq![]
    } else {
        let before = kept_of(rs.drop_last(), project, target);
        if included(rs.last(), project, target) { before.push(rs.last()) } else { before }
    }
}

fn is_included(rule: &Rule, project: &Project, target: &Target) -> (r: bool)
    ensures
        r == included(rule@, project@, target@),
{
    if rule.targets.len() > 0 && !crate::model::contains_string(&rule.targets, target.name.as_str()) {
        return false;
    }
    let active = match &rule.activation {
        Activation::Manual => listed_exec(&target.includes, rule),
        other => other.matches(project),
    };
    active && !listed_exec(&target.exclude, rule)
        && !crate::model::contains_string(&target.exclude_activation, rule.activation.kind())
}

fn keep_rules(rules: &Vec<Rule>, project: &Project, target: &Target) -> (r: Vec<Rule>)
    ensures
        rule_views(r@) == kept_of(rule_views(rules@), project@, target@),
{
    let ghost rs = rule_views(rules@);
    let mut kept: Vec<Rule> = Vec::new();
    let mut i: usize = 0;
    assert(rs.take(0) =~= Seq::<RuleView>::empty());
    assert(rule_views(kept@) =~= Seq::<RuleView>::empty());
    while i < rules.len()
        invariant
            i <= rules@.len(),
            rs == rule_views(rules@),
            rule_views(kept@) == kept_of(rs.take(i as int), project@, target@),
        decreases rules.len() - i,
    {
        assert(rs.take(i + 1).drop_last() =~= rs.take(i as int));
        assert(rs.take(i + 1).last() == rules@[i as int]@);
        let ghost before = kept@;
        if is_included(&rules[i], project, target) {
            kept.push(rules[i].duplicate());
            assert(rule_views(kept@) =~= rule_views(before).push(rules@[i as int]@));
        }
        i = i + 1;
    }
    assert(rs.take(rules@.len() as int) =~= rs);
    kept
}

// ---------------------------------------------------------------------------------------
// Overrides
// ---------------------------------------------------------------------------------------

/// The position of the first rule with this id.
pub open spec fn first_with_id(rs: Seq<RuleView>, id: Seq<char>) -> Option<int>
    decreases rs.len(),
{
    if rs.len() == 0 {
        None
    } else if rs[0].id == id {
        Some(0)
    } else {
        match first_with_id(rs.drop_first(), id) {
            Some(i) => Some(i + 1),
            None => None,
        }
    }
}

/// What one `overrides:` entry of `rule` does to the ids superseded so far and the diagnostics:
/// it supersedes the first kept rule with that id when that rule sits in a strictly lower layer
/// and does not override `rule` back; anything else is reported.
pub open spec fn override_step(
    kept: Seq<RuleView>,
    rule: RuleView,
    overridden: Seq<char>,
    acc: (Seq<Seq<char>>, Seq<DiagView>),
) -> (Seq<Seq<char>>, Seq<DiagView>) {
    let (superseded, diags) = acc;
    match first_with_id(kept, overridden) {
        None => (superseded, diags.push(warn(rule.rel + ": overrides `"@ + overridden
            + "`, which is not in this rule set"@))),
        Some(v) => {
            let victim = kept[v];
            if lay_rank(victim.layer) >= lay_rank(rule.layer) {
                (superseded, diags.push(err(rule.rel + ": overrides `"@ + victim.id + "` at layer "@
                    + lay_text(victim.layer)
                    + " — a rule may only override a rule in a lower layer ("@ + rule.rel + " is "@
                    + lay_text(rule.layer) + ")"@)))
            } else if victim.overrides.contains(rule.id) {
                (superseded, diags.push(err(rule.rel + " and "@ + victim.rel
                    + " override each other — neither would survive"@)))
            } else if superseded.contains(victim.id) {
                (superseded, diags)
            } else {
                (superseded.push(victim.id), diags)
            }
        },
    }
}

/// The effect of the first `n` of `rule`'s overrides.
pub open spec fn rule_overrides(
    kept: Seq<RuleView>,
    rule: RuleView,
    n: int,
    acc: (Seq<Seq<char>>, Seq<DiagView>),
) -> (Seq<Seq<char>>, Seq<DiagView>)
    decreases n,
{
    if n <= 0 {
        acc
    } else {
        override_step(kept, rule, rule.overrides[n - 1], rule_overrides(kept, rule, n - 1, acc))
    }
}

/// The ids the first `n` kept rules supersede, in the order they were first named, and what
/// was reported on the way.
pub open spec fn overrides_upto(kept: Seq<RuleView>, n: int, diags: Seq<DiagView>) -> (Seq<Seq<char>>, Seq<DiagView>)
    decreases n,
{
    if n <= 0 {
        (seq![], diags)
    } else {
        rule_overrides(kept, kept[n - 1], kept[n - 1].overrides.len() as int, overrides_upto(kept, n - 1, diags))
    }
}

fn first_index_with_id(rules: &Vec<Rule>, id: &String) -> (r: Option<usize>)
    ensures
        match r {
            Some(i) => first_with_id(rule_views(rules@), id@) == Some(i as int) && i < rules@.len(),
            None => first_with_id(rule_views(rules@), id@) is None,
        },
{
    let ghost rs = rule_views(rules@);
    let mut i: usize = 0;
    assert(rs.skip(0) =~= rs);
    while i < rules.len()
        invariant
            i <= rules@.len(),
            rs == rule_views(rules@),
            first_with_id(rs, id@) == (match first_with_id(rs.skip(i as int), id@) {
                Some(k) => Some(k + i),
                None => None::<int>,
            }),
        decreases rules.len() - i,
    {
        assert(rs.skip(i as int)[0] == rules@[i as int]@);
        if rules[i].id == *id {
            return Some(i);
        }
        assert(rs.skip(i as int).drop_first() =~= rs.skip(i + 1));
        i = i + 1;
    }
    None
}

fn apply_override(kept: &Vec<Rule>, k: usize, o: usize, superseded: &mut Vec<String>, diagnostics: &mut Vec<Diagnostic>)
    requires
        k < kept@.len(),
        o < kept@[k as int].overrides@.len(),
    ensures
        (str_views(final(superseded)@), diag_views(final(diagnostics)@)) == override_step(
            rule_views(kept@),
            kept@[k as int]@,
            kept@[k as int]@.overrides[o as int],
            (str_views(old(superseded)@), diag_views(old(diagnostics)@)),
        ),
{
    let rule = &kept[k];
    let overridden = &rule.overrides[o];
    assert(rule@.overrides[o as int] == overridden@);
    let ghost before_d = diagnostics@;
    let ghost before_s = superseded@;
    match first_index_with_id(kept, overridden) {
        None => {
            let d = Diagnostic::warning(text4(rule.rel.as_str(), ": overrides `", overridden.as_str(), "`, which is not in this rule set"));
            diagnostics.push(d);
            assert(diag_views(diagnostics@) =~= diag_views(before_d).push(d@));
        },
        Some(v) => {
            let victim = &kept[v];
            assert(rule_views(kept@)[v as int] == victim@);
            if victim.layer.rank() >= rule.layer.rank() {
                let victim_layer = victim.layer.as_str();
                let rule_layer = rule.layer.as_str();
                let mut m = text4(rule.rel.as_str(), ": overrides `", victim.id.as_str(), "` at layer ");
                m.append(victim_layer.as_str());
                m.append(" — a rule may only override a rule in a lower layer (");
                m.append(rule.rel.as_str());
                m.append(" is ");
                m.append(rule_layer.as_str());
                m.append(")");
                let d = Diagnostic::error(m);
                diagnostics.push(d);
                assert(diag_views(diagnostics@) =~= diag_views(before_d).push(d@));
            } else if crate::model::contains_string(&victim.overrides, rule.id.as_str()) {
                let d = Diagnostic::error(text4(rule.rel.as_str(), " and ", victim.rel.as_str(), " override each other — neither would survive"));
                diagnostics.push(d);
                assert(diag_views(diagnostics@) =~= diag_views(before_d).push(d@));
            } else if !crate::model::contains_string(superseded, victim.id.as_str()) {
                superseded.push(victim.id.clone());
                assert(str_views(superseded@) =~= str_views(before_s).push(victim@.id));
            }
        },
    }
}

/// The ids the kept rules supersede, in the order first named, with what was reported.
fn supersede(kept: &Vec<Rule>, diagnostics: &mut Vec<Diagnostic>) -> (r: Vec<String>)
    ensures
        (str_views(r@), diag_views(final(diagnostics)@)) == overrides_upto(rule_views(kept@), kept@.len() as int, diag_views(old(diagnostics)@)),
{
    let ghost rs = rule_views(kept@);
    let ghost start = diag_views(diagnostics@);
    let mut superseded: Vec<String> = Vec::new();
    let mut k: usize = 0;
    assert(str_views(superseded@) =~= Seq::<Seq<char>>::empty());
    while k < kept.len()
        invariant
            k <= kept@.len(),
            rs == rule_views(kept@),
            (str_views(superseded@), diag_views(diagnostics@)) == overrides_upto(rs, k as int, start),
        decreases kept.len() - k,
    {
        let ghost acc = (str_views(superseded@), diag_views(diagnostics@));
        let mut o: usize = 0;
        assert(rs[k as int] == kept@[k as int]@);
        while o < kept[k].overrides.len()
            invariant
                k < kept@.len(),
                o <= kept@[k as int].overrides@.len(),
                rs == rule_views(kept@),
                rs[k as int] == kept@[k as int]@,
                (str_views(superseded@), diag_views(diagnostics@)) == rule_overrides(rs, rs[k as int], o as int, acc),
            decreases kept@[k as int].overrides@.len() - o,
        {
            apply_override(kept, k, o, &mut superseded, diagnostics);
            o = o + 1;
        }
        k = k + 1;
    }
    superseded
}

/// The kept rules whose ids were not superseded, in the order given.
pub open spec fn survivors(rs: Seq<RuleView>, superseded: Seq<Seq<char>>) -> Seq<RuleView>
    decreases rs.len(),
{
    if rs.len() == 0 {
        seq![]
    } else {
        let before = survivors(rs.drop_last(), superseded);
        if superseded.contains(rs.last().id) { before } else { before.push(rs.last()) }
    }
}

fn retain_survivors(kept: &Vec<Rule>, superseded: &Vec<String>) -> (r: Vec<Rule>)
    ensures
        rule_views(r@) == survivors(rule_views(kept@), str_views(superseded@)),
{
    let ghost rs = rule_views(kept@);
    let mut out: Vec<Rule> = Vec::new();
    let mut i: usize = 0;
    assert(rs.take(0) =~= Seq::<RuleView>::empty());
    assert(rule_views(out@) =~= Seq::<RuleView>::empty());
    while i < kept.len()
        invariant
            i <= kept@.len(),
            rs == rule_views(kept@),
            rule_views(out@) == survivors(rs.take(i as int), str_views(superseded@)),
        decreases kept.len() - i,
    {
        assert(rs.take(i + 1).drop_last() =~= rs.take(i as int));
        assert(rs.take(i + 1).last() == kept@[i as int]@);
        let ghost before = out@;
        if !crate::model::contains_string(superseded, kept[i].id.as_str()) {
            out.push(kept[i].duplicate());
            assert(rule_views(out@) =~= rule_views(before).push(kept@[i as int]@));
        }
        i = i + 1;
    }
    assert(rs.take(kept@.len() as int) =~= rs);
    out
}

// ---------------------------------------------------------------------------------------
// Sort
// ---------------------------------------------------------------------------------------

/// `a` sorts strictly before `b`: a lower layer, or the same layer and a higher priority, or
/// both the same and a smaller id.
pub open spec fn rule_before(a: RuleView, b: RuleView) -> bool {
    ||| lay_rank(a.layer) < lay_rank(b.layer)
    ||| lay_rank(a.layer) == lay_rank(b.layer) && a.priority > b.priority
    ||| lay_rank(a.layer) == lay_rank(b.layer) && a.priority == b.priority && lex_lt(a.id, b.id)
}

/// `a` may come before `b`.
pub open spec fn rule_le(a: RuleView, b: RuleView) -> bool {
    !rule_before(b, a)
}

/// Where `x` goes in `sorted`: before the first rule it sorts strictly before, so that equal
/// keys keep their order.
pub open spec fn insertion_point(sorted: Seq<RuleView>, x: RuleView) -> int
    decreases sorted.len(),
{
    if sorted.len() == 0 {
        0
    } else if rule_before(x, sorted[0]) {
        0
    } else {
        1 + insertion_point(sorted.drop_first(), x)
    }
}

/// The rules in key order; rules with equal keys keep the order they came in.
pub open spec fn sort_rules(s: Seq<RuleView>) -> Seq<RuleView>
    decreases s.len(),
{
    if s.len() == 0 {
        seq![]
    } else {
        let sorted = sort_rules(s.drop_last());
        sorted.insert(insertion_point(sorted, s.last()), s.last())
    }
}

proof fn lemma_rule_before_transitive(a: RuleView, b: RuleView, c: RuleView)
    requires
        rule_before(a, b),
        rule_before(b, c),
    ensures
        rule_before(a, c),
{
    if lay_rank(a.layer) == lay_rank(b.layer) && lay_rank(b.layer) == lay_rank(c.layer)
        && a.priority == b.priority && b.priority == c.priority {
        lemma_lex_transitive(a.id, b.id, c.id);
    }
}

proof fn lemma_rule_before_irreflexive(a: RuleView)
    ensures
        !rule_before(a, a),
{
    lemma_lex_irreflexive(a.id);
}

proof fn lemma_insertion_point(sorted: Seq<RuleView>, x: RuleView)
    ensures
        0 <= insertion_point(sorted, x) <= sorted.len(),
        forall|i: int| 0 <= i < insertion_point(sorted, x) ==> !rule_before(x, #[trigger] sorted[i]),
        insertion_point(sorted, x) < sorted.len() ==> rule_before(x, sorted[insertion_point(sorted, x)]),
    decreases sorted.len(),
{
    if sorted.len() > 0 && !rule_before(x, sorted[0]) {
        lemma_insertion_point(sorted.drop_first(), x);
        assert forall|i: int| 0 <= i < insertion_point(sorted, x) implies !rule_before(x, #[trigger] sorted[i]) by {
            if i > 0 {
                assert(sorted[i] == sorted.drop_first()[i - 1]);
            }
        }
    }
}

/// No rule sorts strictly before one that precedes it.
pub open spec fn rules_sorted(s: Seq<RuleView>) -> bool {
    forall|i: int, j: int| 0 <= i < j < s.len() ==> #[trigger] rule_le(s[i], s[j])
}

/// Sorting orders the rules by key and keeps every one of them.
pub proof fn lemma_sort_rules(s: Seq<RuleView>)
    ensures
        rules_sorted(sort_rules(s)),
        sort_rules(s).to_multiset() == s.to_multiset(),
    decreases s.len(),
{
    broadcast use vstd::seq_lib::group_to_multiset_ensures;
    if s.len() > 0 {
        let sorted = sort_rules(s.drop_last());
        lemma_sort_rules(s.drop_last());
        let x = s.last();
        let p = insertion_point(sorted, x);
        lemma_insertion_point(sorted, x);
        let out = sorted.insert(p, x);
        assert(out == sort_rules(s));
        vstd::seq_lib::to_multiset_insert(sorted, p, x);
        assert(s =~= s.drop_last().push(x));
        assert forall|i: int, j: int| 0 <= i < j < out.len() implies #[trigger] rule_le(out[i], out[j]) by {
            if j < p {
                assert(out[i] == sorted[i] && out[j] == sorted[j]);
                assert(rule_le(sorted[i], sorted[j]));
            } else if j == p {
                assert(out[i] == sorted[i]);
                assert(!rule_before(x, sorted[i]));
            } else if i == p {
                assert(out[j] == sorted[j - 1]);
                if rule_before(sorted[j - 1], x) {
                    assert(rule_before(x, sorted[p]));
                    lemma_rule_before_transitive(sorted[j - 1], x, sorted[p]);
                    if j - 1 > p {
                        assert(rule_le(sorted[p], sorted[j - 1]));
                    } else {
                        lemma_rule_before_irreflexive(sorted[p]);
                    }
                }
            } else if i < p {
                assert(out[i] == sorted[i] && out[j] == sorted[j - 1]);
                assert(rule_le(sorted[i], sorted[j - 1]));
            } else {
                assert(out[i] == sorted[i - 1] && out[j] == sorted[j - 1]);
                assert(rule_le(sorted[i - 1], sorted[j - 1]));
            }
        }
    }
}

fn before_exec(a: &Rule, b: &Rule) -> (r: bool)
    ensures
        r == rule_before(a@, b@),
{
    let ra = a.layer.rank();
    let rb = b.layer.rank();
    if ra != rb {
        return ra < rb;
    }
    if a.priority != b.priority {
        return a.priority > b.priority;
    }
    lex_less(&chars_of(a.id.as_str()), &chars_of(b.id.as_str()))
}

fn sort_by_key(rules: &Vec<Rule>) -> (r: Vec<Rule>)
    ensures
        rule_views(r@) == sort_rules(rule_views(rules@)),
{
    let ghost rs = rule_views(rules@);
    let mut out: Vec<Rule> = Vec::new();
    let mut i: usize = 0;
    assert(rs.take(0) =~= Seq::<RuleView>::empty());
    assert(rule_views(out@) =~= Seq::<RuleView>::empty());
    while i < rules.len()
        invariant
            i <= rules@.len(),
            rs == rule_views(rules@),
            rule_views(out@) == sort_rules(rs.take(i as int)),
        decreases rules.len() - i,
    {
        assert(rs.take(i + 1).drop_last() =~= rs.take(i as int));
        assert(rs.take(i + 1).last() == rules@[i as int]@);
        let x = rules[i].duplicate();
        let ghost sorted = rule_views(out@);
        let mut pos: usize = 0;
        assert(sorted.skip(0) =~= sorted);
        while pos < out.len() && !before_exec(&x, &out[pos])
            invariant
                pos <= out@.len(),
                sorted == rule_views(out@),
                insertion_point(sorted, x@) == pos + insertion_point(sorted.skip(pos as int), x@),
            decreases out.len() - pos,
        {
            assert(sorted.skip(pos as int)[0] == out@[pos as int]@);
            assert(sorted.skip(pos as int).drop_first() =~= sorted.skip(pos + 1));
            pos = pos + 1;
        }
        proof {
            if pos < out@.len() {
                assert(sorted.skip(pos as int)[0] == out@[pos as int]@);
            }
        }
        out.insert(pos, x);
        assert(rule_views(out@) =~= sorted.insert(pos as int, x@));
        i = i + 1;
    }
    assert(rs.take(rules@.len() as int) =~= rs);
    out
}

// ---------------------------------------------------------------------------------------
// Emphasis and addenda
// ---------------------------------------------------------------------------------------

/// The emphasised rules, in overlay order, and the complaints about ids not in the set.
pub open spec fn emphasis_of(sorted: Seq<RuleView>, target: TargetView, n: int, diags: Seq<DiagView>) -> (Seq<RuleView>, Seq<DiagView>)
    decreases n,
{
    if n <= 0 {
        (seq![], diags)
    } else {
        let (found, ds) = emphasis_of(sorted, target, n - 1, diags);
        let id = target.emphasis[n - 1];
        match first_with_id(sorted, id) {
            Some(i) => (found.push(sorted[i]), ds),
            None => (found, ds.push(err("target `"@ + target.name + "` emphasises `"@ + id
                + "`, which is not in this rule set"@))),
        }
    }
}

fn emphasised(sorted: &Vec<Rule>, target: &Target, diagnostics: &mut Vec<Diagnostic>) -> (r: Vec<Rule>)
    ensures
        (rule_views(r@), diag_views(final(diagnostics)@)) == emphasis_of(rule_views(sorted@), target@,
            target@.emphasis.len() as int, diag_views(old(diagnostics)@)),
{
    let ghost start = diag_views(diagnostics@);
    let mut found: Vec<Rule> = Vec::new();
    let mut k: usize = 0;
    assert(rule_views(found@) =~= Seq::<RuleView>::empty());
    while k < target.emphasis.len()
        invariant
            k <= target@.emphasis.len(),
            (rule_views(found@), diag_views(diagnostics@)) == emphasis_of(rule_views(sorted@), target@, k as int, start),
        decreases target.emphasis.len() - k,
    {
        let id = &target.emphasis[k];
        assert(target@.emphasis[k as int] == id@);
        let ghost before_f = found@;
        let ghost before_d = diagnostics@;
        match first_index_with_id(sorted, id) {
            Some(i) => {
                found.push(sorted[i].duplicate());
                assert(rule_views(found@) =~= rule_views(before_f).push(rule_views(sorted@)[i as int]));
            },
            None => {
                let mut m = text4("target `", target.name.as_str(), "` emphasises `", id.as_str());
                m.append("`, which is not in this rule set");
                let d = Diagnostic::error(m);
                diagnostics.push(d);
                assert(diag_views(diagnostics@) =~= diag_views(before_d).push(d@));
            },
        }
        k = k + 1;
    }
    found
}

/// The addenda that loaded, in overlay order, and a complaint for each that did not.
pub open spec fn addenda_of(target: TargetView, loaded: Seq<Result<(Seq<char>, Seq<char>), Seq<char>>>, n: int, diags: Seq<DiagView>) -> (Seq<(Seq<char>, Seq<char>)>, Seq<DiagView>)
    decreases n,
{
    if n <= 0 {
        (seq![], diags)
    } else {
        let (found, ds) = addenda_of(target, loaded, n - 1, diags);
        match loaded[n - 1] {
            Ok(a) => (found.push(a), ds),
            Err(e) => (found, ds.push(err("target `"@ + target.name + "`: addendum "@ + target.addenda[n - 1]
                + ": "@ + e))),
        }
    }
}

pub open spec fn loaded_views(v: Seq<Result<Section, String>>) -> Seq<Result<(Seq<char>, Seq<char>), Seq<char>>> {
    v.map_values(|r: Result<Section, String>| match r {
        Ok(s) => Ok(s@),
        Err(e) => Err(e@),
    })
}

fn collect_addenda(target: &Target, loaded: &Vec<Result<Section, String>>, diagnostics: &mut Vec<Diagnostic>) -> (r: Vec<Section>)
    requires
        loaded@.len() == target@.addenda.len(),
    ensures
        (section_views(r@), diag_views(final(diagnostics)@)) == addenda_of(target@, loaded_views(loaded@),
            target@.addenda.len() as int, diag_views(old(diagnostics)@)),
{
    let ghost start = diag_views(diagnostics@);
    let ghost lv = loaded_views(loaded@);
    let mut found: Vec<Section> = Vec::new();
    let mut k: usize = 0;
    assert(section_views(found@) =~= Seq::<(Seq<char>, Seq<char>)>::empty());
    while k < loaded.len()
        invariant
            k <= loaded@.len(),
            loaded@.len() == target@.addenda.len(),
            lv == loaded_views(loaded@),
            (section_views(found@), diag_views(diagnostics@)) == addenda_of(target@, lv, k as int, start),
        decreases loaded.len() - k,
    {
        let ghost before_f = found@;
        let ghost before_d = diagnostics@;
        match &loaded[k] {
            Ok(a) => {
                found.push(a.duplicate());
                assert(section_views(found@) =~= section_views(before_f).push(a@));
            },
            Err(e) => {
                let name = &target.addenda[k];
                assert(target@.addenda[k as int] == name@);
                let mut m = text4("target `", target.name.as_str(), "`: addendum ", name.as_str());
                m.append(": ");
                m.append(e.as_str());
                let d = Diagnostic::error(m);
                diagnostics.push(d);
                assert(diag_views(diagnostics@) =~= diag_views(before_d).push(d@));
            },
        }
        k = k + 1;
    }
    found
}


// ---------------------------------------------------------------------------------------
// What is found does not depend on what was reported before
// ---------------------------------------------------------------------------------------

proof fn lemma_rule_overrides_found(kept: Seq<RuleView>, rule: RuleView, n: int, a: (Seq<Seq<char>>, Seq<DiagView>), b: (Seq<Seq<char>>, Seq<DiagView>))
    requires
        a.0 == b.0,
    ensures
        rule_overrides(kept, rule, n, a).0 == rule_overrides(kept, rule, n, b).0,
    decreases n,
{
    if n > 0 {
        lemma_rule_overrides_found(kept, rule, n - 1, a, b);
    }
}

proof fn lemma_overrides_found(kept: Seq<RuleView>, n: int, a: Seq<DiagView>, b: Seq<DiagView>)
    ensures
        overrides_upto(kept, n, a).0 == overrides_upto(kept, n, b).0,
    decreases n,
{
    if n > 0 {
        lemma_overrides_found(kept, n - 1, a, b);
        lemma_rule_overrides_found(kept, kept[n - 1], kept[n - 1].overrides.len() as int,
            overrides_upto(kept, n - 1, a), overrides_upto(kept, n - 1, b));
    }
}

proof fn lemma_emphasis_found(sorted: Seq<RuleView>, target: TargetView, n: int, a: Seq<DiagView>, b: Seq<DiagView>)
    ensures
        emphasis_of(sorted, target, n, a).0 == emphasis_of(sorted, target, n, b).0,
    decreases n,
{
    if n > 0 {
        lemma_emphasis_found(sorted, target, n - 1, a, b);
    }
}

proof fn lemma_addenda_found(target: TargetView, loaded: Seq<Result<(Seq<char>, Seq<char>), Seq<char>>>, n: int, a: Seq<DiagView>, b: Seq<DiagView>)
    ensures
        addenda_of(target, loaded, n, a).0 == addenda_of(target, loaded, n, b).0,
    decreases n,
{
    if n > 0 {
        lemma_addenda_found(target, loaded, n - 1, a, b);
    }
}


// ---------------------------------------------------------------------------------------
// Laws
// ---------------------------------------------------------------------------------------

proof fn lemma_kept_of(rs: Seq<RuleView>, project: ProjectView, target: TargetView)
    ensures
        forall|i: int| 0 <= i < kept_of(rs, project, target).len() ==> {
            let r = #[trigger] kept_of(rs, project, target)[i];
            included(r, project, target) && rs.contains(r)
        },
    decreases rs.len(),
{
    if rs.len() > 0 {
        lemma_kept_of(rs.drop_last(), project, target);
        let before = kept_of(rs.drop_last(), project, target);
        assert forall|i: int| 0 <= i < kept_of(rs, project, target).len() implies {
            let r = #[trigger] kept_of(rs, project, target)[i];
            included(r, project, target) && rs.contains(r)
        } by {
            let k = kept_of(rs, project, target);
            if i < before.len() {
                assert(k[i] == before[i]);
                let r = before[i];
                assert(rs.drop_last().contains(r));
                let j = choose|j: int| 0 <= j < rs.drop_last().len() && rs.drop_last()[j] == r;
                assert(rs[j] == r);
            } else {
                assert(k[i] == rs.last());
                assert(rs[rs.len() - 1] == rs.last());
            }
        }
    }
}

proof fn lemma_survivors(rs: Seq<RuleView>, superseded: Seq<Seq<char>>)
    ensures
        forall|i: int| 0 <= i < survivors(rs, superseded).len() ==> {
            let r = #[trigger] survivors(rs, superseded)[i];
            !superseded.contains(r.id) && rs.contains(r)
        },
        superseded.len() == 0 ==> survivors(rs, superseded) == rs,
    decreases rs.len(),
{
    if rs.len() > 0 {
        lemma_survivors(rs.drop_last(), superseded);
        let before = survivors(rs.drop_last(), superseded);
        assert forall|i: int| 0 <= i < survivors(rs, superseded).len() implies {
            let r = #[trigger] survivors(rs, superseded)[i];
            !superseded.contains(r.id) && rs.contains(r)
        } by {
            let k = survivors(rs, superseded);
            if i < before.len() {
                assert(k[i] == before[i]);
                let r = before[i];
                let j = choose|j: int| 0 <= j < rs.drop_last().len() && rs.drop_last()[j] == r;
                assert(rs[j] == r);
            } else {
                assert(k[i] == rs.last());
                assert(rs[rs.len() - 1] == rs.last());
            }
        }
        if superseded.len() == 0 {
            assert(rs.drop_last().push(rs.last()) =~= rs);
        }
    }
}

/// The resolved rules are in layer order, then priority, highest first, then id.
pub proof fn law_resolved_rules_are_sorted(rules: Seq<RuleView>, project: ProjectView, target: TargetView)
    ensures
        rules_sorted(resolved_rules(rules, project, target)),
{
    lemma_sort_rules(survivors(kept_of(rules, project, target), superseded_ids(rules, project, target)));
}

/// Every resolved rule is one of the loaded rules, is included for this project and target,
/// and is not superseded; and every included rule that is not superseded is resolved, as
/// often as it was loaded.
pub proof fn law_resolved_rules_are_the_survivors(rules: Seq<RuleView>, project: ProjectView, target: TargetView)
    ensures
        resolved_rules(rules, project, target).to_multiset()
            == survivors(kept_of(rules, project, target), superseded_ids(rules, project, target)).to_multiset(),
        forall|i: int| 0 <= i < resolved_rules(rules, project, target).len() ==> {
            let r = #[trigger] resolved_rules(rules, project, target)[i];
            &&& rules.contains(r)
            &&& included(r, project, target)
            &&& !superseded_ids(rules, project, target).contains(r.id)
        },
{
    broadcast use vstd::seq_lib::group_to_multiset_ensures;
    let kept = kept_of(rules, project, target);
    let sup = superseded_ids(rules, project, target);
    let surv = survivors(kept, sup);
    lemma_sort_rules(surv);
    lemma_kept_of(rules, project, target);
    lemma_survivors(kept, sup);
    let out = resolved_rules(rules, project, target);
    assert forall|i: int| 0 <= i < out.len() implies {
        let r = #[trigger] out[i];
        &&& rules.contains(r)
        &&& included(r, project, target)
        &&& !sup.contains(r.id)
    } by {
        let r = out[i];
        assert(out.to_multiset().contains(r));
        assert(surv.to_multiset().contains(r));
        assert(surv.contains(r));
        let j = choose|j: int| 0 <= j < surv.len() && surv[j] == r;
        assert(!sup.contains(surv[j].id) && kept.contains(surv[j]));
        let k = choose|k: int| 0 <= k < kept.len() && kept[k] == r;
        assert(included(kept[k], project, target) && rules.contains(kept[k]));
    }
}

proof fn lemma_overrides_none(kept: Seq<RuleView>, n: int, diags: Seq<DiagView>)
    requires
        n <= kept.len(),
        forall|i: int| 0 <= i < kept.len() ==> (#[trigger] kept[i]).overrides.len() == 0,
    ensures
        overrides_upto(kept, n, diags) == (Seq::<Seq<char>>::empty(), diags),
    decreases n,
{
    if n > 0 {
        lemma_overrides_none(kept, n - 1, diags);
        assert(kept[n - 1].overrides.len() == 0);
    }
}

/// A rule set in which no included rule overrides anything loses nothing: nothing is
/// superseded, and every included rule is resolved.
pub proof fn law_no_overrides_drop_nothing(rules: Seq<RuleView>, project: ProjectView, target: TargetView)
    requires
        forall|i: int| 0 <= i < kept_of(rules, project, target).len()
            ==> (#[trigger] kept_of(rules, project, target)[i]).overrides.len() == 0,
    ensures
        superseded_ids(rules, project, target).len() == 0,
        resolved_rules(rules, project, target) == sort_rules(kept_of(rules, project, target)),
        resolved_rules(rules, project, target).to_multiset() == kept_of(rules, project, target).to_multiset(),
{
    broadcast use vstd::seq_lib::group_to_multiset_ensures;
    let kept = kept_of(rules, project, target);
    lemma_overrides_none(kept, kept.len() as int, seq![]);
    let leq = |a: Seq<char>, b: Seq<char>| lex_le(a, b);
    let empty = Seq::<Seq<char>>::empty();
    crate::text::lemma_lex_le_total();
    empty.lemma_sort_by_ensures(leq);
    assert(empty.sort_by(leq).to_multiset().len() == 0);
    assert(superseded_ids(rules, project, target).len() == 0);
    lemma_survivors(kept, superseded_ids(rules, project, target));
    lemma_sort_rules(kept);
}

proof fn lemma_emphasis_resolved(sorted: Seq<RuleView>, target: TargetView, n: int, diags: Seq<DiagView>)
    ensures
        forall|i: int| 0 <= i < emphasis_of(sorted, target, n, diags).0.len()
            ==> sorted.contains(#[trigger] emphasis_of(sorted, target, n, diags).0[i]),
        emphasis_of(sorted, target, n, diags).0.len() <= (if n <= 0 { 0 } else { n }),
    decreases n,
{
    if n > 0 {
        lemma_emphasis_resolved(sorted, target, n - 1, diags);
        let id = target.emphasis[n - 1];
        match first_with_id(sorted, id) {
            Some(k) => {
                lemma_first_with_id(sorted, id);
                assert(sorted[k] == sorted[k]);
                let before = emphasis_of(sorted, target, n - 1, diags).0;
                assert forall|i: int| 0 <= i < emphasis_of(sorted, target, n, diags).0.len()
                    implies sorted.contains(#[trigger] emphasis_of(sorted, target, n, diags).0[i]) by {
                    if i < before.len() {
                        assert(emphasis_of(sorted, target, n, diags).0[i] == before[i]);
                    } else {
                        assert(emphasis_of(sorted, target, n, diags).0[i] == sorted[k]);
                    }
                }
            },
            None => {},
        }
    }
}

proof fn lemma_first_with_id(rs: Seq<RuleView>, id: Seq<char>)
    ensures
        first_with_id(rs, id) matches Some(i) ==> 0 <= i < rs.len() && rs[i].id == id
            && forall|j: int| 0 <= j < i ==> (#[trigger] rs[j]).id != id,
        first_with_id(rs, id) is None ==> forall|j: int| 0 <= j < rs.len() ==> (#[trigger] rs[j]).id != id,
    decreases rs.len(),
{
    if rs.len() > 0 && rs[0].id != id {
        lemma_first_with_id(rs.drop_first(), id);
        assert forall|j: int| 1 <= j < rs.len() implies (#[trigger] rs[j]).id == rs.drop_first()[j - 1].id by {}
    }
}

/// The emphasised rules are resolved rules, at most one per emphasis entry, each the first
/// resolved rule with the id the entry names.
pub proof fn law_emphasis_is_drawn_from_the_resolved_rules(rules: Seq<RuleView>, project: ProjectView, target: TargetView)
    ensures
        forall|i: int| 0 <= i < emphasis_of(resolved_rules(rules, project, target), target, target.emphasis.len() as int, seq![]).0.len()
            ==> resolved_rules(rules, project, target).contains(
                #[trigger] emphasis_of(resolved_rules(rules, project, target), target, target.emphasis.len() as int, seq![]).0[i]),
        emphasis_of(resolved_rules(rules, project, target), target, target.emphasis.len() as int, seq![]).0.len()
            <= target.emphasis.len(),
{
    lemma_emphasis_resolved(resolved_rules(rules, project, target), target, target.emphasis.len() as int, seq![]);
}

/// An id is superseded only when a kept rule names it in `overrides:`, and the first kept
/// rule with that id sits in a strictly lower layer than the overriding rule.
pub open spec fn supersedable(kept: Seq<RuleView>, id: Seq<char>) -> bool {
    exists|r: int, v: int| {
        &&& 0 <= r < kept.len()
        &&& 0 <= v < kept.len()
        &&& first_with_id(kept, id) == Some(v)
        &&& (#[trigger] kept[r]).overrides.contains(id)
        &&& lay_rank((#[trigger] kept[v]).layer) < lay_rank(kept[r].layer)
    }
}

proof fn lemma_rule_overrides_lower(kept: Seq<RuleView>, k: int, n: int, acc: (Seq<Seq<char>>, Seq<DiagView>))
    requires
        0 <= k < kept.len(),
        n <= kept[k].overrides.len(),
        forall|i: int| 0 <= i < acc.0.len() ==> supersedable(kept, #[trigger] acc.0[i]),
        acc.0.no_duplicates(),
    ensures
        forall|i: int| 0 <= i < rule_overrides(kept, kept[k], n, acc).0.len()
            ==> supersedable(kept, #[trigger] rule_overrides(kept, kept[k], n, acc).0[i]),
        rule_overrides(kept, kept[k], n, acc).0.no_duplicates(),
    decreases n,
{
    if n > 0 {
        lemma_rule_overrides_lower(kept, k, n - 1, acc);
        let o = kept[k].overrides[n - 1];
        assert(kept.contains(kept[k]));
        assert(kept[k].overrides.contains(o));
        let before = rule_overrides(kept, kept[k], n - 1, acc);
        lemma_first_with_id(kept, o);
        let out = override_step(kept, kept[k], o, before).0;
        match first_with_id(kept, o) {
            Some(v) => {
                if out.len() > before.0.len() {
                    assert(out == before.0.push(kept[v].id));
                    assert(kept[v].id == o);
                    assert(lay_rank(kept[v].layer) < lay_rank(kept[k].layer));
                    assert(supersedable(kept, o));
                    assert forall|i: int| 0 <= i < out.len() implies supersedable(kept, #[trigger] out[i]) by {
                        if i < before.0.len() {
                            assert(out[i] == before.0[i]);
                        }
                    }
                    assert(!before.0.contains(o));
                    assert forall|a: int, b: int| 0 <= a < out.len() && 0 <= b < out.len() && a != b implies out[a] != out[b] by {
                        if a < before.0.len() && b < before.0.len() {
                            assert(out[a] == before.0[a] && out[b] == before.0[b]);
                        } else if a < before.0.len() {
                            assert(out[a] == before.0[a]);
                        } else if b < before.0.len() {
                            assert(out[b] == before.0[b]);
                        }
                    }
                }
            },
            None => {},
        }
    }
}

proof fn lemma_overrides_lower(kept: Seq<RuleView>, n: int, diags: Seq<DiagView>)
    requires
        n <= kept.len(),
    ensures
        forall|i: int| 0 <= i < overrides_upto(kept, n, diags).0.len()
            ==> supersedable(kept, #[trigger] overrides_upto(kept, n, diags).0[i]),
        overrides_upto(kept, n, diags).0.no_duplicates(),
    decreases n,
{
    if n > 0 {
        lemma_overrides_lower(kept, n - 1, diags);
        lemma_rule_overrides_lower(kept, n - 1, kept[n - 1].overrides.len() as int, overrides_upto(kept, n - 1, diags));
    }
}

/// Precedence only runs upward: every superseded id is named in `overrides:` by an included
/// rule, and the included rule with that id sits in a strictly lower layer. The list is sorted
/// and names each id once.
pub proof fn law_superseded_only_from_below(rules: Seq<RuleView>, project: ProjectView, target: TargetView)
    ensures
        forall|i: int| 0 <= i < superseded_ids(rules, project, target).len()
            ==> supersedable(kept_of(rules, project, target), #[trigger] superseded_ids(rules, project, target)[i]),
        superseded_ids(rules, project, target).no_duplicates(),
        vstd::relations::sorted_by(superseded_ids(rules, project, target), |a: Seq<char>, b: Seq<char>| lex_le(a, b)),
{
    broadcast use vstd::seq_lib::group_to_multiset_ensures;
    broadcast use vstd::multiset::group_multiset_axioms;
    let kept = kept_of(rules, project, target);
    let found = overrides_upto(kept, kept.len() as int, seq![]).0;
    lemma_overrides_lower(kept, kept.len() as int, seq![]);
    let leq = |a: Seq<char>, b: Seq<char>| lex_le(a, b);
    crate::text::lemma_lex_le_total();
    found.lemma_sort_by_ensures(leq);
    let out = found.sort_by(leq);
    assert forall|i: int| 0 <= i < out.len() implies supersedable(kept, #[trigger] out[i]) by {
        assert(out.to_multiset().contains(out[i]));
        assert(found.contains(out[i]));
        let j = choose|j: int| 0 <= j < found.len() && found[j] == out[i];
        assert(supersedable(kept, found[j]));
    }
    found.lemma_multiset_has_no_duplicates();
    out.lemma_multiset_has_no_duplicates_conv();
}

proof fn lemma_rule_overrides_grow(kept: Seq<RuleView>, rule: RuleView, n: int, acc: (Seq<Seq<char>>, Seq<DiagView>), x: Seq<char>)
    requires
        acc.0.contains(x),
    ensures
        rule_overrides(kept, rule, n, acc).0.contains(x),
    decreases n,
{
    if n > 0 {
        lemma_rule_overrides_grow(kept, rule, n - 1, acc, x);
        let before = rule_overrides(kept, rule, n - 1, acc);
        let i = choose|i: int| 0 <= i < before.0.len() && before.0[i] == x;
        let out = override_step(kept, rule, rule.overrides[n - 1], before).0;
        assert(out[i] == x);
    }
}

proof fn lemma_rule_overrides_add(kept: Seq<RuleView>, rule: RuleView, n: int, j: int, acc: (Seq<Seq<char>>, Seq<DiagView>))
    requires
        0 <= j < n <= rule.overrides.len(),
        first_with_id(kept, rule.overrides[j]) matches Some(v)
            && lay_rank(kept[v].layer) < lay_rank(rule.layer)
            && !kept[v].overrides.contains(rule.id),
    ensures
        rule_overrides(kept, rule, n, acc).0.contains(rule.overrides[j]),
    decreases n,
{
    let o = rule.overrides[j];
    lemma_first_with_id(kept, o);
    if j == n - 1 {
        let before = rule_overrides(kept, rule, n - 1, acc);
        let out = override_step(kept, rule, o, before).0;
        let v = first_with_id(kept, o)->0;
        assert(kept[v].id == o);
        if !before.0.contains(o) {
            assert(out == before.0.push(o));
            assert(out[before.0.len() as int] == o);
        }
    } else {
        lemma_rule_overrides_add(kept, rule, n - 1, j, acc);
        lemma_rule_overrides_grow(kept, rule, 1, rule_overrides(kept, rule, n - 1, acc), o);
        let before = rule_overrides(kept, rule, n - 1, acc);
        let i = choose|i: int| 0 <= i < before.0.len() && before.0[i] == o;
        let out = override_step(kept, rule, rule.overrides[n - 1], before).0;
        assert(out[i] == o);
    }
}

proof fn lemma_overrides_upto_grow(kept: Seq<RuleView>, m: int, n: int, diags: Seq<DiagView>, x: Seq<char>)
    requires
        0 <= m <= n <= kept.len(),
        overrides_upto(kept, m, diags).0.contains(x),
    ensures
        overrides_upto(kept, n, diags).0.contains(x),
    decreases n,
{
    if n > m {
        lemma_overrides_upto_grow(kept, m, n - 1, diags, x);
        lemma_rule_overrides_grow(kept, kept[n - 1], kept[n - 1].overrides.len() as int, overrides_upto(kept, n - 1, diags), x);
    }
}

/// Precedence is honoured: when an included rule names in `overrides:` an id whose first
/// included rule sits in a strictly lower layer and does not override it back, that id is
/// superseded.
pub proof fn law_lower_overrides_are_superseded(rules: Seq<RuleView>, project: ProjectView, target: TargetView, k: int, j: int)
    requires
        0 <= k < kept_of(rules, project, target).len(),
        0 <= j < kept_of(rules, project, target)[k].overrides.len(),
        first_with_id(kept_of(rules, project, target), kept_of(rules, project, target)[k].overrides[j]) matches Some(v)
            && lay_rank(kept_of(rules, project, target)[v].layer) < lay_rank(kept_of(rules, project, target)[k].layer)
            && !kept_of(rules, project, target)[v].overrides.contains(kept_of(rules, project, target)[k].id),
    ensures
        superseded_ids(rules, project, target).contains(kept_of(rules, project, target)[k].overrides[j]),
{
    broadcast use vstd::seq_lib::group_to_multiset_ensures;
    let kept = kept_of(rules, project, target);
    let o = kept[k].overrides[j];
    let before = overrides_upto(kept, k, seq![]);
    lemma_rule_overrides_add(kept, kept[k], kept[k].overrides.len() as int, j, before);
    assert(overrides_upto(kept, k + 1, seq![]).0.contains(o));
    lemma_overrides_upto_grow(kept, k + 1, kept.len() as int, seq![], o);
    let found = overrides_upto(kept, kept.len() as int, seq![]).0;
    let leq = |a: Seq<char>, b: Seq<char>| lex_le(a, b);
    crate::text::lemma_lex_le_total();
    found.lemma_sort_by_ensures(leq);
    assert(found.to_multiset().contains(o));
}

// ---------------------------------------------------------------------------------------
// The whole
// ---------------------------------------------------------------------------------------

/// The superseded ids, sorted.
pub open spec fn superseded_ids(rules: Seq<RuleView>, project: ProjectView, target: TargetView) -> Seq<Seq<char>> {
    let kept = kept_of(rules, project, target);
    overrides_upto(kept, kept.len() as int, seq![]).0.sort_by(|a: Seq<char>, b: Seq<char>| lex_le(a, b))
}

/// The resolved rules, in order.
pub open spec fn resolved_rules(rules: Seq<RuleView>, project: ProjectView, target: TargetView) -> Seq<RuleView> {
    sort_rules(survivors(kept_of(rules, project, target), superseded_ids(rules, project, target)))
}

/// Everything resolution reports, after what loading reported.
pub open spec fn resolved_diags(
    rules: Seq<RuleView>,
    project: ProjectView,
    target: TargetView,
    loaded: Seq<DiagView>,
    addenda: Seq<Result<(Seq<char>, Seq<char>), Seq<char>>>,
) -> Seq<DiagView> {
    let kept = kept_of(rules, project, target);
    let after_overrides = overrides_upto(kept, kept.len() as int, loaded).1;
    let sorted = resolved_rules(rules, project, target);
    let after_emphasis = emphasis_of(sorted, target, target.emphasis.len() as int, after_overrides).1;
    let after_addenda = addenda_of(target, addenda, target.addenda.len() as int, after_emphasis).1;
    if sorted.len() == 0 {
        after_addenda.push(warn("project `"@ + project.name + "` + target `"@ + target.name
            + "` resolves to zero rules"@))
    } else {
        after_addenda
    }
}

/// Resolve the rule set for a project and a target.
///
/// `rules` and `diagnostics` are what loading the rule tree produced; `addenda` is what
/// loading each of the target's addenda produced, in the target's order; `memory` is the
/// target's memory files.
pub fn resolve(
    root: String,
    project: Project,
    target: Target,
    rules: Vec<Rule>,
    diagnostics: Vec<Diagnostic>,
    addenda: Vec<Result<Section, String>>,
    memory: Vec<Section>,
) -> (r: Resolved)
    requires
        addenda@.len() == target@.addenda.len(),
    ensures
        r.root@ == root@,
        r.project@ == project@,
        r.target@ == target@,
        rule_views(r.rules@) == resolved_rules(rule_views(rules@), project@, target@),
        str_views(r.superseded@) == superseded_ids(rule_views(rules@), project@, target@),
        rule_views(r.emphasis@) == emphasis_of(resolved_rules(rule_views(rules@), project@, target@), target@,
            target@.emphasis.len() as int, seq![]).0,
        section_views(r.addenda@) == addenda_of(target@, loaded_views(addenda@), target@.addenda.len() as int, seq![]).0,
        section_views(r.memory@) == section_views(memory@),
        diag_views(r.diagnostics@) == resolved_diags(rule_views(rules@), project@, target@, diag_views(diagnostics@),
            loaded_views(addenda@)),
{
    let ghost old_diags = diagnostics@;
    let mut diagnostics = diagnostics;
    let kept = keep_rules(&rules, &project, &target);
    let found = supersede(&kept, &mut diagnostics);
    let ghost after_overrides = diag_views(diagnostics@);
    let superseded = sort_strings(&found);
    let survivors = retain_survivors(&kept, &superseded);
    let sorted = sort_by_key(&survivors);
    let emphasis = emphasised(&sorted, &target, &mut diagnostics);
    let ghost after_emphasis = diag_views(diagnostics@);
    let added = collect_addenda(&target, &addenda, &mut diagnostics);
    proof {
        let kv = kept_of(rule_views(rules@), project@, target@);
        lemma_overrides_found(kv, kv.len() as int, seq![], diag_views(old_diags));
        let sv = resolved_rules(rule_views(rules@), project@, target@);
        lemma_emphasis_found(sv, target@, target@.emphasis.len() as int, seq![], after_overrides);
        lemma_addenda_found(target@, loaded_views(addenda@), target@.addenda.len() as int, seq![], after_emphasis);
    }
    if sorted.len() == 0 {
        let mut m = text4("project `", project.name.as_str(), "` + target `", target.name.as_str());
        m.append("` resolves to zero rules");
        let ghost before = diagnostics@;
        let d = Diagnostic::warning(m);
        diagnostics.push(d);
        assert(diag_views(diagnostics@) =~= diag_views(before).push(d@));
    }
    Resolved {
        root,
        project,
        target,
        rules: sorted,
        superseded,
        emphasis,
        addenda: added,
        memory,
        diagnostics,
    }
}

} // verus!
