use playbook::install::{check, merge, Outcome};
use playbook::load::{census, load_addendum, load_project, load_rules, load_target};
use playbook::model::{Diagnostic, Section};
use playbook::render;
use playbook::resolve::{resolve, Resolved};

/// A small playbook held in memory: one project, one target, and the rule files in the order a
/// walk of the tree finds them.
struct Fixture {
    project: String,
    target: String,
    files: Vec<(String, String)>,
    addenda: Vec<(String, Result<String, String>)>,
}

impl Fixture {
    fn new() -> Self {
        Fixture {
            project: "project: demo\norg: acme\nlanguages: rust\n".to_string(),
            target: "target: t\nmodel: m\nharness: h\n".to_string(),
            files: Vec::new(),
            addenda: Vec::new(),
        }
    }

    fn write(&mut self, rel: &str, content: &str) -> &mut Self {
        self.files.retain(|(r, _)| r != rel);
        self.files.push((rel.to_string(), content.to_string()));
        self
    }

    fn rule(&mut self, rel: &str, frontmatter: &str, body: &str) -> &mut Self {
        let text = format!("---\n{frontmatter}---\n\n{body}\n");
        self.write(&format!("rules/{rel}"), &text)
    }

    fn resolve(&self) -> Resolved {
        let project = load_project("demo", "projects/demo/project.conf", Some(&self.project)).expect("project");
        let target = load_target("t", "models/t/overlay.conf", Some(&self.target)).expect("target");
        let mut files: Vec<(String, Result<String, String>)> =
            self.files.iter().map(|(r, c)| (r.clone(), Ok(c.clone()))).collect();
        files.sort_by(|a, b| a.0.cmp(&b.0));
        let (rules, diagnostics) = load_rules(&files);
        let addenda: Vec<Result<Section, String>> = target
            .addenda
            .iter()
            .map(|name| {
                let read = self
                    .addenda
                    .iter()
                    .find(|(n, _)| n == name)
                    .map(|(_, r)| r.clone())
                    .unwrap_or_else(|| Err(format!("models/t/addenda/{name}: not found")));
                load_addendum(name, read)
            })
            .collect();
        resolve("/playbook".to_string(), project, target, rules, diagnostics, addenda, Vec::new())
    }
}

fn rule_fm(id: &str, layer: &str, activation: &str, extra: &str) -> String {
    format!("id: {id}\ntitle: {id}\nlayer: {layer}\nactivation: {activation}\npriority: 50\n{extra}")
}

fn ids(resolved: &Resolved) -> Vec<&str> {
    resolved.rules.iter().map(|r| r.id.as_str()).collect()
}

fn mentions(diagnostics: &[Diagnostic], text: &str) -> bool {
    diagnostics.iter().any(|d| d.message.contains(text))
}

#[test]
fn a_higher_layer_overrides_a_lower_one() {
    let mut f = Fixture::new();
    f.rule("core/base.md", &rule_fm("base", "core", "always", ""), "Base rule.")
        .rule("org/replacement.md", &rule_fm("replacement", "org", "always", "overrides: base\n"), "Replacement rule.")
        .write(
            "projects/demo/rules/top.md",
            &format!(
                "---\n{}---\n\nProject rule that wins.\n",
                rule_fm("top", "project", "project:demo", "overrides: replacement\n")
            ),
        );
    let resolved = f.resolve();
    assert!(!resolved.has_errors(), "{:?}", resolved.diagnostics);
    assert_eq!(ids(&resolved), vec!["top"]);
    assert_eq!(resolved.superseded, vec!["base", "replacement"]);
}

#[test]
fn overriding_upward_is_an_error() {
    let mut f = Fixture::new();
    f.rule("org/base.md", &rule_fm("base", "org", "always", ""), "Base.")
        .rule("core/naughty.md", &rule_fm("naughty", "core", "always", "overrides: base\n"), "Cannot override upward.");
    let resolved = f.resolve();
    assert!(resolved.has_errors());
    assert!(mentions(&resolved.diagnostics, "lower layer"), "{:?}", resolved.diagnostics);
}

#[test]
fn same_layer_override_is_an_error() {
    let mut f = Fixture::new();
    f.rule("core/a.md", &rule_fm("a", "core", "always", ""), "A.")
        .rule("core/b.md", &rule_fm("b", "core", "always", "overrides: a\n"), "B.");
    let resolved = f.resolve();
    assert!(resolved.has_errors());
    assert!(mentions(&resolved.diagnostics, "lower layer"), "{:?}", resolved.diagnostics);
}

#[test]
fn mutual_override_is_an_error() {
    let mut f = Fixture::new();
    f.rule("core/a.md", &rule_fm("a", "core", "always", "overrides: b\n"), "A.")
        .rule("org/b.md", &rule_fm("b", "org", "always", "overrides: a\n"), "B.");
    let resolved = f.resolve();
    assert!(resolved.has_errors());
    assert!(mentions(&resolved.diagnostics, "override each other"), "{:?}", resolved.diagnostics);
}

#[test]
fn an_override_naming_a_missing_rule_warns() {
    let mut f = Fixture::new();
    f.rule("core/a.md", &rule_fm("a", "core", "always", "overrides: ghost\n"), "A.");
    let resolved = f.resolve();
    assert!(!resolved.has_errors());
    assert_eq!(ids(&resolved), vec!["a"]);
    assert!(mentions(&resolved.diagnostics, "not in this rule set"), "{:?}", resolved.diagnostics);
}

#[test]
fn duplicate_ids_are_fatal() {
    let mut f = Fixture::new();
    f.rule("core/a.md", &rule_fm("same", "core", "always", ""), "A.")
        .rule("org/b.md", &rule_fm("same", "org", "always", ""), "B.");
    let resolved = f.resolve();
    assert!(resolved.has_errors());
    assert!(mentions(&resolved.diagnostics, "duplicate rule id"), "{:?}", resolved.diagnostics);
}

#[test]
fn an_unknown_emphasis_id_is_fatal() {
    let mut f = Fixture::new();
    f.rule("core/a.md", &rule_fm("a", "core", "always", ""), "A.");
    f.target = "target: t\nemphasis: a, not-a-rule\n".to_string();
    let resolved = f.resolve();
    assert!(resolved.has_errors());
    assert!(mentions(&resolved.diagnostics, "not-a-rule"), "{:?}", resolved.diagnostics);
}

#[test]
fn an_unknown_activation_is_fatal() {
    let mut f = Fixture::new();
    f.rule("core/a.md", &rule_fm("a", "core", "langauge:rust", ""), "A.");
    assert!(f.resolve().has_errors());
}

#[test]
fn a_rule_with_no_directive_is_fatal() {
    let mut f = Fixture::new();
    f.write("rules/core/a.md", "---\nid: a\ntitle: a\nlayer: core\nactivation: always\n---\n");
    let resolved = f.resolve();
    assert!(resolved.has_errors());
    assert!(mentions(&resolved.diagnostics, "no directive"), "{:?}", resolved.diagnostics);
}

#[test]
fn a_rule_whose_directive_section_is_empty_is_fatal() {
    let mut f = Fixture::new();
    f.write(
        "rules/core/a.md",
        "---\nid: a\ntitle: a\nlayer: core\nactivation: always\n---\n\n## Directive\n\n## Rationale\n\nWhy it matters.\n",
    );
    let resolved = f.resolve();
    assert!(resolved.has_errors());
    assert!(mentions(&resolved.diagnostics, "no directive"), "{:?}", resolved.diagnostics);
}

#[test]
fn manual_rules_need_an_explicit_include() {
    let mut f = Fixture::new();
    f.rule("core/a.md", &rule_fm("a", "core", "manual", ""), "A.")
        .rule("core/b.md", &rule_fm("b", "core", "always", ""), "B.");
    assert_eq!(ids(&f.resolve()), vec!["b"]);
    f.target = "target: t\ninclude: rules/core/a.md\n".to_string();
    assert_eq!(ids(&f.resolve()), vec!["a", "b"]);
}

#[test]
fn targets_restrict_a_rule_to_named_targets() {
    let mut f = Fixture::new();
    f.rule("core/a.md", &rule_fm("a", "core", "always", "targets: other\n"), "A.")
        .rule("core/b.md", &rule_fm("b", "core", "always", ""), "B.");
    assert_eq!(ids(&f.resolve()), vec!["b"]);
}

#[test]
fn exclude_accepts_an_id_or_a_path_prefix() {
    let mut f = Fixture::new();
    f.rule("core/a.md", &rule_fm("a", "core", "always", ""), "A.")
        .rule("org/b.md", &rule_fm("b", "org", "always", ""), "B.");
    f.target = "target: t\nexclude: a, rules/org\n".to_string();
    assert!(ids(&f.resolve()).is_empty());
}

#[test]
fn exclude_activation_drops_rules_of_the_named_kinds() {
    let mut f = Fixture::new();
    f.rule("core/a.md", &rule_fm("a", "core", "always", ""), "A.")
        .rule("lang/b.md", &rule_fm("b", "language:rust", "language:rust", ""), "B.")
        .rule("org/c.md", &rule_fm("c", "org", "org:acme", ""), "C.");
    assert_eq!(ids(&f.resolve()), vec!["a", "b", "c"]);
    f.target = "target: t\nexclude_activation: always\n".to_string();
    assert_eq!(ids(&f.resolve()), vec!["b", "c"]);
    f.target = "target: t\nexclude_activation: always, language\n".to_string();
    assert_eq!(ids(&f.resolve()), vec!["c"]);
}

#[test]
fn sorting_is_priority_desc_within_a_layer_then_id() {
    let mut f = Fixture::new();
    f.rule("core/low.md", &rule_fm("z-low", "core", "always", "priority: 10\n"), "Low.")
        .rule("core/high.md", &rule_fm("a-high", "core", "always", "priority: 90\n"), "High.")
        .rule("core/mid.md", &rule_fm("m-mid", "core", "always", ""), "Mid.");
    assert_eq!(ids(&f.resolve()), vec!["a-high", "m-mid", "z-low"]);
}

#[test]
fn a_rule_with_an_unterminated_header_is_reported_not_guessed_at() {
    let mut f = Fixture::new();
    f.write("rules/core/a.md", "---\nid: a\ntitle: a\n\nBody with no closing marker.\n");
    let resolved = f.resolve();
    assert!(resolved.has_errors());
    assert!(mentions(&resolved.diagnostics, "is required"), "{:?}", resolved.diagnostics);
}

#[test]
fn install_round_trip_leaves_hand_written_content_alone() {
    let mut f = Fixture::new();
    f.rule("core/a.md", &rule_fm("a", "core", "always", ""), "Rule A body.");
    let block = render::render(&f.resolve());
    let existing = "# My notes\n\nHand written above.\n";
    let text = merge(existing, &block).expect("the file changes");
    assert!(text.starts_with("# My notes\n\nHand written above.\n"));
    assert!(text.contains("Rule A body."));
    assert!(merge(&text, &block).is_none(), "a second install must not move the file");
    assert!(matches!(check("AGENTS.md".to_string(), Some(&text), &block), Outcome::UpToDate(_)));
}

#[test]
fn check_reports_stale_when_a_rule_changed() {
    let mut f = Fixture::new();
    f.rule("core/a.md", &rule_fm("a", "core", "always", ""), "First body.");
    let block = render::render(&f.resolve());
    let on_disk = merge("", &block).expect("written");
    f.rule("core/a.md", &rule_fm("a", "core", "always", ""), "Second body.");
    let newer = render::render(&f.resolve());
    match check("AGENTS.md".to_string(), Some(&on_disk), &newer) {
        Outcome::Stale(_, diff) => assert!(diff.contains("First body.") || diff.contains("Second body.")),
        _ => panic!("expected Stale"),
    }
}

#[test]
fn check_reports_a_missing_file_and_a_missing_block() {
    let mut f = Fixture::new();
    f.rule("core/a.md", &rule_fm("a", "core", "always", ""), "A.");
    let block = render::render(&f.resolve());
    assert!(matches!(check("AGENTS.md".to_string(), None, &block), Outcome::Missing(_)));
    assert!(matches!(
        check("AGENTS.md".to_string(), Some("Prose with no block.\n"), &block),
        Outcome::NoBlock(_)
    ));
}

#[test]
fn a_target_with_a_broken_addendum_is_fatal() {
    let mut f = Fixture::new();
    f.rule("core/a.md", &rule_fm("a", "core", "always", ""), "A.");
    f.target = "target: t\naddenda: nope.md\n".to_string();
    let resolved = f.resolve();
    assert!(resolved.has_errors());
    assert!(mentions(&resolved.diagnostics, "nope.md"), "{:?}", resolved.diagnostics);
}

#[test]
fn an_unknown_key_is_a_warning_so_typos_are_visible() {
    let mut f = Fixture::new();
    f.rule("core/a.md", &rule_fm("a", "core", "always", "overide: b\n"), "A.");
    let resolved = f.resolve();
    assert!(!resolved.has_errors(), "an unknown key must not be fatal");
    assert!(mentions(&resolved.diagnostics, "overide"), "{:?}", resolved.diagnostics);
}

#[test]
fn an_addendum_that_reads_is_appended_below_the_rules() {
    let mut f = Fixture::new();
    f.rule("core/a.md", &rule_fm("a", "core", "always", ""), "A.");
    f.target = "target: t\naddenda: extra.md\n".to_string();
    f.addenda.push(("extra.md".to_string(), Ok("# Extra mechanics\n\nDetail.\n".to_string())));
    let resolved = f.resolve();
    assert!(!resolved.has_errors(), "{:?}", resolved.diagnostics);
    let block = render::render(&resolved);
    assert!(block.contains("## Extra mechanics"));
    assert!(!block.contains("\n# Extra mechanics"));
}

#[test]
fn rendering_the_same_resolution_twice_is_byte_identical() {
    let mut f = Fixture::new();
    f.rule("core/a.md", &rule_fm("a", "core", "always", ""), "A.")
        .rule("org/b.md", &rule_fm("b", "org", "org:acme", ""), "B.");
    let resolved = f.resolve();
    assert_eq!(render::render(&resolved), render::render(&resolved));
}

#[test]
fn the_census_names_the_projects_a_rule_activates_for() {
    let mut f = Fixture::new();
    f.rule("core/a.md", &rule_fm("a", "core", "always", ""), "A.")
        .rule("org/b.md", &rule_fm("b", "org", "org:other", ""), "B.");
    let project = load_project("demo", "projects/demo/project.conf", Some(&f.project)).unwrap();
    let files: Vec<(String, Result<String, String>)> =
        f.files.iter().map(|(r, c)| (r.clone(), Ok(c.clone()))).collect();
    let (rules, _) = load_rules(&files);
    let rows = census(&rules, &vec![project]);
    assert_eq!(rows.len(), 2);
    assert_eq!(rows[0].projects, vec!["demo"]);
    assert!(rows[1].projects.is_empty());
}

#[test]
fn list_prints_the_resolution_table() {
    let mut f = Fixture::new();
    f.rule("core/a.md", &rule_fm("a", "core", "always", ""), "A.")
        .rule("org/b.md", &rule_fm("b", "org", "org:acme", "priority: -5\n"), "B.");
    let resolved = f.resolve();
    let lines = playbook::cli::list_lines(&resolved);
    let w = 15;
    let expected = vec![
        "project: demo   org: acme   languages: rust".to_string(),
        "target:  t   model: m   harness: h".to_string(),
        "include: -   exclude: -   emphasis: -".to_string(),
        String::new(),
        format!("  {:<3} {:<15} {:>4}  {:<w$}", "#", "layer", "pri", "rule"),
        format!("  {}", "-".repeat(w + 26)),
        format!("  {:<3} {:<15} {:>4}  {:<w$}", 1, "core", 50, "rules/core/a.md"),
        format!("  {:<3} {:<15} {:>4}  {:<w$}", 2, "org", -5, "rules/org/b.md"),
        String::new(),
        "2 rules".to_string(),
    ];
    assert_eq!(lines, expected);
}

#[test]
fn list_names_what_was_superseded_and_emphasised() {
    let mut f = Fixture::new();
    f.rule("core/base.md", &rule_fm("base", "core", "always", ""), "Base.")
        .rule("org/top.md", &rule_fm("top", "org", "always", "overrides: base\n"), "Top.");
    f.target = "target: t\nemphasis: top\n".to_string();
    let lines = playbook::cli::list_lines(&f.resolve());
    let n = lines.len();
    assert_eq!(
        lines[n - 4..].to_vec(),
        vec!["superseded by a higher layer:", "  base", "emphasised in the preamble:", "  top"]
    );
    assert_eq!(lines[2], "include: -   exclude: -   emphasis: top");
}

#[test]
fn the_rules_table_orders_by_layer_then_id_and_counts_what_reaches_nothing() {
    let mut f = Fixture::new();
    f.rule("org/z.md", &rule_fm("z", "org", "org:acme", ""), "Z.")
        .rule("core/m.md", &rule_fm("m", "core", "manual", ""), "M.")
        .rule("core/b.md", &rule_fm("b", "core", "org:other", ""), "B.")
        .rule("core/k.md", &rule_fm("k", "core", "manual", ""), "K.");
    let project = load_project("demo", "projects/demo/project.conf", Some(&f.project)).unwrap();
    let target = load_target("t", "models/t/overlay.conf", Some("target: t\ninclude: k\n")).unwrap();
    let mut files: Vec<(String, Result<String, String>)> =
        f.files.iter().map(|(r, c)| (r.clone(), Ok(c.clone()))).collect();
    files.sort_by(|a, b| a.0.cmp(&b.0));
    let (rules, _) = load_rules(&files);
    let rows = census(&rules, &vec![project]);
    let lines = playbook::cli::rules_lines(&rows, &vec![target]);
    let (lw, aw, rw) = (5, 10, 15);
    let row = |layer: &str, act: &str, rel: &str, reach: &str| {
        format!("  {:<lw$}  {:<aw$}  {:<rw$}  {}", layer, act, rel, reach)
    };
    assert_eq!(lines[0], format!("  {:<lw$}  {:<aw$}  {:<rw$}  projects", "layer", "activation", "rule"));
    assert_eq!(lines[1], format!("  {}", "-".repeat(lw + aw + rw + 8)));
    assert_eq!(lines[2], row("core", "org:other", "rules/core/b.md", "ORPHAN — no project activates this rule"));
    assert_eq!(lines[3], row("core", "manual", "rules/core/k.md", "manual (included by a target)"));
    assert_eq!(lines[4], row("core", "manual", "rules/core/m.md", "UNREACHABLE — manual, and no target includes it"));
    assert_eq!(lines[5], row("org", "org:acme", "rules/org/z.md", "demo"));
    assert_eq!(lines[6], "");
    assert_eq!(lines[7], "4 rules, 2 unreachable");
    assert_eq!(lines.len(), 8);
}
