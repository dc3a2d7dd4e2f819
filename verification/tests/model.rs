use playbook::model::{split_sections, Activation, Diagnostic, Layer, Project, Rule};

fn project() -> Project {
    Project {
        name: "shared-crates".into(),
        path: "~/code/defrag/shared-crates".into(),
        org: Some("defrag".into()),
        languages: vec!["rust".into()],
        default_target: Some("harness-code".into()),
    }
}

#[test]
fn activation_parses_every_variant() {
    assert_eq!(Activation::parse("always").unwrap(), Activation::Always);
    assert_eq!(Activation::parse("").unwrap(), Activation::Always);
    assert_eq!(Activation::parse("manual").unwrap(), Activation::Manual);
    assert_eq!(
        Activation::parse("language:rust").unwrap(),
        Activation::Language("rust".into())
    );
    assert_eq!(
        Activation::parse("org:defrag").unwrap(),
        Activation::Org("defrag".into())
    );
    assert_eq!(
        Activation::parse("project:archivist").unwrap(),
        Activation::Project("archivist".into())
    );
}

#[test]
fn unknown_activation_is_an_error_not_a_silent_skip() {
    assert!(Activation::parse("langauge:rust").is_err());
    assert!(Activation::parse("language:").is_err());
    assert!(Activation::parse("org:").is_err());
}

#[test]
fn activation_matching() {
    let p = project();
    assert!(Activation::Always.matches(&p));
    assert!(!Activation::Manual.matches(&p));
    assert!(Activation::Language("rust".into()).matches(&p));
    assert!(!Activation::Language("go".into()).matches(&p));
    assert!(Activation::Org("defrag".into()).matches(&p));
    assert!(!Activation::Org("hodlcroft".into()).matches(&p));
    assert!(Activation::Project("shared-crates".into()).matches(&p));
    assert!(!Activation::Project("archivist".into()).matches(&p));
}

#[test]
fn activation_text_parses_back() {
    for raw in ["always", "manual", "language:rust", "org:defrag", "project:x"] {
        let parsed = Activation::parse(raw).unwrap();
        assert_eq!(parsed.as_str(), raw);
        assert_eq!(Activation::parse(&parsed.as_str()).unwrap(), parsed);
    }
}

#[test]
fn a_bare_language_layer_does_not_parse() {
    assert!(Layer::parse("rust").is_err());
    assert_eq!(
        Layer::parse("language:rust").unwrap(),
        Layer::Language("rust".into())
    );
}

#[test]
fn layer_ranks_order_core_before_project() {
    assert!(Layer::Core.rank() < Layer::Language("rust".into()).rank());
    assert!(Layer::Language("rust".into()).rank() < Layer::Org.rank());
    assert!(Layer::Org.rank() < Layer::Project.rank());
}

#[test]
fn layer_text_parses_back() {
    for raw in ["core", "language:rust", "org", "project"] {
        let parsed = Layer::parse(raw).unwrap();
        assert_eq!(parsed.as_str(), raw);
    }
}

fn rule_with_directive(directive: &str) -> Rule {
    Rule {
        id: "x".into(),
        title: "T".into(),
        layer: Layer::Core,
        activation: Activation::Always,
        priority: 50,
        overrides: vec![],
        targets: vec![],
        rel: "rules/core/x.md".into(),
        directive: directive.into(),
        rationale: String::new(),
    }
}

#[test]
fn lead_takes_only_the_first_paragraph() {
    let rule = rule_with_directive("First line\nwraps.\n\nSecond paragraph.\n");
    assert_eq!(rule.lead(), "First line wraps.");
}

#[test]
fn lead_takes_the_first_bullet_and_its_continuations() {
    let rule = rule_with_directive(
        "- First instruction,\n  which wraps.\n  - a nested detail\n- Second instruction.\n- Third.\n",
    );
    assert_eq!(
        rule.lead(),
        "First instruction, which wraps. - a nested detail"
    );
}

#[test]
fn lead_stops_at_the_second_bullet() {
    let rule = rule_with_directive("- One.\n- Two.\n- Three.\n");
    assert_eq!(rule.lead(), "One.");
}

#[test]
fn lead_stops_at_a_bullet_after_a_prose_lead() {
    let rule = rule_with_directive("Do the thing.\n\n- detail one\n- detail two\n");
    assert_eq!(rule.lead(), "Do the thing.");
}

#[test]
fn lead_tolerates_a_leading_blank_line_and_a_star_bullet() {
    let rule = rule_with_directive("\n\n* Starred instruction.\n* Another.\n");
    assert_eq!(rule.lead(), "Starred instruction.");
}

#[test]
fn lead_of_an_empty_directive_is_empty() {
    assert_eq!(rule_with_directive("\n\n").lead(), "");
}

#[test]
fn short_id_is_the_id() {
    let mut rule = rule_with_directive("x");
    assert_eq!(rule.short_id(), "x");
    rule.id = "core-working-first".into();
    assert_eq!(rule.short_id(), "core-working-first");
}

#[test]
fn sections_split_at_the_rationale_heading() {
    let body = "## Directive\n\nDo the thing.\n\n## Rationale\n\nBecause it broke.\n";
    let s = split_sections(body);
    assert!(s.has_directive);
    assert_eq!(s.directive, "Do the thing.");
    assert_eq!(s.rationale, "Because it broke.");
}

#[test]
fn rationale_is_optional() {
    let s = split_sections("## Directive\n\nDo the thing.\n");
    assert!(s.has_directive);
    assert_eq!(s.directive, "Do the thing.");
    assert!(s.rationale.is_empty());
}

#[test]
fn a_body_with_no_directive_is_returned_whole_and_flagged() {
    let s = split_sections("Just prose, no headings.\n\nMore prose.\n");
    assert!(!s.has_directive);
    assert!(s.directive.contains("Just prose"));
    assert!(s.directive.contains("More prose"));
}

#[test]
fn content_before_the_directive_heading_is_kept_not_dropped() {
    let s = split_sections("A stray preamble.\n\n## Directive\n\nDo the thing.\n");
    assert!(s.has_directive);
    assert!(s.directive.contains("A stray preamble."));
    assert!(s.directive.contains("Do the thing."));
}

#[test]
fn sub_headings_inside_a_directive_stay_in_the_directive() {
    let body = "## Directive\n\nLead.\n\n### A trap\n\nDetails.\n\n## Rationale\n\nWhy.\n";
    let s = split_sections(body);
    assert!(s.directive.contains("### A trap"));
    assert!(s.directive.contains("Details."));
    assert_eq!(s.rationale, "Why.");
}

#[test]
fn a_diagnostic_names_its_severity() {
    assert_eq!(Diagnostic::error("bad".to_string()).to_text(), "error: bad");
    assert_eq!(Diagnostic::warning("odd".to_string()).to_text(), "warning: odd");
}

#[test]
fn an_activation_reads_back_as_it_was_written() {
    for a in [
        Activation::Always,
        Activation::Manual,
        Activation::Language("rust".into()),
        Activation::Org("acme".into()),
        Activation::Project("shared-crates".into()),
    ] {
        assert_eq!(Activation::parse(&a.as_str()), Ok(a.clone()));
    }
}
