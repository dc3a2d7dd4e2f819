use playbook::contract::{quoted, Report};
use playbook::peek::paths::Root;
use playbook::recall::verbs::{again, Budget, Opts};

#[test]
fn a_plain_path_is_not_quoted() {
    assert_eq!(quoted("src/main.rs"), "src/main.rs");
    assert_eq!(quoted("HEAD~1..HEAD"), "HEAD~1..HEAD");
}

#[test]
fn a_path_with_a_space_is_quoted_once() {
    assert_eq!(quoted("src/my file.rs"), "'src/my file.rs'");
}

#[test]
fn a_quote_in_a_path_survives_a_shell() {
    assert_eq!(quoted("it's.rs"), r"'it'\''s.rs'");
}

fn opts(explicit: bool) -> Opts {
    Opts {
        root: Root::at("/work/my repo"),
        root_was_explicit: explicit,
        limit: 200,
        limit_clamped_from: None,
        include_secret_paths: false,
        patch: false,
        summary: false,
        ignore_space: false,
        with: Vec::new(),
        base: None,
    }
}

#[test]
fn an_exit_echoes_the_root_the_caller_named() {
    let flags = vec!["--patch".to_string()];
    let paths = vec!["a b.rs".to_string()];
    assert_eq!(
        again(&opts(false), "diff", Some("HEAD"), &paths, &flags),
        "at-recall diff HEAD 'a b.rs' --patch"
    );
    assert_eq!(
        again(&opts(true), "diff", None, &vec![], &vec![]),
        "at-recall diff --root '/work/my repo'"
    );
}

#[test]
fn a_budget_drops_past_its_limit_and_cuts_at_the_width_cap() {
    let mut report = Report::new();
    let mut budget = Budget::new(1);
    budget.push(&mut report, "x".repeat(501));
    budget.push(&mut report, "dropped".to_string());
    assert_eq!(budget.dropped(), 1);
    budget.width_caveat(&mut report);
    let text = report.render();
    assert!(text.contains("...(+1 characters)"), "{text}");
    assert!(text.ends_with("# caveat: 1 line(s) wider than 500 characters, truncated\n"), "{text}");
}

#[test]
fn a_budget_with_no_wide_line_states_no_caveat() {
    let mut report = Report::new();
    let mut budget = Budget::new(2);
    budget.push(&mut report, "one".to_string());
    budget.push(&mut report, "two".to_string());
    budget.push(&mut report, "x".repeat(501));
    assert_eq!(budget.dropped(), 1);
    assert_eq!(report.content_lines(), 2);
    budget.width_caveat(&mut report);
    assert_eq!(report.render(), "one\ntwo\n");
}
