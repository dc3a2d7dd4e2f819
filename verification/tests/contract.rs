use playbook::contract::{
    iso8601_utc, plural, plural_of, secret_shaped, truncate, Exit, Fail, Outcome, Report,
    MAX_LINE_WIDTH,
};

#[test]
fn contract_iso8601_renders_the_epoch() {
    assert_eq!(iso8601_utc(0), "1970-01-01T00:00:00Z");
}

#[test]
fn contract_iso8601_renders_a_known_timestamp() {
    assert_eq!(iso8601_utc(1_000_000_000), "2001-09-09T01:46:40Z");
}

#[test]
fn iso8601_crosses_a_leap_day_and_a_new_year() {
    assert_eq!(iso8601_utc(951_782_400), "2000-02-29T00:00:00Z");
    assert_eq!(iso8601_utc(978_307_199), "2000-12-31T23:59:59Z");
    assert_eq!(iso8601_utc(978_307_200), "2001-01-01T00:00:00Z");
}

#[test]
fn plural_agrees_with_itself_on_one() {
    assert_eq!(plural(1, "path"), "1 path");
    assert_eq!(plural(0, "path"), "0 paths");
    assert_eq!(plural(3, "path"), "3 paths");
}

#[test]
fn a_noun_with_its_own_plural_uses_it() {
    assert_eq!(
        plural_of(1, "untracked directory", "untracked directories"),
        "1 untracked directory"
    );
    assert_eq!(
        plural_of(2, "untracked directory", "untracked directories"),
        "2 untracked directories"
    );
}

#[test]
fn an_empty_report_is_nothing_rather_than_success() {
    let outcome = Outcome::from_report(Report::new());
    assert_eq!(outcome.exit, Exit::Nothing);
}

#[test]
fn a_report_with_content_is_results() {
    let mut report = Report::new();
    report.content("a line".to_string());
    assert_eq!(Outcome::from_report(report).exit, Exit::Results);
}

#[test]
fn a_header_alone_is_not_content() {
    let mut report = Report::new();
    report.header("at-peek", "stat", "root", "1 path");
    report.bound("1 path".to_string());
    assert_eq!(Outcome::from_report(report).exit, Exit::Nothing);
}

#[test]
fn a_frame_that_found_something_is_results() {
    let mut report = Report::new();
    report.header("at-recall", "diff", "repo", "working tree against HEAD");
    report.bound("6 files, +98 -38, not shown".to_string());
    assert_eq!(Outcome::from_frame(report).exit, Exit::Results);
}

#[test]
fn an_exit_is_one_line_and_is_not_content() {
    let mut report = Report::new();
    report.next("at-recall diff --patch".to_string(), "the hunks".to_string());
    assert_eq!(report.content_lines(), 0);
    assert_eq!(
        report.render(),
        "# next: at-recall diff --patch · the hunks\n"
    );
}

#[test]
fn a_report_renders_every_line_in_order() {
    let mut report = Report::new();
    report.header("at-peek", "slice", "repo", "a.rs:1-2");
    report.content("1  fn main() {".to_string());
    report.note("plain".to_string());
    report.bound("2 lines".to_string());
    assert_eq!(report.content_lines(), 1);
    assert_eq!(
        report.render(),
        "# at-peek slice · repo · a.rs:1-2\n1  fn main() {\nplain\n# 2 lines\n"
    );
}

#[test]
fn contract_env_template_is_not_secret_shaped() {
    assert_eq!(secret_shaped(".env.example"), None);
    assert!(secret_shaped(".env").is_some());
    assert!(secret_shaped(".env.local").is_some());
    assert!(secret_shaped("id_ed25519").is_some());
    assert!(secret_shaped("relay.pem").is_some());
}

#[test]
fn contract_ordinary_source_names_are_not_secret_shaped() {
    for name in ["cache.rs", "Cargo.lock", "flake.nix", "main.rs", "ci.yml"] {
        assert_eq!(secret_shaped(name), None, "{name} must not be refused");
    }
}

#[test]
fn contract_substring_matches_are_deliberately_broad() {
    for name in ["secrets.md", "credentials.rs", "credentials.toml"] {
        assert!(secret_shaped(name).is_some(), "{name} is refused on purpose");
    }
}

#[test]
fn each_secret_rule_names_itself() {
    assert_eq!(secret_shaped(".netrc"), Some("a secret-shaped name"));
    assert_eq!(secret_shaped("id_rsa.pub"), Some("a private-key name"));
    assert_eq!(secret_shaped("server.key"), Some(".key"));
    assert_eq!(secret_shaped("bundle.p12"), Some(".p12"));
    assert_eq!(secret_shaped(".env.production"), Some("a dotenv file that is not a template"));
    assert_eq!(secret_shaped("MySecret.txt"), Some("a name containing `secret`"));
    assert_eq!(secret_shaped("AWS_CREDENTIAL"), Some("a name containing `credential`"));
}

#[test]
fn a_long_line_is_cut_and_says_so() {
    let line = "x".repeat(MAX_LINE_WIDTH + 7);
    let (text, cut) = truncate(&line);
    assert!(cut);
    assert_eq!(text, format!("{} ...(+7 characters)", "x".repeat(MAX_LINE_WIDTH)));
    let exact = "y".repeat(MAX_LINE_WIDTH);
    assert_eq!(truncate(&exact), (exact.clone(), false));
}

#[test]
fn each_exit_has_its_code() {
    assert_eq!(Exit::Results.code(), 0);
    assert_eq!(Exit::Nothing.code(), 1);
    assert_eq!(Exit::Usage.code(), 2);
    assert_eq!(Exit::Environment.code(), 3);
    assert_eq!(Exit::Refused.code(), 4);
    assert_eq!(Fail::usage("u".to_string()).exit, Exit::Usage);
    assert_eq!(Fail::environment("e".to_string()).exit, Exit::Environment);
    assert_eq!(Fail::refused("r".to_string()).exit, Exit::Refused);
}

#[test]
fn a_report_renders_its_calls_in_order_and_counts_the_content() {
    let mut report = Report::new();
    report.header("at-peek", "slice", "/repo", "a.rs");
    report.content("first".to_string());
    report.bound("limit reached".to_string());
    report.note("aside".to_string());
    report.content("second".to_string());
    report.next("at-peek slice a.rs:2".to_string(), "more".to_string());
    assert_eq!(report.content_lines(), 2);
    assert_eq!(
        report.render(),
        "# at-peek slice · /repo · a.rs\nfirst\n# limit reached\naside\nsecond\n# next: at-peek slice a.rs:2 · more\n"
    );
}
