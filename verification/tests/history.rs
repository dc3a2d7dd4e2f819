use playbook::contract::Exit;
use playbook::peek::paths::Root;
use playbook::recall::facts::commits;
use playbook::recall::status::Status;
use playbook::recall::verbs::state::{pending, Head};
use playbook::recall::verbs::{log, state, Opts};

fn opts(limit: usize) -> Opts {
    Opts {
        root: Root::at("/work/repo"),
        root_was_explicit: false,
        limit,
        limit_clamped_from: None,
        include_secret_paths: false,
        patch: false,
        summary: false,
        ignore_space: false,
        with: Vec::new(),
        base: None,
    }
}

fn rendered_lines(text: &str) -> Vec<String> {
    text.lines().map(str::to_string).collect()
}

#[test]
fn state_names_the_branch_the_head_the_operation_and_the_paths() {
    let status = Status::parse(
        "# branch.oid abc1234def\0# branch.head main\0# branch.upstream origin/main\0# branch.ab +0 -0\0\
         1 .M N... 100644 100644 100644 aaaa bbbb src/a.rs\0",
    )
    .expect("a status");
    let head = Head::parse("abc1234\u{1f}2024-01-02\u{1f}Ada\u{1f}Fix it\n").expect("a head");
    let ops = pending(&vec![false, true, false, false, false, false]);
    assert_eq!(ops, vec!["rebase"]);
    let out = state::answer(&status, Some(&head), &ops, &opts(200));
    let lines = rendered_lines(&out.report.render());
    assert_eq!(lines[0], "# at-recall state · repo · main · abc1234");
    assert_eq!(lines[1], "head       2024-01-02  Ada  Fix it");
    assert!(lines[2].starts_with("upstream   origin/main"), "{}", lines[2]);
    assert_eq!(lines[3], "pending    rebase");
    assert_eq!(lines[4], " M  src/a.rs");
    assert_eq!(lines[5], "# 1 path");
    assert_eq!(lines[6], "# next: at-recall diff · what changed in them");
    assert_eq!(out.exit, Exit::Results);
}

#[test]
fn an_unborn_branch_says_it_has_no_commits() {
    let status = Status::parse("# branch.oid (initial)\0# branch.head main\0").expect("a status");
    let ops = pending(&vec![false; 6]);
    assert_eq!(ops, vec!["none"]);
    let out = state::answer(&status, None, &ops, &opts(200));
    let lines = rendered_lines(&out.report.render());
    assert_eq!(lines[0], "# at-recall state · repo · main · no commits yet");
    assert_eq!(lines[2], "pending    none");
    assert_eq!(lines[3], "# 0 paths");
}

#[test]
fn log_lists_the_commits_with_their_count_and_offers_the_rest() {
    let c = commits("3\n", "abc\u{1f}2024-01-02\u{1f}Ann\u{1f}Fix it\ndef\u{1f}2024-01-01\u{1f}Bo\u{1f}Start\n").expect("commits");
    let rev = Some("HEAD".to_string());
    let report = log::begin(&rev, &vec![], &opts(2));
    let out = log::answer(report, "HEAD", &vec![], &c, &opts(2));
    let lines = rendered_lines(&out.report.render());
    assert_eq!(lines[0], "# at-recall log · repo · HEAD");
    assert_eq!(lines[1], "abc  2024-01-02  Ann  Fix it");
    assert_eq!(lines[2], "def  2024-01-01  Bo   Start");
    assert_eq!(lines[3], "# 2 of 3 commits · --limit 2");
    assert_eq!(lines[4], "# next: at-recall log HEAD --limit 3 · all 3 commits");
    assert_eq!(out.exit, Exit::Results);
}

#[test]
fn a_log_with_no_commits_says_so_in_the_header() {
    let report = log::begin(&None, &vec![], &opts(200));
    assert_eq!(report.render(), "# at-recall log · repo · HEAD · no commits yet\n");
}
