use playbook::recall::git::{
    first_line, invocation, parse_check_attr, refuse_reflog, rev, revision_ends, run_result, split_range, with_paths,
    chunks, Noun, MUTATING,
};
use playbook::contract::Exit;

#[test]
fn no_mutating_noun_in_the_enum() {
    for noun in Noun::all() {
        assert!(
            !MUTATING.contains(&noun.as_str()),
            "`{}` is a mutating git command and must not be in the enum",
            noun.as_str()
        );
    }
    for word in ["commit", "push", "reset", "checkout", "reflog"] {
        assert!(MUTATING.contains(&word), "`{word}` left the list");
    }
}

#[test]
fn a_reflog_reference_is_refused_before_anything_else() {
    let err = refuse_reflog("HEAD@{1}").err().expect("refused");
    assert_eq!(err.exit, Exit::Usage);
    assert_eq!(
        err.message,
        "`HEAD@{1}` is reflog syntax, and this tool does not read the reflog · address the commit itself"
    );
    assert!(refuse_reflog("HEAD~1").is_ok());
}

#[test]
fn a_revision_is_validated_before_it_reaches_git() {
    assert_eq!(rev("main").ok(), Some("main".to_string()));
    assert_eq!(rev("").err().unwrap().message, "empty revision");
    assert_eq!(
        rev("--output=x").err().unwrap().message,
        "`--output=x` starts with `-`, which git would read as a flag"
    );
    assert_eq!(
        rev("a{b").err().unwrap().message,
        "`a{b` is brace syntax, which this tool does not pass to git"
    );
    assert_eq!(
        rev("a b").err().unwrap().message,
        "`a b` is not a revision this tool will pass to git"
    );
}

#[test]
fn a_range_splits_into_its_ends_and_an_omitted_end_is_head() {
    assert_eq!(split_range("main..feature"), Some(("main".to_string(), "feature".to_string())));
    assert_eq!(split_range("main..."), Some(("main".to_string(), "HEAD".to_string())));
    assert_eq!(split_range("a...b"), Some(("a".to_string(), "b".to_string())));
    assert_eq!(split_range("main"), None);
    assert_eq!(revision_ends("main.."), vec!["main", "HEAD"]);
    assert_eq!(revision_ends("main"), vec!["main"]);
}

#[test]
fn every_invocation_neutralises_what_a_repository_can_configure() {
    let argv = invocation("/repo", Noun::Log, &vec!["-1".to_string()]);
    assert_eq!(
        argv,
        vec![
            "-c", "core.pager=cat", "-c", "core.fsmonitor=false", "-c", "core.hooksPath=/dev/null", "-c",
            "diff.external=", "-c", "core.quotePath=false", "-c", "safe.directory=/repo", "--no-pager",
            "--no-optional-locks", "log", "-1"
        ]
    );
}

#[test]
fn a_failed_run_names_the_noun_and_the_first_line_of_the_complaint() {
    let err = run_result(Noun::Diff, false, String::new(), "\n  fatal: bad revision  \nmore\n").err().unwrap();
    assert_eq!(err.exit, Exit::Environment);
    assert_eq!(err.message, "git diff failed: fatal: bad revision");
    assert_eq!(first_line(""), "no output");
    assert_eq!(run_result(Noun::Log, true, "out".to_string(), "").ok(), Some("out".to_string()));
}

#[test]
fn paths_go_after_the_separator_and_only_when_there_are_some() {
    let mut argv = vec!["--numstat".to_string()];
    with_paths(&mut argv, &vec![]);
    assert_eq!(argv, vec!["--numstat"]);
    with_paths(&mut argv, &vec!["-weird".to_string()]);
    assert_eq!(argv, vec!["--numstat", "--", "-weird"]);
}

#[test]
fn check_attr_is_split_from_the_right_and_chunked() {
    let attrs = parse_check_attr("a: filter: b.txt: filter: lfs\nnoise\n");
    assert_eq!(attrs, vec![("a: filter: b.txt".to_string(), "lfs".to_string())]);
    let paths: Vec<String> = (0..5).map(|i| format!("p{i}")).collect();
    let parts = chunks(&paths, 2);
    assert_eq!(parts.len(), 3);
    assert_eq!(parts[2], vec!["p4"]);
}
