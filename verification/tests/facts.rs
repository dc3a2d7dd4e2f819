use playbook::recall::facts::{
    commits, count_args, diff_args, log_args, names_of, parse_count, parse_numstat, parse_numstats, totals,
    upstream_args, upstream_of, FileStat,
};

#[test]
fn facts_a_plain_path_is_its_own_name() {
    assert_eq!(names_of("src/main.rs"), vec!["src/main.rs"]);
}

#[test]
fn facts_a_factored_rename_yields_both_names() {
    assert_eq!(names_of("src/{old.rs => new.rs}"), vec!["src/old.rs", "src/new.rs"]);
    assert_eq!(names_of("src/{old => new}/mod.rs"), vec!["src/old/mod.rs", "src/new/mod.rs"]);
}

#[test]
fn facts_an_unfactored_rename_yields_both_names() {
    assert_eq!(names_of("a.rs => b/c.rs"), vec!["a.rs", "b/c.rs"]);
}

#[test]
fn facts_a_binary_file_has_no_counts() {
    let file = parse_numstat("-\t-\tassets/logo.png").expect("a numstat line");
    assert_eq!(file.counts(), "binary");
    assert!(file.is_binary());
}

#[test]
fn facts_counts_and_path_survive_a_path_with_a_tab_after_it() {
    let file = parse_numstat("12\t3\tsrc/a weird name.rs").expect("a numstat line");
    assert_eq!(file.counts(), "+12 -3");
    assert_eq!(file.label, "src/a weird name.rs");
}

#[test]
fn facts_totals_state_the_binary_count() {
    let files = vec![
        FileStat {
            added: Some(12),
            deleted: Some(3),
            label: "a.rs".to_string(),
            names: vec!["a.rs".to_string()],
        },
        FileStat {
            added: None,
            deleted: None,
            label: "b.png".to_string(),
            names: vec!["b.png".to_string()],
        },
    ];
    assert_eq!(totals(&files), "+12 -3 (1 binary)");
}

#[test]
fn a_line_without_two_tabs_is_not_a_row() {
    assert!(parse_numstat("12 3 src/a.rs").is_none());
    let rows = parse_numstats("1\t2\ta.rs\n\nnot a row\n3\t0\tb.rs\n");
    let labels: Vec<String> = rows.iter().map(|r| r.label.clone()).collect();
    assert_eq!(labels, vec!["a.rs", "b.rs"]);
}

#[test]
fn totals_without_binary_files_say_only_the_counts() {
    let files = vec![parse_numstat("5\t1\ta.rs").unwrap(), parse_numstat("2\t7\tb.rs").unwrap()];
    assert_eq!(totals(&files), "+7 -8");
}

#[test]
fn a_diff_carries_the_neutral_flags_before_its_own() {
    let args = diff_args(
        &Some("HEAD".to_string()),
        &vec!["src".to_string()],
        &vec!["--numstat".to_string()],
        true,
    );
    assert_eq!(
        args,
        vec![
            "--no-color",
            "--no-ext-diff",
            "--no-textconv",
            "--numstat",
            "--ignore-all-space",
            "HEAD",
            "--",
            "src"
        ]
    );
}

#[test]
fn the_count_and_the_listing_walk_the_same_revision_and_paths() {
    let paths = vec!["a.rs".to_string()];
    assert_eq!(count_args("main..HEAD", &paths), vec!["--count", "main..HEAD", "--", "a.rs"]);
    assert_eq!(
        log_args("main..HEAD", &paths, 5),
        vec![
            "--no-show-signature",
            "--max-count=5",
            "--format=%h%x1f%as%x1f%an%x1f%s",
            "main..HEAD",
            "--",
            "a.rs"
        ]
    );
}

#[test]
fn a_count_that_is_not_a_number_is_an_environment_error() {
    assert_eq!(parse_count(" 12\n").ok(), Some(12));
    let err = parse_count("twelve").err().expect("refused");
    assert_eq!(err.message, "git rev-list --count printed `twelve`, which is not a number");
}

#[test]
fn commits_are_read_with_their_total_and_a_bad_line_is_refused() {
    let c = commits("3\n", "abc\u{1f}2024-01-02\u{1f}Ann\u{1f}Fix it\n\n").expect("commits");
    assert_eq!(c.total, 3);
    assert_eq!(c.rows.len(), 1);
    assert_eq!(c.rows[0].subject, "Fix it");
    assert_eq!(c.lines(), vec!["abc  2024-01-02  Ann  Fix it"]);
    let err = commits("1", "abc\u{1f}only two\n").err().expect("refused");
    assert_eq!(err.message, "git printed 2 fields where the requested format has 4");
}

#[test]
fn an_upstream_is_asked_for_without_the_reflog() {
    assert_eq!(
        upstream_args("main"),
        vec!["--format=%(upstream:short)", "--count=1", "refs/heads/main"]
    );
    assert_eq!(upstream_of(Some("origin/main\n".to_string())), Some("origin/main".to_string()));
    assert_eq!(upstream_of(Some("\n".to_string())), None);
    assert_eq!(upstream_of(None), None);
}
