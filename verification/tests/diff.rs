use playbook::recall::facts::{names_of, parse_numstat, totals, FileStat};
use playbook::recall::verbs::diff::{
    changed_paths, comparison, default_revision, explain, filter_verdict, is_plain_path, needs_filter_check,
    patch_args, secret_shaped_path, split, table, withheld,
};
use playbook::recall::status::Status;
use playbook::recall::verbs::Opts;
use playbook::peek::paths::Root;
use playbook::contract::{Exit, Report};

fn opts(limit: usize, patch: bool) -> Opts {
    Opts {
        root: Root::at("/work/repo"),
        root_was_explicit: false,
        limit,
        limit_clamped_from: None,
        include_secret_paths: false,
        patch,
        summary: false,
        ignore_space: false,
        with: Vec::new(),
        base: None,
    }
}

#[test]
fn diff_a_plain_path_is_its_own_name() {
    assert_eq!(names_of("src/main.rs"), vec!["src/main.rs"]);
}

#[test]
fn diff_a_factored_rename_yields_both_names() {
    assert_eq!(names_of("src/{old.rs => new.rs}"), vec!["src/old.rs", "src/new.rs"]);
    assert_eq!(names_of("src/{old => new}/mod.rs"), vec!["src/old/mod.rs", "src/new/mod.rs"]);
}

#[test]
fn diff_an_unfactored_rename_yields_both_names() {
    assert_eq!(names_of("a.rs => b/c.rs"), vec!["a.rs", "b/c.rs"]);
}

#[test]
fn diff_a_binary_file_has_no_counts() {
    let file = parse_numstat("-\t-\tassets/logo.png").expect("a numstat line");
    assert_eq!(file.counts(), "binary");
    assert_eq!(file.added, None);
}

#[test]
fn diff_counts_and_path_survive_a_path_with_a_tab_after_it() {
    let file = parse_numstat("12\t3\tsrc/a weird name.rs").expect("a numstat line");
    assert_eq!(file.counts(), "+12 -3");
    assert_eq!(file.label, "src/a weird name.rs");
}

#[test]
fn the_deny_list_sees_a_secret_name_in_any_directory() {
    assert!(secret_shaped_path("config/.env"));
    assert!(secret_shaped_path("deploy/relay.pem"));
    assert!(secret_shaped_path("secrets/notes.md"));
    assert!(!secret_shaped_path("src/cache.rs"));
    assert!(!secret_shaped_path(".env.example"));
}

#[test]
fn diff_totals_state_the_binary_count() {
    let files = vec![
        FileStat {
            added: Some(12),
            deleted: Some(3),
            label: "a.rs".to_string(),
            names: vec!["a.rs".to_string()],
        },
        FileStat {
            added: None,
            deleted: None,
            label: "b.png".to_string(),
            names: vec!["b.png".to_string()],
        },
    ];
    assert_eq!(totals(&files), "+12 -3 (1 binary)");
}

#[test]
fn a_comparison_is_named_in_the_callers_words() {
    assert_eq!(comparison(&Some("HEAD".to_string())), "working tree against HEAD");
    assert_eq!(comparison(&Some("main..HEAD".to_string())), "main..HEAD");
    assert_eq!(comparison(&None), "working tree against the index (no commits yet)");
    assert_eq!(default_revision(None, true), Some("HEAD".to_string()));
    assert_eq!(default_revision(None, false), None);
    assert!(!needs_filter_check(&Some("a..b".to_string())));
    assert!(needs_filter_check(&Some("HEAD".to_string())));
}

#[test]
fn the_first_argument_is_a_revision_only_when_it_names_one() {
    let o = opts(200, false);
    let args = vec!["HEAD~1".to_string(), "src".to_string()];
    let (rev, paths) = split(&args, true, &o).expect("split");
    assert_eq!(rev, Some("HEAD~1".to_string()));
    assert_eq!(paths, vec!["src"]);
    let (rev, paths) = split(&args, false, &o).expect("split");
    assert_eq!(rev, None);
    assert_eq!(paths, vec!["HEAD~1", "src"]);
    let err = split(&vec!["HEAD@{1}".to_string()], true, &o).err().expect("refused");
    assert_eq!(err.exit, Exit::Usage);
    assert!(err.message.contains("reflog"));
    let err = split(&vec!["nope..HEAD".to_string()], false, &o).err().expect("refused");
    assert_eq!(err.exit, Exit::Environment);
    assert_eq!(
        err.message,
        "`nope..HEAD` is not a revision range in repo · a range needs both of its ends to resolve"
    );
}

#[test]
fn a_patch_withholds_secret_names_sorted_and_once() {
    let files = vec![
        parse_numstat("1\t1\tconfig/.env").unwrap(),
        parse_numstat("1\t1\tsrc/a.rs").unwrap(),
        parse_numstat("1\t1\tb.pem => config/.env").unwrap(),
    ];
    assert_eq!(withheld(&files, &opts(200, true)), vec!["b.pem", "config/.env"]);
    assert!(withheld(&files, &opts(200, false)).is_empty());
    let args = patch_args(&Some("HEAD".to_string()), &vec![], &vec!["b.pem".to_string()]);
    assert_eq!(
        args,
        vec!["--no-color", "--no-ext-diff", "--no-textconv", "--patch", "HEAD", "--", ":(exclude,literal)b.pem"]
    );
}

#[test]
fn a_filter_driver_is_refused_by_name() {
    let attrs = vec![
        ("a.rs".to_string(), "unspecified".to_string()),
        ("b.bin".to_string(), "lfs".to_string()),
        ("c.txt".to_string(), "unset".to_string()),
    ];
    let err = filter_verdict(&attrs).err().expect("refused");
    assert_eq!(err.exit, Exit::Refused);
    assert_eq!(
        err.message,
        "b.bin (filter=lfs) · a filter driver is a program the repository names, and this tool runs git only · `git diff` shows the filtered form"
    );
    assert!(filter_verdict(&vec![("a.rs".to_string(), "unset".to_string())]).is_ok());
}

#[test]
fn the_paths_checked_for_filters_are_a_sorted_set() {
    let status = Status::parse("# branch.oid abc\0# branch.head main\0? z.rs\0? a.rs\0").unwrap();
    let set = changed_paths("1\t1\tm.rs\n2\t0\ta.rs\n", &status).expect("paths");
    assert_eq!(set, vec!["a.rs", "m.rs", "z.rs"]);
    let broken = Status::parse("# branch.oid abc\0# branch.head main\0garbage\0").unwrap();
    assert!(changed_paths("", &broken).is_err());
}

#[test]
fn an_empty_answer_says_what_a_path_is() {
    let o = opts(200, false);
    assert!(!is_plain_path("src/*.rs"));
    assert!(!is_plain_path(":(glob)x"));
    assert!(is_plain_path("src/a.rs"));
    let mut report = Report::new();
    explain(&mut report, "new.rs", "? new.rs\0", true, &o).expect("explained");
    assert_eq!(
        report.render(),
        "# caveat: new.rs is untracked, and a diff between commits cannot show it\n"
    );
    let err = explain(&mut Report::new(), "gone.rs", "", false, &o).err().expect("refused");
    assert_eq!(
        err.message,
        "gone.rs is neither a revision nor a path in repo, and no difference mentions it"
    );
}

#[test]
fn a_table_states_its_totals_and_offers_the_hunks() {
    let o = opts(200, false);
    let files = vec![parse_numstat("3\t1\tsrc/a.rs").unwrap(), parse_numstat("-\t-\tlogo.png").unwrap()];
    let rev = Some("HEAD".to_string());
    let report = playbook::recall::verbs::diff::begin(&rev, &o);
    let w = withheld(&files, &o);
    let out = table(report, &files, &rev, &vec![], &w, "", &o);
    assert_eq!(out.exit, Exit::Results);
    assert_eq!(
        out.report.render(),
        "# at-recall diff · repo · working tree against HEAD\n\
         +3 -1   src/a.rs\n\
         binary  logo.png\n\
         # 2 files, +3 -1 (1 binary)\n\
         # next: at-recall diff HEAD --patch · the hunks\n"
    );
}

#[test]
fn a_table_cut_by_the_limit_says_so_and_offers_all_of_it() {
    let o = opts(1, false);
    let files = vec![parse_numstat("3\t1\ta.rs").unwrap(), parse_numstat("1\t0\tb.rs").unwrap()];
    let rev = Some("HEAD".to_string());
    let report = playbook::recall::verbs::diff::begin(&rev, &o);
    let out = table(report, &files, &rev, &vec![], &vec![], "", &o);
    assert_eq!(
        out.report.render(),
        "# at-recall diff · repo · working tree against HEAD\n\
         +3 -1  a.rs\n\
         # 2 files, +4 -1 · 1 shown · --limit 1\n\
         # 1 of 2 lines · --limit 1 reached\n\
         # next: at-recall diff HEAD --limit 2 · all 2 lines\n"
    );
}
