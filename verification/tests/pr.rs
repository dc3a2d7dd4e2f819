use playbook::recall::catalogue::PR_SECTIONS;
use playbook::recall::facts::{commits, FileStat};
use playbook::recall::verbs::pr::{
    answer, area, area_line, areas, branch_of, fallback_base, label, named_base, whitespace_delta, Sections, LABEL,
};
use playbook::recall::verbs::Opts;
use playbook::peek::paths::Root;
use playbook::contract::Exit;

fn file(label: &str) -> FileStat {
    FileStat {
        added: Some(1),
        deleted: Some(0),
        label: label.to_string(),
        names: vec![label.to_string()],
    }
}

#[test]
fn a_path_is_classified_by_its_name() {
    assert_eq!(area("Cargo.toml"), "manifest");
    assert_eq!(area("crates/x/Cargo.toml"), "manifest");
    assert_eq!(area("flake.lock"), "lockfile");
    assert_eq!(area("crates/x/migrations/0001_init.sql"), "schema");
    assert_eq!(area("src/schema.sql"), "schema");
    assert_eq!(area("src/api.generated.rs"), "generated");
    assert_eq!(area("docs/design/THING.md"), "docs");
    assert_eq!(area("crates/x/tests/contract.rs"), "tests");
    assert_eq!(area("src/cache_test.rs"), "tests");
    assert_eq!(area("assets/logo.png"), "assets");
    assert_eq!(area("src/cache.rs"), "code");
    assert_eq!(area("README"), "code");
}

#[test]
fn the_rules_are_ordered_and_the_order_is_documented() {
    assert_eq!(area("tests/Cargo.toml"), "manifest");
    assert_eq!(area("docs/notes.sql"), "schema");
}

#[test]
fn areas_counts_only_what_is_there_and_in_rule_order() {
    let files = vec![
        file("Cargo.toml"),
        file("Cargo.lock"),
        file("src/a.rs"),
        file("src/b.rs"),
        file("docs/x.md"),
    ];
    assert_eq!(areas(&files), "1 manifest · 1 lockfile · 1 docs · 2 code");
}

#[test]
fn a_whitespace_only_file_is_named_and_counted() {
    let raw = vec![file("src/a.rs"), file("src/b.rs")];
    let ignored = vec![file("src/b.rs")];
    assert_eq!(
        whitespace_delta(&ignored, &raw),
        Some("whitespace only: 1 file, +1 -0 of the lines".to_string())
    );
}

#[test]
fn areas_states_its_count_with_nothing_to_break_down() {
    assert_eq!(area_line(&vec![]), "areas      0 files");
    assert_eq!(area_line(&vec![file("src/a.rs")]), "areas      1 file · 1 code");
}

#[test]
fn every_section_label_fits_the_shared_column() {
    for name in PR_SECTIONS {
        assert!(name.len() <= LABEL, "{name} is wider than the label column");
        assert!(label(name, "x").starts_with(&format!("{name}  ")));
    }
}

#[test]
fn no_whitespace_only_file_says_nothing() {
    let raw = vec![file("src/a.rs")];
    assert_eq!(whitespace_delta(&raw, &raw), None);
}

#[test]
fn an_unknown_section_names_the_ones_that_exist() {
    let err = Sections::of(&vec!["commits".to_string(), "tests".to_string()]).err().expect("refused");
    assert_eq!(err.exit, Exit::Usage);
    assert_eq!(
        err.message,
        "`tests` is not a section of this recipe · sections: commits, diffstat, areas"
    );
    let s = Sections::of(&vec!["areas".to_string()]).expect("sections");
    assert!(!s.commits && !s.diffstat && s.areas);
    let all = Sections::of(&vec![]).expect("sections");
    assert!(all.commits && all.diffstat && all.areas);
}

#[test]
fn a_base_is_one_revision_and_there_is_no_guess() {
    assert!(named_base("main..HEAD").is_err());
    assert_eq!(named_base("main").ok(), Some("main".to_string()));
    assert_eq!(branch_of(Some("HEAD\n".to_string())), None);
    assert_eq!(branch_of(Some("feature\n".to_string())), Some("feature".to_string()));
    assert_eq!(fallback_base(None, Some("origin/main\n".to_string())).ok(), Some("origin/main".to_string()));
    let err = fallback_base(None, None).err().expect("refused");
    assert_eq!(
        err.message,
        "no base to compare against: this branch tracks nothing and there is no origin/HEAD · name one with --base <rev>"
    );
}

fn opts() -> Opts {
    Opts {
        root: Root::at("/work/repo"),
        root_was_explicit: false,
        limit: 200,
        limit_clamped_from: None,
        include_secret_paths: false,
        patch: false,
        summary: false,
        ignore_space: false,
        with: Vec::new(),
        base: None,
    }
}

#[test]
fn a_branch_with_nothing_on_top_of_its_base_exits_one() {
    let wanted = Sections::of(&vec![]).unwrap();
    let c = commits("0", "").unwrap();
    let files: Vec<FileStat> = vec![];
    let out = answer("main", &wanted, Some(&c), Some(&files), Some(&files), &opts());
    assert_eq!(out.exit, Exit::Nothing);
    let text = out.report.render();
    assert!(text.contains("# nothing between main and HEAD\n"), "{text}");
    assert!(text.starts_with("# at-recall pr · repo · base main\n# caveat: main is a local ref"), "{text}");
}

#[test]
fn a_branch_with_work_lists_its_sections_and_offers_the_hunks() {
    let wanted = Sections::of(&vec![]).unwrap();
    let c = commits("1", "abc\u{1f}2024-01-02\u{1f}Ann\u{1f}Add a\n").unwrap();
    let files = vec![file("src/a.rs")];
    let out = answer("main", &wanted, Some(&c), Some(&files), Some(&files), &opts());
    assert_eq!(out.exit, Exit::Results);
    assert_eq!(
        out.report.render(),
        "# at-recall pr · repo · base main\n\
         # caveat: main is a local ref and this tool never fetches — the remote may be ahead\n\
         commits    1 commit\n\
         \x20 abc  2024-01-02  Ann  Add a\n\
         diffstat   1 file, +1 -0\n\
         \x20 +1 -0  src/a.rs  code\n\
         areas      1 file · 1 code\n\
         # next: at-recall diff main...HEAD --patch · the hunks\n"
    );
}
