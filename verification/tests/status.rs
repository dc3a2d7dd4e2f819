use playbook::recall::status::{short_code, split_record, status_args, Status};

#[test]
fn a_modified_record_keeps_a_path_with_spaces() {
    let record = "M. N... 100644 100644 100644 aaaa bbbb src/a b.rs";
    let (code, path) = split_record(record, 8).expect("a 1 record");
    assert_eq!(code, "M.");
    assert_eq!(path, "src/a b.rs");
}

#[test]
fn the_short_form_is_the_one_a_reader_recognises() {
    assert_eq!(short_code("M."), "M ");
    assert_eq!(short_code(".M"), " M");
    assert_eq!(short_code("MM"), "MM");
    assert_eq!(short_code("??"), "??");
}

#[test]
fn a_branch_header_is_required() {
    assert!(Status::parse("1 .M N... 100644 100644 100644 a b x.rs\0").is_err());
}

#[test]
fn an_unborn_branch_has_no_oid() {
    let raw = "# branch.oid (initial)\0# branch.head main\0";
    let status = Status::parse(raw).expect("a status");
    assert_eq!(status.oid(), None);
    assert_eq!(status.branch(), "main");
}

#[test]
fn a_rename_contributes_both_names() {
    let raw = "# branch.oid abc\0# branch.head main\0\
               2 R. N... 100644 100644 100644 aaaa bbbb R100 new.rs\0old.rs\0";
    let status = Status::parse(raw).expect("a status");
    assert_eq!(status.paths(), vec!["new.rs", "old.rs"]);
}

#[test]
fn an_unmerged_record_is_counted_rather_than_mistaken_for_a_nothing() {
    let raw = "# branch.oid abc\0# branch.head main\0\
               u UU N... 100644 100644 100644 100644 aaaa bbbb cccc conflict.rs\0";
    let status = Status::parse(raw).expect("a status");
    assert_eq!(status.lines(), vec!["UU  conflict.rs"]);
    assert_eq!(status.unparsed(), 0);
}

#[test]
fn a_record_that_does_not_parse_is_counted() {
    let raw = "# branch.oid abc\0# branch.head main\0\n1 truncated\0";
    let status = Status::parse(raw).expect("a status");
    assert_eq!(status.unparsed(), 1);
}

#[test]
fn the_upstream_carries_its_divergence() {
    let raw = "# branch.oid abc\0# branch.head main\0# branch.upstream origin/main\0# branch.ab +2 -1\0";
    let status = Status::parse(raw).expect("a status");
    assert_eq!(status.upstream(), "origin/main · ahead 2 behind 1");
}

#[test]
fn a_branch_without_an_upstream_says_none() {
    let status = Status::parse("# branch.oid abc\0# branch.head main\0").expect("a status");
    assert_eq!(status.upstream(), "none");
    assert!(status.is_empty());
}

#[test]
fn a_detached_head_is_said_in_words() {
    let status = Status::parse("# branch.oid abc\0# branch.head (detached)\0").expect("a status");
    assert_eq!(status.branch(), "detached HEAD");
}

#[test]
fn a_status_without_a_branch_name_is_refused_with_the_reason() {
    let err = Status::parse("# branch.oid abc\0").err().expect("refused");
    assert_eq!(
        err.message,
        "git status did not report a branch header · expected `--porcelain=v2 --branch`"
    );
}

#[test]
fn untracked_changes_are_not_tracked_ones_and_directories_are_counted() {
    let raw = "# branch.oid abc\0# branch.head main\0? notes/\0? a.txt\0\
               1 .M N... 100644 100644 100644 a b x.rs\0! ignored.log\0";
    let status = Status::parse(raw).expect("a status");
    assert_eq!(status.len(), 3);
    assert_eq!(status.tracked_changes(), 1);
    assert!(status.tracks_changes());
    assert_eq!(status.collapsed_directories(), 1);
    assert_eq!(status.lines(), vec!["??  notes/", "??  a.txt", " M  x.rs"]);
}

#[test]
fn a_rename_line_names_both_sides() {
    let raw = "# branch.oid abc\0# branch.head main\0\
               2 R. N... 100644 100644 100644 aaaa bbbb R100 new.rs\0old.rs\0";
    let status = Status::parse(raw).expect("a status");
    assert_eq!(status.lines(), vec!["R   old.rs -> new.rs"]);
}

#[test]
fn the_status_read_asks_for_the_branch_header() {
    let args = status_args(&vec!["src".to_string()], "no");
    assert_eq!(
        args,
        vec!["--porcelain=v2", "--branch", "--untracked-files=no", "-z", "--", "src"]
    );
}
