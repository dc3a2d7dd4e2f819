use playbook::install::{check, describe_difference, merge, shadowing_files, splice, Outcome};
use playbook::render::{BEGIN_PREFIX, END_MARKER};

const BLOCK: &str = "<!-- BEGIN agent-playbook (project: x, target: y) — generated, do not edit -->\n\n# Agent rules — x\n\nbody\n<!-- END agent-playbook -->\n";

#[test]
fn appends_to_a_file_with_no_block() {
    let merged = splice("# Notes\n\nSomething I wrote.\n", BLOCK);
    assert!(merged.starts_with("# Notes\n\nSomething I wrote.\n"));
    assert!(merged.contains(BEGIN_PREFIX));
    assert!(merged.trim_end().ends_with(END_MARKER));
}

#[test]
fn appends_to_an_empty_file_without_a_leading_blank_line() {
    assert_eq!(splice("", BLOCK), BLOCK);
}

#[test]
fn replaces_only_the_block() {
    let existing = "Above.\n\n<!-- BEGIN agent-playbook (project: x, target: y) -->\nstale\n<!-- END agent-playbook -->\n\nBelow.\n";
    let merged = splice(existing, BLOCK);
    assert!(merged.starts_with("Above.\n\n"));
    assert!(merged.contains("body"));
    assert!(!merged.contains("stale"));
    assert!(merged.ends_with("Below.\n"));
}

#[test]
fn splicing_is_idempotent() {
    let once = splice("# Notes\n\nProse.\n", BLOCK);
    let twice = splice(&once, BLOCK);
    assert_eq!(once, twice);
}

#[test]
fn a_half_deleted_block_is_treated_as_absent() {
    let existing = "Above.\n\n<!-- BEGIN agent-playbook (project: x, target: y) -->\norphan\n";
    let merged = splice(existing, BLOCK);
    assert!(merged.contains("orphan"));
    assert!(merged.trim_end().ends_with(END_MARKER));
}

#[test]
fn difference_names_the_first_changed_line() {
    let diff = describe_difference("a\nb\nc\n", "a\nB\nc\n");
    assert!(diff.contains("line 2"));
    assert!(diff.contains("-b"));
    assert!(diff.contains("+B"));
}

fn order() -> Vec<String> {
    [".rules", "AGENT.md", "AGENTS.md", "HARNESS.md"]
        .iter()
        .map(|s| s.to_string())
        .collect()
}

#[test]
fn nothing_shadows_an_empty_repo() {
    let present = vec![false, false, false, false];
    assert!(shadowing_files("AGENTS.md", &order(), &present).is_empty());
}

#[test]
fn a_higher_ranked_file_shadows_the_one_we_write() {
    let present = vec![true, false, false, false];
    assert_eq!(
        shadowing_files("AGENTS.md", &order(), &present),
        vec![".rules".to_string()]
    );
}

#[test]
fn a_lower_ranked_file_does_not_shadow() {
    let present = vec![false, false, true, false];
    assert!(shadowing_files("AGENTS.md", &order(), &present).is_empty());
    assert_eq!(
        shadowing_files("HARNESS.md", &order(), &present),
        vec!["AGENTS.md".to_string()]
    );
}

#[test]
fn a_file_outside_the_order_is_never_reported() {
    let present = vec![false, false, false, false];
    assert!(shadowing_files("AGENTS.md", &order(), &present).is_empty());
    assert!(shadowing_files(".cursorrules", &order(), &vec![true, true, true, true]).is_empty());
}

#[test]
fn an_empty_order_reports_nothing() {
    assert!(shadowing_files("AGENTS.md", &Vec::new(), &Vec::new()).is_empty());
}

#[test]
fn check_names_each_verdict() {
    let merged = splice("# Notes\n", BLOCK);
    assert!(matches!(check("f".to_string(), None, BLOCK), Outcome::Missing(_)));
    assert!(matches!(check("f".to_string(), Some("prose\n"), BLOCK), Outcome::NoBlock(_)));
    assert!(matches!(check("f".to_string(), Some(&merged), BLOCK), Outcome::UpToDate(_)));
    let other = BLOCK.replace("body", "changed");
    match check("f".to_string(), Some(&merged), &other) {
        Outcome::Stale(path, diff) => {
            assert_eq!(path, "f");
            assert!(diff.contains("-body"));
            assert!(diff.contains("+changed"));
        }
        _ => panic!("expected a stale verdict"),
    }
}

#[test]
fn merge_reports_an_unchanged_file() {
    let merged = splice("# Notes\n", BLOCK);
    assert_eq!(merge(&merged, BLOCK), None);
    assert_eq!(merge("# Notes\n", BLOCK), Some(merged));
}
