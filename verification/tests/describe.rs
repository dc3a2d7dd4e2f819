use playbook::describe::{describe, toolkit};

fn run(args: &[&str]) -> playbook::describe::Answer {
    let owned: Vec<String> = args.iter().map(|a| a.to_string()).collect();
    describe(&owned)
}

#[test]
fn the_toolkit_view_lists_every_verb_in_every_binary() {
    let text = toolkit();
    for verb in ["stat", "slice", "search", "state", "log", "diff", "pr"] {
        assert!(text.contains(verb), "{verb} is not described");
    }
    assert!(text.contains("read-only"));
    assert!(text.contains("Exit codes"));
    assert!(text.contains("No git, no subprocess"));
    assert!(text.contains("One subprocess, git"));
    assert!(text.contains("  at-recall pr · the facts a PR description is written from · sections: commits, diffstat, areas\n"));
}

#[test]
fn a_verb_is_found_whichever_binary_owns_it() {
    let slice = run(&["slice"]);
    assert_eq!(slice.code, 0);
    assert!(slice.out.contains("at-peek slice <path>:40-60"), "{}", slice.out);
    assert!(slice.out.contains("1-based"));
    let diff = run(&["diff"]);
    assert!(diff.out.contains("at-recall diff"), "{}", diff.out);
    assert!(diff.out.contains("revision"));
}

#[test]
fn both_binaries_can_be_asked_for_their_flags() {
    let peek = run(&["at-peek"]);
    assert!(peek.out.contains("--limit") && peek.out.contains("--root"));
    let recall = run(&["at-recall"]);
    assert!(recall.out.contains("--patch") && recall.out.contains("diff"));
}

#[test]
fn an_unknown_name_is_a_usage_error_that_names_what_is_known() {
    let out = run(&["statx"]);
    assert_eq!(out.code, 2);
    assert!(out.out.is_empty());
    assert!(out.err.contains("unknown `statx`"), "{}", out.err);
    assert!(out.err.contains("stat") && out.err.contains("diff"));
}

#[test]
fn no_argument_is_the_toolkit_view() {
    let out = run(&[]);
    assert_eq!(out.code, 0);
    assert!(out.out.starts_with("at-describe 0.1.0 — the catalogue\n\n# binaries in this build"));
}
