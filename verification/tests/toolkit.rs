use playbook::contract::Exit;
use playbook::peek::cli::max_files;
use playbook::peek::paths::Root;
use playbook::peek::verbs::search::lines_fit;
use playbook::peek::verbs::{classify, Content};
use playbook::recall::catalogue::recipes;
use playbook::recall::cli::{dispatch, gate, parse, Step};
use playbook::recall::facts::borrowed;
use playbook::recall::git::{check_filter_attribute, Git, Noun};

fn strings(args: &[&str]) -> Vec<String> {
    args.iter().map(|a| a.to_string()).collect()
}

#[test]
fn recall_answers_its_own_help_and_version() {
    for args in [vec![], strings(&["-h"]), strings(&["--help"]), strings(&["help"])] {
        match dispatch(&args) {
            Ok(Step::Print(text)) => assert!(text.starts_with("at-recall"), "{text}"),
            _ => panic!("expected the tool's help"),
        }
    }
    match dispatch(&strings(&["--version"])) {
        Ok(Step::Print(text)) => assert_eq!(text, "at-recall 0.1.0\n"),
        _ => panic!("expected the version"),
    }
    match dispatch(&strings(&["help", "diff"])) {
        Ok(Step::Print(text)) => assert!(text.contains("at-recall diff"), "{text}"),
        _ => panic!("expected the verb's help"),
    }
    match dispatch(&strings(&["diff", "--help"])) {
        Ok(Step::Print(text)) => assert!(text.contains("--patch"), "{text}"),
        _ => panic!("expected the verb's help"),
    }
}

#[test]
fn recall_refuses_an_unknown_verb_and_says_where_flags_go() {
    let f = dispatch(&strings(&["blame"])).err().unwrap();
    assert_eq!(f.exit, Exit::Usage);
    assert_eq!(f.message, "unknown verb `blame` · verbs: state, log, diff, pr");
    let f = dispatch(&strings(&["--patch", "diff"])).err().unwrap();
    assert_eq!(
        f.message,
        "unknown verb `--patch` · verbs: state, log, diff, pr · flags come after the verb, e.g. `at-recall diff --patch`"
    );
    let f = dispatch(&strings(&["help", "blame"])).err().unwrap();
    assert_eq!(f.message, "unknown verb `blame` · verbs: state, log, diff, pr");
}

#[test]
fn recall_routes_a_verb_with_what_the_parser_found() {
    match dispatch(&strings(&["diff", "HEAD~1", "src", "--patch", "--limit", "5"])) {
        Ok(Step::Run(verb, parsed)) => {
            assert_eq!(verb.name, "diff");
            assert_eq!(parsed.positionals, strings(&["HEAD~1", "src"]));
            assert!(parsed.has("--patch"));
            assert_eq!(parsed.value("--limit"), Some("5"));
        }
        _ => panic!("expected a verb to run"),
    }
    let f = dispatch(&strings(&["log", "--patch"])).err().unwrap();
    assert_eq!(f.exit, Exit::Usage);
    assert!(f.message.starts_with("unknown flag `--patch` for `log`"), "{}", f.message);
}

#[test]
fn state_takes_no_path_and_every_catalogued_verb_runs() {
    let state = match dispatch(&strings(&["state", "src"])) {
        Ok(Step::Run(verb, parsed)) => (verb, parsed),
        _ => panic!("expected a verb"),
    };
    let f = gate(&state.0, &state.1).err().unwrap();
    assert_eq!(f.exit, Exit::Usage);
    assert_eq!(
        f.message,
        "`state` answers for the whole worktree and takes no path · at-recall state [--summary] [--limit N] [--root <path>]"
    );
    for verb in ["state", "diff", "log", "pr"] {
        match dispatch(&strings(&[verb])) {
            Ok(Step::Run(v, p)) => assert!(gate(&v, &p).is_ok()),
            _ => panic!("expected a verb"),
        }
    }
}

#[test]
fn peek_routes_with_its_own_table() {
    match playbook::peek::cli::dispatch(&strings(&["--version"])) {
        Ok(Step::Print(text)) => assert_eq!(text, "at-peek 0.1.0\n"),
        _ => panic!("expected the version"),
    }
    let f = playbook::peek::cli::dispatch(&strings(&["grep"])).err().unwrap();
    assert_eq!(f.message, "unknown verb `grep` · verbs: stat, slice, search");
    match playbook::peek::cli::dispatch(&strings(&["search", "fn main", "--count", "--max-files", "10"])) {
        Ok(Step::Run(verb, parsed)) => {
            assert_eq!(verb.name, "search");
            assert_eq!(parsed.positionals, strings(&["fn main"]));
            assert_eq!(parsed.value("--max-files"), Some("10"));
        }
        _ => panic!("expected a verb"),
    }
}

#[test]
fn max_files_has_a_default_a_ceiling_and_a_floor() {
    assert_eq!(max_files(None).ok(), Some((20000, None)));
    assert_eq!(max_files(Some("10")).ok(), Some((10, None)));
    assert_eq!(max_files(Some("300000")).ok(), Some((200000, Some(300000))));
    assert_eq!(max_files(Some("0")).err().unwrap().message, "--max-files 0 considers no file · the smallest useful ceiling is 1");
    assert_eq!(max_files(Some("ten")).err().unwrap().message, "--max-files ten is not a number");
}

#[test]
fn a_file_is_text_binary_or_not_utf8() {
    match classify(b"hello\n".to_vec()) {
        Content::Text(t) => assert_eq!(t, "hello\n"),
        _ => panic!("expected text"),
    }
    match classify(b"ab\0cd".to_vec()) {
        Content::Binary(offset) => assert_eq!(offset, 2),
        _ => panic!("expected binary"),
    }
    match classify(vec![b'o', b'k', 0xff, b'x']) {
        Content::NotUtf8(offset) => assert_eq!(offset, 2),
        _ => panic!("expected not UTF-8"),
    }
    let mut late = vec![b'a'; 9000];
    late[8500] = 0;
    match classify(late) {
        Content::Text(t) => assert_eq!(t.len(), 9000),
        _ => panic!("a NUL past the probe is read as text"),
    }
}

#[test]
fn a_path_is_joined_to_the_root_and_kept_only_inside_it() {
    let root = Root::at("/work/tree");
    assert_eq!(root.candidate("src/main.rs").ok(), Some("/work/tree/src/main.rs".to_string()));
    assert_eq!(root.candidate("/etc/passwd").ok(), Some("/etc/passwd".to_string()));
    let f = root.candidate("").err().unwrap();
    assert_eq!((f.exit, f.message.as_str()), (Exit::Usage, "empty path"));
    assert!(root.contain("src", "/work/tree/src".to_string()).is_ok());
    assert!(root.contain(".", "/work/tree".to_string()).is_ok());
    let f = root.contain("../tree2", "/work/tree2".to_string()).err().unwrap();
    assert_eq!(f.exit, Exit::Refused);
    assert_eq!(
        f.message,
        "../tree2 resolves outside the root (/work/tree) · --root <path> addresses another tree on purpose"
    );
}

#[test]
fn the_root_is_the_nearest_ancestor_with_git() {
    let ancestors = strings(&["/a/b/c", "/a/b", "/a", "/"]);
    assert_eq!(Root::discover(&ancestors, &vec![false, true, true, false]).dir(), "/a/b");
    assert_eq!(Root::discover(&ancestors, &vec![false, false, false, false]).dir(), "/a/b/c");
    assert_eq!(Root::discover(&ancestors, &vec![false, true, true, false]).name(), "b");
}

#[test]
fn lines_of_small_files_fit() {
    let root = Root::at("/w");
    let paths = strings(&["/w/a", "/w/b"]);
    let contents = vec![Some(Content::Text("x\ny\n".to_string())), None];
    assert!(lines_fit(&paths, &contents, &root));
}

#[test]
fn filter_attributes_are_read_from_every_chunk() {
    let outputs = strings(&["a.txt: filter: unspecified\nb: c: filter: lfs\n", "d: filter: unset\n"]);
    let attrs = check_filter_attribute(&outputs);
    assert_eq!(
        attrs,
        vec![
            ("a.txt".to_string(), "unspecified".to_string()),
            ("b: c".to_string(), "lfs".to_string()),
            ("d".to_string(), "unset".to_string()),
        ]
    );
}

#[test]
fn git_runs_from_its_worktree_with_the_neutral_settings() {
    let git = Git::at("/w");
    assert_eq!(git.root(), "/w");
    let argv = git.argv(Noun::Status, &strings(&["--porcelain=v2"]));
    assert_eq!(argv[argv.len() - 2..].to_vec(), strings(&["status", "--porcelain=v2"]));
    assert!(argv.contains(&"safe.directory=/w".to_string()));
}

#[test]
fn borrowed_and_recipes() {
    let owned = strings(&["a", "b"]);
    assert_eq!(borrowed(&owned), vec!["a", "b"]);
    let r = recipes();
    assert_eq!(r.len(), 1);
    assert_eq!(r[0].verb, "pr");
    assert_eq!(r[0].sections.to_vec(), vec!["commits", "diffstat", "areas"]);
}

#[test]
fn the_parser_reads_the_same_grammar_for_either_tool() {
    let verb = playbook::peek::catalogue::find("slice").unwrap();
    let parsed = parse("at-peek", &verb, &strings(&["src/main.rs:10-20", "--limit=3"])).ok().unwrap();
    assert_eq!(parsed.positionals, strings(&["src/main.rs:10-20"]));
    assert_eq!(parsed.value("--limit"), Some("3"));
}

#[test]
fn recall_options_come_from_the_parsed_flags() {
    let parsed = match dispatch(&strings(&["pr", "--limit", "5000", "--with", "commits, areas", "--base", "main", "--root", "/w"])) {
        Ok(Step::Run(_, parsed)) => parsed,
        _ => panic!("expected a verb"),
    };
    let opts = playbook::recall::cli::context(&parsed, Root::at("/w")).ok().unwrap();
    assert_eq!((opts.limit, opts.limit_clamped_from), (2000, Some(5000)));
    assert!(opts.root_was_explicit);
    assert_eq!(opts.with, strings(&["commits", "areas"]));
    assert_eq!(opts.base.as_deref(), Some("main"));
    assert!(!opts.patch && !opts.summary && !opts.ignore_space && !opts.include_secret_paths);
    let parsed = match dispatch(&strings(&["diff", "--limit", "0"])) {
        Ok(Step::Run(_, parsed)) => parsed,
        _ => panic!("expected a verb"),
    };
    let f = playbook::recall::cli::context(&parsed, Root::at("/w")).err().unwrap();
    assert_eq!(f.message, "--limit 0 asks for no output · the smallest useful limit is 1");
}

#[test]
fn peek_options_come_from_the_parsed_flags() {
    let parsed = match playbook::peek::cli::dispatch(&strings(&["search", "x", "--max-files", "7", "--include-secret-paths"])) {
        Ok(Step::Run(_, parsed)) => parsed,
        _ => panic!("expected a verb"),
    };
    let opts = playbook::peek::cli::context(&parsed, Root::at("/w")).ok().unwrap();
    assert_eq!((opts.limit, opts.limit_clamped_from), (200, None));
    assert_eq!((opts.max_files, opts.max_files_clamped_from), (7, None));
    assert!(opts.include_secret_paths);
}

#[test]
fn a_symbol_target_says_it_is_not_implemented_yet() {
    let f = playbook::peek::paths::parse_target("one.rs@main").err().unwrap();
    assert_eq!(f.exit, Exit::Usage);
    assert!(f.message.contains("not implemented yet"), "{}", f.message);
    let plain = playbook::peek::paths::parse_target("notes@2024.txt");
    assert!(plain.is_ok(), "a tail that is not a plausible symbol is part of the path");
}
