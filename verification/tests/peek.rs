use playbook::contract::Exit;
use playbook::peek::paths::{parse_range, parse_target, Range, Root};
use playbook::peek::verbs::search::{complaint, file_name_of, may_read, pattern_of, run as search, Mode, Pattern, Walk};
use playbook::peek::verbs::slice::{remaining, run as slice};
use playbook::peek::verbs::stat::{language, run as stat};
use playbook::peek::verbs::{again, open, Content, Opened, Opts};

fn opts(limit: usize) -> Opts {
    Opts {
        root: Root::at("/work/repo"),
        limit,
        limit_clamped_from: None,
        max_files: 20000,
        max_files_clamped_from: None,
        include_secret_paths: false,
    }
}

fn opened(arg: &str, text: &str) -> Opened {
    let target = parse_target(arg).expect("a target");
    let rel = target.path.clone();
    open(target, rel, false, text.len() as u64, Some(0), Content::Text(text.to_string())).expect("opened")
}

#[test]
fn slice_prints_the_requested_lines_with_numbers() {
    let text: String = (1..=12).map(|i| format!("line {i}\n")).collect();
    let out = slice(&vec![opened("a.rs:9-11", &text)], 1, &opts(200));
    assert_eq!(out.exit, Exit::Results);
    assert_eq!(
        out.report.render(),
        "# at-peek slice · repo · a.rs:9-11\n 9  line 9\n10  line 10\n11  line 11\n# 3 of 12 lines · at-peek slice a.rs:1-12 for the rest\n"
    );
}

#[test]
fn a_whole_file_read_says_so() {
    let out = slice(&vec![opened("a.rs", "one\ntwo\n")], 1, &opts(200));
    assert_eq!(out.report.render(), "# at-peek slice · repo · a.rs\n1  one\n2  two\n# 2 lines · whole file\n");
}

#[test]
fn the_limit_is_shared_across_targets() {
    let o = opts(3);
    let a = opened("a.rs", "1\n2\n");
    let b = opened("b.rs", "1\n2\n");
    let targets = vec![a, b];
    assert_eq!(remaining(&targets, &o), 0);
    let out = slice(&targets, 3, &o);
    let text = out.report.render();
    assert!(text.contains("# --limit 3 reached · next: at-peek slice b.rs:2-2"), "{text}");
    assert!(text.ends_with("# --limit 3 reached · 1 target not shown\n"), "{text}");
}

#[test]
fn an_empty_file_is_nothing_found_rather_than_a_failure() {
    let out = slice(&vec![opened("e.txt", "")], 1, &opts(200));
    assert_eq!(out.exit, Exit::Nothing);
    assert!(out.report.render().ends_with("# e.txt is empty\n"));
}

#[test]
fn a_binary_file_is_reported_rather_than_printed() {
    let target = parse_target("img.png").unwrap();
    let o = open(target, "img.png".to_string(), false, 10, None, Content::Binary(3)).unwrap();
    let out = slice(&vec![o], 1, &opts(200));
    assert!(out
        .report
        .render()
        .ends_with("# caveat: binary file, NUL at byte 3 · not line-addressable\n"));
    let target = parse_target("dir").unwrap();
    let err = open(target, "dir".to_string(), true, 0, None, Content::Text(String::new())).err().unwrap();
    assert_eq!(err.message, "dir is a directory, not a file");
}

#[test]
fn zero_is_not_a_line_number() {
    assert!(parse_range("0").is_err());
    assert!(matches!(parse_range("40+20"), Ok(Range::From(40, 20))));
}

#[test]
fn stat_reports_a_path_without_printing_its_contents() {
    let out = stat(&vec![opened("src/main.rs", "fn main() {}\n")], &vec!["src/main.rs".to_string()], &opts(200));
    assert_eq!(
        out.report.render(),
        "# at-peek stat · repo · 1 path\nsrc/main.rs  1 lines  13 B  rust  1970-01-01T00:00:00Z\n# 1 path\n"
    );
    assert_eq!(language("Makefile"), "-");
    assert_eq!(language("a.yml"), "yaml");
}

#[test]
fn a_stat_cut_by_the_limit_offers_all_of_it() {
    let targets = vec!["a.rs".to_string(), "b c.rs".to_string()];
    let out = stat(&vec![opened("a.rs", "x\n")], &targets, &opts(1));
    let text = out.report.render();
    assert!(text.contains("# 1 of 2 paths · --limit 1\n"), "{text}");
    assert!(text.ends_with("# next: at-peek stat a.rs 'b c.rs' --limit 2 · all 2 paths\n"), "{text}");
    assert_eq!(again("stat", &targets, &vec![]), "at-peek stat a.rs 'b c.rs'");
}

#[test]
fn search_counts_every_match_and_shows_the_first() {
    let pattern = pattern_of(&vec!["fn".to_string()]).expect("a pattern");
    let mut walk = Walk::new();
    assert!(walk.add_file("/work/repo/b.rs".to_string()));
    assert!(walk.add_file("/work/repo/a.rs".to_string()));
    assert!(!walk.add_file("/work/repo/a.rs".to_string()));
    assert!(walk.skip_dir("target"));
    assert!(!walk.skip_dir("src"));
    let contents = vec![
        Some(Content::Text("fn a() {}\nlet x = 1;\nfn b() {}\n".to_string())),
        Some(Content::Binary(0)),
    ];
    let out = search(&pattern, &vec![], &walk, &contents, &opts(1), &Mode::Matches);
    assert_eq!(
        out.report.render(),
        "# at-peek search · repo · /fn/ in .\na.rs:1:fn a() {}\n# walked 2 files · skipped by rule: target\n# skipped: 1 binary\n# 1 of 2 matches in 1 file · --limit 1\n"
    );
}

#[test]
fn search_modes_and_refusals() {
    assert!(Mode::of(true, true).is_err());
    assert!(matches!(Mode::of(true, false), Ok(Mode::Count)));
    let err = pattern_of(&vec!["(".to_string()]).err().expect("refused");
    assert_eq!(err.exit, Exit::Usage);
    assert!(err.message.starts_with("`(` is not a valid regex: "), "{}", err.message);
    assert!(pattern_of(&vec![]).is_err());
    assert_eq!(complaint("regex parse error:\n    (\n    ^\nerror: unclosed group\n"), "unclosed group");
    assert_eq!(file_name_of("a/b/.env"), ".env");
    assert!(!may_read(".env", false));
    assert!(may_read(".env", true));
    assert!(Pattern::compile("a+").unwrap().is_match("caat"));
}

#[test]
fn search_count_mode_pads_both_columns() {
    let pattern = pattern_of(&vec!["x".to_string()]).unwrap();
    let mut walk = Walk::new();
    walk.add_file("/work/repo/long/name.rs".to_string());
    walk.add_file("/work/repo/s.rs".to_string());
    let contents = vec![
        Some(Content::Text("x\nx\nx\nx\nx\nx\nx\nx\nx\nx\n".to_string())),
        Some(Content::Text("x\n".to_string())),
    ];
    let out = search(&pattern, &vec!["long".to_string(), "s.rs".to_string()], &walk, &contents, &opts(200), &Mode::Count);
    assert_eq!(
        out.report.render(),
        "# at-peek search · repo · /x/ in 2 paths\nlong/name.rs  10\ns.rs           1\n# walked 2 files\n# 11 matches in 2 files\n"
    );
}
