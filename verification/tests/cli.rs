use playbook::cli::{
    command, expand_tilde, install_answer, or_dash, parse_opts, project_line, shadow_warning, signed_text, target_line,
    unknown_command, Command, USAGE,
};
use playbook::install::Outcome;
use playbook::model::{Project, Target};

fn strings(args: &[&str]) -> Vec<String> {
    args.iter().map(|a| a.to_string()).collect()
}

#[test]
fn no_argument_or_a_help_word_asks_for_the_usage() {
    assert_eq!(command(&[]), Command::Help);
    for word in ["-h", "--help", "help"] {
        assert_eq!(command(&strings(&[word])), Command::Help);
    }
    assert!(USAGE.starts_with("playbook — resolve and render agent rules"));
    assert!(USAGE.contains("  rules      list every rule, and which projects activate it\n"));
}

#[test]
fn each_command_is_named_by_its_word() {
    assert_eq!(command(&strings(&["compose", "--project", "x"])), Command::Compose);
    assert_eq!(command(&strings(&["list"])), Command::List);
    assert_eq!(command(&strings(&["install"])), Command::Install);
    assert_eq!(command(&strings(&["check"])), Command::Check);
    assert_eq!(command(&strings(&["projects"])), Command::Projects);
    assert_eq!(command(&strings(&["rules"])), Command::Rules);
    assert_eq!(command(&strings(&["frobnicate"])), Command::Unknown("frobnicate".to_string()));
    assert_eq!(unknown_command("frobnicate"), "unknown command `frobnicate`");
}

#[test]
fn options_take_a_value_each_and_the_last_one_wins() {
    let opts = parse_opts(&strings(&["--project", "a", "--target", "t", "--project", "b", "--root", "/r"])).unwrap();
    assert_eq!(opts.project.as_deref(), Some("b"));
    assert_eq!(opts.target.as_deref(), Some("t"));
    assert_eq!(opts.root.as_deref(), Some("/r"));
    assert!(opts.repo.is_none() && opts.file.is_none() && opts.out.is_none());
    let all = parse_opts(&strings(&["--repo", "r", "--file", "f", "--out", "o"])).unwrap();
    assert_eq!((all.repo.as_deref(), all.file.as_deref(), all.out.as_deref()), (Some("r"), Some("f"), Some("o")));
}

#[test]
fn an_unknown_option_or_a_missing_value_is_refused_by_name() {
    assert_eq!(parse_opts(&strings(&["--verbose"])).err().unwrap(), "unknown option `--verbose`");
    assert_eq!(parse_opts(&strings(&["--project"])).err().unwrap(), "`--project` needs a value");
    assert_eq!(parse_opts(&strings(&["x"])).err().unwrap(), "unknown option `x`");
}

#[test]
fn a_tilde_path_is_read_against_home() {
    assert_eq!(expand_tilde("~/code/x", Some("/home/u")), "/home/u/code/x");
    assert_eq!(expand_tilde("~/code/x", Some("/home/u/")), "/home/u/code/x");
    assert_eq!(expand_tilde("~/code/x", None), "~/code/x");
    assert_eq!(expand_tilde("/abs/x", Some("/home/u")), "/abs/x");
    assert_eq!(expand_tilde("~x", Some("/home/u")), "~x");
    assert_eq!(expand_tilde("~//etc", Some("/home/u")), "/etc");
}

#[test]
fn small_text_helpers() {
    assert_eq!(or_dash(&vec![]), "-");
    assert_eq!(or_dash(&strings(&["rust", "nix"])), "rust, nix");
    assert_eq!(signed_text(-5), "-5");
    assert_eq!(signed_text(0), "0");
    assert_eq!(signed_text(i32::MIN), "-2147483648");
    assert_eq!(signed_text(i32::MAX), "2147483647");
}

#[test]
fn projects_and_targets_print_one_row_each() {
    let p = Project {
        name: "shared-crates".into(),
        path: "~/code/defrag/shared-crates".into(),
        org: Some("defrag".into()),
        languages: vec!["rust".into()],
        default_target: None,
    };
    assert_eq!(project_line(&p), format!("  {:<22} {:<12} {}", "shared-crates", "defrag", "~/code/defrag/shared-crates"));
    let q = Project { org: None, ..p };
    assert_eq!(project_line(&q), format!("  {:<22} {:<12} {}", "shared-crates", "-", "~/code/defrag/shared-crates"));
    let t = Target {
        name: "zed".into(),
        model: "m".into(),
        harness: "zed".into(),
        title: "Agent rules".into(),
        includes: vec![],
        exclude: vec![],
        exclude_activation: vec![],
        emphasis: vec![],
        addenda: vec![],
        memory: vec![],
        default_file: "AGENTS.md".into(),
        instruction_files: vec![],
    };
    assert_eq!(target_line(&t), format!("  {:<22} model={:<14} harness={:<14} file={}", "zed", "m", "zed", "AGENTS.md"));
}

#[test]
fn install_outcomes_say_what_happened_and_how_it_exits() {
    let a = install_answer(&Outcome::Created("/r/AGENTS.md".into()), "p", "t", "/r");
    assert_eq!((a.code, a.out.as_str(), a.err.as_str()), (0, "created /r/AGENTS.md\n", ""));
    let a = install_answer(&Outcome::Updated("/r/AGENTS.md".into()), "p", "t", "/r");
    assert_eq!(a.out, "updated /r/AGENTS.md\n");
    let a = install_answer(&Outcome::Unchanged("/r/AGENTS.md".into()), "p", "t", "/r");
    assert_eq!(a.out, "unchanged /r/AGENTS.md\n");
    let a = install_answer(&Outcome::UpToDate("/r/AGENTS.md".into()), "p", "t", "/r");
    assert_eq!((a.code, a.out.as_str()), (0, "ok: /r/AGENTS.md matches project=p target=t\n"));
    let a = install_answer(&Outcome::Stale("/r/AGENTS.md".into(), "- old\n+ new\n".into()), "p", "t", "/r");
    assert_eq!(a.code, 1);
    assert_eq!(
        a.err,
        "stale: /r/AGENTS.md differs from the composed block\n- old\n+ new\n\nrun: playbook install --project p --target t --repo /r\n"
    );
    let a = install_answer(&Outcome::Missing("/r/AGENTS.md".into()), "p", "t", "/r");
    assert_eq!((a.code, a.err.as_str()), (1, "stale: /r/AGENTS.md does not exist\n"));
    let a = install_answer(&Outcome::NoBlock("/r/AGENTS.md".into()), "p", "t", "/r");
    assert_eq!((a.code, a.err.as_str()), (1, "stale: no agent-playbook block in /r/AGENTS.md\n"));
}

#[test]
fn a_shadowing_file_is_warned_about_by_name() {
    assert_eq!(
        shadow_warning("HARNESS.md", "AGENTS.md", "t"),
        "warning: HARNESS.md outranks AGENTS.md in t's instruction-file order — the managed block will NOT be read. \
         Remove it, or install into it instead with `--file HARNESS.md`."
    );
}
