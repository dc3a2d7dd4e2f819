use playbook::render::{blank_line, demote_headings, extract_block, rewrite_links, BEGIN_PREFIX, END_MARKER};

#[test]
fn extracts_a_block_including_markers() {
    let src = "Hand written.\n\n<!-- BEGIN agent-playbook (project: x, target: y) -->\nbody\n<!-- END agent-playbook -->\n\nMore hand written.\n";
    let block = extract_block(src).unwrap();
    assert!(block.starts_with(BEGIN_PREFIX));
    assert!(block.trim_end().ends_with(END_MARKER));
    assert!(block.contains("body"));
    assert!(!block.contains("Hand written"));
    assert!(!block.contains("More hand written"));
}

#[test]
fn no_block_is_none() {
    assert!(extract_block("just prose\n").is_none());
}

#[test]
fn an_unterminated_block_is_none() {
    assert!(
        extract_block("<!-- BEGIN agent-playbook (project: x, target: y) -->\nbody\n").is_none()
    );
}

#[test]
fn addenda_are_separated_by_exactly_one_blank_line() {
    let mut out = String::from("rule body\n");
    blank_line(&mut out);
    out.push_str("first addendum\n");
    blank_line(&mut out);
    out.push_str("second addendum\n");
    assert!(!out.contains("\n\n\n"), "got: {out:?}");
    assert!(out.contains("rule body\n\nfirst addendum\n\nsecond addendum\n"));
}

#[test]
fn blank_line_is_idempotent() {
    let mut out = String::from("a\n");
    blank_line(&mut out);
    blank_line(&mut out);
    assert_eq!(out, "a\n\n");
}

#[test]
fn blank_line_leaves_an_empty_buffer_empty() {
    let mut out = String::new();
    blank_line(&mut out);
    assert_eq!(out, "");
    let mut out = String::from("no newline");
    blank_line(&mut out);
    assert_eq!(out, "no newline\n\n");
}

#[test]
fn headings_are_demoted_one_level() {
    let out = demote_headings("# Title\n\ntext\n\n## Sub\n");
    assert!(out.contains("## Title"));
    assert!(out.contains("### Sub"));
}

#[test]
fn a_hash_comment_inside_a_code_block_is_not_demoted() {
    let body = "```\n# .env.example — committed\nKEY=value\n```\n";
    assert_eq!(demote_headings(body), body);
}

#[test]
fn headings_outside_a_code_block_are_still_demoted() {
    let body = "# Title\n\n```sh\n# a comment\n```\n\n## Sub\n";
    let out = demote_headings(body);
    assert!(out.contains("## Title"));
    assert!(out.contains("# a comment"));
    assert!(out.contains("### Sub"));
}

#[test]
fn a_fence_with_a_language_tag_toggles_too() {
    let body = "```sh\n# comment\n```\n\n# Heading\n";
    let out = demote_headings(body);
    assert!(out.contains("# comment"));
    assert!(out.contains("## Heading"));
}

#[test]
fn a_tilde_fence_is_recognised() {
    let body = "~~~\n# comment\n~~~\n";
    assert_eq!(demote_headings(body), body);
}

#[test]
fn demoting_drops_trailing_blank_lines_and_keeps_hashtags() {
    assert_eq!(demote_headings("# T\n\n\n\n"), "## T\n");
    assert_eq!(demote_headings("#hashtag\n"), "#hashtag\n");
}

#[test]
fn relative_md_links_become_code_spans() {
    let body = "see [`core/working-first`](../core/working-first.md) for why";
    let out = rewrite_links(body);
    assert_eq!(out, "see `core/working-first` for why");
    assert!(!out.contains(".."));
}

#[test]
fn links_in_addenda_are_rewritten_too() {
    let body = "See [`core/planning-stays-in-thinking`](../../../rules/core/planning-stays-in-thinking.md).";
    let out = rewrite_links(body);
    assert_eq!(out, "See `core/planning-stays-in-thinking`.");
}

#[test]
fn absolute_links_are_left_alone() {
    let body = "[crates.io](https://crates.io/crates/x) and [docs](https://x.dev/a.md)";
    assert_eq!(rewrite_links(body), body);
}

#[test]
fn non_markdown_links_are_left_alone() {
    let body = "[notes](notes.txt)";
    assert_eq!(rewrite_links(body), body);
}

#[test]
fn text_with_brackets_survives() {
    let body = "an array `[u8; 4]` and a list:\n\n- [x] done\n- [ ] todo\n";
    assert_eq!(rewrite_links(body), body);
}

#[test]
fn a_link_label_is_kept_when_it_differs_from_the_target() {
    let body = "the [widget-screenshot skill](../../../skills/widget-screenshot/SKILL.md)";
    assert_eq!(rewrite_links(body), "the `widget-screenshot skill`");
}

#[test]
fn an_empty_label_shows_the_target() {
    assert_eq!(rewrite_links("[](a/b.md)"), "`a/b.md`");
}

#[test]
fn a_task_list_bracket_before_a_link_is_kept() {
    let body = "- [x] done, see [rule](r.md)\n- [ ] todo [u8; 4] and [`id`](a/b.md)";
    assert_eq!(rewrite_links(body), "- [x] done, see `rule`\n- [ ] todo [u8; 4] and `id`");
}
