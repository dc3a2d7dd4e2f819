use playbook::frontmatter::{parse_conf, split_document, split_list};

#[test]
fn splits_frontmatter_from_body() {
    let src = "---\nid: x\ntitle: A rule\n---\n\nBody line.\n";
    let split = split_document(src);
    assert_eq!(split.get("id"), "x");
    assert_eq!(split.get("title"), "A rule");
    assert_eq!(split.body.trim(), "Body line.");
}

#[test]
fn value_may_contain_a_colon() {
    let src = "---\nactivation: language:rust\n---\n";
    let split = split_document(src);
    assert_eq!(split.get("activation"), "language:rust");
}

#[test]
fn empty_value_is_empty_not_missing() {
    let src = "---\noverrides:\ntargets:\n---\n";
    let split = split_document(src);
    assert_eq!(split.get("overrides"), "");
    assert!(split.list("overrides").is_empty());
}

#[test]
fn document_without_frontmatter_is_all_body() {
    let src = "# Just a heading\n\nText.\n";
    let split = split_document(src);
    assert!(split.fields.is_empty());
    assert_eq!(split.body, src);
}

#[test]
fn unterminated_frontmatter_is_not_guessed_at() {
    let src = "---\nid: x\n\nBody that was never closed off.\n";
    let split = split_document(src);
    assert!(split.fields.is_empty());
    assert_eq!(split.body, src);
}

#[test]
fn crlf_line_endings_are_tolerated() {
    let src = "---\r\nid: x\r\n---\r\nBody.\r\n";
    let split = split_document(src);
    assert_eq!(split.get("id"), "x");
    assert!(split.body.contains("Body."));
}

#[test]
fn conf_skips_comments_and_blanks() {
    let src = "# a comment\n\nproject: shared-crates\norg: defrag\n";
    let conf = parse_conf(src);
    assert_eq!(
        conf.get("project").map(String::as_str),
        Some("shared-crates")
    );
    assert_eq!(conf.get("org").map(String::as_str), Some("defrag"));
    assert_eq!(conf.len(), 2);
}

#[test]
fn conf_keeps_colons_in_values() {
    let conf = parse_conf("path: ~/code/x:y\n");
    assert_eq!(conf.get("path").map(String::as_str), Some("~/code/x:y"));
}

#[test]
fn lists_split_and_trim() {
    assert_eq!(split_list("a, b ,c"), vec!["a", "b", "c"]);
    assert!(split_list("").is_empty());
    assert!(split_list("  ").is_empty());
}

#[test]
fn prose_lines_do_not_become_fields() {
    let src = "---\nid: x\nThis is a stray prose line\n---\n";
    let split = split_document(src);
    assert_eq!(split.get("id"), "x");
    assert_eq!(split.fields.len(), 1);
}

#[test]
fn conf_keys_come_back_in_key_order() {
    let conf = parse_conf("zeta: 1\nalpha: 2\nmid: 3\nalpha: 4\n");
    assert_eq!(conf.keys(), vec!["alpha", "mid", "zeta"]);
    assert_eq!(conf.get("alpha").map(String::as_str), Some("4"));
}
