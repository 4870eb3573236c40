use reposnap::ignore_rules::{build_ignore_list, default_ignore_patterns, IgnoreRules};

fn lines(text: &[&str]) -> Option<Vec<String>> {
    Some(text.iter().map(|s| s.to_string()).collect())
}

fn rules(repository: Option<Vec<String>>, tool: Option<Vec<String>>) -> IgnoreRules {
    build_ignore_list("/repo", repository, tool).ok().unwrap().rules
}

#[test]
fn there_are_twenty_three_default_patterns() {
    let patterns = default_ignore_patterns();
    assert_eq!(patterns.len(), 23);
    assert_eq!(patterns[0], "codefetch/");
    assert_eq!(patterns[2], "node_modules/");
    assert_eq!(patterns[8], ".DS_Store");
    assert_eq!(patterns[22], "*.log");
}

#[test]
fn defaults_apply_without_ignore_files() {
    let rules = rules(None, None);
    assert!(rules.is_ignored("node_modules", true));
    assert!(rules.is_ignored(".git", true));
    assert!(rules.is_ignored("target", true));
    assert!(rules.is_ignored("sub/dir/build", true));
    assert!(rules.is_ignored("logo.png", false));
    assert!(rules.is_ignored("deep/down/app.log", false));
    assert!(rules.is_ignored("Cargo.lock", false));
    assert!(rules.is_ignored(".DS_Store", false));
    assert!(!rules.is_ignored("a.txt", false));
    assert!(!rules.is_ignored("src", true));
    assert!(!rules.is_ignored("src/main.rs", false));
}

#[test]
fn defaults_apply_with_empty_ignore_files() {
    let rules = rules(Some(Vec::new()), Some(Vec::new()));
    assert!(rules.is_ignored("node_modules", true));
    assert!(!rules.is_ignored("a.txt", false));
}

#[test]
fn directory_pattern_does_not_match_a_file() {
    let rules = rules(None, None);
    assert!(rules.is_ignored("build", true));
    assert!(!rules.is_ignored("build", false));
    assert!(rules.is_ignored("node_modules", true));
    assert!(!rules.is_ignored("node_modules", false));
}

#[test]
fn pattern_without_slash_matches_files_and_directories() {
    let rules = rules(lines(&["secret"]), None);
    assert!(rules.is_ignored("secret", false));
    assert!(rules.is_ignored("secret", true));
    assert!(rules.is_ignored("a/secret", false));
}

#[test]
fn repository_file_adds_patterns() {
    let rules = rules(lines(&["# comment", "", "*.tmp", "/only-at-root.txt"]), None);
    assert!(rules.is_ignored("x.tmp", false));
    assert!(rules.is_ignored("a/b/x.tmp", false));
    assert!(rules.is_ignored("only-at-root.txt", false));
    assert!(!rules.is_ignored("sub/only-at-root.txt", false));
    assert!(rules.is_ignored("node_modules", true));
}

#[test]
fn tool_file_adds_patterns() {
    let rules = rules(None, lines(&["docs/"]));
    assert!(rules.is_ignored("docs", true));
    assert!(!rules.is_ignored("docs", false));
}

#[test]
fn ignore_file_can_override_a_default() {
    let rules = rules(lines(&["!dist/", "!*.log"]), None);
    assert!(!rules.is_ignored("dist", true));
    assert!(!rules.is_ignored("app.log", false));
    assert!(rules.is_ignored("build", true));
}

#[test]
fn tool_file_overrides_repository_file() {
    let both = rules(lines(&["*.md"]), lines(&["!README.md"]));
    assert!(both.is_ignored("notes.md", false));
    assert!(!both.is_ignored("README.md", false));
    let reversed = rules(lines(&["!README.md"]), lines(&["*.md"]));
    assert!(reversed.is_ignored("README.md", false));
}

#[test]
fn refused_lines_are_left_out_and_reported() {
    let build = build_ignore_list(
        "/repo",
        lines(&["*.tmp", "[z-a]", "keep"]),
        lines(&["{a,b", "*.bak"]),
    )
    .ok()
    .unwrap();
    assert_eq!(build.rejected, vec!["[z-a]".to_string(), "{a,b".to_string()]);
    assert!(build.rules.is_ignored("x.tmp", false));
    assert!(build.rules.is_ignored("keep", false));
    assert!(build.rules.is_ignored("x.bak", false));
    assert!(build.rules.is_ignored("node_modules", true));
}

#[test]
fn nothing_is_reported_for_good_files() {
    let build = build_ignore_list("/repo", lines(&["*.tmp"]), None).ok().unwrap();
    assert!(build.rejected.is_empty());
}

#[test]
fn path_below_the_root_is_matched_relative_to_it() {
    let rules = rules(lines(&["/top.txt"]), None);
    assert!(rules.is_ignored("/repo/top.txt", false));
    assert!(!rules.is_ignored("/repo/sub/top.txt", false));
}

#[test]
fn comments_and_blank_lines_are_no_patterns() {
    let build = build_ignore_list("/repo", lines(&["# note", "", "   ", "#*.rs"]), None).ok().unwrap();
    assert!(build.rejected.is_empty());
    assert!(!build.rules.is_ignored("# note", false));
    assert!(!build.rules.is_ignored("main.rs", false));
    assert!(!build.rules.is_ignored("note", false));
}

#[test]
fn white_space_at_the_end_of_a_line_does_not_count() {
    let rules = rules(lines(&["*.tmp  ", "notes.txt\t"]), None);
    assert!(rules.is_ignored("x.tmp", false));
    assert!(rules.is_ignored("notes.txt", false));
    assert!(!rules.is_ignored("x.tmp  ", false));
}

#[test]
fn escaped_space_at_the_end_of_a_line_counts() {
    let rules = rules(lines(&["name\\ "]), None);
    assert!(rules.is_ignored("name ", false));
    assert!(!rules.is_ignored("name", false));
}

#[test]
fn leading_dot_slash_of_the_root_does_not_count() {
    let build = build_ignore_list("./repo", lines(&["/top.txt"]), None).ok().unwrap();
    assert!(build.rules.is_ignored("repo/top.txt", false));
    assert!(build.rules.is_ignored("./repo/top.txt", false));
    assert!(build.rules.is_ignored("top.txt", false));
    assert!(!build.rules.is_ignored("repo/sub/top.txt", false));
}
