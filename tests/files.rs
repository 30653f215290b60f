use runotepad::{
    branch_infos, is_markdown_file, is_space, safe_join, sanitize_branch_name, source_branch,
    trim, PathError,
};

#[test]
fn sanitize_replaces_separators() {
    assert_eq!(sanitize_branch_name("feature/a\\b"), "feature_a_b");
    assert_eq!(sanitize_branch_name("main"), "main");
    assert_eq!(sanitize_branch_name(""), "");
}

#[test]
fn markdown_names() {
    assert!(is_markdown_file("a.md"));
    assert!(is_markdown_file("dir/b.markdown"));
    assert!(!is_markdown_file("a.mdx"));
    assert!(!is_markdown_file("md"));
    assert!(is_markdown_file(".md"));
}

#[test]
fn safe_join_paths() {
    assert_eq!(safe_join("/base", "a/b.md"), Ok("/base/a/b.md".to_string()));
    assert_eq!(safe_join("/base", "///a.md"), Ok("/base/a.md".to_string()));
    assert_eq!(safe_join("/base", "../etc/passwd"), Err(PathError::Traversal));
    assert_eq!(safe_join("/base", "a/..b"), Err(PathError::Traversal));
    assert_eq!(safe_join("/base", "a/.b"), Ok("/base/a/.b".to_string()));
}

#[test]
fn trim_whitespace() {
    assert_eq!(trim("  a b \n"), "a b");
    assert_eq!(trim("\u{3000}x\u{a0}"), "x");
    assert_eq!(trim("   "), "");
    assert!(is_space('\t') && is_space('\u{2028}') && !is_space('x'));
}

#[test]
fn branch_listing() {
    let branches = vec!["main".to_string(), "feature/x".to_string(), "old".to_string()];
    let worktrees = vec!["repo".to_string(), "feature_x".to_string()];
    let infos = branch_infos(branches, &worktrees, "/ws/w/worktrees");
    assert_eq!(infos.len(), 3);
    assert_eq!(infos[0].name, "main");
    assert!(!infos[0].is_worktree);
    assert_eq!(infos[0].worktree_path, None);
    assert_eq!(infos[1].name, "feature/x");
    assert!(infos[1].is_worktree);
    assert_eq!(infos[1].worktree_path, Some("/ws/w/worktrees/feature_x".to_string()));
    assert!(!infos[2].is_worktree);
}

#[test]
fn worktree_source() {
    assert_eq!(source_branch(Some("dev".to_string()), "main".to_string()), "dev");
    assert_eq!(source_branch(None, "main".to_string()), "main");
}

#[test]
fn text_lines_and_pieces() {
    let cases = ["", "\n", "a", "a\n", "a\r\nb", "a\r", "a\n\nb\n", "x\ry\n"];
    for c in cases {
        let expected: Vec<String> = c.lines().map(|l| l.to_string()).collect();
        assert_eq!(runotepad::text::lines(c), expected, "lines of {:?}", c);
        let pieces: Vec<String> = c.split('\n').map(|l| l.to_string()).collect();
        assert_eq!(runotepad::text::split(c, '\n'), pieces, "pieces of {:?}", c);
    }
    assert!(runotepad::text::starts_with("token=x", "token="));
    assert!(runotepad::text::ends_with("a.md", ".md"));
    assert_eq!(runotepad::text::strip_prefix("Bearer t", "Bearer "), Some("t".to_string()));
    assert!(runotepad::text::contains_pair("a..b", '.'));
    assert!(!runotepad::text::contains_pair("a.b.", '.'));
}
