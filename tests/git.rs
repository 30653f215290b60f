use runotepad::{
    branch_exists_command, branches_command, create_worktree, commit_files, commit_hash, current_branch_command, fetch_origin,
    get_current_branch, get_status, has_uncommitted_changes, list_branches, list_worktrees,
    porcelain_status_command, pull_branch, push_branch, rebase_on_base, rename_branch,
    worktrees_command, GitCommand, GitDir,
};

fn words(c: &GitCommand) -> Vec<&str> {
    c.args.iter().map(|a| a.as_str()).collect()
}

#[test]
fn simple_commands() {
    assert_eq!(words(&fetch_origin()), vec!["fetch", "--all"]);
    assert_eq!(fetch_origin().place, GitDir::Repository);
    assert_eq!(words(&push_branch()), vec!["push", "-u", "origin", "HEAD"]);
    assert_eq!(push_branch().place, GitDir::Worktree);
    assert_eq!(words(&rename_branch("feat")), vec!["branch", "-m", "feat"]);
    assert_eq!(words(&get_status()), vec!["status", "--short"]);
    assert_eq!(words(&current_branch_command()), vec!["rev-parse", "--abbrev-ref", "HEAD"]);
    assert_eq!(words(&porcelain_status_command()), vec!["status", "--porcelain"]);
    assert_eq!(words(&branches_command()), vec!["branch", "--format=%(refname:short)"]);
    assert_eq!(words(&worktrees_command()), vec!["worktree", "list", "--porcelain"]);
}

#[test]
fn pull_fetches_then_pulls() {
    let steps = pull_branch();
    assert_eq!(steps.len(), 2);
    assert_eq!(words(&steps[0]), vec!["fetch", "--all"]);
    assert_eq!(steps[0].place, GitDir::Repository);
    assert_eq!(words(&steps[1]), vec!["pull", "--ff-only"]);
    assert_eq!(steps[1].place, GitDir::Worktree);
}

#[test]
fn rebase_fetches_base_first() {
    let steps = rebase_on_base("main");
    assert_eq!(words(&steps[0]), vec!["fetch", "origin", "main"]);
    assert_eq!(words(&steps[1]), vec!["rebase", "origin/main"]);
}

#[test]
fn commit_stages_each_file() {
    let files = vec!["a.md".to_string(), "dir/b.md".to_string()];
    let steps = commit_files(&files, "msg");
    assert_eq!(steps.len(), 4);
    assert_eq!(words(&steps[0]), vec!["add", "a.md"]);
    assert_eq!(words(&steps[1]), vec!["add", "dir/b.md"]);
    assert_eq!(words(&steps[2]), vec!["commit", "-m", "msg"]);
    assert_eq!(words(&steps[3]), vec!["rev-parse", "HEAD"]);
    assert_eq!(commit_files(&Vec::new(), "m").len(), 2);
}

#[test]
fn output_parsing() {
    assert_eq!(commit_hash("abc123\n"), "abc123");
    assert_eq!(get_current_branch("  main\r\n"), "main");
    assert!(has_uncommitted_changes(" M a.md\n"));
    assert!(!has_uncommitted_changes(" \n\t"));
    assert!(!has_uncommitted_changes(""));
}

#[test]
fn branches_from_output() {
    assert_eq!(
        list_branches("main\n  feature/x \n\n dev\n"),
        vec!["main".to_string(), "feature/x".to_string(), "dev".to_string()]
    );
    assert!(list_branches("").is_empty());
}

#[test]
fn worktrees_from_output() {
    let out = "worktree /tmp/ws/repo\nbare\n\nworktree /tmp/ws/worktrees/feature_x\nHEAD 0123\nbranch refs/heads/feature/x\n\nworktree /\n";
    assert_eq!(
        list_worktrees(out),
        vec!["repo".to_string(), "feature_x".to_string()]
    );
    assert!(list_worktrees("").is_empty());
}

#[test]
fn worktree_for_existing_or_new_branch() {
    assert_eq!(words(&branch_exists_command("dev")), vec!["branch", "--list", "dev"]);
    let existing = create_worktree("  dev\n", "/w/dev", "dev", Some("main"));
    assert_eq!(words(&existing), vec!["worktree", "add", "/w/dev", "dev"]);
    assert_eq!(existing.place, GitDir::Repository);
    let new = create_worktree("", "/w/x", "x", Some("main"));
    assert_eq!(words(&new), vec!["worktree", "add", "-b", "x", "/w/x", "main"]);
    let from_head = create_worktree("\n", "/w/y", "y", None);
    assert_eq!(words(&from_head), vec!["worktree", "add", "-b", "y", "/w/y", "HEAD"]);
}
