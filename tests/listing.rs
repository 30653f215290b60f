use runotepad::{has_markdown_files, is_hidden, list_files, DirItem, FileEntry};

fn file(name: &str) -> DirItem {
    DirItem { name: name.to_string(), is_dir: false, children: Vec::new() }
}

fn dir(name: &str, children: Vec<DirItem>) -> DirItem {
    DirItem { name: name.to_string(), is_dir: true, children }
}

fn names(entries: &[FileEntry]) -> Vec<&str> {
    entries.iter().map(|e| e.name.as_str()).collect()
}

#[test]
fn hidden_names() {
    assert!(is_hidden(".git"));
    assert!(is_hidden("."));
    assert!(!is_hidden("a.md"));
    assert!(!is_hidden(""));
}

#[test]
fn directories_first_then_by_name() {
    let items = vec![
        file("zeta.md"),
        dir("b", vec![file("x.md")]),
        file("alpha.markdown"),
        dir("a", vec![file("y.md")]),
        file("Beta.md"),
    ];
    let listed = list_files(items, "");
    assert_eq!(names(&listed), vec!["a", "b", "Beta.md", "alpha.markdown", "zeta.md"]);
    assert_eq!(listed[0].path, "a");
    assert!(listed[0].is_dir);
    let inner = listed[0].children.as_ref().unwrap();
    assert_eq!(names(inner), vec!["y.md"]);
    assert_eq!(inner[0].path, "a/y.md");
    assert!(inner[0].children.is_none());
}

#[test]
fn hidden_and_other_files_left_out() {
    let items = vec![
        file(".secret.md"),
        dir(".git", vec![file("HEAD.md")]),
        file("notes.txt"),
        file("readme.md"),
    ];
    let listed = list_files(items, "docs");
    assert_eq!(names(&listed), vec!["readme.md"]);
    assert_eq!(listed[0].path, "docs/readme.md");
}

#[test]
fn directories_without_markdown_pruned() {
    let items = vec![
        dir("empty", Vec::new()),
        dir("text", vec![file("a.txt"), dir("deeper", vec![file("b.txt")])]),
        dir("deep", vec![dir("er", vec![file("c.md")])]),
    ];
    let listed = list_files(items, "");
    assert_eq!(names(&listed), vec!["deep"]);
    let er = &listed[0].children.as_ref().unwrap()[0];
    assert_eq!(er.path, "deep/er");
    assert_eq!(er.children.as_ref().unwrap()[0].path, "deep/er/c.md");
    assert!(list_files(Vec::new(), "").is_empty());
}

#[test]
fn markdown_below() {
    let listed = list_files(vec![dir("d", vec![file("a.md")])], "");
    assert!(has_markdown_files(&listed));
    assert!(!has_markdown_files(&Vec::new()));
    let empty_dir = vec![FileEntry {
        name: "d".to_string(),
        path: "d".to_string(),
        is_dir: true,
        children: Some(Vec::new()),
    }];
    assert!(!has_markdown_files(&empty_dir));
}
