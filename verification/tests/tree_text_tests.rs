use reposnap::tree_node::FileTreeNode;
use reposnap::tree_text::{generate_file_tree_text, render_tree_as_ascii};

fn file(name: &str, path: &str) -> FileTreeNode {
    FileTreeNode {
        name: name.to_string(),
        path: path.to_string(),
        children: None,
        is_directory: false,
        token_count: None,
        last_modified: None,
    }
}

fn dir(name: &str, path: &str, children: Vec<FileTreeNode>) -> FileTreeNode {
    FileTreeNode {
        name: name.to_string(),
        path: path.to_string(),
        children: Some(children),
        is_directory: true,
        token_count: None,
        last_modified: None,
    }
}

#[test]
fn empty_forest_renders_nothing() {
    assert_eq!(render_tree_as_ascii(&[], "xx"), "");
}

#[test]
fn single_file_is_marked_last() {
    let tree = vec![file("a.txt", "/repo/a.txt")];
    assert_eq!(render_tree_as_ascii(&tree, ""), "└── a.txt\n");
}

#[test]
fn nested_entries_are_indented_under_their_parent() {
    let tree = vec![
        dir(
            "src",
            "/repo/src",
            vec![file("lib.rs", "/repo/src/lib.rs"), file("main.rs", "/repo/src/main.rs")],
        ),
        dir("docs", "/repo/docs", vec![file("guide.md", "/repo/docs/guide.md")]),
        file("README.md", "/repo/README.md"),
    ];
    let expected = "├── src\n│   ├── lib.rs\n│   └── main.rs\n├── docs\n│   └── guide.md\n└── README.md\n";
    assert_eq!(render_tree_as_ascii(&tree, ""), expected);
}

#[test]
fn children_of_the_last_entry_get_a_blank_gap() {
    let tree = vec![dir("only", "/r/only", vec![file("x", "/r/only/x")])];
    assert_eq!(render_tree_as_ascii(&tree, "> "), "> └── only\n>     └── x\n");
}

#[test]
fn tree_text_starts_with_the_root_path() {
    let tree = vec![file("a.txt", "/repo/a.txt"), file("b.txt", "/repo/b.txt")];
    assert_eq!(
        generate_file_tree_text("/repo", &tree),
        "/repo\n├── a.txt\n└── b.txt\n"
    );
}

#[test]
fn tree_text_of_an_empty_tree_is_the_root_line() {
    assert_eq!(generate_file_tree_text("/repo", &[]), "/repo\n");
}
