use reposnap::tree_filter::filter_tree_to_selected;
use reposnap::tree_node::FileTreeNode;

fn file(name: &str, path: &str) -> FileTreeNode {
    FileTreeNode {
        name: name.to_string(),
        path: path.to_string(),
        children: None,
        is_directory: false,
        token_count: Some(3),
        last_modified: Some(7),
    }
}

fn dir(name: &str, path: &str, children: Option<Vec<FileTreeNode>>) -> FileTreeNode {
    FileTreeNode {
        name: name.to_string(),
        path: path.to_string(),
        children,
        is_directory: true,
        token_count: None,
        last_modified: None,
    }
}

fn sample() -> Vec<FileTreeNode> {
    vec![
        dir(
            "src",
            "/r/src",
            Some(vec![
                dir("deep", "/r/src/deep", Some(vec![file("x.rs", "/r/src/deep/x.rs")])),
                file("a.rs", "/r/src/a.rs"),
                file("b.rs", "/r/src/b.rs"),
            ]),
        ),
        dir("docs", "/r/docs", Some(vec![file("g.md", "/r/docs/g.md")])),
        file("README.md", "/r/README.md"),
    ]
}

#[test]
fn nothing_selected_leaves_nothing() {
    let mut tree = sample();
    filter_tree_to_selected(&mut tree, &[]);
    assert!(tree.is_empty());
}

#[test]
fn selected_file_keeps_its_directories() {
    let mut tree = sample();
    filter_tree_to_selected(&mut tree, &["/r/src/deep/x.rs".to_string()]);
    assert_eq!(tree.len(), 1);
    assert_eq!(tree[0].name, "src");
    let src = tree[0].children.as_ref().unwrap();
    assert_eq!(src.len(), 1);
    assert_eq!(src[0].name, "deep");
    let deep = src[0].children.as_ref().unwrap();
    assert_eq!(deep.len(), 1);
    assert_eq!(deep[0].path, "/r/src/deep/x.rs");
    assert_eq!(deep[0].token_count, Some(3));
    assert_eq!(deep[0].last_modified, Some(7));
}

#[test]
fn order_of_what_stays_is_unchanged() {
    let mut tree = sample();
    let selected = vec![
        "/r/README.md".to_string(),
        "/r/src/b.rs".to_string(),
        "/r/src/a.rs".to_string(),
    ];
    filter_tree_to_selected(&mut tree, &selected);
    assert_eq!(tree.len(), 2);
    assert_eq!(tree[0].name, "src");
    assert_eq!(tree[1].name, "README.md");
    let src = tree[0].children.as_ref().unwrap();
    assert_eq!(src.len(), 2);
    assert_eq!(src[0].name, "a.rs");
    assert_eq!(src[1].name, "b.rs");
}

#[test]
fn selecting_a_directory_path_selects_nothing() {
    let mut tree = sample();
    filter_tree_to_selected(&mut tree, &["/r/docs".to_string()]);
    assert!(tree.is_empty());
}

#[test]
fn directory_without_children_is_removed() {
    let mut tree = vec![dir("empty", "/r/empty", None), file("a", "/r/a")];
    filter_tree_to_selected(&mut tree, &["/r/a".to_string(), "/r/empty".to_string()]);
    assert_eq!(tree.len(), 1);
    assert_eq!(tree[0].path, "/r/a");
}

#[test]
fn unknown_selected_paths_are_harmless() {
    let mut tree = sample();
    filter_tree_to_selected(&mut tree, &["/elsewhere".to_string(), "/r/docs/g.md".to_string()]);
    assert_eq!(tree.len(), 1);
    assert_eq!(tree[0].name, "docs");
    assert_eq!(tree[0].children.as_ref().unwrap().len(), 1);
}
