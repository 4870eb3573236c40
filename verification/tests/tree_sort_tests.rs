use reposnap::tree_node::FileTreeNode;
use reposnap::tree_sort::{node_precedes, sort_nodes};

fn node(name: &str, is_directory: bool, path: &str) -> FileTreeNode {
    FileTreeNode {
        name: name.to_string(),
        path: path.to_string(),
        children: None,
        is_directory,
        token_count: None,
        last_modified: None,
    }
}

#[test]
fn directory_stands_before_file() {
    assert!(node_precedes(&node("z", true, "/z"), &node("a", false, "/a")));
    assert!(!node_precedes(&node("a", false, "/a"), &node("z", true, "/z")));
}

#[test]
fn names_are_compared_by_code_point() {
    assert!(node_precedes(&node("B", false, "/B"), &node("a", false, "/a")));
    assert!(node_precedes(&node("a", false, "/a"), &node("ab", false, "/ab")));
    assert!(node_precedes(&node("z", false, "/z"), &node("é", false, "/é")));
    assert!(!node_precedes(&node("a", false, "/a"), &node("a", false, "/other")));
    assert!(!node_precedes(&node("b", true, "/b"), &node("a", true, "/a")));
}

#[test]
fn sorting_orders_a_level() {
    let nodes = vec![
        node("m.txt", false, "/m.txt"),
        node("zoo", true, "/zoo"),
        node("a.txt", false, "/a.txt"),
        node("bin", true, "/bin"),
    ];
    let names: Vec<String> = sort_nodes(nodes).into_iter().map(|n| n.name).collect();
    assert_eq!(names, vec!["bin", "zoo", "a.txt", "m.txt"]);
}

#[test]
fn sorting_keeps_the_order_of_equal_names() {
    let nodes = vec![
        node("same", false, "/first"),
        node("a", false, "/a"),
        node("same", false, "/second"),
    ];
    let paths: Vec<String> = sort_nodes(nodes).into_iter().map(|n| n.path).collect();
    assert_eq!(paths, vec!["/a", "/first", "/second"]);
}

#[test]
fn sorting_nothing_gives_nothing() {
    assert!(sort_nodes(Vec::new()).is_empty());
}
