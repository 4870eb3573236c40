use reposnap::annotate::{
    collect_file_paths, fill_tokens_in_tree, leaf_token_count, roll_up_directory_tokens,
    sum_descendant_tokens,
};
use reposnap::totals::TokenTotals;
use reposnap::tree_node::FileTreeNode;

fn file(path: &str, token_count: Option<usize>) -> FileTreeNode {
    FileTreeNode {
        name: path.rsplit('/').next().unwrap().to_string(),
        path: path.to_string(),
        children: None,
        is_directory: false,
        token_count,
        last_modified: None,
    }
}

fn dir(path: &str, children: Option<Vec<FileTreeNode>>) -> FileTreeNode {
    FileTreeNode {
        name: path.rsplit('/').next().unwrap().to_string(),
        path: path.to_string(),
        children,
        is_directory: true,
        token_count: None,
        last_modified: None,
    }
}

fn sample() -> Vec<FileTreeNode> {
    vec![
        dir("/r/src", Some(vec![dir("/r/src/in", Some(vec![file("/r/src/in/x", None)])), file("/r/src/a", None)])),
        dir("/r/none", None),
        file("/r/z", Some(5)),
    ]
}

#[test]
fn file_paths_come_depth_first() {
    assert_eq!(collect_file_paths(&sample()), vec!["/r/src/in/x", "/r/src/a", "/r/z"]);
    assert!(collect_file_paths(&Vec::new()).is_empty());
}

#[test]
fn counts_are_filled_into_files_only() {
    let mut tree = sample();
    let mut counts = TokenTotals::new();
    counts.insert("/r/src/in/x".to_string(), 11);
    counts.insert("/r/src/a".to_string(), 0);
    counts.insert("/r/src".to_string(), 99);
    fill_tokens_in_tree(&mut tree, &counts);
    assert_eq!(tree[0].token_count, None);
    let src = tree[0].children.as_ref().unwrap();
    assert_eq!(src[0].token_count, None);
    assert_eq!(src[0].children.as_ref().unwrap()[0].token_count, Some(11));
    assert_eq!(src[1].token_count, Some(0));
    assert_eq!(tree[2].token_count, Some(5));
    assert_eq!(tree[2].path, "/r/z");
    assert_eq!(tree.len(), 3);
}

#[test]
fn unread_file_counts_as_zero() {
    assert_eq!(leaf_token_count(Err("gone".to_string())), 0);
    assert_eq!(leaf_token_count(Ok(vec![0, 1, 2])), 0);
    assert_eq!(leaf_token_count(Ok(b"hello world".to_vec())), 2);
}

#[test]
fn sum_covers_all_descendants() {
    let tree = vec![
        dir("/r/src", Some(vec![dir("/r/src/in", Some(vec![file("/r/src/in/x", Some(4))])), file("/r/src/a", Some(3))])),
        file("/r/z", Some(5)),
        file("/r/uncounted", None),
    ];
    assert_eq!(sum_descendant_tokens(&tree), 12);
    assert_eq!(sum_descendant_tokens(&Vec::new()), 0);
}

#[test]
fn sum_stops_at_the_largest_number() {
    let tree = vec![file("/a", Some(usize::MAX)), file("/b", Some(2))];
    assert_eq!(sum_descendant_tokens(&tree), usize::MAX);
}

#[test]
fn directories_take_the_sums_below_them() {
    let mut tree = vec![
        dir("/r/src", Some(vec![dir("/r/src/in", Some(vec![file("/r/src/in/x", Some(4))])), file("/r/src/a", Some(3))])),
        dir("/r/none", None),
        file("/r/z", Some(5)),
    ];
    roll_up_directory_tokens(&mut tree);
    assert_eq!(tree[0].token_count, Some(7));
    assert_eq!(tree[0].children.as_ref().unwrap()[0].token_count, Some(4));
    assert_eq!(tree[0].children.as_ref().unwrap()[1].token_count, Some(3));
    assert_eq!(tree[1].token_count, Some(0));
    assert_eq!(tree[2].token_count, Some(5));
}
