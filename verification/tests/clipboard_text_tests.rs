use reposnap::clipboard_text::{build_file_content_string, clipboard_text, FileBody, SelectedFile};
use reposnap::settings::TreeOption;
use reposnap::tree_node::FileTreeNode;

fn selected(path: &str, extension: &str, body: FileBody) -> SelectedFile {
    SelectedFile { path: path.to_string(), extension: extension.to_string(), body }
}

fn file(name: &str, path: &str) -> FileTreeNode {
    FileTreeNode {
        name: name.to_string(),
        path: path.to_string(),
        children: None,
        is_directory: false,
        token_count: None,
        last_modified: None,
    }
}

#[test]
fn no_files_give_an_empty_frame() {
    assert_eq!(build_file_content_string(&Vec::new()), "<file_contents>\n</file_contents>");
}

#[test]
fn text_gets_a_closing_line_break() {
    let files = vec![
        selected("/r/a.rs", "rs", FileBody::Text("fn a() {}".to_string())),
        selected("/r/b.txt", "txt", FileBody::Text("done\n".to_string())),
        selected("/r/empty", "", FileBody::Text(String::new())),
    ];
    let expected = "<file_contents>\nFile: /r/a.rs\n```rs\nfn a() {}\n```\n\nFile: /r/b.txt\n```txt\ndone\n```\n\nFile: /r/empty\n```\n\n```\n\n</file_contents>";
    assert_eq!(build_file_content_string(&files), expected);
}

#[test]
fn binary_and_unreadable_files_get_a_placeholder() {
    let files = vec![
        selected("/r/logo.png", "png", FileBody::Binary),
        selected("/r/odd.txt", "txt", FileBody::Unreadable),
    ];
    let expected = "<file_contents>\nFile: /r/logo.png\n```png\n[Binary file]\n```\n\nFile: /r/odd.txt\n```txt\n[Could not read content]\n```\n\n</file_contents>";
    assert_eq!(build_file_content_string(&files), expected);
}

#[test]
fn whole_tree_is_included() {
    let tree = vec![file("a", "/r/a"), file("b", "/r/b")];
    let text = clipboard_text(TreeOption::Include, "/r", tree, &["/r/a".to_string()], &Vec::new());
    assert_eq!(
        text,
        "<file_map>\n/r\n├── a\n└── b\n</file_map>\n\n<file_contents>\n</file_contents>"
    );
}

#[test]
fn tree_is_reduced_to_the_selected_files() {
    let tree = vec![file("a", "/r/a"), file("b", "/r/b")];
    let text =
        clipboard_text(TreeOption::IncludeOnlySelected, "/r", tree, &["/r/b".to_string()], &Vec::new());
    assert_eq!(text, "<file_map>\n/r\n└── b\n</file_map>\n\n<file_contents>\n</file_contents>");
}

#[test]
fn tree_is_left_out() {
    let tree = vec![file("a", "/r/a")];
    let files = vec![selected("/r/a", "", FileBody::Text("x".to_string()))];
    let text = clipboard_text(TreeOption::DoNotInclude, "/r", tree, &["/r/a".to_string()], &files);
    assert_eq!(text, "<file_contents>\nFile: /r/a\n```\nx\n```\n\n</file_contents>");
}
