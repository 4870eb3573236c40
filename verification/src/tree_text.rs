use crate::tree_node::{forest_model, forest_model_index, FileTreeNode, NodeModel};
use vstd::prelude::*;
use vstd::string::StringExecFns;

verus! {

/// The connector drawn in front of an entry's name.
pub open spec fn branch_mark(is_last: bool) -> Seq<char> {
    if is_last {
        "└── "@
    } else {
        "├── "@
    }
}

/// What an entry adds to the prefix of the entries below it.
pub open spec fn branch_gap(is_last: bool) -> Seq<char> {
    if is_last {
        "    "@
    } else {
        "│   "@
    }
}

/// The lines of one entry: its own line, then the lines of its children.
pub open spec fn node_text(node: NodeModel, prefix: Seq<char>, is_last: bool) -> Seq<char>
    decreases node, 0int, 0int,
{
    prefix + branch_mark(is_last) + node.name + "\n"@ + match node.children {
        Some(kids) => forest_text(kids, prefix + branch_gap(is_last)),
        None => Seq::empty(),
    }
}

/// The lines of the first `count` entries of `nodes`.
pub open spec fn forest_text_first(nodes: Seq<NodeModel>, prefix: Seq<char>, count: int) -> Seq<char>
    decreases nodes, 1int, count,
{
    if count <= 0 || count > nodes.len() {
        Seq::empty()
    } else {
        forest_text_first(nodes, prefix, count - 1) + node_text(
            nodes[count - 1],
            prefix,
            count == nodes.len(),
        )
    }
}

/// The drawing of a forest: one line per entry, depth first, children indented
/// under their parent, the last entry of each level marked as such.
pub open spec fn forest_text(nodes: Seq<NodeModel>, prefix: Seq<char>) -> Seq<char>
    decreases nodes, 2int, 0int,
{
    forest_text_first(nodes, prefix, nodes.len() as int)
}

/// Draws a forest as text, every line starting with `prefix`.
pub fn render_tree_as_ascii(nodes: &[FileTreeNode], prefix: &str) -> (out: String)
    ensures
        out@ == forest_text(forest_model(nodes@), prefix@),
    decreases nodes@,
{
    let mut result = String::new();
    let count = nodes.len();
    let mut i: usize = 0;
    proof {
        forest_model_index(nodes@);
    }
    while i < count
        invariant
            i <= count,
            count == nodes@.len(),
            forest_model(nodes@).len() == count,
            forall|k: int| 0 <= k < count ==> #[trigger] forest_model(nodes@)[k] == nodes@[k]@,
            result@ == forest_text_first(forest_model(nodes@), prefix@, i as int),
        decreases count - i,
    {
        let node = &nodes[i];
        let is_last = i == count - 1;
        let ghost before = result@;
        result.append(prefix);
        result.append(if is_last { "└── " } else { "├── " });
        result.append(node.name.as_str());
        result.append("\n");
        match &node.children {
            Some(children) => {
                let mut new_prefix = String::from_str(prefix);
                new_prefix.append(if is_last { "    " } else { "│   " });
                let below = render_tree_as_ascii(children.as_slice(), new_prefix.as_str());
                result.append(below.as_str());
            },
            None => {},
        }
        proof {
            let model = forest_model(nodes@)[i as int];
            assert(model == node@);
            assert(result@ =~= before + node_text(model, prefix@, is_last));
        }
        i += 1;
    }
    result
}

/// The text of a tree under its root path: the path on a line of its own, then
/// the drawing of the tree.
pub open spec fn tree_text(root_path: Seq<char>, tree: Seq<NodeModel>) -> Seq<char> {
    root_path + "\n"@ + forest_text(tree, Seq::empty())
}

/// Writes the root path on the first line and the drawing of `tree` below it.
pub fn generate_file_tree_text(root_path: &str, tree: &[FileTreeNode]) -> (out: String)
    ensures
        out@ == tree_text(root_path@, forest_model(tree@)),
{
    let mut result = String::from_str(root_path);
    result.append("\n");
    let empty = String::new();
    let drawing = render_tree_as_ascii(tree, empty.as_str());
    result.append(drawing.as_str());
    assert(result@ =~= tree_text(root_path@, forest_model(tree@)));
    result
}

} // verus!
