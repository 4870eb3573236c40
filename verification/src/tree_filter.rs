use crate::sequences::{reversed, string_set};
use crate::tree_node::{forest_model, forest_model_push, FileTreeNode, NodeModel};
use vstd::hash_map::StringHashMap;
use vstd::prelude::*;

verus! {

/// What is left of one node when only the selected files are kept: a file stays
/// if its path is selected; a directory stays, with what is left of its
/// children, if any of them stays.
pub open spec fn pruned_node(node: NodeModel, selected: Set<Seq<char>>) -> Option<NodeModel>
    decreases node, 0int,
{
    if !node.is_directory {
        if selected.contains(node.path) {
            Some(node)
        } else {
            None
        }
    } else {
        match node.children {
            Some(kids) => {
                let kept = pruned_forest(kids, selected);
                if kept.len() == 0 {
                    None
                } else {
                    Some(NodeModel { children: Some(kept), ..node })
                }
            },
            None => None,
        }
    }
}

/// What is left of a forest: what is left of each node, in the same order.
pub open spec fn pruned_forest(nodes: Seq<NodeModel>, selected: Set<Seq<char>>) -> Seq<NodeModel>
    decreases nodes, 1int,
{
    if nodes.len() == 0 {
        Seq::empty()
    } else {
        let before = pruned_forest(nodes.drop_last(), selected);
        match pruned_node(nodes.last(), selected) {
            Some(kept) => before.push(kept),
            None => before,
        }
    }
}

/// Pruning a forest with one more node at its end.
pub proof fn pruned_forest_push(nodes: Seq<NodeModel>, node: NodeModel, selected: Set<Seq<char>>)
    ensures
        pruned_forest(nodes.push(node), selected) == match pruned_node(node, selected) {
            Some(kept) => pruned_forest(nodes, selected).push(kept),
            None => pruned_forest(nodes, selected),
        },
{
    assert(nodes.push(node).drop_last() =~= nodes);
}

/// An index of the selected paths.
fn index_paths(paths: &[String]) -> (index: StringHashMap<bool>)
    ensures
        index@.dom() == string_set(paths@),
{
    let mut index: StringHashMap<bool> = StringHashMap::new();
    let mut i: usize = 0;
    while i < paths.len()
        invariant
            i <= paths.len(),
            index@.dom() == string_set(paths@.take(i as int)),
        decreases paths.len() - i,
    {
        index.insert(paths[i].clone(), true);
        proof {
            let before = paths@.take(i as int);
            let after = paths@.take(i + 1);
            assert forall|p: Seq<char>| string_set(after).contains(p) <==> (string_set(
                before,
            ).contains(p) || p == paths@[i as int]@) by {
                if string_set(after).contains(p) {
                    let k = choose|k: int| 0 <= k < after.len() && #[trigger] after[k]@ == p;
                    if k < i {
                        assert(before[k]@ == p);
                    }
                }
                if string_set(before).contains(p) {
                    let k = choose|k: int| 0 <= k < before.len() && #[trigger] before[k]@ == p;
                    assert(after[k]@ == p);
                }
                if p == paths@[i as int]@ {
                    assert(after[i as int]@ == p);
                }
            }
            assert(index@.dom() =~= string_set(after));
        }
        i += 1;
    }
    assert(paths@.take(paths.len() as int) =~= paths@);
    index
}

fn filter_node(node: FileTreeNode, index: &StringHashMap<bool>) -> (kept: Option<FileTreeNode>)
    ensures
        match kept {
            Some(n) => pruned_node(node@, index@.dom()) == Some(n@),
            None => pruned_node(node@, index@.dom()) is None,
        },
    decreases node, 0int,
{
    if !node.is_directory {
        if index.contains_key(node.path.as_str()) {
            Some(node)
        } else {
            None
        }
    } else {
        let FileTreeNode { name, path, children, is_directory, token_count, last_modified } = node;
        match children {
            Some(kids) => {
                let kept = filter_forest(kids, index);
                if kept.len() == 0 {
                    None
                } else {
                    Some(
                        FileTreeNode {
                            name,
                            path,
                            children: Some(kept),
                            is_directory,
                            token_count,
                            last_modified,
                        },
                    )
                }
            },
            None => None,
        }
    }
}

fn filter_forest(nodes: Vec<FileTreeNode>, index: &StringHashMap<bool>) -> (kept: Vec<FileTreeNode>)
    ensures
        forest_model(kept@) == pruned_forest(forest_model(nodes@), index@.dom()),
    decreases nodes, 1int,
{
    let ghost all = nodes@;
    let ghost selected = index@.dom();
    let mut pending = reversed(nodes);
    let mut kept: Vec<FileTreeNode> = Vec::new();
    while pending.len() > 0
        invariant
            pending@.len() <= all.len(),
            forall|j: int| 0 <= j < pending@.len() ==> pending@[j] == all[all.len() - 1 - j],
            forest_model(kept@) == pruned_forest(
                forest_model(all.take(all.len() - pending@.len())),
                selected,
            ),
            selected == index@.dom(),
            all == nodes@,
        decreases pending.len(),
    {
        let ghost done = all.len() - pending@.len();
        let next = pending.pop();
        match next {
            Some(node) => {
                assert(node == all[done]);
                proof {
                    assert(all.take(done).push(all[done]) =~= all.take(done + 1));
                    forest_model_push(all.take(done), all[done]);
                    pruned_forest_push(forest_model(all.take(done)), node@, selected);
                }
                match filter_node(node, index) {
                    Some(survivor) => {
                        proof {
                            forest_model_push(kept@, survivor);
                        }
                        kept.push(survivor);
                    },
                    None => {},
                }
            },
            None => {},
        }
    }
    assert(all.take(all.len() as int) =~= all);
    kept
}

/// Reduces `tree` to the files whose paths are in `selected_paths` and the
/// directories that still hold one of them; everything else is removed, and the
/// order of what stays is unchanged.
pub fn filter_tree_to_selected(tree: &mut Vec<FileTreeNode>, selected_paths: &[String])
    ensures
        forest_model(final(tree)@) == pruned_forest(
            forest_model(old(tree)@),
            string_set(selected_paths@),
        ),
{
    let index = index_paths(selected_paths);
    let mut taken: Vec<FileTreeNode> = Vec::new();
    std::mem::swap(tree, &mut taken);
    let kept = filter_forest(taken, &index);
    *tree = kept;
}

} // verus!
