use crate::counter::{content_model, measure_content, measured};
use crate::sequences::reversed;
use crate::totals::{key_models, TokenTotals};
use crate::tree_node::{forest_model, forest_model_index, forest_model_push, FileTreeNode, NodeModel};
use vstd::prelude::*;

verus! {

/// The paths of the files at and below a node, depth first.
pub open spec fn node_leaf_paths(node: NodeModel) -> Seq<Seq<char>>
    decreases node, 1int,
{
    if node.is_directory {
        match node.children {
            Some(children) => leaf_paths(children),
            None => Seq::empty(),
        }
    } else {
        seq![node.path]
    }
}

/// The paths of the files of a forest, depth first.
pub open spec fn leaf_paths(nodes: Seq<NodeModel>) -> Seq<Seq<char>>
    decreases nodes, 0int,
{
    if nodes.len() == 0 {
        Seq::empty()
    } else {
        leaf_paths(nodes.drop_last()) + node_leaf_paths(nodes.last())
    }
}

fn collect_into(nodes: &Vec<FileTreeNode>, paths: &mut Vec<String>)
    ensures
        key_models(final(paths)@) == key_models(old(paths)@) + leaf_paths(forest_model(nodes@)),
    decreases nodes,
{
    let ghost start = key_models(paths@);
    let ghost models = forest_model(nodes@);
    proof {
        forest_model_index(nodes@);
    }
    let mut i: usize = 0;
    while i < nodes.len()
        invariant
            i <= nodes.len(),
            models == forest_model(nodes@),
            models.len() == nodes.len(),
            forall|k: int| 0 <= k < nodes.len() ==> #[trigger] models[k] == nodes@[k]@,
            key_models(paths@) == start + leaf_paths(models.take(i as int)),
        decreases nodes.len() - i,
    {
        let node = &nodes[i];
        let ghost before = key_models(paths@);
        proof {
            assert(models.take(i + 1).drop_last() =~= models.take(i as int));
            assert(models.take(i + 1).last() == node@);
        }
        if node.is_directory {
            match &node.children {
                Some(children) => {
                    collect_into(children, paths);
                },
                None => {},
            }
        } else {
            paths.push(node.path.clone());
            assert(key_models(paths@) =~= before.push(node.path@));
        }
        proof {
            let step = node_leaf_paths(node@);
            assert(leaf_paths(models.take(i + 1)) == leaf_paths(models.take(i as int)) + step);
            assert(key_models(paths@) =~= before + step);
            assert(key_models(paths@) =~= start + leaf_paths(models.take(i + 1)));
        }
        i += 1;
    }
    assert(models.take(nodes.len() as int) =~= models);
}

/// The paths of the files of a tree, depth first: the files whose tokens are
/// to be counted.
pub fn collect_file_paths(nodes: &Vec<FileTreeNode>) -> (paths: Vec<String>)
    ensures
        key_models(paths@) == leaf_paths(forest_model(nodes@)),
{
    let mut paths: Vec<String> = Vec::new();
    collect_into(nodes, &mut paths);
    assert(key_models(paths@) =~= leaf_paths(forest_model(nodes@)));
    paths
}

/// The number that stands for a file in an annotated tree: its count, or zero
/// where the file could not be read or counted.
pub open spec fn leaf_count(content: Result<Seq<u8>, Seq<char>>) -> usize {
    match measured(content) {
        Ok(count) => count,
        Err(_) => 0usize,
    }
}

/// Counts the tokens of a file of the tree from the outcome of reading it; a
/// file that cannot be read or counted counts as zero.
pub fn leaf_token_count(content: Result<Vec<u8>, String>) -> (count: usize)
    ensures
        count == leaf_count(content_model(content)),
{
    match measure_content(content) {
        Ok(count) => count,
        Err(_) => 0,
    }
}

/// A node with the counts filled in: a file takes the count of its path, if
/// there is one; a directory keeps its own count and has its children filled.
pub open spec fn annotated_node(node: NodeModel, counts: Map<Seq<char>, usize>) -> NodeModel
    decreases node, 1int,
{
    if node.is_directory {
        match node.children {
            Some(children) => NodeModel { children: Some(annotated(children, counts)), ..node },
            None => node,
        }
    } else if counts.contains_key(node.path) {
        NodeModel { token_count: Some(counts[node.path]), ..node }
    } else {
        node
    }
}

/// A forest with the counts filled in.
pub open spec fn annotated(nodes: Seq<NodeModel>, counts: Map<Seq<char>, usize>) -> Seq<NodeModel>
    decreases nodes, 0int,
{
    if nodes.len() == 0 {
        Seq::empty()
    } else {
        annotated(nodes.drop_last(), counts).push(annotated_node(nodes.last(), counts))
    }
}

fn fill_node(node: FileTreeNode, counts: &TokenTotals) -> (filled: FileTreeNode)
    ensures
        filled@ == annotated_node(node@, counts@),
    decreases node, 0int,
{
    let FileTreeNode { name, path, children, is_directory, token_count, last_modified } = node;
    if is_directory {
        match children {
            Some(kids) => {
                let filled = fill_forest(kids, counts);
                FileTreeNode {
                    name,
                    path,
                    children: Some(filled),
                    is_directory,
                    token_count,
                    last_modified,
                }
            },
            None => FileTreeNode {
                name,
                path,
                children: None,
                is_directory,
                token_count,
                last_modified,
            },
        }
    } else {
        match counts.get(path.as_str()) {
            Some(count) => FileTreeNode {
                name,
                path,
                children,
                is_directory,
                token_count: Some(count),
                last_modified,
            },
            None => FileTreeNode { name, path, children, is_directory, token_count, last_modified },
        }
    }
}

fn fill_forest(nodes: Vec<FileTreeNode>, counts: &TokenTotals) -> (filled: Vec<FileTreeNode>)
    ensures
        forest_model(filled@) == annotated(forest_model(nodes@), counts@),
    decreases nodes, 1int,
{
    let ghost all = nodes@;
    let ghost models = forest_model(nodes@);
    proof {
        forest_model_index(all);
    }
    let mut pending = reversed(nodes);
    let mut filled: Vec<FileTreeNode> = Vec::new();
    while pending.len() > 0
        invariant
            pending@.len() <= all.len(),
            all == nodes@,
            models == forest_model(all),
            models.len() == all.len(),
            forall|k: int| 0 <= k < all.len() ==> #[trigger] models[k] == all[k]@,
            forall|j: int| 0 <= j < pending@.len() ==> pending@[j] == all[all.len() - 1 - j],
            forest_model(filled@) == annotated(models.take(all.len() - pending@.len()), counts@),
        decreases pending.len(),
    {
        let ghost done = all.len() - pending@.len();
        match pending.pop() {
            Some(node) => {
                assert(node == all[done]);
                proof {
                    assert(models.take(done + 1).drop_last() =~= models.take(done));
                    assert(models.take(done + 1).last() == node@);
                }
                let next = fill_node(node, counts);
                proof {
                    forest_model_push(filled@, next);
                }
                filled.push(next);
            },
            None => {},
        }
    }
    assert(models.take(all.len() as int) =~= models);
    filled
}

/// Fills the token counts into a tree: every file whose path has a count takes
/// it; files without one and all directories stay as they are.
pub fn fill_tokens_in_tree(nodes: &mut Vec<FileTreeNode>, counts: &TokenTotals)
    ensures
        forest_model(final(nodes)@) == annotated(forest_model(old(nodes)@), counts@),
{
    let mut taken: Vec<FileTreeNode> = Vec::new();
    std::mem::swap(nodes, &mut taken);
    let filled = fill_forest(taken, counts);
    *nodes = filled;
}

/// The tokens of the files at and below a node, a file without a count
/// counting as zero.
pub open spec fn node_tokens(node: NodeModel) -> nat
    decreases node, 1int,
{
    if node.is_directory {
        match node.children {
            Some(children) => forest_tokens(children),
            None => 0,
        }
    } else {
        match node.token_count {
            Some(count) => count as nat,
            None => 0,
        }
    }
}

/// The tokens of all files of a forest.
pub open spec fn forest_tokens(nodes: Seq<NodeModel>) -> nat
    decreases nodes, 0int,
{
    if nodes.len() == 0 {
        0
    } else {
        forest_tokens(nodes.drop_last()) + node_tokens(nodes.last())
    }
}

/// A sum as a machine number: the sum itself, or the largest number where the
/// sum is beyond it.
pub open spec fn capped(total: nat) -> usize {
    if total > usize::MAX {
        usize::MAX
    } else {
        total as usize
    }
}

/// The sum of the token counts of all files of a forest, however deep; files
/// without a count count as zero.
pub fn sum_descendant_tokens(nodes: &Vec<FileTreeNode>) -> (total: usize)
    ensures
        total == capped(forest_tokens(forest_model(nodes@))),
    decreases nodes,
{
    let ghost models = forest_model(nodes@);
    proof {
        forest_model_index(nodes@);
    }
    let mut total: usize = 0;
    let mut i: usize = 0;
    while i < nodes.len()
        invariant
            i <= nodes.len(),
            models == forest_model(nodes@),
            models.len() == nodes.len(),
            forall|k: int| 0 <= k < nodes.len() ==> #[trigger] models[k] == nodes@[k]@,
            total == capped(forest_tokens(models.take(i as int))),
        decreases nodes.len() - i,
    {
        let node = &nodes[i];
        proof {
            assert(models.take(i + 1).drop_last() =~= models.take(i as int));
            assert(models.take(i + 1).last() == node@);
        }
        let part: usize = if node.is_directory {
            match &node.children {
                Some(children) => sum_descendant_tokens(children),
                None => 0,
            }
        } else {
            match node.token_count {
                Some(count) => count,
                None => 0,
            }
        };
        assert(part == capped(node_tokens(node@)));
        total = if total > usize::MAX - part {
            usize::MAX
        } else {
            total + part
        };
        i += 1;
    }
    assert(models.take(nodes.len() as int) =~= models);
    total
}

/// A node with the sums filled in: a directory takes the sum of the tokens of
/// all files below it, and so do the directories below it; a file stays.
pub open spec fn rolled_up_node(node: NodeModel) -> NodeModel
    decreases node, 1int,
{
    if node.is_directory {
        match node.children {
            Some(children) => NodeModel {
                children: Some(rolled_up(children)),
                token_count: Some(capped(forest_tokens(children))),
                ..node
            },
            None => NodeModel { token_count: Some(0usize), ..node },
        }
    } else {
        node
    }
}

/// A forest with the sums filled in.
pub open spec fn rolled_up(nodes: Seq<NodeModel>) -> Seq<NodeModel>
    decreases nodes, 0int,
{
    if nodes.len() == 0 {
        Seq::empty()
    } else {
        rolled_up(nodes.drop_last()).push(rolled_up_node(nodes.last()))
    }
}

fn roll_node(node: FileTreeNode) -> (rolled: FileTreeNode)
    ensures
        rolled@ == rolled_up_node(node@),
    decreases node, 0int,
{
    if !node.is_directory {
        return node;
    }
    let FileTreeNode { name, path, children, is_directory, token_count, last_modified } = node;
    match children {
        Some(kids) => {
            let total = sum_descendant_tokens(&kids);
            let rolled = roll_forest(kids);
            FileTreeNode {
                name,
                path,
                children: Some(rolled),
                is_directory,
                token_count: Some(total),
                last_modified,
            }
        },
        None => FileTreeNode {
            name,
            path,
            children: None,
            is_directory,
            token_count: Some(0),
            last_modified,
        },
    }
}

fn roll_forest(nodes: Vec<FileTreeNode>) -> (rolled: Vec<FileTreeNode>)
    ensures
        forest_model(rolled@) == rolled_up(forest_model(nodes@)),
    decreases nodes, 1int,
{
    let ghost all = nodes@;
    let ghost models = forest_model(nodes@);
    proof {
        forest_model_index(all);
    }
    let mut pending = reversed(nodes);
    let mut rolled: Vec<FileTreeNode> = Vec::new();
    while pending.len() > 0
        invariant
            pending@.len() <= all.len(),
            all == nodes@,
            models == forest_model(all),
            models.len() == all.len(),
            forall|k: int| 0 <= k < all.len() ==> #[trigger] models[k] == all[k]@,
            forall|j: int| 0 <= j < pending@.len() ==> pending@[j] == all[all.len() - 1 - j],
            forest_model(rolled@) == rolled_up(models.take(all.len() - pending@.len())),
        decreases pending.len(),
    {
        let ghost done = all.len() - pending@.len();
        match pending.pop() {
            Some(node) => {
                assert(node == all[done]);
                proof {
                    assert(models.take(done + 1).drop_last() =~= models.take(done));
                    assert(models.take(done + 1).last() == node@);
                }
                let next = roll_node(node);
                proof {
                    forest_model_push(rolled@, next);
                }
                rolled.push(next);
            },
            None => {},
        }
    }
    assert(models.take(all.len() as int) =~= models);
    rolled
}

/// Gives every directory of a tree the sum of the token counts of all files
/// below it, files without a count counting as zero.
pub fn roll_up_directory_tokens(nodes: &mut Vec<FileTreeNode>)
    ensures
        forest_model(final(nodes)@) == rolled_up(forest_model(old(nodes)@)),
{
    let mut taken: Vec<FileTreeNode> = Vec::new();
    std::mem::swap(nodes, &mut taken);
    let rolled = roll_forest(taken);
    *nodes = rolled;
}

} // verus!
