use crate::sequences::reversed;
use crate::text_order::{str_lt, text_lt};
use crate::tree_node::{forest_model, forest_model_is_map, FileTreeNode, NodeModel};
use vstd::prelude::*;

verus! {

/// Whether `a` stands before `b` among siblings: a directory before a file, and
/// within each group the name that comes first in the order of strings.
pub open spec fn precedes(a: NodeModel, b: NodeModel) -> bool {
    if a.is_directory != b.is_directory {
        a.is_directory
    } else {
        text_lt(a.name, b.name)
    }
}

/// The place at which `node` goes into ordered `nodes`: behind every node that
/// it does not stand before.
pub open spec fn insert_place(nodes: Seq<NodeModel>, node: NodeModel) -> int
    decreases nodes.len(),
{
    if nodes.len() == 0 {
        0
    } else if precedes(node, nodes.last()) {
        insert_place(nodes.drop_last(), node)
    } else {
        nodes.len() as int
    }
}

/// Ordered `nodes` with `node` put in at its place.
pub open spec fn inserted(nodes: Seq<NodeModel>, node: NodeModel) -> Seq<NodeModel> {
    nodes.insert(insert_place(nodes, node), node)
}

/// The nodes in the order of siblings; nodes of which neither stands before
/// the other keep their order.
pub open spec fn sorted_nodes(nodes: Seq<NodeModel>) -> Seq<NodeModel>
    decreases nodes.len(),
{
    if nodes.len() == 0 {
        Seq::empty()
    } else {
        inserted(sorted_nodes(nodes.drop_last()), nodes.last())
    }
}

/// Whether `a` stands before `b` among siblings.
pub fn node_precedes(a: &FileTreeNode, b: &FileTreeNode) -> (before: bool)
    ensures
        before == precedes(a@, b@),
{
    if a.is_directory != b.is_directory {
        a.is_directory
    } else {
        str_lt(a.name.as_str(), b.name.as_str())
    }
}

/// Puts `node` into ordered `nodes` at its place.
fn insert_node(nodes: &mut Vec<FileTreeNode>, node: FileTreeNode)
    ensures
        forest_model(final(nodes)@) == inserted(forest_model(old(nodes)@), node@),
{
    let ghost models = forest_model(nodes@);
    let ghost before = nodes@;
    proof {
        forest_model_is_map(nodes@);
        assert(models.take(nodes.len() as int) =~= models);
    }
    let mut place: usize = nodes.len();
    while place > 0 && node_precedes(&node, &nodes[place - 1])
        invariant
            place <= nodes.len(),
            nodes@ == before,
            models == forest_model(nodes@),
            models.len() == nodes.len(),
            forall|k: int| 0 <= k < nodes.len() ==> #[trigger] models[k] == nodes@[k]@,
            insert_place(models, node@) == insert_place(models.take(place as int), node@),
        decreases place,
    {
        proof {
            let front = models.take(place as int);
            assert(front.last() == models[place - 1]);
            assert(front.drop_last() =~= models.take(place - 1));
        }
        place -= 1;
    }
    proof {
        let front = models.take(place as int);
        if place > 0 {
            assert(front.last() == models[place - 1]);
        }
        assert(insert_place(front, node@) == place);
        assert(models.take(nodes.len() as int) =~= models);
    }
    nodes.insert(place, node);
    proof {
        forest_model_is_map(nodes@);
        assert(forest_model(nodes@) =~= models.insert(place as int, node@));
    }
}

/// Puts nodes into the order of siblings: directories first, then files, each
/// group by name.
pub fn sort_nodes(nodes: Vec<FileTreeNode>) -> (sorted: Vec<FileTreeNode>)
    ensures
        forest_model(sorted@) == sorted_nodes(forest_model(nodes@)),
{
    let ghost all = nodes@;
    let ghost models = forest_model(nodes@);
    proof {
        forest_model_is_map(all);
    }
    let mut pending = reversed(nodes);
    let mut sorted: Vec<FileTreeNode> = Vec::new();
    while pending.len() > 0
        invariant
            pending@.len() <= all.len(),
            models == forest_model(all),
            models.len() == all.len(),
            forall|k: int| 0 <= k < all.len() ==> #[trigger] models[k] == all[k]@,
            forall|j: int| 0 <= j < pending@.len() ==> pending@[j] == all[all.len() - 1 - j],
            forest_model(sorted@) == sorted_nodes(models.take(all.len() - pending@.len())),
        decreases pending.len(),
    {
        let ghost done = all.len() - pending@.len();
        match pending.pop() {
            Some(node) => {
                proof {
                    assert(node == all[done]);
                    assert(models.take(done + 1).drop_last() =~= models.take(done));
                    assert(models.take(done + 1).last() == node@);
                }
                insert_node(&mut sorted, node);
            },
            None => {},
        }
    }
    assert(models.take(all.len() as int) =~= models);
    sorted
}

} // verus!
