use vstd::prelude::*;

verus! {

/// One entry of a directory tree: a file, or a directory with the entries below it.
#[derive(Debug)]
pub struct FileTreeNode {
    pub name: String,
    pub path: String,
    pub children: Option<Vec<FileTreeNode>>,
    pub is_directory: bool,
    pub token_count: Option<usize>,
    pub last_modified: Option<u64>,
}

/// The mathematical value of a [`FileTreeNode`]: strings as character sequences,
/// children as a sequence of such values.
pub struct NodeModel {
    pub name: Seq<char>,
    pub path: Seq<char>,
    pub children: Option<Seq<NodeModel>>,
    pub is_directory: bool,
    pub token_count: Option<usize>,
    pub last_modified: Option<u64>,
}

/// The model of one node.
pub open spec fn node_model(node: FileTreeNode) -> NodeModel
    decreases node, 1int,
{
    NodeModel {
        name: node.name@,
        path: node.path@,
        children: match node.children {
            Some(kids) => Some(forest_model(kids@)),
            None => None,
        },
        is_directory: node.is_directory,
        token_count: node.token_count,
        last_modified: node.last_modified,
    }
}

/// The models of a sequence of nodes, in order.
pub open spec fn forest_model(nodes: Seq<FileTreeNode>) -> Seq<NodeModel>
    decreases nodes, 0int,
{
    if nodes.len() == 0 {
        Seq::empty()
    } else {
        forest_model(nodes.drop_last()).push(node_model(nodes.last()))
    }
}

impl View for FileTreeNode {
    type V = NodeModel;

    open spec fn view(&self) -> NodeModel {
        node_model(*self)
    }
}

/// The model of a forest has one entry per node, each the model of that node.
pub proof fn forest_model_index(nodes: Seq<FileTreeNode>)
    ensures
        forest_model(nodes).len() == nodes.len(),
        forall|i: int| 0 <= i < nodes.len() ==> #[trigger] forest_model(nodes)[i] == node_model(nodes[i]),
    decreases nodes.len(),
{
    if nodes.len() > 0 {
        forest_model_index(nodes.drop_last());
    }
}

/// The model of a forest is the sequence of the models of its nodes.
pub proof fn forest_model_is_map(nodes: Seq<FileTreeNode>)
    ensures
        forest_model(nodes) == Seq::new(nodes.len(), |i: int| node_model(nodes[i])),
{
    forest_model_index(nodes);
    assert(forest_model(nodes) =~= Seq::new(nodes.len(), |i: int| node_model(nodes[i])));
}

/// Appending a node appends its model.
pub proof fn forest_model_push(nodes: Seq<FileTreeNode>, node: FileTreeNode)
    ensures
        forest_model(nodes.push(node)) == forest_model(nodes).push(node_model(node)),
{
    assert(nodes.push(node).drop_last() =~= nodes);
}

/// A deep copy of a sequence of nodes.
pub fn clone_forest(nodes: &Vec<FileTreeNode>) -> (copy: Vec<FileTreeNode>)
    ensures
        forest_model(copy@) == forest_model(nodes@),
    decreases nodes, 0int,
{
    let mut copy: Vec<FileTreeNode> = Vec::new();
    let mut i: usize = 0;
    while i < nodes.len()
        invariant
            i <= nodes.len(),
            forest_model(copy@) == forest_model(nodes@.take(i as int)),
        decreases nodes.len() - i,
    {
        let node = clone_node(&nodes[i]);
        proof {
            forest_model_push(copy@, node);
            forest_model_push(nodes@.take(i as int), nodes@[i as int]);
            assert(nodes@.take(i as int).push(nodes@[i as int]) =~= nodes@.take(i + 1));
        }
        copy.push(node);
        i += 1;
    }
    assert(nodes@.take(nodes.len() as int) =~= nodes@);
    copy
}

/// A deep copy of one node.
pub fn clone_node(node: &FileTreeNode) -> (copy: FileTreeNode)
    ensures
        copy@ == node@,
    decreases node, 1int,
{
    let children = match &node.children {
        Some(kids) => Some(clone_forest(kids)),
        None => None,
    };
    FileTreeNode {
        name: node.name.clone(),
        path: node.path.clone(),
        children,
        is_directory: node.is_directory,
        token_count: node.token_count,
        last_modified: node.last_modified,
    }
}

impl Clone for FileTreeNode {
    fn clone(&self) -> (copy: Self)
        ensures
            copy@ == self@,
    {
        clone_node(self)
    }
}

} // verus!
