use crate::text_order::{text_lt, text_lt_asymmetric, text_lt_total, text_lt_transitive};
use crate::tree_builder::{
    built_tree, collected, directory_node, file_node, visible, ListingModel, ScanModel,
    TreeErrorModel,
};
use crate::tree_node::NodeModel;
use crate::tree_sort::{insert_place, inserted, precedes, sorted_nodes};
use vstd::prelude::*;

verus! {

/// If `a` stands before `b`, then `b` does not stand before `a`.
pub proof fn precedes_asymmetric(a: NodeModel, b: NodeModel)
    requires
        precedes(a, b),
    ensures
        !precedes(b, a),
{
    if a.is_directory == b.is_directory {
        text_lt_asymmetric(a.name, b.name);
    }
}

/// If `a` does not stand before `b`, nor `b` before `c`, then `a` does not
/// stand before `c`.
pub proof fn precedes_negatively_transitive(a: NodeModel, b: NodeModel, c: NodeModel)
    requires
        !precedes(a, b),
        !precedes(b, c),
    ensures
        !precedes(a, c),
{
    if a.is_directory == c.is_directory && text_lt(a.name, c.name) {
        if a.is_directory == b.is_directory {
            text_lt_total(a.name, b.name);
            text_lt_total(b.name, c.name);
            if a.name == b.name {
            } else if b.name == c.name {
            } else {
                text_lt_transitive(c.name, b.name, a.name);
                text_lt_asymmetric(a.name, c.name);
            }
        }
    }
}

/// The nodes stand in the order of siblings: no node stands before one that
/// comes earlier.
pub open spec fn in_order(nodes: Seq<NodeModel>) -> bool {
    forall|i: int, j: int|
        0 <= i < j < nodes.len() ==> !precedes(#[trigger] nodes[j], #[trigger] nodes[i])
}

/// The place of a node: it stands before every node behind the place, and not
/// before the node in front of it.
pub proof fn insert_place_divides(nodes: Seq<NodeModel>, node: NodeModel)
    ensures
        0 <= insert_place(nodes, node) <= nodes.len(),
        forall|j: int|
            insert_place(nodes, node) <= j < nodes.len() ==> precedes(node, #[trigger] nodes[j]),
        insert_place(nodes, node) > 0 ==> !precedes(node, nodes[insert_place(nodes, node) - 1]),
    decreases nodes.len(),
{
    if nodes.len() > 0 && precedes(node, nodes.last()) {
        let front = nodes.drop_last();
        insert_place_divides(front, node);
        let place = insert_place(front, node);
        assert forall|j: int| place <= j < nodes.len() implies precedes(
            node,
            #[trigger] nodes[j],
        ) by {
            if j < front.len() {
                assert(front[j] == nodes[j]);
            }
        }
        if place > 0 {
            assert(front[place - 1] == nodes[place - 1]);
        }
    }
}

/// Putting a node into ordered nodes at its place keeps them in order.
pub proof fn inserted_in_order(nodes: Seq<NodeModel>, node: NodeModel)
    requires
        in_order(nodes),
    ensures
        in_order(inserted(nodes, node)),
{
    insert_place_divides(nodes, node);
    let place = insert_place(nodes, node);
    let after = inserted(nodes, node);
    assert forall|i: int, j: int| 0 <= i < j < after.len() implies !precedes(
        #[trigger] after[j],
        #[trigger] after[i],
    ) by {
        if j < place {
            assert(after[i] == nodes[i] && after[j] == nodes[j]);
        } else if j == place {
            assert(after[i] == nodes[i]);
            if i < place - 1 {
                assert(!precedes(nodes[place - 1], nodes[i]));
                precedes_negatively_transitive(node, nodes[place - 1], nodes[i]);
            }
        } else if i == place {
            assert(after[j] == nodes[j - 1]);
            precedes_asymmetric(node, nodes[j - 1]);
        } else if i < place {
            assert(after[i] == nodes[i] && after[j] == nodes[j - 1]);
        } else {
            assert(after[i] == nodes[i - 1] && after[j] == nodes[j - 1]);
        }
    }
}

/// Sorted nodes stand in the order of siblings: every directory before every
/// file, and within each group the names in the order of strings.
pub proof fn sorted_nodes_in_order(nodes: Seq<NodeModel>)
    ensures
        in_order(sorted_nodes(nodes)),
    decreases nodes.len(),
{
    if nodes.len() > 0 {
        sorted_nodes_in_order(nodes.drop_last());
        inserted_in_order(sorted_nodes(nodes.drop_last()), nodes.last());
    }
}

/// Sorted nodes are the same nodes, each as often as before.
pub proof fn sorted_nodes_same_nodes(nodes: Seq<NodeModel>)
    ensures
        sorted_nodes(nodes).to_multiset() == nodes.to_multiset(),
    decreases nodes.len(),
{
    broadcast use vstd::seq_lib::group_to_multiset_ensures;

    if nodes.len() > 0 {
        let front = nodes.drop_last();
        sorted_nodes_same_nodes(front);
        insert_place_divides(sorted_nodes(front), nodes.last());
        assert(front.push(nodes.last()) =~= nodes);
        assert(sorted_nodes(nodes).to_multiset() =~= nodes.to_multiset());
    } else {
        assert(sorted_nodes(nodes) =~= nodes);
    }
}

/// A node is sound if it is a file without children, or a directory with at
/// least one child whose children are a sound forest.
pub open spec fn sound_node(node: NodeModel) -> bool
    decreases node, 2int,
{
    match node.children {
        Some(children) => node.is_directory && children.len() > 0 && sound_forest(children),
        None => !node.is_directory,
    }
}

/// Every node of the sequence is sound.
pub open spec fn each_sound(nodes: Seq<NodeModel>) -> bool
    decreases nodes, 0int,
{
    if nodes.len() == 0 {
        true
    } else {
        each_sound(nodes.drop_last()) && sound_node(nodes.last())
    }
}

/// A forest is sound if its nodes stand in the order of siblings and each is
/// sound: at no level is there a directory without children, and every level
/// is in order.
pub open spec fn sound_forest(nodes: Seq<NodeModel>) -> bool
    decreases nodes, 1int,
{
    in_order(nodes) && each_sound(nodes)
}

/// Every node of a sequence is sound exactly if the node at every place is.
pub proof fn each_sound_by_place(nodes: Seq<NodeModel>)
    ensures
        each_sound(nodes) <==> forall|i: int| 0 <= i < nodes.len() ==> sound_node(#[trigger] nodes[i]),
    decreases nodes.len(),
{
    if nodes.len() > 0 {
        let front = nodes.drop_last();
        each_sound_by_place(front);
        if each_sound(nodes) {
            assert forall|i: int| 0 <= i < nodes.len() implies sound_node(#[trigger] nodes[i]) by {
                if i < front.len() {
                    assert(front[i] == nodes[i]);
                }
            }
        }
        if forall|i: int| 0 <= i < nodes.len() ==> sound_node(#[trigger] nodes[i]) {
            assert forall|i: int| 0 <= i < front.len() implies sound_node(#[trigger] front[i]) by {
                assert(front[i] == nodes[i]);
            }
            assert(sound_node(nodes[nodes.len() - 1]));
        }
    }
}

/// Sorting sound nodes gives a sound forest.
pub proof fn sorted_sound(nodes: Seq<NodeModel>)
    requires
        each_sound(nodes),
    ensures
        sound_forest(sorted_nodes(nodes)),
    decreases nodes.len(),
{
    sorted_nodes_in_order(nodes);
    if nodes.len() > 0 {
        let front = nodes.drop_last();
        sorted_sound(front);
        let before = sorted_nodes(front);
        let after = sorted_nodes(nodes);
        insert_place_divides(before, nodes.last());
        let place = insert_place(before, nodes.last());
        each_sound_by_place(before);
        each_sound_by_place(after);
        assert forall|i: int| 0 <= i < after.len() implies sound_node(#[trigger] after[i]) by {
            if i < place {
                assert(after[i] == before[i]);
            } else if i > place {
                assert(after[i] == before[i - 1]);
            }
        }
    }
}

/// The nodes collected from the entries of a directory are sound.
pub proof fn collected_is_sound(entries: Seq<ScanModel>, root: Seq<char>, lines: Seq<Seq<char>>)
    ensures
        collected(entries, root, lines) matches Ok(nodes) ==> each_sound(nodes),
    decreases entries, 0int,
{
    if entries.len() > 0 {
        collected_is_sound(entries.drop_last(), root, lines);
        let entry = entries.last();
        if visible(entry, root, lines) && entry.is_directory {
            built_tree_is_sound(entry.path, entry.listing, root, lines);
        }
        match collected(entries.drop_last(), root, lines) {
            Ok(before) => {
                if !visible(entry, root, lines) {
                } else if !entry.is_directory {
                    let nodes = before.push(file_node(entry));
                    assert(nodes.drop_last() =~= before);
                    assert(sound_node(nodes.last()));
                } else {
                    match built_tree(entry.path, entry.listing, root, lines) {
                        Ok(children) => {
                            if children.len() > 0 {
                                let nodes = before.push(directory_node(entry, children));
                                assert(nodes.drop_last() =~= before);
                                assert(sound_node(nodes.last()));
                            }
                        },
                        Err(_) => {},
                    }
                }
            },
            Err(_) => {},
        }
    }
}

/// No empty directories, and every level in order: a tree that was built is a
/// sound forest. A directory in which nothing is left after the rules were
/// applied has no node, and every directory that has a node has children.
pub proof fn built_tree_is_sound(
    path: Seq<char>,
    listing: ListingModel,
    root: Seq<char>,
    lines: Seq<Seq<char>>,
)
    ensures
        built_tree(path, listing, root, lines) matches Ok(nodes) ==> sound_forest(nodes),
    decreases listing, 1int,
{
    match listing {
        ListingModel::Entries(entries) => {
            collected_is_sound(entries, root, lines);
            match collected(entries, root, lines) {
                Ok(nodes) => sorted_sound(nodes),
                Err(_) => {},
            }
        },
        _ => {},
    }
}

/// A directory of which an entry could not be read has no tree, whatever its
/// other entries are.
pub proof fn unreadable_entry_fails_the_walk(
    path: Seq<char>,
    entries: Seq<ScanModel>,
    message: Seq<char>,
    root: Seq<char>,
    lines: Seq<Seq<char>>,
)
    ensures
        built_tree(path, ListingModel::Interrupted(entries, message), root, lines) is Err,
{
}

/// A directory of the tree that has no tree of its own fails the directory
/// that holds it, wherever among the entries it stands: no branch is left out
/// of a tree in silence.
pub proof fn failed_directory_fails_the_parent(
    entries: Seq<ScanModel>,
    place: int,
    root: Seq<char>,
    lines: Seq<Seq<char>>,
)
    requires
        0 <= place < entries.len(),
        entries[place].is_directory,
        visible(entries[place], root, lines),
        built_tree(entries[place].path, entries[place].listing, root, lines) is Err,
    ensures
        collected(entries, root, lines) is Err,
    decreases entries.len(),
{
    if place < entries.len() - 1 {
        let front = entries.drop_last();
        assert(front[place] == entries[place]);
        failed_directory_fails_the_parent(front, place, root, lines);
    }
}

/// A directory entry in which nothing is left gives no node: the nodes of a
/// directory's entries are the same with and without such an entry at the end.
pub proof fn emptied_directory_has_no_node(
    entries: Seq<ScanModel>,
    entry: ScanModel,
    root: Seq<char>,
    lines: Seq<Seq<char>>,
)
    requires
        entry.is_directory,
        visible(entry, root, lines),
        built_tree(entry.path, entry.listing, root, lines) == Ok::<
            Seq<NodeModel>,
            TreeErrorModel,
        >(Seq::empty()),
    ensures
        collected(entries.push(entry), root, lines) == collected(entries, root, lines),
{
    assert(entries.push(entry).drop_last() =~= entries);
}

/// An entry that the rules exclude gives no node, whatever is below it.
pub proof fn excluded_entry_has_no_node(
    entries: Seq<ScanModel>,
    entry: ScanModel,
    root: Seq<char>,
    lines: Seq<Seq<char>>,
)
    requires
        !visible(entry, root, lines),
    ensures
        collected(entries.push(entry), root, lines) == collected(entries, root, lines),
{
    assert(entries.push(entry).drop_last() =~= entries);
}

/// No two of the nodes are of the same kind and name.
pub open spec fn distinct_siblings(nodes: Seq<NodeModel>) -> bool {
    forall|i: int, j: int|
        0 <= i < j < nodes.len() ==> !same_place(#[trigger] nodes[i], #[trigger] nodes[j])
}

/// Two nodes that no order of siblings can tell apart: the same kind and name.
pub open spec fn same_place(a: NodeModel, b: NodeModel) -> bool {
    a.is_directory == b.is_directory && a.name == b.name
}

/// Every node stands before all that come later.
pub open spec fn strictly_ordered(nodes: Seq<NodeModel>) -> bool {
    forall|i: int, j: int|
        0 <= i < j < nodes.len() ==> precedes(#[trigger] nodes[i], #[trigger] nodes[j])
}

/// Of two nodes that differ in kind or name one stands before the other.
pub proof fn precedes_total(a: NodeModel, b: NodeModel)
    requires
        !same_place(a, b),
    ensures
        precedes(a, b) || precedes(b, a),
{
    if a.is_directory == b.is_directory {
        text_lt_total(a.name, b.name);
    }
}

/// Putting a node into strictly ordered nodes, none of which is of its kind
/// and name, keeps them strictly ordered.
pub proof fn inserted_strictly_ordered(nodes: Seq<NodeModel>, node: NodeModel)
    requires
        strictly_ordered(nodes),
        forall|i: int| 0 <= i < nodes.len() ==> !same_place(#[trigger] nodes[i], node),
    ensures
        strictly_ordered(inserted(nodes, node)),
{
    insert_place_divides(nodes, node);
    let place = insert_place(nodes, node);
    let after = inserted(nodes, node);
    assert forall|i: int, j: int| 0 <= i < j < after.len() implies precedes(
        #[trigger] after[i],
        #[trigger] after[j],
    ) by {
        if j < place {
            assert(after[i] == nodes[i] && after[j] == nodes[j]);
        } else if j == place {
            assert(after[i] == nodes[i]);
            if i < place - 1 {
                assert(precedes(nodes[i], nodes[place - 1]));
                precedes_asymmetric(nodes[i], nodes[place - 1]);
                precedes_negatively_transitive(node, nodes[place - 1], nodes[i]);
            }
            assert(!same_place(nodes[i], node));
            precedes_total(nodes[i], node);
        } else if i == place {
            assert(after[j] == nodes[j - 1]);
        } else if i < place {
            assert(after[i] == nodes[i] && after[j] == nodes[j - 1]);
        } else {
            assert(after[i] == nodes[i - 1] && after[j] == nodes[j - 1]);
        }
    }
}

/// Sorting nodes of which no two are of the same kind and name orders them
/// strictly.
pub proof fn sorted_nodes_strictly_ordered(nodes: Seq<NodeModel>)
    requires
        distinct_siblings(nodes),
    ensures
        strictly_ordered(sorted_nodes(nodes)),
    decreases nodes.len(),
{
    broadcast use vstd::seq_lib::group_to_multiset_ensures;

    if nodes.len() > 0 {
        let front = nodes.drop_last();
        let last = nodes.last();
        assert forall|i: int, j: int| 0 <= i < j < front.len() implies !same_place(
            #[trigger] front[i],
            #[trigger] front[j],
        ) by {
            assert(front[i] == nodes[i] && front[j] == nodes[j]);
        }
        sorted_nodes_strictly_ordered(front);
        sorted_nodes_same_nodes(front);
        let before = sorted_nodes(front);
        assert forall|i: int| 0 <= i < before.len() implies !same_place(
            #[trigger] before[i],
            last,
        ) by {
            assert(before.contains(before[i]));
            assert(before.to_multiset().count(before[i]) > 0);
            assert(front.contains(before[i]));
            let k = choose|k: int| 0 <= k < front.len() && front[k] == before[i];
            assert(nodes[k] == before[i]);
            assert(!same_place(nodes[k], nodes[nodes.len() - 1]));
        }
        inserted_strictly_ordered(before, last);
    }
}

/// Two strictly ordered sequences of the same nodes are the same sequence.
pub proof fn strict_order_is_unique(first: Seq<NodeModel>, second: Seq<NodeModel>)
    requires
        strictly_ordered(first),
        strictly_ordered(second),
        first.to_multiset() == second.to_multiset(),
    ensures
        first == second,
    decreases first.len(),
{
    broadcast use vstd::seq_lib::group_to_multiset_ensures;

    assert(first.to_multiset().len() == first.len());
    assert(second.to_multiset().len() == second.len());
    if first.len() == 0 {
        assert(first =~= second);
    } else {
        let n = first.len() as int;
        let a = first.last();
        let b = second.last();
        assert(first.contains(a));
        assert(second.to_multiset().count(a) > 0);
        assert(second.contains(a));
        let m = choose|m: int| 0 <= m < second.len() && second[m] == a;
        assert(second.contains(b));
        assert(first.to_multiset().count(b) > 0);
        assert(first.contains(b));
        let k = choose|k: int| 0 <= k < first.len() && first[k] == b;
        if m < n - 1 {
            assert(precedes(second[m], second[n - 1]));
            if k < n - 1 {
                assert(precedes(first[k], first[n - 1]));
            }
            precedes_asymmetric(a, b);
        }
        assert(a == b);
        assert(first.drop_last() =~= first.remove(n - 1));
        assert(second.drop_last() =~= second.remove(n - 1));
        assert(first.drop_last().to_multiset() == second.drop_last().to_multiset());
        assert forall|i: int, j: int| 0 <= i < j < n - 1 implies precedes(
            #[trigger] first.drop_last()[i],
            #[trigger] first.drop_last()[j],
        ) by {
            assert(first.drop_last()[i] == first[i] && first.drop_last()[j] == first[j]);
        }
        assert forall|i: int, j: int| 0 <= i < j < n - 1 implies precedes(
            #[trigger] second.drop_last()[i],
            #[trigger] second.drop_last()[j],
        ) by {
            assert(second.drop_last()[i] == second[i] && second.drop_last()[j] == second[j]);
        }
        strict_order_is_unique(first.drop_last(), second.drop_last());
        assert(first =~= first.drop_last().push(a));
        assert(second =~= second.drop_last().push(b));
    }
}

/// The order of siblings does not depend on the order in which they were
/// found: the same nodes, no two of the same kind and name, are sorted into the
/// same sequence.
pub proof fn sorting_ignores_order_of_reading(first: Seq<NodeModel>, second: Seq<NodeModel>)
    requires
        first.to_multiset() == second.to_multiset(),
        distinct_siblings(first),
        distinct_siblings(second),
    ensures
        sorted_nodes(first) == sorted_nodes(second),
{
    sorted_nodes_strictly_ordered(first);
    sorted_nodes_strictly_ordered(second);
    sorted_nodes_same_nodes(first);
    sorted_nodes_same_nodes(second);
    strict_order_is_unique(sorted_nodes(first), sorted_nodes(second));
}

/// Every directory of which the tree has need was read, or reading it was
/// tried: the listing itself, and below it every directory that is an entry let
/// in by the rules.
pub open spec fn read_where_needed(listing: ListingModel, root: Seq<char>, lines: Seq<Seq<char>>) -> bool
    decreases listing, 1int,
{
    match listing {
        ListingModel::Unread => false,
        ListingModel::Failed(_) => true,
        ListingModel::Entries(entries) => each_read_where_needed(entries, root, lines),
        ListingModel::Interrupted(entries, _) => each_read_where_needed(entries, root, lines),
    }
}

/// Every entry that is a directory let in by the rules was read where needed.
pub open spec fn each_read_where_needed(
    entries: Seq<ScanModel>,
    root: Seq<char>,
    lines: Seq<Seq<char>>,
) -> bool
    decreases entries, 0int,
{
    if entries.len() == 0 {
        true
    } else {
        &&& each_read_where_needed(entries.drop_last(), root, lines)
        &&& (entries.last().is_directory && visible(entries.last(), root, lines))
            ==> read_where_needed(entries.last().listing, root, lines)
    }
}

/// Where the entries were read as far as needed, collecting their nodes does
/// not fail for want of a listing.
pub proof fn collected_has_what_it_needs(entries: Seq<ScanModel>, root: Seq<char>, lines: Seq<Seq<char>>)
    requires
        each_read_where_needed(entries, root, lines),
    ensures
        !(collected(entries, root, lines) matches Err(TreeErrorModel::NotRead(_))),
    decreases entries, 0int,
{
    if entries.len() > 0 {
        collected_has_what_it_needs(entries.drop_last(), root, lines);
        let entry = entries.last();
        if entry.is_directory && visible(entry, root, lines) {
            built_tree_has_what_it_needs(entry.path, entry.listing, root, lines);
        }
    }
}

/// Where every directory that [`crate::tree_builder::descends`] asks for was
/// read, or reading it was tried, building the tree does not fail for want of
/// a listing: it gives a tree, or the failure of a directory that could not be
/// read.
pub proof fn built_tree_has_what_it_needs(
    path: Seq<char>,
    listing: ListingModel,
    root: Seq<char>,
    lines: Seq<Seq<char>>,
)
    requires
        read_where_needed(listing, root, lines),
    ensures
        !(built_tree(path, listing, root, lines) matches Err(TreeErrorModel::NotRead(_))),
    decreases listing, 1int,
{
    match listing {
        ListingModel::Entries(entries) => {
            collected_has_what_it_needs(entries, root, lines);
        },
        ListingModel::Interrupted(entries, _) => {
            collected_has_what_it_needs(entries, root, lines);
        },
        _ => {},
    }
}

/// Building twice from what was read of an unchanged directory gives the same
/// tree: the same nodes in the same order.
pub proof fn rebuilding_gives_same_tree(
    path: Seq<char>,
    first: ListingModel,
    second: ListingModel,
    root: Seq<char>,
    lines: Seq<Seq<char>>,
)
    requires
        first == second,
    ensures
        built_tree(path, first, root, lines) == built_tree(path, second, root, lines),
{
}

} // verus!
