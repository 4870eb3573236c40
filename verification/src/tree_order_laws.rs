use crate::tree_builder::{
    built_tree, collected, directory_node, file_node, visible, ListingModel, ScanModel,
    TreeErrorModel,
};
use crate::tree_laws::{distinct_siblings, same_place, sorting_ignores_order_of_reading};
use crate::tree_node::NodeModel;
use vstd::prelude::*;

verus! {

/// What one entry gives to the nodes of its directory: no node, one node, or
/// the failure of the directory behind it.
pub open spec fn entry_outcome(entry: ScanModel, root: Seq<char>, lines: Seq<Seq<char>>) -> Result<
    Option<NodeModel>,
    TreeErrorModel,
> {
    if !visible(entry, root, lines) {
        Ok(None)
    } else if !entry.is_directory {
        Ok(Some(file_node(entry)))
    } else {
        match built_tree(entry.path, entry.listing, root, lines) {
            Err(error) => Err(error),
            Ok(children) => if children.len() == 0 {
                Ok(None)
            } else {
                Ok(Some(directory_node(entry, children)))
            },
        }
    }
}

/// The nodes of a directory are collected without failure exactly if none of
/// its entries fails, and then they are the nodes that the entries give.
pub proof fn collected_by_entry(entries: Seq<ScanModel>, root: Seq<char>, lines: Seq<Seq<char>>)
    ensures
        collected(entries, root, lines) is Ok <==> forall|i: int|
            0 <= i < entries.len() ==> entry_outcome(#[trigger] entries[i], root, lines) is Ok,
        collected(entries, root, lines) matches Ok(nodes) ==> forall|v: NodeModel| #[trigger]
            nodes.contains(v) <==> exists|i: int|
                0 <= i < entries.len() && entry_outcome(#[trigger] entries[i], root, lines) == Ok::<
                    Option<NodeModel>,
                    TreeErrorModel,
                >(Some(v)),
    decreases entries.len(),
{
    if entries.len() > 0 {
        let front = entries.drop_last();
        let last = entries.last();
        let n = front.len() as int;
        collected_by_entry(front, root, lines);
        assert(entries[n] == last);
        assert forall|i: int| 0 <= i < n implies front[i] == entries[i] by {}
        if collected(entries, root, lines) is Ok {
            assert forall|i: int| 0 <= i < entries.len() implies entry_outcome(
                #[trigger] entries[i],
                root,
                lines,
            ) is Ok by {
                if i < n {
                    assert(entry_outcome(front[i], root, lines) is Ok);
                }
            }
        }
        if forall|i: int|
            0 <= i < entries.len() ==> entry_outcome(#[trigger] entries[i], root, lines) is Ok {
            assert forall|i: int| 0 <= i < front.len() implies entry_outcome(
                #[trigger] front[i],
                root,
                lines,
            ) is Ok by {
                assert(entry_outcome(entries[i], root, lines) is Ok);
            }
            assert(entry_outcome(entries[n], root, lines) is Ok);
        }
        match collected(entries, root, lines) {
            Ok(nodes) => {
                let before = collected(front, root, lines)->Ok_0;
                assert forall|v: NodeModel| #[trigger]
                    nodes.contains(v) <==> exists|i: int|
                        0 <= i < entries.len() && entry_outcome(#[trigger] entries[i], root, lines)
                            == Ok::<Option<NodeModel>, TreeErrorModel>(Some(v)) by {
                    if nodes.contains(v) {
                        let k = choose|k: int| 0 <= k < nodes.len() && nodes[k] == v;
                        if k < before.len() {
                            assert(before[k] == v);
                            assert(before.contains(v));
                            let i = choose|i: int|
                                0 <= i < front.len() && entry_outcome(
                                    #[trigger] front[i],
                                    root,
                                    lines,
                                ) == Ok::<Option<NodeModel>, TreeErrorModel>(Some(v));
                            assert(entries[i] == front[i]);
                        } else {
                            assert(entry_outcome(entries[n], root, lines) == Ok::<
                                Option<NodeModel>,
                                TreeErrorModel,
                            >(Some(v)));
                        }
                    }
                    if exists|i: int|
                        0 <= i < entries.len() && entry_outcome(#[trigger] entries[i], root, lines)
                            == Ok::<Option<NodeModel>, TreeErrorModel>(Some(v)) {
                        let i = choose|i: int|
                            0 <= i < entries.len() && entry_outcome(
                                #[trigger] entries[i],
                                root,
                                lines,
                            ) == Ok::<Option<NodeModel>, TreeErrorModel>(Some(v));
                        if i < n {
                            assert(front[i] == entries[i]);
                            assert(before.contains(v));
                            let k = choose|k: int| 0 <= k < before.len() && before[k] == v;
                            assert(nodes[k] == v);
                        } else {
                            assert(nodes[before.len() as int] == v);
                        }
                    }
                }
            },
            Err(_) => {},
        }
    }
}

/// No two entries have the same name.
pub open spec fn distinct_names(entries: Seq<ScanModel>) -> bool {
    forall|i: int, j: int|
        0 <= i < j < entries.len() ==> (#[trigger] entries[i]).name != (#[trigger] entries[j]).name
}

/// No two nodes have the same name.
pub open spec fn distinct_node_names(nodes: Seq<NodeModel>) -> bool {
    forall|i: int, j: int|
        0 <= i < j < nodes.len() ==> (#[trigger] nodes[i]).name != (#[trigger] nodes[j]).name
}

/// The node that an entry gives has the name of the entry.
pub proof fn outcome_keeps_name(entry: ScanModel, node: NodeModel, root: Seq<char>, lines: Seq<Seq<char>>)
    requires
        entry_outcome(entry, root, lines) == Ok::<Option<NodeModel>, TreeErrorModel>(Some(node)),
    ensures
        node.name == entry.name,
{
}

/// The nodes of entries with different names have different names.
pub proof fn collected_keeps_names_apart(entries: Seq<ScanModel>, root: Seq<char>, lines: Seq<Seq<char>>)
    requires
        distinct_names(entries),
        collected(entries, root, lines) is Ok,
    ensures
        distinct_node_names(collected(entries, root, lines)->Ok_0),
    decreases entries.len(),
{
    if entries.len() > 0 {
        let front = entries.drop_last();
        let last = entries.last();
        let n = front.len() as int;
        assert forall|i: int, j: int| 0 <= i < j < front.len() implies (#[trigger] front[i]).name
            != (#[trigger] front[j]).name by {
            assert(front[i] == entries[i] && front[j] == entries[j]);
        }
        collected_keeps_names_apart(front, root, lines);
        collected_by_entry(front, root, lines);
        let before = collected(front, root, lines)->Ok_0;
        let nodes = collected(entries, root, lines)->Ok_0;
        assert forall|a: int, b: int| 0 <= a < b < nodes.len() implies (#[trigger] nodes[a]).name
            != (#[trigger] nodes[b]).name by {
            if b < before.len() {
                assert(nodes[a] == before[a] && nodes[b] == before[b]);
            } else {
                assert(nodes[a] == before[a]);
                assert(before.contains(before[a]));
                let i = choose|i: int|
                    0 <= i < front.len() && entry_outcome(#[trigger] front[i], root, lines) == Ok::<
                        Option<NodeModel>,
                        TreeErrorModel,
                    >(Some(before[a]));
                outcome_keeps_name(front[i], before[a], root, lines);
                assert(entry_outcome(last, root, lines) == Ok::<
                    Option<NodeModel>,
                    TreeErrorModel,
                >(Some(nodes[b])));
                outcome_keeps_name(last, nodes[b], root, lines);
                assert(entries[i] == front[i]);
                assert(entries[i].name != entries[n].name);
            }
        }
    }
}

/// Nodes with different names are different nodes, and no two of them are of
/// the same kind and name.
pub proof fn different_names_different_nodes(nodes: Seq<NodeModel>)
    requires
        distinct_node_names(nodes),
    ensures
        nodes.no_duplicates(),
        distinct_siblings(nodes),
{
    assert forall|i: int, j: int|
        0 <= i < nodes.len() && 0 <= j < nodes.len() && i != j implies nodes[i] != nodes[j] by {
        if i < j {
            assert(nodes[i].name != nodes[j].name);
        } else {
            assert(nodes[j].name != nodes[i].name);
        }
    }
    assert forall|i: int, j: int| 0 <= i < j < nodes.len() implies !same_place(
        #[trigger] nodes[i],
        #[trigger] nodes[j],
    ) by {
        assert(nodes[i].name != nodes[j].name);
    }
}

/// Sequences without repetition that hold the same elements hold each as
/// often as the other.
pub proof fn same_members_same_multiset(first: Seq<NodeModel>, second: Seq<NodeModel>)
    requires
        first.no_duplicates(),
        second.no_duplicates(),
        forall|v: NodeModel| first.contains(v) <==> second.contains(v),
    ensures
        first.to_multiset() == second.to_multiset(),
{
    broadcast use vstd::seq_lib::group_to_multiset_ensures;

    first.lemma_multiset_has_no_duplicates();
    second.lemma_multiset_has_no_duplicates();
    assert forall|v: NodeModel| first.to_multiset().count(v) == second.to_multiset().count(v) by {
        assert(first.contains(v) <==> first.to_multiset().count(v) > 0);
        assert(second.contains(v) <==> second.to_multiset().count(v) > 0);
        if first.contains(v) {
            assert(first.to_multiset().contains(v));
            assert(second.to_multiset().contains(v));
        }
    }
    assert(first.to_multiset() =~= second.to_multiset());
}

/// Two entries that are the same entry, read twice: the same name, path and
/// kind, and below them the same reading.
pub open spec fn alike(first: ScanModel, second: ScanModel) -> bool
    decreases first, 2int,
{
    &&& first.name == second.name
    &&& first.path == second.path
    &&& first.relative_path == second.relative_path
    &&& first.directory_hint == second.directory_hint
    &&& first.is_directory == second.is_directory
    &&& first.last_modified == second.last_modified
    &&& same_reading(first.listing, second.listing)
}

/// Two sequences of entries that hold the same entries, in any order, the
/// names within each being different.
pub open spec fn same_entries(first: Seq<ScanModel>, second: Seq<ScanModel>) -> bool
    decreases first, 0int,
{
    &&& distinct_names(first)
    &&& distinct_names(second)
    &&& forall|i: int|
        0 <= i < first.len() ==> exists|j: int|
            0 <= j < second.len() && alike(#[trigger] first[i], #[trigger] second[j])
    &&& forall|j: int|
        0 <= j < second.len() ==> exists|i: int|
            0 <= i < first.len() && alike(#[trigger] first[i], #[trigger] second[j])
}

/// Two readings of one directory: both read it entire and found the same
/// entries, in any order at any depth; or neither read it entire.
pub open spec fn same_reading(first: ListingModel, second: ListingModel) -> bool
    decreases first, 1int,
{
    match first {
        ListingModel::Entries(entries) => second is Entries && same_entries(
            entries,
            second->Entries_0,
        ),
        _ => !(second is Entries),
    }
}

/// The same entry, read twice, gives the same to the nodes of its directory.
pub proof fn alike_entries_give_the_same(
    first: ScanModel,
    second: ScanModel,
    root: Seq<char>,
    lines: Seq<Seq<char>>,
)
    requires
        alike(first, second),
    ensures
        entry_outcome(first, root, lines) is Ok <==> entry_outcome(second, root, lines) is Ok,
        entry_outcome(first, root, lines) is Ok ==> entry_outcome(first, root, lines)
            == entry_outcome(second, root, lines),
    decreases first, 2int,
{
    if visible(first, root, lines) && first.is_directory {
        order_of_reading_is_irrelevant(first.path, first.listing, second.listing, root, lines);
    }
}

/// The same entries, in any order, give the same nodes, each once; or the
/// directory fails for both.
pub proof fn same_entries_give_the_same_nodes(
    first: Seq<ScanModel>,
    second: Seq<ScanModel>,
    root: Seq<char>,
    lines: Seq<Seq<char>>,
)
    requires
        same_entries(first, second),
    ensures
        collected(first, root, lines) is Ok <==> collected(second, root, lines) is Ok,
        collected(first, root, lines) is Ok ==> {
            &&& collected(first, root, lines)->Ok_0.to_multiset() == collected(
                second,
                root,
                lines,
            )->Ok_0.to_multiset()
            &&& distinct_siblings(collected(first, root, lines)->Ok_0)
            &&& distinct_siblings(collected(second, root, lines)->Ok_0)
        },
    decreases first, 0int,
{
    collected_by_entry(first, root, lines);
    collected_by_entry(second, root, lines);
    assert forall|i: int, j: int|
        0 <= i < first.len() && 0 <= j < second.len() && alike(
            #[trigger] first[i],
            #[trigger] second[j],
        ) implies (entry_outcome(first[i], root, lines) is Ok <==> entry_outcome(
        second[j],
        root,
        lines,
    ) is Ok) && (entry_outcome(first[i], root, lines) is Ok ==> entry_outcome(
        first[i],
        root,
        lines,
    ) == entry_outcome(second[j], root, lines)) by {
        alike_entries_give_the_same(first[i], second[j], root, lines);
    }
    if collected(first, root, lines) is Ok {
        assert forall|j: int| 0 <= j < second.len() implies entry_outcome(
            #[trigger] second[j],
            root,
            lines,
        ) is Ok by {
            let i = choose|i: int|
                0 <= i < first.len() && alike(#[trigger] first[i], #[trigger] second[j]);
            assert(entry_outcome(first[i], root, lines) is Ok);
        }
    }
    if collected(second, root, lines) is Ok {
        assert forall|i: int| 0 <= i < first.len() implies entry_outcome(
            #[trigger] first[i],
            root,
            lines,
        ) is Ok by {
            let j = choose|j: int|
                0 <= j < second.len() && alike(#[trigger] first[i], #[trigger] second[j]);
            assert(entry_outcome(second[j], root, lines) is Ok);
        }
    }
    if collected(first, root, lines) is Ok {
        let one = collected(first, root, lines)->Ok_0;
        let two = collected(second, root, lines)->Ok_0;
        collected_keeps_names_apart(first, root, lines);
        collected_keeps_names_apart(second, root, lines);
        different_names_different_nodes(one);
        different_names_different_nodes(two);
        assert forall|v: NodeModel| one.contains(v) <==> two.contains(v) by {
            if one.contains(v) {
                let i = choose|i: int|
                    0 <= i < first.len() && entry_outcome(#[trigger] first[i], root, lines) == Ok::<
                        Option<NodeModel>,
                        TreeErrorModel,
                    >(Some(v));
                let j = choose|j: int|
                    0 <= j < second.len() && alike(#[trigger] first[i], #[trigger] second[j]);
                assert(entry_outcome(second[j], root, lines) == Ok::<
                    Option<NodeModel>,
                    TreeErrorModel,
                >(Some(v)));
            }
            if two.contains(v) {
                let j = choose|j: int|
                    0 <= j < second.len() && entry_outcome(#[trigger] second[j], root, lines)
                        == Ok::<Option<NodeModel>, TreeErrorModel>(Some(v));
                let i = choose|i: int|
                    0 <= i < first.len() && alike(#[trigger] first[i], #[trigger] second[j]);
                assert(entry_outcome(first[i], root, lines) is Ok);
                assert(entry_outcome(first[i], root, lines) == Ok::<
                    Option<NodeModel>,
                    TreeErrorModel,
                >(Some(v)));
            }
        }
        same_members_same_multiset(one, two);
    }
}

/// Idempotence at every level: two readings of an unchanged directory, which
/// may list the entries of any directory at any depth in another order, give
/// the same tree, node for node and in the same order; or the tree fails for
/// both.
pub proof fn order_of_reading_is_irrelevant(
    path: Seq<char>,
    first: ListingModel,
    second: ListingModel,
    root: Seq<char>,
    lines: Seq<Seq<char>>,
)
    requires
        same_reading(first, second),
    ensures
        built_tree(path, first, root, lines) is Ok <==> built_tree(path, second, root, lines) is Ok,
        built_tree(path, first, root, lines) is Ok ==> built_tree(path, first, root, lines)
            == built_tree(path, second, root, lines),
    decreases first, 1int,
{
    match first {
        ListingModel::Entries(entries) => {
            let others = second->Entries_0;
            same_entries_give_the_same_nodes(entries, others, root, lines);
            if collected(entries, root, lines) is Ok {
                sorting_ignores_order_of_reading(
                    collected(entries, root, lines)->Ok_0,
                    collected(others, root, lines)->Ok_0,
                );
            }
        },
        _ => {},
    }
}

} // verus!
