use crate::ignore_rules::{ignore_verdict, IgnoreRules};
use crate::tree_node::{forest_model, forest_model_push, FileTreeNode, NodeModel};
use crate::tree_sort::{sort_nodes, sorted_nodes};
use vstd::prelude::*;

verus! {

/// What was seen of one entry of a directory.
#[derive(Debug)]
pub struct ScannedEntry {
    /// The last component of the path.
    pub name: String,
    /// The full path.
    pub path: String,
    /// The path relative to the directory that the ignore rules are for.
    pub relative_path: String,
    /// Whether the path leads to a directory; the hint given to the rules.
    pub directory_hint: bool,
    /// Whether the entry itself is a directory.
    pub is_directory: bool,
    /// The modification time in seconds, where it could be read.
    pub last_modified: Option<u64>,
    /// What the entry holds, if it is a directory that was read.
    pub listing: Listing,
}

/// What reading a directory gave.
#[derive(Debug)]
pub enum Listing {
    /// The directory was not read.
    Unread,
    /// The directory could not be read; the message says why.
    Failed(String),
    /// The entries of the directory, in the order in which they were read.
    Entries(Vec<ScannedEntry>),
    /// The entries that were read before an entry could not be read, and why
    /// that entry could not be read.
    Interrupted(Vec<ScannedEntry>, String),
}

/// The mathematical value of a [`ScannedEntry`].
pub struct ScanModel {
    pub name: Seq<char>,
    pub path: Seq<char>,
    pub relative_path: Seq<char>,
    pub directory_hint: bool,
    pub is_directory: bool,
    pub last_modified: Option<u64>,
    pub listing: ListingModel,
}

/// The mathematical value of a [`Listing`].
pub enum ListingModel {
    Unread,
    Failed(Seq<char>),
    Entries(Seq<ScanModel>),
    Interrupted(Seq<ScanModel>, Seq<char>),
}

/// The model of one scanned entry.
pub open spec fn scan_model(entry: ScannedEntry) -> ScanModel
    decreases entry, 2int,
{
    ScanModel {
        name: entry.name@,
        path: entry.path@,
        relative_path: entry.relative_path@,
        directory_hint: entry.directory_hint,
        is_directory: entry.is_directory,
        last_modified: entry.last_modified,
        listing: listing_model(entry.listing),
    }
}

/// The model of a listing.
pub open spec fn listing_model(listing: Listing) -> ListingModel
    decreases listing, 1int,
{
    match listing {
        Listing::Unread => ListingModel::Unread,
        Listing::Failed(message) => ListingModel::Failed(message@),
        Listing::Entries(entries) => ListingModel::Entries(scan_models(entries@)),
        Listing::Interrupted(entries, message) => ListingModel::Interrupted(
            scan_models(entries@),
            message@,
        ),
    }
}

/// The models of a sequence of scanned entries, in order.
pub open spec fn scan_models(entries: Seq<ScannedEntry>) -> Seq<ScanModel>
    decreases entries, 0int,
{
    if entries.len() == 0 {
        Seq::empty()
    } else {
        scan_models(entries.drop_last()).push(scan_model(entries.last()))
    }
}

impl View for ScannedEntry {
    type V = ScanModel;

    open spec fn view(&self) -> ScanModel {
        scan_model(*self)
    }
}

impl View for Listing {
    type V = ListingModel;

    open spec fn view(&self) -> ListingModel {
        listing_model(*self)
    }
}

/// The models of scanned entries stand at the places of the entries.
pub proof fn scan_models_index(entries: Seq<ScannedEntry>)
    ensures
        scan_models(entries).len() == entries.len(),
        forall|i: int|
            0 <= i < entries.len() ==> #[trigger] scan_models(entries)[i] == scan_model(entries[i]),
    decreases entries.len(),
{
    if entries.len() > 0 {
        scan_models_index(entries.drop_last());
    }
}

/// Why no tree could be built.
#[derive(Debug)]
pub enum TreeError {
    /// The directory at this path, or an entry of it, could not be read; the
    /// message says why.
    ReadFailed(String, String),
    /// The directory at this path belongs to the tree and was not read.
    NotRead(String),
    /// The path at which a tree was asked for is not an existing directory.
    NotADirectory(String),
}

/// The mathematical value of a [`TreeError`].
pub enum TreeErrorModel {
    ReadFailed(Seq<char>, Seq<char>),
    NotRead(Seq<char>),
    NotADirectory(Seq<char>),
}

impl View for TreeError {
    type V = TreeErrorModel;

    open spec fn view(&self) -> TreeErrorModel {
        match *self {
            TreeError::ReadFailed(path, message) => TreeErrorModel::ReadFailed(path@, message@),
            TreeError::NotRead(path) => TreeErrorModel::NotRead(path@),
            TreeError::NotADirectory(path) => TreeErrorModel::NotADirectory(path@),
        }
    }
}

/// The model of a tree that may have failed to be built.
pub open spec fn tree_model(built: Result<Vec<FileTreeNode>, TreeError>) -> Result<
    Seq<NodeModel>,
    TreeErrorModel,
> {
    match built {
        Ok(nodes) => Ok(forest_model(nodes@)),
        Err(error) => Err(error@),
    }
}

/// Whether the rules let an entry into the tree.
pub open spec fn visible(entry: ScanModel, root: Seq<char>, lines: Seq<Seq<char>>) -> bool {
    !ignore_verdict(root, lines, entry.relative_path, entry.directory_hint)
}

/// The node of a file.
pub open spec fn file_node(entry: ScanModel) -> NodeModel {
    NodeModel {
        name: entry.name,
        path: entry.path,
        children: None,
        is_directory: false,
        token_count: None,
        last_modified: entry.last_modified,
    }
}

/// The node of a directory with these children.
pub open spec fn directory_node(entry: ScanModel, children: Seq<NodeModel>) -> NodeModel {
    NodeModel {
        name: entry.name,
        path: entry.path,
        children: Some(children),
        is_directory: true,
        token_count: None,
        last_modified: entry.last_modified,
    }
}

/// The nodes of the entries of one directory, in the order of the entries: an
/// entry that the rules exclude gives none, nor does a directory whose own tree
/// is empty; the first directory that cannot be built fails the whole.
pub open spec fn collected(entries: Seq<ScanModel>, root: Seq<char>, lines: Seq<Seq<char>>) -> Result<
    Seq<NodeModel>,
    TreeErrorModel,
>
    decreases entries, 0int,
{
    if entries.len() == 0 {
        Ok(Seq::empty())
    } else {
        match collected(entries.drop_last(), root, lines) {
            Err(error) => Err(error),
            Ok(before) => {
                let entry = entries.last();
                if !visible(entry, root, lines) {
                    Ok(before)
                } else if !entry.is_directory {
                    Ok(before.push(file_node(entry)))
                } else {
                    match built_tree(entry.path, entry.listing, root, lines) {
                        Err(error) => Err(error),
                        Ok(children) => if children.len() == 0 {
                            Ok(before)
                        } else {
                            Ok(before.push(directory_node(entry, children)))
                        },
                    }
                }
            },
        }
    }
}

/// The tree below the directory at `path` with this listing: the nodes of its
/// entries in the order of siblings. A directory that could not be read, or
/// was not read, or of which an entry could not be read, has no tree.
pub open spec fn built_tree(
    path: Seq<char>,
    listing: ListingModel,
    root: Seq<char>,
    lines: Seq<Seq<char>>,
) -> Result<Seq<NodeModel>, TreeErrorModel>
    decreases listing, 1int,
{
    match listing {
        ListingModel::Unread => Err(TreeErrorModel::NotRead(path)),
        ListingModel::Failed(message) => Err(TreeErrorModel::ReadFailed(path, message)),
        ListingModel::Entries(entries) => match collected(entries, root, lines) {
            Ok(nodes) => Ok(sorted_nodes(nodes)),
            Err(error) => Err(error),
        },
        ListingModel::Interrupted(entries, message) => match collected(entries, root, lines) {
            Ok(_) => Err(TreeErrorModel::ReadFailed(path, message)),
            Err(error) => Err(error),
        },
    }
}

/// Whether the directory behind an entry has to be read for the tree: it has
/// if the entry is a directory that the rules let in.
pub fn descends(entry: &ScannedEntry, rules: &IgnoreRules) -> (wanted: bool)
    ensures
        wanted == (entry@.is_directory && visible(entry@, rules.root(), rules.lines())),
{
    entry.is_directory && !rules.is_ignored(entry.relative_path.as_str(), entry.directory_hint)
}

/// The node that an entry gets: none for an entry that the rules exclude and
/// for a directory with nothing left in it, else the node of the file or of the
/// directory with these children.
pub open spec fn placed(entry: ScanModel, excluded: bool, children: Seq<NodeModel>) -> Option<
    NodeModel,
> {
    if excluded {
        None
    } else if !entry.is_directory {
        Some(file_node(entry))
    } else if children.len() == 0 {
        None
    } else {
        Some(directory_node(entry, children))
    }
}

/// Makes the node of an entry, if it gets one, from the verdict of the rules
/// and from the tree that was built below it.
pub fn entry_node(entry: &ScannedEntry, excluded: bool, children: Vec<FileTreeNode>) -> (node: Option<
    FileTreeNode,
>)
    ensures
        match node {
            Some(made) => placed(entry@, excluded, forest_model(children@)) == Some(made@),
            None => placed(entry@, excluded, forest_model(children@)) is None,
        },
{
    if excluded {
        None
    } else if !entry.is_directory {
        Some(
            FileTreeNode {
                name: entry.name.clone(),
                path: entry.path.clone(),
                children: None,
                is_directory: false,
                token_count: None,
                last_modified: entry.last_modified,
            },
        )
    } else if children.len() == 0 {
        None
    } else {
        Some(
            FileTreeNode {
                name: entry.name.clone(),
                path: entry.path.clone(),
                children: Some(children),
                is_directory: true,
                token_count: None,
                last_modified: entry.last_modified,
            },
        )
    }
}

fn collect_nodes(entries: &Vec<ScannedEntry>, rules: &IgnoreRules) -> (built: Result<
    Vec<FileTreeNode>,
    TreeError,
>)
    ensures
        tree_model(built) == collected(scan_models(entries@), rules.root(), rules.lines()),
    decreases entries, 0int,
{
    let ghost all = scan_models(entries@);
    let ghost root = rules.root();
    let ghost lines = rules.lines();
    proof {
        scan_models_index(entries@);
    }
    let mut nodes: Vec<FileTreeNode> = Vec::new();
    let mut i: usize = 0;
    while i < entries.len()
        invariant
            i <= entries.len(),
            all == scan_models(entries@),
            all.len() == entries.len(),
            forall|k: int| 0 <= k < entries.len() ==> #[trigger] all[k] == entries@[k]@,
            root == rules.root(),
            lines == rules.lines(),
            collected(all.take(i as int), root, lines) == Ok::<Seq<NodeModel>, TreeErrorModel>(
                forest_model(nodes@),
            ),
        decreases entries.len() - i,
    {
        let entry = &entries[i];
        proof {
            assert(all.take(i + 1).drop_last() =~= all.take(i as int));
            assert(all.take(i + 1).last() == entry@);
        }
        let excluded = rules.is_ignored(entry.relative_path.as_str(), entry.directory_hint);
        let children = if !excluded && entry.is_directory {
            match build_tree_sync(entry.path.as_str(), &entry.listing, rules) {
                Ok(children) => children,
                Err(error) => {
                    proof {
                        failure_stays(all, i as int, root, lines);
                    }
                    return Err(error);
                },
            }
        } else {
            Vec::new()
        };
        match entry_node(entry, excluded, children) {
            Some(node) => {
                proof {
                    forest_model_push(nodes@, node);
                }
                nodes.push(node);
            },
            None => {},
        }
        i += 1;
    }
    assert(all.take(entries.len() as int) =~= all);
    Ok(nodes)
}

/// Once the first entries of a directory fail, the directory fails in the same
/// way, whatever entries follow.
proof fn failure_stays(entries: Seq<ScanModel>, count: int, root: Seq<char>, lines: Seq<Seq<char>>)
    requires
        0 <= count < entries.len(),
        collected(entries.take(count + 1), root, lines) is Err,
    ensures
        collected(entries, root, lines) == collected(entries.take(count + 1), root, lines),
    decreases entries.len(),
{
    if count + 1 == entries.len() {
        assert(entries.take(count + 1) =~= entries);
    } else {
        let front = entries.drop_last();
        assert(front.take(count + 1) =~= entries.take(count + 1));
        failure_stays(front, count, root, lines);
    }
}

/// Builds the tree below the directory at `path` from what was read of it:
/// entries that the rules exclude are left out with all below them, directories
/// are built before they are added and left out if nothing is left in them,
/// and the nodes of each directory stand in the order of siblings. A directory
/// of the tree that could not be read, or of which an entry could not be
/// read, fails the whole: nothing is left out in silence.
pub fn build_tree_sync(path: &str, listing: &Listing, rules: &IgnoreRules) -> (built: Result<
    Vec<FileTreeNode>,
    TreeError,
>)
    ensures
        tree_model(built) == built_tree(path@, listing@, rules.root(), rules.lines()),
    decreases listing, 1int,
{
    match listing {
        Listing::Unread => Err(TreeError::NotRead(path.to_owned())),
        Listing::Failed(message) => Err(TreeError::ReadFailed(path.to_owned(), message.clone())),
        Listing::Entries(entries) => match collect_nodes(entries, rules) {
            Ok(nodes) => Ok(sort_nodes(nodes)),
            Err(error) => Err(error),
        },
        Listing::Interrupted(entries, message) => match collect_nodes(entries, rules) {
            Ok(_) => Err(TreeError::ReadFailed(path.to_owned(), message.clone())),
            Err(error) => Err(error),
        },
    }
}

/// The tree of the directory at `dir_path`: none where that is no directory,
/// else the tree that is built from what was read of it.
pub open spec fn requested_tree(
    dir_path: Seq<char>,
    is_directory: bool,
    listing: ListingModel,
    root: Seq<char>,
    lines: Seq<Seq<char>>,
) -> Result<Seq<NodeModel>, TreeErrorModel> {
    if !is_directory {
        Err(TreeErrorModel::NotADirectory(dir_path))
    } else {
        built_tree(dir_path, listing, root, lines)
    }
}

/// Answers a request for the tree of `dir_path`: an error where the path is not
/// an existing directory, else the tree built from what was read of it.
pub fn get_file_tree(dir_path: &str, is_directory: bool, listing: &Listing, rules: &IgnoreRules) -> (built:
    Result<Vec<FileTreeNode>, TreeError>)
    ensures
        tree_model(built) == requested_tree(
            dir_path@,
            is_directory,
            listing@,
            rules.root(),
            rules.lines(),
        ),
{
    if !is_directory {
        Err(TreeError::NotADirectory(dir_path.to_owned()))
    } else {
        build_tree_sync(dir_path, listing, rules)
    }
}

} // verus!
