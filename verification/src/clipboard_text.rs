use crate::settings::TreeOption;
use crate::tree_filter::{filter_tree_to_selected, pruned_forest};
use crate::sequences::string_set;
use crate::tree_node::{forest_model, FileTreeNode, NodeModel};
use crate::tree_text::{generate_file_tree_text, tree_text};
use vstd::prelude::*;
use vstd::string::{StrSliceExecFns, StringExecFns};

verus! {

/// What was read of a selected file.
#[derive(Debug)]
pub enum FileBody {
    /// The file is likely binary; its content is not shown.
    Binary,
    /// The file's text.
    Text(String),
    /// The file could not be read as text.
    Unreadable,
}

/// A selected file: its path as it was selected, the extension of its name
/// (empty where it has none), and what was read of it.
#[derive(Debug)]
pub struct SelectedFile {
    pub path: String,
    pub extension: String,
    pub body: FileBody,
}

/// The mathematical value of a [`FileBody`].
pub enum BodyModel {
    Binary,
    Text(Seq<char>),
    Unreadable,
}

/// The mathematical value of a [`SelectedFile`].
pub struct SelectedModel {
    pub path: Seq<char>,
    pub extension: Seq<char>,
    pub body: BodyModel,
}

impl View for SelectedFile {
    type V = SelectedModel;

    open spec fn view(&self) -> SelectedModel {
        SelectedModel {
            path: self.path@,
            extension: self.extension@,
            body: match self.body {
                FileBody::Binary => BodyModel::Binary,
                FileBody::Text(text) => BodyModel::Text(text@),
                FileBody::Unreadable => BodyModel::Unreadable,
            },
        }
    }
}

/// The models of a sequence of selected files, in order.
pub open spec fn selected_models(files: Seq<SelectedFile>) -> Seq<SelectedModel> {
    Seq::new(files.len(), |i: int| files[i]@)
}

/// A file's text as it stands in a block: with a line break at its end.
pub open spec fn closed_text(text: Seq<char>) -> Seq<char> {
    if text.len() > 0 && text.last() == '\n' {
        text
    } else {
        text + "\n"@
    }
}

/// What stands inside the fence of a file's block.
pub open spec fn body_text(body: BodyModel) -> Seq<char> {
    match body {
        BodyModel::Binary => "[Binary file]\n"@,
        BodyModel::Text(text) => closed_text(text),
        BodyModel::Unreadable => "[Could not read content]\n"@,
    }
}

/// The block of one file: a line naming it, then its content in a fence that
/// is marked with the extension, then an empty line.
pub open spec fn file_block(file: SelectedModel) -> Seq<char> {
    "File: "@ + file.path + "\n"@ + "```"@ + file.extension + "\n"@ + body_text(file.body)
        + "```\n\n"@
}

/// The blocks of the files, in order.
pub open spec fn file_blocks(files: Seq<SelectedModel>) -> Seq<char>
    decreases files.len(),
{
    if files.len() == 0 {
        Seq::empty()
    } else {
        file_blocks(files.drop_last()) + file_block(files.last())
    }
}

/// The contents of the selected files as one text.
pub open spec fn contents_text(files: Seq<SelectedModel>) -> Seq<char> {
    "<file_contents>\n"@ + file_blocks(files) + "</file_contents>"@
}

/// Whether a text ends with a line break.
fn ends_with_newline(text: &str) -> (ends: bool)
    ensures
        ends == (text@.len() > 0 && text@.last() == '\n'),
{
    let length = text.unicode_len();
    if length == 0 {
        false
    } else {
        text.get_char(length - 1) == '\n'
    }
}

/// Writes the contents of the selected files as one text, a block for each
/// file in the order of the files.
pub fn build_file_content_string(files: &Vec<SelectedFile>) -> (out: String)
    ensures
        out@ == contents_text(selected_models(files@)),
{
    let ghost models = selected_models(files@);
    let mut output = String::from_str("<file_contents>\n");
    let mut i: usize = 0;
    while i < files.len()
        invariant
            i <= files.len(),
            models == selected_models(files@),
            output@ == "<file_contents>\n"@ + file_blocks(models.take(i as int)),
        decreases files.len() - i,
    {
        let file = &files[i];
        let ghost before = output@;
        proof {
            assert(models.take(i + 1).drop_last() =~= models.take(i as int));
            assert(models.take(i + 1).last() == file@);
        }
        output.append("File: ");
        output.append(file.path.as_str());
        output.append("\n");
        output.append("```");
        output.append(file.extension.as_str());
        output.append("\n");
        match &file.body {
            FileBody::Binary => {
                output.append("[Binary file]\n");
            },
            FileBody::Text(text) => {
                output.append(text.as_str());
                if !ends_with_newline(text.as_str()) {
                    output.append("\n");
                }
            },
            FileBody::Unreadable => {
                output.append("[Could not read content]\n");
            },
        }
        output.append("```\n\n");
        proof {
            assert(output@ =~= before + file_block(file@));
            assert(output@ =~= "<file_contents>\n"@ + file_blocks(models.take(i + 1)));
        }
        i += 1;
    }
    assert(models.take(files.len() as int) =~= models);
    output.append("</file_contents>");
    output
}

/// The part of the copied text that shows the tree.
pub open spec fn map_text(
    option: TreeOption,
    dir_path: Seq<char>,
    tree: Seq<NodeModel>,
    selected: Set<Seq<char>>,
) -> Seq<char> {
    match option {
        TreeOption::Include => "<file_map>\n"@ + tree_text(dir_path, tree) + "</file_map>\n\n"@,
        TreeOption::IncludeOnlySelected => "<file_map>\n"@ + tree_text(
            dir_path,
            pruned_forest(tree, selected),
        ) + "</file_map>\n\n"@,
        TreeOption::DoNotInclude => Seq::empty(),
    }
}

/// The text that is copied out: the tree as the option asks for it (whole,
/// reduced to the selected files, or not at all), then the contents of the
/// selected files.
pub fn clipboard_text(
    option: TreeOption,
    dir_path: &str,
    tree: Vec<FileTreeNode>,
    selected_paths: &[String],
    files: &Vec<SelectedFile>,
) -> (out: String)
    ensures
        out@ == map_text(option, dir_path@, forest_model(tree@), string_set(selected_paths@))
            + contents_text(selected_models(files@)),
{
    let ghost given = forest_model(tree@);
    let mut tree = tree;
    let mut output = String::new();
    match option {
        TreeOption::Include => {
            output.append("<file_map>\n");
            let drawing = generate_file_tree_text(dir_path, tree.as_slice());
            output.append(drawing.as_str());
            output.append("</file_map>\n\n");
        },
        TreeOption::IncludeOnlySelected => {
            filter_tree_to_selected(&mut tree, selected_paths);
            output.append("<file_map>\n");
            let drawing = generate_file_tree_text(dir_path, tree.as_slice());
            output.append(drawing.as_str());
            output.append("</file_map>\n\n");
        },
        TreeOption::DoNotInclude => {},
    }
    let contents = build_file_content_string(files);
    output.append(contents.as_str());
    assert(output@ =~= map_text(
        option,
        dir_path@,
        given,
        string_set(selected_paths@),
    ) + contents_text(selected_models(files@)));
    output
}

} // verus!
