use vstd::prelude::*;
use vstd::string::StringExecFns;

verus! {

/// The version of the settings record that this library writes.
pub const SETTINGS_SCHEMA_VERSION: u32 = 1;

/// The version of the application that writes the settings.
pub const APP_VERSION: &'static str = "0.1.0";

/// The tree option with which the settings start.
pub const DEFAULT_TREE_OPTION: &'static str = "include";

/// The settings that the application persists.
#[derive(Debug)]
pub struct ApplicationSettings {
    pub schema_version: u32,
    pub app_version: String,
    pub tree_option: String,
}

impl Clone for ApplicationSettings {
    fn clone(&self) -> (copy: Self)
        ensures
            copy == *self,
    {
        ApplicationSettings {
            schema_version: self.schema_version,
            app_version: self.app_version.clone(),
            tree_option: self.tree_option.clone(),
        }
    }
}

impl Default for ApplicationSettings {
    fn default() -> (settings: Self)
        ensures
            settings.schema_version == SETTINGS_SCHEMA_VERSION,
            settings.app_version@ == APP_VERSION@,
            settings.tree_option@ == DEFAULT_TREE_OPTION@,
    {
        ApplicationSettings {
            schema_version: SETTINGS_SCHEMA_VERSION,
            app_version: String::from_str(APP_VERSION),
            tree_option: String::from_str(DEFAULT_TREE_OPTION),
        }
    }
}

/// How the tree is to appear in what is copied out.
#[derive(Debug, Clone, Copy, PartialEq, Eq, Structural)]
pub enum TreeOption {
    /// The whole tree.
    Include,
    /// Only the selected files and the directories that hold them.
    IncludeOnlySelected,
    /// No tree.
    DoNotInclude,
}

/// The meaning of a tree option's name, if it has one.
pub open spec fn tree_option_named(name: Seq<char>) -> Option<TreeOption> {
    if name == "include"@ {
        Some(TreeOption::Include)
    } else if name == "include-only-selected"@ {
        Some(TreeOption::IncludeOnlySelected)
    } else if name == "do-not-include"@ {
        Some(TreeOption::DoNotInclude)
    } else {
        None
    }
}

/// Reads a tree option's name; any name but the three known ones gives none.
pub fn parse_tree_option(name: &str) -> (option: Option<TreeOption>)
    ensures
        option == tree_option_named(name@),
{
    if str_equal(name, "include") {
        Some(TreeOption::Include)
    } else if str_equal(name, "include-only-selected") {
        Some(TreeOption::IncludeOnlySelected)
    } else if str_equal(name, "do-not-include") {
        Some(TreeOption::DoNotInclude)
    } else {
        None
    }
}

/// Whether two strings hold the same characters.
pub fn str_equal(a: &str, b: &str) -> (same: bool)
    ensures
        same == (a@ == b@),
{
    let left = String::from_str(a);
    let right = String::from_str(b);
    left == right
}

} // verus!
