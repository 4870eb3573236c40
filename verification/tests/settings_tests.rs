use reposnap::api_error::ApiError;
use reposnap::settings::{parse_tree_option, str_equal, ApplicationSettings, TreeOption};

#[test]
fn default_settings() {
    let settings = ApplicationSettings::default();
    assert_eq!(settings.schema_version, 1);
    assert_eq!(settings.tree_option, "include");
    assert!(!settings.app_version.is_empty());
    let copy = settings.clone();
    assert_eq!(copy.tree_option, settings.tree_option);
    assert_eq!(copy.app_version, settings.app_version);
}

#[test]
fn tree_options_by_name() {
    assert_eq!(parse_tree_option("include"), Some(TreeOption::Include));
    assert_eq!(parse_tree_option("include-only-selected"), Some(TreeOption::IncludeOnlySelected));
    assert_eq!(parse_tree_option("do-not-include"), Some(TreeOption::DoNotInclude));
    assert_eq!(parse_tree_option("Include"), None);
    assert_eq!(parse_tree_option(""), None);
}

#[test]
fn strings_are_equal_by_their_characters() {
    assert!(str_equal("abc", "abc"));
    assert!(!str_equal("abc", "abd"));
    assert!(!str_equal("abc", "ab"));
}

#[test]
fn api_error_keeps_code_and_message() {
    let error = ApiError::new("file_tree_error", "no such directory");
    assert_eq!(error.code(), "file_tree_error");
    assert_eq!(error.message(), "no such directory");
}
