use nimble::env::{EnvMap, ScriptEnv};
use nimble::lists::{list_from_file, parse_tsv_list, ListItem};
use nimble::paths::resolve_list_path;
use tempfile::TempDir;

/// Resolve and parse a list, given the list files that exist in the
/// command directory (name and content).
fn load_list(dir: &TempDir, files: &[(&str, &str)], list_ref: &str) -> Result<Vec<ListItem>, String> {
    let root = dir.path().to_str().unwrap().to_string();
    let ue = EnvMap::new();
    let env = ScriptEnv {
        context: "test-context",
        phrase: "test phrase",
        config_dir: &root,
        commands_root: &root,
        command_dir: &root,
        user_env: &ue,
        shared_dir: "shared",
        debug: false,
    };
    let path = resolve_list_path(list_ref, &root, &env)?;
    let read = files
        .iter()
        .find(|(name, _)| dir.path().join(format!("{name}.tsv")).to_str().unwrap() == path)
        .map(|(_, content)| content.to_string())
        .ok_or_else(|| "No such file or directory (os error 2)".to_string());
    list_from_file(&path, read)
}

#[test]
fn load_list_returns_items() {
    let dir = TempDir::new().unwrap();
    let items = load_list(&dir, &[("emails", "Alice\talice@example.com\nBob\tbob@example.com\n")], "emails").unwrap();
    assert_eq!(items.len(), 2);
    assert_eq!(items[0].title, "Alice");
    assert_eq!(items[0].subtext.as_deref(), Some("alice@example.com"));
    assert_eq!(items[1].title, "Bob");
}

#[test]
fn load_list_item_without_subtext() {
    let dir = TempDir::new().unwrap();
    let items = load_list(&dir, &[("names", "Alice\nBob\n")], "names").unwrap();
    assert_eq!(items.len(), 2);
    assert!(items[0].subtext.is_none());
}

#[test]
fn load_list_skips_comments_and_blank_lines() {
    let dir = TempDir::new().unwrap();
    let items = load_list(&dir, &[("mixed", "# Header comment\nAlice\talice@example.com\n\n# Another comment\nBob\tbob@example.com\n")], "mixed").unwrap();
    assert_eq!(items.len(), 2);
    assert_eq!(items[0].title, "Alice");
    assert_eq!(items[1].title, "Bob");
}

#[test]
fn load_list_title_with_comma_works() {
    let dir = TempDir::new().unwrap();
    let items = load_list(&dir, &[("commas", "Smith, Alice\talice@example.com\n")], "commas").unwrap();
    assert_eq!(items[0].title, "Smith, Alice");
    assert_eq!(items[0].subtext.as_deref(), Some("alice@example.com"));
}

#[test]
fn load_list_missing_file_returns_err() {
    let dir = TempDir::new().unwrap();
    assert!(load_list(&dir, &[], "nonexistent").is_err());
}

#[test]
fn load_list_rejects_path_traversal_dotdot() {
    let dir = TempDir::new().unwrap();
    assert!(load_list(&dir, &[], "../secret").is_err());
}

#[test]
fn load_list_rejects_path_with_slash() {
    let dir = TempDir::new().unwrap();
    assert!(load_list(&dir, &[], "sub/file").is_err());
}

#[test]
fn load_list_empty_file_returns_empty_vec() {
    let dir = TempDir::new().unwrap();
    let items = load_list(&dir, &[("empty", "")], "empty").unwrap();
    assert!(items.is_empty());
}

#[test]
fn load_list_only_comments_returns_empty_vec() {
    let dir = TempDir::new().unwrap();
    let items = load_list(&dir, &[("comments", "# just a comment\n# another comment\n")], "comments").unwrap();
    assert!(items.is_empty());
}

#[test]
fn load_list_tab_only_lines_are_skipped() {
    let dir = TempDir::new().unwrap();
    let items = load_list(&dir, &[("tabs", "\t\n\t\t\nAlice\talice@example.com\n")], "tabs").unwrap();
    assert_eq!(items.len(), 1);
    assert_eq!(items[0].title, "Alice");
}

#[test]
fn read_failure_message_names_the_list() {
    let r = list_from_file("/x/team.tsv", Err("No such file".to_string()));
    assert_eq!(r.unwrap_err(), "Could not read list \"/x/team.tsv\": No such file");
}

#[test]
fn parse_tsv_trims_fields_and_handles_crlf() {
    let items = parse_tsv_list("  Alice \t alice@x \r\nBob\t\r\n  # note\nCarol\tc\td\n").unwrap();
    assert_eq!(items.len(), 3);
    assert_eq!(items[0].title, "Alice");
    assert_eq!(items[0].subtext.as_deref(), Some("alice@x"));
    assert_eq!(items[1].title, "Bob");
    assert!(items[1].subtext.is_none());
    assert_eq!(items[2].title, "Carol");
    assert_eq!(items[2].subtext.as_deref(), Some("c\td"));
}
