use moosereader::paths::{bookmarks_file, config_file, xdg_dir};

fn some(s: &str) -> Option<String> {
    Some(s.to_string())
}

#[test]
fn xdg_variables_win_when_absolute() {
    let home = some("/home/reader");
    let dir = |value: Option<&str>| xdg_dir(value.map(|v| v.to_string()), home.clone(), ".config");
    assert_eq!(dir(Some("/custom")), some("/custom"));
    // The spec says relative values are invalid and must be ignored
    assert_eq!(dir(Some("relative/dir")), some("/home/reader/.config"));
    assert_eq!(dir(None), some("/home/reader/.config"));
    assert_eq!(xdg_dir(None, None, ".config"), None);
}

#[test]
fn tests_never_see_the_real_files() {
    // Under test the base directories point into the crate's
    // target/test-files folder, next to CARGO_MANIFEST_DIR's sources
    let root = "/build/moosereader/target/test-files";
    let dir = format!("{root}/main");
    assert!(config_file(Some(format!("{dir}/XDG_CONFIG_HOME")), some("/home/reader")).starts_with(root));
    assert!(bookmarks_file(Some(format!("{dir}/XDG_STATE_HOME")), some("/home/reader")).starts_with(root));
}

#[test]
fn settings_and_bookmarks_have_their_places() {
    assert_eq!(config_file(None, some("/home/reader")), "/home/reader/.config/moosereader/config.json");
    assert_eq!(
        bookmarks_file(None, some("/home/reader/")),
        "/home/reader/.local/state/moosereader/bookmarks.json"
    );
    assert_eq!(config_file(some("/x/"), None), "/x/moosereader/config.json");
    // Without a home the files of earlier versions in the working directory are used
    assert_eq!(config_file(None, None), "reader_config.json");
    assert_eq!(bookmarks_file(some("rel"), None), "bookmarks.json");
}
