use std::path::Path;

use pylight::{init_ignore_filter, should_ignore_dir, should_watch_path, IgnoreFilter};

/// The filter of a workspace whose `.gitignore` holds `gitignore`, if it has one.
fn filter_for(root: &Path, gitignore: Option<&str>) -> IgnoreFilter {
    IgnoreFilter::new(root.to_string_lossy().into_owned(), gitignore.map(|s| s.to_string()))
}

/// Makes the directory `name` in `dir`, and keeps it while the result lives.
fn make_dir(dir: &Path, name: &str) -> tempfile::TempDir {
    tempfile::Builder::new().prefix(name).rand_bytes(0).tempdir_in(dir).unwrap()
}

/// Whether the filter ignores `path`, asking the file system whether it is a directory.
fn ignores(filter: &IgnoreFilter, path: &Path) -> bool {
    filter.should_ignore(&path.to_string_lossy(), path.is_dir())
}

#[test]
fn test_vcs_dirs_always_ignored() {
    let temp_dir = tempfile::TempDir::new().unwrap();
    let filter = filter_for(temp_dir.path(), None);
    assert!(ignores(&filter, Path::new(".git")));
    assert!(ignores(&filter, Path::new(".hg")));
    assert!(ignores(&filter, Path::new(".svn")));
    assert!(ignores(&filter, Path::new("src/.git")));
}

#[test]
fn test_python_defaults_without_gitignore() {
    let temp_dir = tempfile::TempDir::new().unwrap();
    let filter = filter_for(temp_dir.path(), None);
    assert!(ignores(&filter, Path::new("__pycache__")));
    assert!(ignores(&filter, Path::new("venv")));
    assert!(ignores(&filter, Path::new(".venv")));
    assert!(ignores(&filter, Path::new("file.pyc")));
    assert!(ignores(&filter, Path::new("myproject.egg-info")));
    assert!(!ignores(&filter, Path::new("src")));
    assert!(!ignores(&filter, Path::new("main.py")));
}

#[test]
fn test_gitignore_overrides_defaults() {
    let temp_dir = tempfile::TempDir::new().unwrap();
    // The workspace's .gitignore holds these lines.
    let gitignore = "*.pyc\n.mypy_cache/\nmy_custom_dir/\n";
    let _dirs = [
        make_dir(temp_dir.path(), ".mypy_cache"),
        make_dir(temp_dir.path(), "my_custom_dir"),
        make_dir(temp_dir.path(), "__pycache__"),
        make_dir(temp_dir.path(), "venv"),
        make_dir(temp_dir.path(), ".git"),
    ];
    assert!(temp_dir.path().join("venv").is_dir());

    let filter = filter_for(temp_dir.path(), Some(gitignore));

    assert!(ignores(&filter, &temp_dir.path().join("test.pyc")));
    assert!(ignores(&filter, &temp_dir.path().join(".mypy_cache")));
    assert!(ignores(&filter, &temp_dir.path().join("my_custom_dir")));

    assert!(!ignores(&filter, &temp_dir.path().join("__pycache__")));
    assert!(!ignores(&filter, &temp_dir.path().join("venv")));

    assert!(ignores(&filter, &temp_dir.path().join(".git")));
}

#[test]
fn test_compatibility_functions() {
    let temp_dir = tempfile::TempDir::new().unwrap();
    let filter = init_ignore_filter(temp_dir.path().to_string_lossy().into_owned(), None);
    let current = Some(&filter);
    assert!(should_ignore_dir(current, ".git", Path::new(".git").is_dir()));
    assert!(should_ignore_dir(current, "__pycache__", Path::new("__pycache__").is_dir()));
    assert!(!should_watch_path(current, ".git", Path::new(".git").is_dir()));
    assert!(should_watch_path(current, "main.py", Path::new("main.py").is_dir()));
}

#[test]
fn without_a_filter_only_vcs_directories_are_ignored() {
    assert!(should_ignore_dir(None, "project/.git", true));
    assert!(!should_ignore_dir(None, "project/.git/objects", true));
    assert!(!should_ignore_dir(None, "__pycache__", true));
    assert!(should_watch_path(None, "main.py", false));
}

#[test]
fn files_under_an_ignored_directory_are_ignored() {
    let filter = IgnoreFilter::new("/work".to_string(), None);
    assert!(filter.should_ignore("/work/pkg/__pycache__/mod.cpython.pyc", false));
    assert!(filter.should_ignore("/work/build/lib/x.py", false));
    assert!(!filter.should_ignore("/work/pkg/mod.py", false));
    assert!(filter.should_watch("/work/pkg/mod.py", false));
}

#[test]
fn paths_outside_the_workspace_are_kept() {
    let filter = IgnoreFilter::new("/work".to_string(), None);
    assert!(!filter.should_ignore("/elsewhere/venv/x.py", false));
    assert!(filter.should_ignore("/elsewhere/.git/config", false));
}

#[test]
fn a_gitignore_with_a_bad_line_keeps_the_defaults() {
    // An unclosed alternation is not a valid glob.
    let filter = IgnoreFilter::new("/work".to_string(), Some("{a,b\nsecret/\n".to_string()));
    assert!(filter.should_ignore("secret", true));
    assert!(filter.should_ignore("venv", true));
}

#[test]
fn comments_and_crlf_lines_are_handled() {
    let filter = IgnoreFilter::new("/work".to_string(), Some("\u{feff}# comment\r\nlogs/\r\n".to_string()));
    assert!(filter.should_ignore("logs", true));
    assert!(!filter.should_ignore("venv", true));
}

#[test]
fn trailing_spaces_are_dropped_and_blank_lines_skipped() {
    let filter = IgnoreFilter::new("/work".to_string(), Some("out/   \n\n   \n*.tmp\t\n".to_string()));
    assert!(filter.should_ignore("out", true));
    assert!(filter.should_ignore("a.tmp", false));
    assert!(!filter.should_ignore("venv", true));
}

#[test]
fn a_root_with_a_leading_dot_slash_matches_like_the_plain_one() {
    let dotted = IgnoreFilter::new("./work".to_string(), Some("logs/\n".to_string()));
    let plain = IgnoreFilter::new("work".to_string(), Some("logs/\n".to_string()));
    for (path, is_dir) in [("logs", true), ("src/logs", true), ("main.py", false)] {
        assert_eq!(dotted.should_ignore(path, is_dir), plain.should_ignore(path, is_dir));
    }
    assert!(dotted.should_ignore("logs", true));
}
