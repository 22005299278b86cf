use std::path::Path;

use pylight::paths::{components_of, extension_of, file_name_of, is_python_file, path_is_absolute};

fn std_extension(p: &str) -> Option<String> {
    Path::new(p).extension().map(|e| e.to_string_lossy().into_owned())
}

fn std_file_name(p: &str) -> Option<String> {
    Path::new(p).file_name().map(|e| e.to_string_lossy().into_owned())
}

#[test]
fn file_names_and_extensions_agree_with_std() {
    let cases = [
        "main.py", "a/b/c.tar.gz", ".hidden", "dir/.bashrc", "dir.py/", "foo/.", "foo/..", "/", "", "a//b.py",
        "x.", "..", "./setup.py", "/abs/path/mod.pyi",
    ];
    for p in cases {
        assert_eq!(file_name_of(p), std_file_name(p), "file name of {:?}", p);
        assert_eq!(extension_of(p), std_extension(p), "extension of {:?}", p);
    }
}

#[test]
fn python_files_are_those_with_a_py_extension() {
    assert!(is_python_file("main.py"));
    assert!(is_python_file("/a/b.tar.py"));
    assert!(is_python_file("pkg.py/"));
    assert!(!is_python_file(".py"));
    assert!(!is_python_file("mod.pyi"));
    assert!(!is_python_file("README"));
    assert!(!is_python_file("a.PY"));
}

#[test]
fn components_and_absoluteness() {
    assert_eq!(components_of("/a//b/./c/../d/"), vec!["a", "b", "c", "d"]);
    assert_eq!(components_of("."), Vec::<String>::new());
    assert!(path_is_absolute("/x"));
    assert!(!path_is_absolute("x/y"));
    assert!(!path_is_absolute(""));
}
