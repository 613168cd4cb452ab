use os_path::OsPath;
use std::path::PathBuf;

#[test]
fn test_new() {
    let path = OsPath::new();
    assert_eq!(path.components.len(), 0);
    assert_eq!(path.absolute, false);
    assert_eq!(path.directory, false);
    assert_eq!(path.path, PathBuf::new());
}

#[test]
fn test_build_self() {
    let path = OsPath::build_self("/");
    assert_eq!(path.components.len(), 0);
    assert_eq!(path.absolute, true);
    assert_eq!(path.directory, true);
    assert_eq!(path.path, PathBuf::from("/"));

    let path = OsPath::build_self("/a/b/c");
    assert_eq!(path.components.len(), 3);
    assert_eq!(path.absolute, true);
    assert_eq!(path.directory, false);
    assert_eq!(path.path, PathBuf::from("/a/b/c"));

    let path = OsPath::build_self("/a/b/c/");
    assert_eq!(path.components.len(), 3);
    assert_eq!(path.absolute, true);
    assert_eq!(path.directory, true);
    assert_eq!(path.path, PathBuf::from("/a/b/c/"));

    let path = OsPath::build_self("a/b/c");
    assert_eq!(path.components.len(), 3);
    assert_eq!(path.absolute, false);
    assert_eq!(path.directory, false);
    assert_eq!(path.path, PathBuf::from("a/b/c"));

    let path = OsPath::build_self("a/b/c/../../../d");
    println!("{:?}", path);
    assert_eq!(path.components.len(), 7);
    assert_eq!(path.absolute, false);
    assert_eq!(path.directory, false);
    assert_eq!(path.path, PathBuf::from("a/b/c/../../../d"));
}

#[test]
fn test_impossible_path() {
    assert_eq!(
        OsPath::from("/\\///\\foo///bar\\\\baz.txt"),
        OsPath::from("/foo/bar/baz.txt")
    )
}

#[test]
fn test_absolute_path_resolution() {
    assert!(OsPath::from("/foo").is_absolute());
    assert!(OsPath::from("/foo/").is_absolute());
    assert!(!OsPath::from("foo/").is_absolute());
    assert!(!OsPath::from("foo/bar/").is_absolute());
}

#[test]
fn test_directory_resolution() {
    assert!(OsPath::from("/foo/").is_dir());
    assert!(OsPath::from("/foo").is_file());
    assert!(OsPath::from("/foo/bar.txt").is_file());
}

#[test]
fn test_traversal_resolution() {
    let mut path = OsPath::from("/foo/bar/baz/../../zip.txt");
    path.resolve();

    assert_eq!(path, OsPath::from("/foo/zip.txt"));
}

#[test]
fn test_directory_traversal() {
    assert_eq!(
        OsPath::from("/foo1/foo2/foo3/bar.txt").join("../baz/zip.txt"),
        OsPath::from("/foo1/foo2/foo3/baz/zip.txt")
    );

    assert_eq!(
        OsPath::from("/foo1/foo2/foo3/bar.txt").join("../../baz/zip.txt"),
        OsPath::from("/foo1/foo2/baz/zip.txt")
    );

    assert_eq!(
        OsPath::from("/foo1/foo2/foo3/").join("../zip.txt"),
        OsPath::from("/foo1/foo2/zip.txt")
    );
}

#[test]
fn test_false_root_protection() {
    assert_eq!(
        OsPath::from("/test/path/").join("/more/path/foo.txt"),
        OsPath::from("/test/path/more/path/foo.txt")
    );
}

#[test]
fn test_name() {
    let path = OsPath::from("/foo/bar/baz.txt");
    assert_eq!(path.name(), Some(&"baz.txt".to_string()));

    let path = OsPath::from("/foo/bar/");
    assert_eq!(path.name(), Some(&"bar".to_string()))
}

#[test]
fn test_parent() {
    let path = OsPath::from("/foo/bar/baz.txt");
    assert_eq!(path.parent(), Some(OsPath::from("/foo/bar/")));

    let path = OsPath::from("/foo/bar/");
    assert_eq!(path.parent(), Some(OsPath::from("/foo/")));
}

#[test]
fn test_some_edge_cases() {
    assert!(OsPath::from("/").is_dir());
    assert!(OsPath::from("/").is_absolute());
    assert!(OsPath::from("/").join("foo.txt").is_file());
    assert!(OsPath::from("/").join("foo.txt").is_absolute());
}
