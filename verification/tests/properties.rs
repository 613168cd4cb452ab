use os_path::OsPath;

#[test]
fn resolve_is_idempotent() {
    let mut once = OsPath::from("/foo/bar/../baz/../../qux/file.txt");
    once.resolve();
    let mut twice = once.clone();
    twice.resolve();
    assert_eq!(once, twice);
    assert_eq!(once, OsPath::from("/qux/file.txt"));
}

#[test]
fn separator_styles_parse_alike() {
    assert_eq!(OsPath::from("a\\b///c"), OsPath::from("a/b/c"));
    assert_eq!(OsPath::from("\\foo\\bar\\"), OsPath::from("/foo/bar/"));
}

#[test]
fn false_root_keeps_base_segments() {
    assert_eq!(
        OsPath::from("/foo/bar").join("/baz.txt"),
        OsPath::from("/foo/bar/baz.txt")
    );
}

#[test]
fn leading_traversal_discards_file_name() {
    assert_eq!(
        OsPath::from("/foo/bar/baz.txt").join("../pow.txt"),
        OsPath::from("/foo/bar/pow.txt")
    );
}

#[test]
fn multi_level_traversal_on_join() {
    assert_eq!(
        OsPath::from("/foo/bar/baz/").join("../../pow.txt"),
        OsPath::from("/foo/pow.txt")
    );
}

#[test]
fn resolve_collapses_embedded_traversal() {
    let mut path = OsPath::from("/foo/bar/baz/../../zip.txt");
    path.resolve();
    assert_eq!(path, OsPath::from("/foo/zip.txt"));
}

#[test]
fn display_then_parse_round_trips() {
    let file = OsPath::from("/foo/bar/baz.txt");
    assert_eq!(OsPath::from(file.build_string().as_str()), file);

    let dir = OsPath::from("/foo/bar/");
    assert_eq!(OsPath::from(dir.build_string().as_str()), dir);

    let relative = OsPath::from("a/b");
    assert_eq!(OsPath::from(relative.build_string().as_str()), relative);

    let empty = OsPath::new();
    assert_eq!(OsPath::from(empty.build_string().as_str()), empty);

    let root = OsPath::from("/");
    assert_eq!(OsPath::from(root.build_string().as_str()), root);
}

#[test]
fn build_string_renders_canonically() {
    assert_eq!(OsPath::from("/a/b/").build_string(), "/a/b/");
    assert_eq!(OsPath::from("\\a\\b").build_string(), "/a/b");
    assert_eq!(OsPath::from("a/b").build_string(), "a/b");
    assert_eq!(OsPath::from("").build_string(), "");
    assert_eq!(OsPath::from("/").build_string(), "//");
}

#[test]
fn directory_classification() {
    assert!(OsPath::from("x/").is_dir());
    assert!(OsPath::from("x\\").is_dir());
    assert!(OsPath::from("x/..").is_dir());
    assert!(OsPath::from("x").is_file());
    assert!(OsPath::from("x.txt").is_file());
}

#[test]
fn joining_onto_identity_yields_addition() {
    assert_eq!(
        OsPath::new().join("/abs/file.txt"),
        OsPath::from("/abs/file.txt")
    );
    assert_eq!(OsPath::new().join("rel/file.txt"), OsPath::from("rel/file.txt"));
    assert_eq!(OsPath::new().join(""), OsPath::new());
}

#[test]
fn push_matches_join() {
    let base = OsPath::from("/test/path/");
    let joined = base.join("/more/path/foo.txt");
    let mut pushed = base;
    pushed.push("/more/path/foo.txt");
    assert_eq!(pushed, joined);
}

#[test]
fn traversal_never_underflows() {
    assert_eq!(OsPath::from("a").join("../../../b"), OsPath::from("b"));

    let mut deep = OsPath::from("../../x");
    deep.resolve();
    assert_eq!(deep, OsPath::from("x"));

    assert_eq!(OsPath::from("/").join("../x"), OsPath::from("/x"));
}

#[test]
fn extension_follows_last_dot() {
    assert_eq!(OsPath::from("foo.txt").extension(), Some("txt".to_string()));
    assert_eq!(
        OsPath::from("/a/archive.tar.gz").extension(),
        Some("gz".to_string())
    );
    assert_eq!(OsPath::from("foo.").extension(), Some("".to_string()));
    assert_eq!(OsPath::from("foo").extension(), None);
    assert_eq!(OsPath::from("/a/dir.d/").extension(), None);
    assert_eq!(OsPath::from("").extension(), None);
}

#[test]
fn name_of_empty_path_is_absent() {
    assert_eq!(OsPath::new().name(), None);
    assert_eq!(OsPath::from("/").name(), None);
}

#[test]
fn parent_boundaries() {
    assert_eq!(OsPath::from("/foo.txt").parent(), Some(OsPath::from("/")));
    assert_eq!(OsPath::from("foo.txt").parent(), None);
    assert_eq!(OsPath::new().parent(), None);
    assert_eq!(OsPath::from("/").parent(), None);
}

#[test]
fn empty_addition_leaves_base_untouched() {
    let base = OsPath::from("/foo/bar");
    assert_eq!(base.join(""), base);
    assert_eq!(base.join("/"), base);
    let mut pushed = base.clone();
    pushed.push("");
    assert_eq!(pushed, base);
}

#[test]
fn conversions_agree_with_parsing() {
    let from_str = OsPath::from("/foo/bar.txt");
    let from_string = OsPath::from(String::from("/foo/bar.txt"));
    let from_pathbuf = OsPath::from(std::path::PathBuf::from("/foo/bar.txt"));
    let from_ref = OsPath::from(&from_str);
    assert_eq!(from_str, from_string);
    assert_eq!(from_str, from_pathbuf);
    assert_eq!(from_str, from_ref);
    assert_eq!(OsPath::default(), OsPath::new());
}

#[test]
fn native_handle_matches_components() {
    let path = OsPath::from("/foo/bar.txt");
    assert_eq!(path.to_pathbuf(), std::path::PathBuf::from("/foo/bar.txt"));
    assert_eq!(path.to_path(), std::path::Path::new("/foo/bar.txt"));
}
