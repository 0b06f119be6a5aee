use hugr::fs_write::{error_json, path_json, FsCreateDir, FsEdit, FsRemove, FsWrite, FsWriteRoot};
use hugr::json::{Json, JsonNumber};

fn s(t: &str) -> String {
    t.to_string()
}

fn obj(entries: Vec<(&str, Json)>) -> Json {
    Json::Object(entries.into_iter().map(|(k, v)| (s(k), v)).collect())
}

fn text(t: &str) -> Json {
    Json::String(s(t))
}

fn jail(dir: &str) -> FsWriteRoot {
    FsWriteRoot::new(dir, true).unwrap()
}

#[test]
fn resolves_writes_inside_root_and_rejects_escape() {
    let dir = "/tmp/huggr-fs-write-1";
    let root = jail(dir);
    // The parent of `x.txt` canonicalizes to the root itself.
    assert_eq!(root.parent_request("x.txt"), Ok(s("/tmp/huggr-fs-write-1")));
    assert_eq!(root.resolve_parent("x.txt", Some(dir)), Ok(s("/tmp/huggr-fs-write-1/x.txt")));
    assert!(root.resolve_parent("../x", Some("/tmp")).is_err());
}

#[test]
fn rejects_existing_symlink_write_that_escapes_root() {
    let root = jail("/tmp/huggr-fs-write-link-1/root");
    // `link` exists (a symlink) and canonicalizes outside the root.
    assert!(root.resolve_write("link", true, Some("/tmp/huggr-fs-write-link-1/outside.txt")).is_err());
}

#[test]
fn relative_paths_stay_under_the_root() {
    let root = jail("/srv/jail");
    assert_eq!(root.relative("a/b.txt"), Ok(s("/srv/jail/a/b.txt")));
    assert_eq!(root.relative("./a"), Ok(s("/srv/jail/./a")));
    assert_eq!(root.relative("../x"), Err(s("path escapes the tool root")));
    assert_eq!(root.relative("a/../../x"), Err(s("path escapes the tool root")));
    assert_eq!(root.relative("/etc/passwd"), Err(s("path must be relative to the tool root")));
}

#[test]
fn root_must_be_a_directory() {
    assert_eq!(FsWriteRoot::new("/srv/file.txt", false).err(), Some(s("fs_write root is not a directory: /srv/file.txt")));
    assert_eq!(jail("/srv/jail").root(), "/srv/jail");
}

#[test]
fn parent_resolution_reports_missing_and_escaping_parents() {
    let root = jail("/srv/jail");
    assert_eq!(root.resolve_parent("a/b.txt", None), Err(s("parent directory does not exist for a/b.txt")));
    assert_eq!(root.resolve_parent("a/b.txt", Some("/elsewhere")), Err(s("path escapes the tool root")));
    assert_eq!(root.resolve_parent("a/b.txt", Some("/srv/jail/a")), Ok(s("/srv/jail/a/b.txt")));
    // Sibling directories that merely share a prefix are outside.
    assert_eq!(root.resolve_parent("a/b.txt", Some("/srv/jailbreak")), Err(s("path escapes the tool root")));
}

#[test]
fn existing_resolution_requires_a_path_inside_the_root() {
    let root = jail("/srv/jail");
    assert_eq!(root.resolve_existing("a.txt", Some("/srv/jail/a.txt")), Ok(s("/srv/jail/a.txt")));
    assert_eq!(root.resolve_existing("a.txt", None), Err(s("path does not exist inside the tool root: a.txt")));
    assert_eq!(root.resolve_existing("../a.txt", Some("/srv/a.txt")), Err(s("path escapes the tool root")));
    assert_eq!(root.resolve_write("new.txt", false, Some("/srv/jail")), Ok(s("/srv/jail/new.txt")));
}

#[test]
fn fs_remove_refuses_to_delete_the_jail_root() {
    let dir = "/tmp/huggr-fs-remove-root-1";
    let remove = FsRemove(jail(dir));
    for path in [".", "./", "sub/.."] {
        let outcome = remove
            .parse_args(&obj(vec![("path", text(path))]))
            .and_then(|rel| remove.0.resolve_existing(&rel, Some(dir)))
            .and_then(|resolved| remove.check_target(&resolved));
        let err = outcome.unwrap_err();
        assert!(err.contains("root") || err.contains("exist"), "{path}: {err}");
    }
    assert_eq!(remove.parse_args(&obj(vec![("path", text("  "))])), Err(s("cannot remove the tool root")));
    assert_eq!(remove.check_target("/tmp/huggr-fs-remove-root-1/a"), Ok(()));
}

#[test]
fn fs_edit_replaces_a_unique_occurrence() {
    let edit = FsEdit(jail("/tmp/huggr-fs-edit-1"));
    let args = edit.parse_args(&obj(vec![("new", text("there")), ("old", text("world")), ("path", text("a.txt"))])).unwrap();
    let (updated, n) = edit.plan(&args.path, "hello world", &args.old, &args.new, args.replace_all).unwrap();
    assert_eq!(n, 1);
    assert_eq!(updated, "hello there");
    let out = edit.output(&args.path, n);
    assert_eq!(out, obj(vec![("path", text("a.txt")), ("replacements", Json::Number(JsonNumber::PosInt(1)))]));
}

#[test]
fn fs_edit_rejects_ambiguous_match_but_replace_all_takes_it() {
    let edit = FsEdit(jail("/tmp/huggr-fs-edit-amb-1"));
    let err = edit.plan("a.txt", "x x x", "x", "y", false).unwrap_err();
    assert!(err.contains("3 times"));
    assert_eq!(err, "`old` occurs 3 times in a.txt; pass a longer unique match or set replace_all");
    let args = edit
        .parse_args(&obj(vec![("new", text("y")), ("old", text("x")), ("path", text("a.txt")), ("replace_all", Json::Bool(true))]))
        .unwrap();
    assert!(args.replace_all);
    let (updated, n) = edit.plan("a.txt", "x x x", "x", "y", true).unwrap();
    assert_eq!(n, 3);
    assert_eq!(updated, "y y y");
}

#[test]
fn fs_edit_errors_on_missing_text_and_missing_file() {
    let dir = "/tmp/huggr-fs-edit-miss-1";
    let edit = FsEdit(jail(dir));
    let missing_text = edit.plan("a.txt", "abc", "zzz", "q", false).unwrap_err();
    assert!(missing_text.contains("not found"));
    let missing_file = edit.0.resolve_existing("nope.txt", None).unwrap_err();
    assert!(missing_file.contains("does not exist"));
}

#[test]
fn fs_edit_argument_errors() {
    let edit = FsEdit(jail("/srv/jail"));
    assert_eq!(edit.parse_args(&Json::Null).err(), Some(s("fs_edit requires string `path`")));
    assert_eq!(edit.parse_args(&obj(vec![("path", text("a"))])).err(), Some(s("fs_edit requires string `old`")));
    assert_eq!(
        edit.parse_args(&obj(vec![("old", text("")), ("new", text("b")), ("path", text("a"))])).err(),
        Some(s("`old` must be non-empty"))
    );
    assert_eq!(
        edit.parse_args(&obj(vec![("old", text("b")), ("new", text("b")), ("path", text("a"))])).err(),
        Some(s("`old` and `new` are identical; nothing to edit"))
    );
    assert_eq!(edit.read_error("a.bin"), "reading a.bin for edit (must be UTF-8 text)");
}

#[test]
fn fs_write_reports_bytes_written() {
    let write = FsWrite(jail("/srv/jail"));
    let args = write.parse_args(&obj(vec![("content", text("héllo")), ("path", text("a.txt"))])).unwrap();
    assert!(!args.append);
    let out = write.output(&args.path, &args.content);
    assert_eq!(out, obj(vec![("bytes_written", Json::Number(JsonNumber::PosInt(6))), ("path", text("a.txt"))]));
    assert_eq!(write.parse_args(&obj(vec![("path", text("a"))])).err(), Some(s("fs_write requires string `content`")));
    assert_eq!(write.name(), "fs_write");
    assert!(!write.requires_permission());
}

#[test]
fn tool_results_and_errors_have_their_shapes() {
    assert_eq!(error_json("boom"), obj(vec![("error", text("boom"))]));
    assert_eq!(path_json("d"), obj(vec![("path", text("d"))]));
    let mkdir = FsCreateDir(jail("/srv/jail"));
    assert_eq!(mkdir.parse_args(&obj(vec![("path", Json::Bool(true))])), Err(s("fs_create_dir requires string `path`")));
    assert_eq!(mkdir.name(), "fs_create_dir");
}
