use storage::paths::join_path;
use storage::temp_directories::{
    tmp_directories, tmp_dirs_to_clear, StorageConfig, TableOfContent, TempDirKind,
    FILE_UPLOAD_SUBDIR_NAME, TEMP_SUBDIR_NAME,
};

fn config(temp: Option<&str>) -> StorageConfig {
    StorageConfig {
        snapshots_path: "/data/snapshots".to_string(),
        storage_path: "/data/storage".to_string(),
        temp_path: temp.map(|t| t.to_string()),
    }
}

#[test]
fn join_path_follows_unix_rules() {
    assert_eq!(join_path("/a/b", "c"), "/a/b/c");
    assert_eq!(join_path("/a/b/", "c"), "/a/b/c");
    assert_eq!(join_path("", "c"), "c");
    assert_eq!(join_path("a", "/abs"), "/abs");
    assert_eq!(join_path("a", ""), "a/");
    assert_eq!(join_path("/", "tmp"), "/tmp");
    assert_eq!(join_path("dïr", "ünï"), "dïr/ünï");
}

#[test]
fn join_path_agrees_with_std_path_join() {
    let cases = [
        ("/a/b", "c"),
        ("/a/b/", "c"),
        ("", "c"),
        ("a", "/abs"),
        ("/", "tmp"),
        ("rel/dir", "data.json"),
        ("dir//", "x"),
    ];
    for (base, component) in cases {
        let expected = std::path::Path::new(base).join(component);
        assert_eq!(join_path(base, component), expected.to_str().unwrap());
    }
}

#[test]
fn subdir_names() {
    assert_eq!(TEMP_SUBDIR_NAME, "tmp");
    assert_eq!(FILE_UPLOAD_SUBDIR_NAME, "upload");
}

#[test]
fn temp_paths_under_roots() {
    let toc = TableOfContent::new(config(Some("/fast")));
    assert_eq!(toc.snapshots_path(), "/data/snapshots");
    assert_eq!(toc.storage_path(), "/data/storage");
    assert_eq!(toc.temp_path(), Some("/fast"));
    assert_eq!(toc.get_snapshots_temp_path(), "/data/snapshots/tmp");
    assert_eq!(toc.get_storage_temp_path(), "/data/storage/tmp");
    assert_eq!(toc.get_optional_temp_path(), Some("/fast/tmp".to_string()));
}

#[test]
fn no_optional_temp_path() {
    let toc = TableOfContent::new(config(None));
    assert_eq!(toc.temp_path(), None);
    assert_eq!(toc.get_optional_temp_path(), None);
}

#[test]
fn optional_temp_is_preferred_when_configured() {
    let toc = TableOfContent::new(config(Some("/fast/")));
    let d = toc.optional_temp_or_snapshot_temp_dir();
    assert_eq!(d.kind, TempDirKind::Optional);
    assert_eq!(d.path, "/fast/tmp");
    let d = toc.optional_temp_or_storage_temp_dir();
    assert_eq!(d.kind, TempDirKind::Optional);
    assert_eq!(d.path, "/fast/tmp");
}

#[test]
fn fallback_temp_dirs_without_optional() {
    let toc = TableOfContent::new(config(None));
    let d = toc.optional_temp_or_snapshot_temp_dir();
    assert_eq!(d.kind, TempDirKind::Snapshots);
    assert_eq!(d.path, "/data/snapshots/tmp");
    let d = toc.optional_temp_or_storage_temp_dir();
    assert_eq!(d.kind, TempDirKind::Storage);
    assert_eq!(d.path, "/data/storage/tmp");
}

#[test]
fn upload_dir_inside_chosen_temp_dir() {
    let toc = TableOfContent::new(config(None));
    let (tmp, upload) = toc.upload_dirs();
    assert_eq!(tmp.kind, TempDirKind::Snapshots);
    assert_eq!(tmp.path, "/data/snapshots/tmp");
    assert_eq!(upload.kind, TempDirKind::Upload);
    assert_eq!(upload.path, "/data/snapshots/tmp/upload");

    let toc = TableOfContent::new(config(Some("/fast")));
    let (tmp, upload) = toc.upload_dirs();
    assert_eq!(tmp.kind, TempDirKind::Optional);
    assert_eq!(upload.path, "/fast/tmp/upload");
}

#[test]
fn cleanup_removes_only_tmp_subdirs() {
    let dirs = tmp_directories(&config(Some("/fast")));
    assert_eq!(
        dirs,
        vec![
            "/data/snapshots/tmp".to_string(),
            "/data/storage/tmp".to_string(),
            "/fast/tmp".to_string()
        ]
    );
    for d in &dirs {
        assert!(d.ends_with("/tmp"));
    }
}

#[test]
fn cleanup_without_optional_path() {
    let dirs = tmp_directories(&config(None));
    assert_eq!(
        dirs,
        vec!["/data/snapshots/tmp".to_string(), "/data/storage/tmp".to_string()]
    );
}

#[test]
fn tmp_dirs_to_clear_keeps_order() {
    assert_eq!(
        tmp_dirs_to_clear("s/tmp", "t/tmp", Some("o/tmp")),
        vec!["s/tmp".to_string(), "t/tmp".to_string(), "o/tmp".to_string()]
    );
    assert_eq!(
        tmp_dirs_to_clear("s/tmp", "t/tmp", None),
        vec!["s/tmp".to_string(), "t/tmp".to_string()]
    );
}
