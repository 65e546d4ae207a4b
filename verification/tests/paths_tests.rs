use folder_sync::paths::{is_normal_component, SyncPath};
use folder_sync::translate::{replace_root_path, SyncError};

fn p(s: &str) -> SyncPath {
    let components: Vec<String> = s.split('/').map(|x| x.to_string()).collect();
    SyncPath::from_components(components)
}

#[test]
fn test_replace_root_path() {
    let current_root = p("/tmp/foo");
    let paths_to_replace = vec![p("/tmp/foo/file1.txt"), p("/tmp/foo/subdir/file2.txt")];
    let new_root = p("/foo/bar");

    let updated_paths = replace_root_path(&current_root, &new_root, &paths_to_replace).unwrap();

    assert_eq!(updated_paths.len(), 2);
    assert!(updated_paths[0].path_eq(&p("/foo/bar/file1.txt")));
    assert!(updated_paths[1].path_eq(&p("/foo/bar/subdir/file2.txt")));
}

#[test]
fn test_replace_root_path_rejects_outside_path() {
    let r = replace_root_path(&p("/tmp/foo"), &p("/foo/bar"), &vec![p("/tmp/other/file.txt")]);
    assert!(matches!(r, Err(SyncError::NotUnderSourceRoot)));
}

#[test]
fn test_path_prefix_and_equality() {
    assert!(p("/a/b/c").starts_with(&p("/a/b")));
    assert!(p("/a/b").starts_with(&p("/a/b")));
    assert!(!p("/a/b").starts_with(&p("/a/b/c")));
    assert!(!p("/a/x/c").starts_with(&p("/a/b")));
    assert!(p("/a/b").path_eq(&p("/a/b")));
    assert!(!p("/a/b").path_eq(&p("/a/c")));
    assert!(!p("/a/b").path_eq(&p("/a")));
}

#[test]
fn test_relative_to_and_join_under() {
    let rel = p("/a/b/c/d").relative_to(&p("/a/b")).unwrap();
    assert_eq!(rel, vec!["c".to_string(), "d".to_string()]);
    let joined = p("/x").join_under(&rel);
    assert!(joined.path_eq(&p("/x/c/d")));
    assert!(p("/a/b").relative_to(&p("/a/b/c")).is_none());
}

#[test]
fn test_to_joined_string() {
    let q = SyncPath::from_components(vec![
        "C:".to_string(),
        "temp".to_string(),
        "source".to_string(),
    ]);
    assert_eq!(q.to_joined_string("\\"), "C:\\temp\\source");
    assert_eq!(p("/tmp/foo").to_joined_string("/"), "/tmp/foo");
    let single = SyncPath::from_components(vec!["C:".to_string()]);
    assert_eq!(single.to_joined_string("\\"), "C:");
}

#[test]
fn test_is_normal_component() {
    assert!(is_normal_component(&"file.txt".to_string()));
    assert!(is_normal_component(&"...".to_string()));
    assert!(!is_normal_component(&"".to_string()));
    assert!(!is_normal_component(&".".to_string()));
    assert!(!is_normal_component(&"..".to_string()));
    assert!(!is_normal_component(&"a/b".to_string()));
    assert!(!is_normal_component(&"a\\b".to_string()));
}
