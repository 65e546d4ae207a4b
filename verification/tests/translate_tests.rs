use folder_sync::fs_model::{FsNode, FsTree, NodeKind};
use folder_sync::paths::SyncPath;
use folder_sync::translate::{translate, PathKind, SyncError};

fn p(s: &str) -> SyncPath {
    let components: Vec<String> = s.split('/').map(|x| x.to_string()).collect();
    SyncPath::from_components(components)
}

fn file(name: &str) -> FsNode {
    FsNode {
        name: name.to_string(),
        kind: NodeKind::File,
        reparse: false,
        pending_delete: false,
        fail_code: None,
        children: vec![],
    }
}

#[test]
fn test_translate_classifies_targets() {
    let tree = FsTree {
        entries: vec![
            file("a.txt"),
            FsNode {
                name: "d".to_string(),
                kind: NodeKind::Directory,
                reparse: false,
                pending_delete: false,
                fail_code: None,
                children: vec![],
            },
        ],
    };
    let excluded = vec![p("/src/a.txt"), p("/src/d"), p("/src/missing")];
    let resolved = translate(&p("/src"), &p("/dst"), &excluded, &tree).unwrap();
    assert_eq!(resolved.len(), 3);
    assert!(resolved[0].target_path.path_eq(&p("/dst/a.txt")));
    assert_eq!(resolved[0].kind, PathKind::File);
    assert!(resolved[1].target_path.path_eq(&p("/dst/d")));
    assert_eq!(resolved[1].kind, PathKind::Directory);
    assert!(resolved[2].target_path.path_eq(&p("/dst/missing")));
    assert_eq!(resolved[2].kind, PathKind::Unknown);
    assert!(resolved[0].source_path.path_eq(&p("/src/a.txt")));
}

#[test]
fn test_translate_rejects_path_outside_source() {
    let tree = FsTree { entries: vec![] };
    let r = translate(&p("/src"), &p("/dst"), &vec![p("/elsewhere/a.txt")], &tree);
    assert!(matches!(r, Err(SyncError::NotUnderSourceRoot)));
}

#[test]
fn test_translate_rejects_source_root_itself() {
    let tree = FsTree { entries: vec![] };
    let r = translate(&p("/src"), &p("/dst"), &vec![p("/src")], &tree);
    assert!(matches!(r, Err(SyncError::ContainmentViolation)));
}

#[test]
fn test_translate_guard_rejects_dot_dot_component() {
    // A crafted parent-directory component must be rejected, not silently
    // normalized into a path outside the destination root.
    let tree = FsTree { entries: vec![] };
    let crafted = SyncPath::from_components(vec![
        "".to_string(),
        "src".to_string(),
        "..".to_string(),
        "victim".to_string(),
    ]);
    let r = translate(&p("/src"), &p("/dst"), &vec![crafted], &tree);
    assert!(matches!(r, Err(SyncError::ContainmentViolation)));
}

#[test]
fn test_translate_guard_rejects_separator_in_component() {
    let tree = FsTree { entries: vec![] };
    let crafted = SyncPath::from_components(vec![
        "".to_string(),
        "src".to_string(),
        "..\\..\\victim".to_string(),
    ]);
    let r = translate(&p("/src"), &p("/dst"), &vec![crafted], &tree);
    assert!(matches!(r, Err(SyncError::ContainmentViolation)));
}

#[test]
fn test_translate_guard_rejects_empty_component() {
    let tree = FsTree { entries: vec![] };
    let crafted = SyncPath::from_components(vec![
        "".to_string(),
        "src".to_string(),
        "".to_string(),
    ]);
    let r = translate(&p("/src"), &p("/dst"), &vec![crafted], &tree);
    assert!(matches!(r, Err(SyncError::ContainmentViolation)));
}
