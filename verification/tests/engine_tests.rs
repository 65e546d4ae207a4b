use folder_sync::engine::{
    classify_os_error, delete_all, DeletionStatus, FailReason,
};
use folder_sync::fs_model::{resolve_kind, FsNode, FsTree, NodeKind};
use folder_sync::paths::SyncPath;
use folder_sync::sync::format_run_report;
use folder_sync::translate::{translate, PathKind, ResolvedExclusion};

fn p(s: &str) -> SyncPath {
    let components: Vec<String> = s.split('/').map(|x| x.to_string()).collect();
    SyncPath::from_components(components)
}

fn file(name: &str) -> FsNode {
    FsNode {
        name: name.to_string(),
        kind: NodeKind::File,
        reparse: false,
        pending_delete: false,
        fail_code: None,
        children: vec![],
    }
}

fn dir(name: &str, children: Vec<FsNode>) -> FsNode {
    FsNode {
        name: name.to_string(),
        kind: NodeKind::Directory,
        reparse: false,
        pending_delete: false,
        fail_code: None,
        children,
    }
}

fn kind_of(tree: &FsTree, root: &SyncPath, path: &str) -> Option<NodeKind> {
    resolve_kind(&tree.entries, &p(path), root.components.len())
}

#[test]
fn test_remove_all_files_and_folders_in_target() {
    let root = p("/tmp/t");
    let mut tree = FsTree {
        entries: vec![
            file("f1.txt"),
            file("f2.txt"),
            dir("stay", vec![file("f3.txt")]),
            dir(
                "tbr",
                vec![
                    dir("foo", vec![dir("bar", vec![file("f6.txt")]), file("f5.txt")]),
                    file("f4.txt"),
                ],
            ),
        ],
    };
    let paths_to_remove = vec![p("/tmp/t/f2.txt"), p("/tmp/t/tbr")];

    let resolved = translate(&root, &root, &paths_to_remove, &tree).unwrap();
    assert_eq!(resolved[0].kind, PathKind::File);
    assert_eq!(resolved[1].kind, PathKind::Directory);
    let outcomes = delete_all(&root, &mut tree, &resolved);

    assert_eq!(outcomes.len(), 2);
    assert_eq!(outcomes[0].status, DeletionStatus::Deleted);
    assert_eq!(outcomes[1].status, DeletionStatus::Deleted);

    assert_eq!(kind_of(&tree, &root, "/tmp/t/f1.txt"), Some(NodeKind::File));
    assert_eq!(kind_of(&tree, &root, "/tmp/t/stay"), Some(NodeKind::Directory));
    assert_eq!(kind_of(&tree, &root, "/tmp/t/stay/f3.txt"), Some(NodeKind::File));
    assert_eq!(kind_of(&tree, &root, "/tmp/t/f2.txt"), None);
    assert_eq!(kind_of(&tree, &root, "/tmp/t/tbr"), None);
    assert_eq!(kind_of(&tree, &root, "/tmp/t/tbr/f4.txt"), None);
}

#[test]
fn test_deletion_after_mirror_leaves_siblings() {
    // An excluded directory with nested files disappears entirely; an
    // unrelated sibling and its contents stay untouched.
    let source = p("/src");
    let root = p("/dst");
    let mut tree = FsTree {
        entries: vec![
            dir("tbr", vec![file("a.txt"), dir("sub", vec![file("b.txt")])]),
            dir("keep", vec![file("c.txt")]),
        ],
    };
    let resolved = translate(&source, &root, &vec![p("/src/tbr")], &tree).unwrap();
    let outcomes = delete_all(&root, &mut tree, &resolved);

    assert_eq!(outcomes.len(), 1);
    assert_eq!(outcomes[0].status, DeletionStatus::Deleted);
    assert_eq!(kind_of(&tree, &root, "/dst/tbr"), None);
    assert_eq!(kind_of(&tree, &root, "/dst/tbr/a.txt"), None);
    assert_eq!(kind_of(&tree, &root, "/dst/tbr/sub"), None);
    assert_eq!(kind_of(&tree, &root, "/dst/tbr/sub/b.txt"), None);
    assert_eq!(kind_of(&tree, &root, "/dst/keep"), Some(NodeKind::Directory));
    assert_eq!(kind_of(&tree, &root, "/dst/keep/c.txt"), Some(NodeKind::File));
}

#[test]
fn test_delete_all_twice_reports_already_gone() {
    let source = p("/src");
    let root = p("/dst");
    let mut tree = FsTree {
        entries: vec![
            dir("tbr", vec![file("a.txt")]),
            file("h.txt"),
            dir("keep", vec![]),
        ],
    };
    let excluded = vec![p("/src/tbr"), p("/src/h.txt")];
    let resolved = translate(&source, &root, &excluded, &tree).unwrap();

    let first = delete_all(&root, &mut tree, &resolved);
    assert!(first.iter().all(|o| o.status == DeletionStatus::Deleted));

    let second = delete_all(&root, &mut tree, &resolved);
    assert_eq!(second.len(), 2);
    assert!(second.iter().all(|o| o.status == DeletionStatus::AlreadyGone));
    assert_eq!(kind_of(&tree, &root, "/dst/keep"), Some(NodeKind::Directory));
}

#[test]
fn test_unknown_kind_is_already_gone() {
    let source = p("/src");
    let root = p("/dst");
    let mut tree = FsTree { entries: vec![file("present.txt")] };
    // The excluded entry was never copied: the probe finds nothing.
    let resolved = translate(&source, &root, &vec![p("/src/never-copied.txt")], &tree).unwrap();
    assert_eq!(resolved[0].kind, PathKind::Unknown);
    let outcomes = delete_all(&root, &mut tree, &resolved);
    assert_eq!(outcomes[0].status, DeletionStatus::AlreadyGone);
    assert_eq!(kind_of(&tree, &root, "/dst/present.txt"), Some(NodeKind::File));
}

#[test]
fn test_reparse_point_on_path_is_refused() {
    // A component on the way to the target was swapped for a reparse point
    // after translation: the open is refused, the entry fails, and nothing
    // behind the reparse point is deleted.
    let root = p("/dst");
    let mut tree = FsTree {
        entries: vec![FsNode {
            name: "a".to_string(),
            kind: NodeKind::Directory,
            reparse: true,
            pending_delete: false,
            fail_code: None,
            children: vec![],
        }],
    };
    let resolved = vec![ResolvedExclusion {
        source_path: p("/src/a/b.txt"),
        target_path: p("/dst/a/b.txt"),
        kind: PathKind::File,
    }];
    let outcomes = delete_all(&root, &mut tree, &resolved);
    assert_eq!(
        outcomes[0].status,
        DeletionStatus::Failed(FailReason::ReparsePoint)
    );
    assert_eq!(kind_of(&tree, &root, "/dst/a"), Some(NodeKind::Directory));
}

#[test]
fn test_reparse_target_itself_is_unlinked() {
    // The target itself being a link is no obstacle: the link is unlinked,
    // never followed.
    let root = p("/dst");
    let mut tree = FsTree {
        entries: vec![FsNode {
            name: "junction".to_string(),
            kind: NodeKind::Directory,
            reparse: true,
            pending_delete: false,
            fail_code: None,
            children: vec![],
        }],
    };
    let resolved = vec![ResolvedExclusion {
        source_path: p("/src/junction"),
        target_path: p("/dst/junction"),
        kind: PathKind::Directory,
    }];
    let outcomes = delete_all(&root, &mut tree, &resolved);
    assert_eq!(outcomes[0].status, DeletionStatus::Deleted);
    assert_eq!(kind_of(&tree, &root, "/dst/junction"), None);
}

#[test]
fn test_pending_deletion_is_already_gone() {
    let root = p("/dst");
    let mut tree = FsTree {
        entries: vec![FsNode {
            name: "going.txt".to_string(),
            kind: NodeKind::File,
            reparse: false,
            pending_delete: true,
            fail_code: None,
            children: vec![],
        }],
    };
    let resolved = vec![ResolvedExclusion {
        source_path: p("/src/going.txt"),
        target_path: p("/dst/going.txt"),
        kind: PathKind::File,
    }];
    let outcomes = delete_all(&root, &mut tree, &resolved);
    assert_eq!(outcomes[0].status, DeletionStatus::AlreadyGone);
}

#[test]
fn test_failed_child_keeps_parent_and_cause() {
    // One child cannot be deleted: its siblings are still cleaned up, the
    // parent stays, and the parent's outcome carries the first child
    // failure as its cause.
    let root = p("/dst");
    let mut tree = FsTree {
        entries: vec![dir(
            "tbr",
            vec![
                FsNode {
                    name: "locked.txt".to_string(),
                    kind: NodeKind::File,
                    reparse: false,
                    pending_delete: false,
                    fail_code: Some(5),
                    children: vec![],
                },
                file("ok.txt"),
            ],
        )],
    };
    let resolved = vec![ResolvedExclusion {
        source_path: p("/src/tbr"),
        target_path: p("/dst/tbr"),
        kind: PathKind::Directory,
    }];
    let outcomes = delete_all(&root, &mut tree, &resolved);
    assert_eq!(
        outcomes[0].status,
        DeletionStatus::Failed(FailReason::OsError(5))
    );
    assert_eq!(kind_of(&tree, &root, "/dst/tbr"), Some(NodeKind::Directory));
    assert_eq!(kind_of(&tree, &root, "/dst/tbr/locked.txt"), Some(NodeKind::File));
    assert_eq!(kind_of(&tree, &root, "/dst/tbr/ok.txt"), None);
}

#[test]
fn test_classify_os_error() {
    assert_eq!(classify_os_error(2), DeletionStatus::AlreadyGone);
    assert_eq!(classify_os_error(3), DeletionStatus::AlreadyGone);
    assert_eq!(classify_os_error(0xC0000056), DeletionStatus::AlreadyGone);
    assert_eq!(
        classify_os_error(5),
        DeletionStatus::Failed(FailReason::OsError(5))
    );
}

#[test]
fn test_run_report() {
    let root = p("/dst");
    let mut tree = FsTree { entries: vec![file("x.txt")] };
    let resolved = vec![ResolvedExclusion {
        source_path: p("/src/x.txt"),
        target_path: p("/dst/x.txt"),
        kind: PathKind::File,
    }];
    let outcomes = delete_all(&root, &mut tree, &resolved);
    let report = format_run_report("tool output", &outcomes);
    assert_eq!(
        report,
        "tool output\n=== EXCLUDED ENTRIES ===\n\\dst\\x.txt: deleted\n"
    );
}
