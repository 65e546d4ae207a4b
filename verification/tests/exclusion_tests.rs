use folder_sync::exclusions::{attributes_mark_hidden, collect_exclude_paths, DirEntryInfo};
use folder_sync::paths::SyncPath;
use folder_sync::sync::{
    build_robocopy_exclude_arguments, format_sync_output, run_folder_sync, Configuration,
};
use folder_sync::translate::PathKind;

fn p(s: &str) -> SyncPath {
    let components: Vec<String> = s.split('/').map(|x| x.to_string()).collect();
    SyncPath::from_components(components)
}

fn entry(name: &str, hidden: bool) -> DirEntryInfo {
    DirEntryInfo { name: name.to_string(), hidden }
}

/// The listing of the test source tree: two visible entries, two hidden.
fn test_folder_entries() -> Vec<DirEntryInfo> {
    vec![
        entry("some-folder", false),
        entry("some-hidden-folder", true),
        entry("file1.txt", false),
        entry("hidden-file1.txt", true),
    ]
}

fn contains(paths: &Vec<SyncPath>, q: &SyncPath) -> bool {
    paths.iter().any(|x| x.path_eq(q))
}

#[test]
fn test_create_exclude_paths() {
    let source_dir_path = p("/tmp/source");

    let exclude_paths = collect_exclude_paths(
        &source_dir_path,
        true,
        &test_folder_entries(),
        &vec![p("/tmp/source/foobar.txt")],
    );

    assert_eq!(exclude_paths.len(), 3);
    assert!(contains(&exclude_paths, &p("/tmp/source/hidden-file1.txt")));
    assert!(contains(&exclude_paths, &p("/tmp/source/some-hidden-folder")));
    assert!(contains(&exclude_paths, &p("/tmp/source/foobar.txt")));
}

#[test]
fn test_create_excluce_paths_nothing_excluded() {
    let exclude_paths = collect_exclude_paths(&p("/tmp/foo"), false, &vec![], &vec![]);

    assert!(exclude_paths.is_empty());
}

#[test]
fn test_collect_hidden_entries_only() {
    // With hidden entries enabled, exactly the hidden ones are collected,
    // never their visible siblings.
    let source = p("/src");
    let entries = vec![
        entry("file1.txt", false),
        entry("hidden1.txt", true),
        entry("dir", false),
        entry("hiddenDir", true),
    ];
    let r = collect_exclude_paths(&source, true, &entries, &vec![]);
    assert_eq!(r.len(), 2);
    assert!(r[0].path_eq(&p("/src/hidden1.txt")));
    assert!(r[1].path_eq(&p("/src/hiddenDir")));
}

#[test]
fn test_collect_deduplicates() {
    let source = p("/src");
    let entries = vec![entry("hidden1.txt", true)];
    let r = collect_exclude_paths(
        &source,
        true,
        &entries,
        &vec![p("/src/hidden1.txt"), p("/src/other"), p("/src/other")],
    );
    assert_eq!(r.len(), 2);
    assert!(r[0].path_eq(&p("/src/hidden1.txt")));
    assert!(r[1].path_eq(&p("/src/other")));
}

#[test]
fn test_attributes_mark_hidden() {
    assert!(attributes_mark_hidden(2));
    assert!(attributes_mark_hidden(0x22));
    assert!(!attributes_mark_hidden(0));
    assert!(!attributes_mark_hidden(0x20));
}

#[test]
fn test_build_robocopy_exclude_arguments_buckets() {
    let paths = vec![p("/s/a.txt"), p("/s/d"), p("/s/gone"), p("/s/b.txt")];
    let kinds = vec![
        PathKind::File,
        PathKind::Directory,
        PathKind::Unknown,
        PathKind::File,
    ];
    let args = build_robocopy_exclude_arguments(&paths, &kinds);
    assert_eq!(
        args,
        vec![
            "/XF".to_string(),
            "\\s\\a.txt".to_string(),
            "\\s\\b.txt".to_string(),
            "/XD".to_string(),
            "\\s\\d".to_string(),
        ]
    );
}

#[test]
fn test_build_robocopy_exclude_arguments_empty() {
    let args = build_robocopy_exclude_arguments(&vec![], &vec![]);
    assert!(args.is_empty());
}

#[test]
fn test_run_folder_sync_plan() {
    let config = Configuration {
        source: SyncPath::from_components(vec![
            "C:".to_string(),
            "temp".to_string(),
            "source".to_string(),
        ]),
        target: SyncPath::from_components(vec![
            "C:".to_string(),
            "temp".to_string(),
            "target".to_string(),
        ]),
        create_last_sync_result_file: false,
        exclude_root_source_hidden_entries: true,
        exclude_paths: vec![],
    };
    let entries = vec![entry("visible.txt", false), entry("hidden.txt", true)];
    let plan = run_folder_sync(&config, &entries, &vec![PathKind::File]);
    assert_eq!(plan.exclude_paths.len(), 1);
    assert_eq!(
        plan.exclude_paths[0].to_joined_string("\\"),
        "C:\\temp\\source\\hidden.txt"
    );
    assert_eq!(
        plan.arguments,
        vec![
            "C:\\temp\\source".to_string(),
            "C:\\temp\\target".to_string(),
            "/mir".to_string(),
            "/z".to_string(),
            "/r:1".to_string(),
            "/w:1".to_string(),
            "/sl".to_string(),
            "/unilog:C:\\temp\\simple_folder_sync_robocopy.log".to_string(),
            "/XF".to_string(),
            "C:\\temp\\source\\hidden.txt".to_string(),
        ]
    );
}

#[test]
fn test_format_sync_output() {
    let r = format_sync_output("copied 3 files", "");
    assert_eq!(r, "=== STDOUT ===\ncopied 3 files\n=== STDERR ===\n");
}
