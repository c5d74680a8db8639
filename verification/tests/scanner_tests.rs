use navigator::gitignore::GitignoreParser;
use navigator::scanner::{scan_directory, scan_recursive, FsTree, ScanError};
use navigator::snapshot_file::SnapshotFile;

fn file(name: &str, size: i64) -> FsTree {
    FsTree::File { name: name.to_string(), size_bytes: size }
}

fn dir(name: &str, entries: Vec<FsTree>) -> FsTree {
    FsTree::Dir { name: name.to_string(), entries }
}

#[test]
fn end_to_end_counts() {
    // root: a.txt (10 bytes), sub/ with b.txt (20 bytes), and the ignore
    // file itself (5 bytes) whose text excludes sub/
    let root = vec![
        file("a.txt", 10),
        dir("sub", vec![file("b.txt", 20)]),
        file(".gitignore", 5),
    ];
    let (records, summary) = scan_directory(7, &root, Some("sub/\n")).unwrap();

    assert_eq!(summary.files_count, 2);
    assert_eq!(summary.dirs_count, 0);
    assert_eq!(summary.total_size, 15);

    let paths: Vec<&str> = records.iter().map(|r| r.path.as_str()).collect();
    assert_eq!(paths, vec!["a.txt", ".gitignore"]);
    assert!(records.iter().all(|r| r.snapshot_id == 7));
}

#[test]
fn missing_ignore_file_is_fatal() {
    let root = vec![file("a.txt", 10)];
    match scan_directory(1, &root, None) {
        Err(ScanError::MissingIgnoreFile) => {}
        _ => panic!("a scan without an ignore file must fail"),
    }
}

#[test]
fn parent_before_child() {
    let root = vec![
        dir("a", vec![file("x", 1), dir("b", vec![file("y", 2)])]),
        file("z", 3),
    ];
    let (records, _) = scan_directory(1, &root, Some("")).unwrap();
    for (i, r) in records.iter().enumerate() {
        assert_eq!(r.id, 1 + i as i64);
        if let Some(p) = r.parent_id {
            let j = records.iter().position(|q| q.id == p).unwrap();
            assert!(j < i, "parent must be created before its child");
        }
    }
    // the children of a/ and a/b/ point at their directory's record
    let a_id = records.iter().find(|r| r.path == "a").unwrap().id;
    let b_id = records.iter().find(|r| r.path == "a/b").unwrap().id;
    assert_eq!(records.iter().find(|r| r.path == "a/x").unwrap().parent_id, Some(a_id));
    assert_eq!(records.iter().find(|r| r.path == "a/b/y").unwrap().parent_id, Some(b_id));
    assert_eq!(records.iter().find(|r| r.path == "z").unwrap().parent_id, None);
}

#[test]
fn scan_is_idempotent() {
    let root = vec![
        dir("src", vec![file("main.rs", 100), file("lib.rs", 50)]),
        file("Cargo.toml", 25),
        dir("target", vec![file("junk.bin", 999)]),
    ];
    let (r1, s1) = scan_directory(3, &root, Some("target/\n")).unwrap();
    let (r2, s2) = scan_directory(3, &root, Some("target/\n")).unwrap();

    assert_eq!(s1.files_count, s2.files_count);
    assert_eq!(s1.dirs_count, s2.dirs_count);
    assert_eq!(s1.total_size, s2.total_size);
    assert_eq!(r1.len(), r2.len());
    for (a, b) in r1.iter().zip(r2.iter()) {
        assert_eq!(a.path, b.path);
        assert_eq!(a.is_directory, b.is_directory);
        assert_eq!(a.size_bytes, b.size_bytes);
    }
    assert_eq!(s1.files_count, 3);
    assert_eq!(s1.dirs_count, 1);
    assert_eq!(s1.total_size, 175);
}

#[test]
fn full_replace_drops_deleted_paths() {
    let before = vec![file("a.txt", 1), file("b.txt", 2)];
    let after = vec![file("a.txt", 1)];
    let (r1, _) = scan_directory(1, &before, Some("")).unwrap();
    assert!(r1.iter().any(|r| r.path == "b.txt"));
    let (r2, _) = scan_directory(1, &after, Some("")).unwrap();
    assert!(r2.iter().all(|r| r.path != "b.txt"));
}

#[test]
fn git_directory_always_skipped() {
    let root = vec![
        dir(".git", vec![file("HEAD", 40)]),
        file(".git", 9),
    ];
    let (records, summary) = scan_directory(1, &root, Some("")).unwrap();
    // only the *directory* named .git is skipped unconditionally
    assert_eq!(summary.dirs_count, 0);
    assert_eq!(summary.files_count, 1);
    assert_eq!(records[0].path, ".git");
    assert!(!records[0].is_directory);
}

#[test]
fn metadata_lands_on_records() {
    let root = vec![dir(
        "domain",
        vec![dir("n001_project", vec![file("model.rs", 8)])],
    )];
    let (records, _) = scan_directory(1, &root, Some("")).unwrap();
    let model = records.iter().find(|r| r.path == "domain/n001_project/model.rs").unwrap();
    assert_eq!(model.file_extension, Some("rs".to_string()));
    assert_eq!(model.artifact_id, Some("n001_".to_string()));
    assert_eq!(model.artifact_name, Some("project".to_string()));
    assert_eq!(model.role, Some("model".to_string()));
    assert_eq!(model.size_bytes, 8);
    let d = records.iter().find(|r| r.path == "domain/n001_project").unwrap();
    assert!(d.is_directory);
    assert_eq!(d.size_bytes, 0);
    assert_eq!(d.file_extension, None);
    assert_eq!(d.role, None);
}

#[test]
fn walker_respects_rules_mid_tree() {
    let rules = GitignoreParser::from_content("*.log\n!important.log\n");
    let root = vec![dir(
        "logs",
        vec![file("a.log", 1), file("important.log", 2), file("notes.txt", 3)],
    )];
    let prefix: Vec<char> = Vec::new();
    let records: Vec<SnapshotFile> = scan_recursive(&root, &prefix, None, 1, 1, &rules);
    let paths: Vec<&str> = records.iter().map(|r| r.path.as_str()).collect();
    assert_eq!(paths, vec!["logs", "logs/important.log", "logs/notes.txt"]);
}

#[test]
fn stored_paths_are_slash_normalized() {
    let root = vec![dir("a\\b", vec![file("c", 1)])];
    let (records, _) = scan_directory(1, &root, Some("")).unwrap();
    assert_eq!(records[0].path, "a/b");
    assert_eq!(records[1].path, "a/b/c");
    // the base name is stored as the entry gave it
    assert_eq!(records[0].name, "a\\b");
}

#[test]
fn snapshot_file_new_keeps_fields() {
    let r = SnapshotFile::new(
        5,
        2,
        Some(1),
        "model.rs".to_string(),
        "src/model.rs".to_string(),
        123,
        false,
        Some("rs".to_string()),
        None,
        None,
        None,
        None,
        Some("model".to_string()),
    );
    assert_eq!(r.id, 5);
    assert_eq!(r.snapshot_id, 2);
    assert_eq!(r.parent_id, Some(1));
    assert_eq!(r.name, "model.rs");
    assert_eq!(r.path, "src/model.rs");
    assert_eq!(r.size_bytes, 123);
    assert!(!r.is_directory);
    assert_eq!(r.file_extension, Some("rs".to_string()));
    assert_eq!(r.role, Some("model".to_string()));
}
