//! Tests of the synchronization engine against the in-memory destination
//! tree: the version gate, idempotent extraction, traversal safety,
//! non-destructiveness and blacklist pruning.

use modsync::engine::{extract_entries, prune, sync_run, ArchiveEntry, ArchiveError, SyncOutcome, UpdateError};
use modsync::manifest::build_descriptor;
use modsync::tree::DestTree;
use modsync::version::{marker_path_vec, needs_update};

fn entry(name: &str, data: &[u8]) -> ArchiveEntry {
    ArchiveEntry { name: name.as_bytes().to_vec(), data: data.to_vec() }
}

fn path(segs: &[&str]) -> Vec<Vec<u8>> {
    segs.iter().map(|s| s.as_bytes().to_vec()).collect()
}

#[test]
fn gate_absent_marker_updates() {
    assert!(needs_update(None, &String::from("1.2.0")));
}

#[test]
fn gate_equal_marker_is_current() {
    let m = String::from("1.2.0");
    assert!(!needs_update(Some(&m), &String::from("1.2.0")));
}

#[test]
fn gate_differing_marker_updates() {
    let m = String::from("N/A");
    assert!(needs_update(Some(&m), &String::from("1.2.0")));
    let empty_a = String::from("");
    assert!(!needs_update(Some(&empty_a), &String::from("")));
}

#[test]
fn extraction_creates_files_and_dirs() {
    let mut tree = DestTree::new();
    let entries = vec![
        entry("foo.jar", b"foo-bytes"),
        entry("config/", b""),
        entry("config/bar.cfg", b"bar-bytes"),
    ];
    let report = extract_entries(&mut tree, &entries).unwrap();
    assert_eq!(report.created, 3);
    assert_eq!(report.skipped, 0);
    assert_eq!(report.rejected, 0);
    assert_eq!(tree.file_content(&path(&["foo.jar"])).unwrap(), &b"foo-bytes".to_vec());
    assert!(tree.is_dir(&path(&["config"])));
    assert_eq!(
        tree.file_content(&path(&["config", "bar.cfg"])).unwrap(),
        &b"bar-bytes".to_vec()
    );
}

#[test]
fn extraction_twice_changes_nothing() {
    let mut tree = DestTree::new();
    let entries = vec![
        entry("foo.jar", b"foo-bytes"),
        entry("config/", b""),
        entry("config/bar.cfg", b"bar-bytes"),
    ];
    let first = extract_entries(&mut tree, &entries).unwrap();
    assert_eq!(first.created, 3);
    let second = extract_entries(&mut tree, &entries).unwrap();
    assert_eq!(second.created, 0);
    assert_eq!(second.skipped, 3);
    assert_eq!(second.rejected, 0);
    assert_eq!(tree.file_content(&path(&["foo.jar"])).unwrap(), &b"foo-bytes".to_vec());
    assert_eq!(
        tree.file_content(&path(&["config", "bar.cfg"])).unwrap(),
        &b"bar-bytes".to_vec()
    );
}

#[test]
fn traversal_names_are_rejected() {
    let mut tree = DestTree::new();
    let entries = vec![
        entry("../evil.jar", b"evil"),
        entry("/abs.jar", b"evil"),
        entry("a/../b.jar", b"evil"),
        entry("a\\b.jar", b"evil"),
        entry("", b"evil"),
        entry("ok.jar", b"fine"),
    ];
    let report = extract_entries(&mut tree, &entries).unwrap();
    assert_eq!(report.rejected, 5);
    assert_eq!(report.created, 1);
    assert!(!tree.has_path(&path(&["..", "evil.jar"])));
    assert!(!tree.has_path(&path(&["evil.jar"])));
    assert!(!tree.has_path(&path(&["a", "..", "b.jar"])));
    assert!(tree.is_file(&path(&["ok.jar"])));
}

#[test]
fn existing_file_is_never_overwritten() {
    let mut tree = DestTree::new();
    let custom = path(&["foo.jar"]);
    tree.set_file(&custom, b"my local edit".to_vec());
    let entries = vec![entry("foo.jar", b"remote content")];
    let report = extract_entries(&mut tree, &entries).unwrap();
    assert_eq!(report.skipped, 1);
    assert_eq!(report.created, 0);
    assert_eq!(tree.file_content(&custom).unwrap(), &b"my local edit".to_vec());
}

#[test]
fn pruning_removes_only_existing_files() {
    let mut tree = DestTree::new();
    tree.set_file(&path(&["old.jar"]), b"old".to_vec());
    tree.set_file(&path(&["keep.jar"]), b"keep".to_vec());
    let blacklist = vec![
        String::from("old.jar"),
        String::from("missing.jar"),
        String::from(""),
    ];
    let report = prune(&mut tree, &blacklist);
    assert_eq!(report.removed, 1);
    assert_eq!(report.missing, 1);
    assert_eq!(report.failed, 0);
    assert!(!tree.has_path(&path(&["old.jar"])));
    assert_eq!(tree.file_content(&path(&["keep.jar"])).unwrap(), &b"keep".to_vec());
}

#[test]
fn pruning_a_directory_fails_without_stopping() {
    let mut tree = DestTree::new();
    let entries = vec![entry("config/", b""), entry("old.jar", b"old")];
    extract_entries(&mut tree, &entries).unwrap();
    let blacklist = vec![String::from("config"), String::from("old.jar")];
    let report = prune(&mut tree, &blacklist);
    assert_eq!(report.failed, 1);
    assert_eq!(report.removed, 1);
    assert!(tree.is_dir(&path(&["config"])));
    assert!(!tree.has_path(&path(&["old.jar"])));
}

#[test]
fn up_to_date_run_touches_nothing() {
    let mut tree = DestTree::new();
    tree.set_file(&marker_path_vec(), b"1.2.0".to_vec());
    tree.set_file(&path(&["old.jar"]), b"old".to_vec());
    let desc = build_descriptor(
        None,
        Some(String::from("pack")),
        Some(String::from("1.2.0")),
        None,
        Some(vec![String::from("old.jar")]),
        Some(String::from("https://example.invalid/mods.zip")),
    )
    .unwrap();
    let entries = vec![entry("foo.jar", b"foo")];
    let outcome = sync_run(&mut tree, &desc, &entries).unwrap();
    assert_eq!(outcome, SyncOutcome::UpToDate);
    // Nothing was extracted, nothing pruned.
    assert!(!tree.has_path(&path(&["foo.jar"])));
    assert_eq!(tree.file_content(&path(&["old.jar"])).unwrap(), &b"old".to_vec());
    assert_eq!(tree.file_content(&marker_path_vec()).unwrap(), &b"1.2.0".to_vec());
}

#[test]
fn out_of_date_run_commits_extracts_and_prunes() {
    let mut tree = DestTree::new();
    tree.set_file(&marker_path_vec(), b"N/A".to_vec());
    tree.set_file(&path(&["old.jar"]), b"old".to_vec());
    let desc = build_descriptor(
        Some(String::from("Example Pack")),
        Some(String::from("pack")),
        Some(String::from("1.2.0")),
        Some(String::from("notes")),
        Some(vec![String::from("old.jar"), String::from("missing.jar")]),
        Some(String::from("https://example.invalid/mods.zip")),
    )
    .unwrap();
    let entries = vec![entry("foo.jar", b"foo"), entry("config/bar.cfg", b"bar")];
    let outcome = sync_run(&mut tree, &desc, &entries).unwrap();
    match outcome {
        SyncOutcome::Updated(ext, pr) => {
            assert_eq!(ext.created, 2);
            assert_eq!(pr.removed, 1);
            assert_eq!(pr.missing, 1);
            assert_eq!(pr.failed, 0);
        },
        other => panic!("expected an update, got {:?}", other),
    }
    assert_eq!(tree.file_content(&marker_path_vec()).unwrap(), &b"1.2.0".to_vec());
    assert!(tree.is_file(&path(&["foo.jar"])));
    assert!(tree.is_file(&path(&["config", "bar.cfg"])));
    assert!(tree.is_dir(&path(&["config"])));
    assert!(!tree.has_path(&path(&["old.jar"])));
}

#[test]
fn marker_write_over_directory_fails_and_touches_nothing() {
    let mut tree = DestTree::new();
    let entries0 = vec![entry("version.txt/", b"")];
    extract_entries(&mut tree, &entries0).unwrap();
    let desc = build_descriptor(
        None,
        Some(String::from("pack")),
        Some(String::from("1.2.0")),
        None,
        None,
        Some(String::from("https://example.invalid/mods.zip")),
    )
    .unwrap();
    let entries = vec![entry("foo.jar", b"foo")];
    let r = sync_run(&mut tree, &desc, &entries);
    assert_eq!(r.unwrap_err(), UpdateError::MarkerWrite);
    assert!(!tree.has_path(&path(&["foo.jar"])));
}

#[test]
fn ancestor_file_conflict_aborts_extraction() {
    let mut tree = DestTree::new();
    let entries = vec![
        entry("a", b"a is a file"),
        entry("a/b.jar", b"needs a directory a"),
        entry("late.jar", b"never reached"),
    ];
    let r = extract_entries(&mut tree, &entries);
    assert_eq!(r.unwrap_err(), ArchiveError::Io);
    // The entries before the conflict stay in place; the rest were not tried.
    assert!(tree.is_file(&path(&["a"])));
    assert!(!tree.has_path(&path(&["late.jar"])));
}
