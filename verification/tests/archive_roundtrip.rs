//! Tests of archive reading against real zip bytes, and the whole pipeline
//! from a manifest payload and an archive to a synchronized tree.

use std::io::Write;

use modsync::archive::{read_archive_entries, sync};
use modsync::engine::{sync_run, ArchiveError, SyncOutcome};
use modsync::manifest::parse_manifest;
use modsync::tree::DestTree;
use modsync::version::marker_path_vec;
use zip::write::SimpleFileOptions;
use zip::ZipWriter;

fn build_zip(files: &[(&str, &[u8])], dirs: &[&str]) -> Vec<u8> {
    let cursor = std::io::Cursor::new(Vec::new());
    let mut writer = ZipWriter::new(cursor);
    let options = SimpleFileOptions::default();
    for d in dirs {
        writer.add_directory(*d, options).unwrap();
    }
    for (name, data) in files {
        writer.start_file(*name, options).unwrap();
        writer.write_all(data).unwrap();
    }
    writer.finish().unwrap().into_inner()
}

fn path(segs: &[&str]) -> Vec<Vec<u8>> {
    segs.iter().map(|s| s.as_bytes().to_vec()).collect()
}

#[test]
fn entries_come_back_decompressed() {
    // A payload long enough that deflate actually transforms it.
    let body: Vec<u8> = std::iter::repeat(b"mod contents ".to_vec()).take(200).flatten().collect();
    let bytes = build_zip(&[("foo.jar", &body), ("config/bar.cfg", b"bar")], &["config"]);
    let entries = read_archive_entries(bytes).unwrap();
    assert_eq!(entries.len(), 3);
    assert_eq!(entries[0].name, b"config/".to_vec());
    assert_eq!(entries[1].name, b"foo.jar".to_vec());
    assert_eq!(entries[1].data, body);
    assert_eq!(entries[2].name, b"config/bar.cfg".to_vec());
    assert_eq!(entries[2].data, b"bar".to_vec());
}

#[test]
fn sync_from_bytes_extracts_and_skips() {
    let mut tree = DestTree::new();
    tree.set_file(&path(&["foo.jar"]), b"local".to_vec());
    let bytes = build_zip(&[("foo.jar", b"remote"), ("new.jar", b"new")], &[]);
    let report = sync(&mut tree, bytes.clone()).unwrap();
    assert_eq!(report.created, 1);
    assert_eq!(report.skipped, 1);
    assert_eq!(tree.file_content(&path(&["foo.jar"])).unwrap(), &b"local".to_vec());
    assert_eq!(tree.file_content(&path(&["new.jar"])).unwrap(), &b"new".to_vec());
}

#[test]
fn sync_with_corrupt_bytes_touches_nothing() {
    let mut tree = DestTree::new();
    tree.set_file(&path(&["foo.jar"]), b"local".to_vec());
    let r = sync(&mut tree, b"garbage".to_vec());
    assert_eq!(r.unwrap_err(), modsync::engine::ArchiveError::Corrupt);
    assert_eq!(tree.file_content(&path(&["foo.jar"])).unwrap(), &b"local".to_vec());
}

#[test]
fn garbage_bytes_are_corrupt() {
    let r = read_archive_entries(b"this is not an archive".to_vec());
    assert_eq!(r.unwrap_err(), ArchiveError::Corrupt);
}

#[test]
fn whole_pipeline_synchronizes_the_tree() {
    let payload = r#"{
        "modpack": "Example Pack",
        "modpack_dir": "example",
        "version": "1.2.0",
        "changelog": "notes",
        "blacklist": ["old.jar", "missing.jar"],
        "mods_url": "https://example.invalid/mods.zip"
    }"#;
    let desc = parse_manifest(payload).unwrap();

    let mut tree = DestTree::new();
    tree.set_file(&marker_path_vec(), b"N/A".to_vec());
    tree.set_file(&path(&["old.jar"]), b"old".to_vec());

    let bytes = build_zip(&[("foo.jar", b"foo"), ("config/bar.cfg", b"bar")], &[]);
    let entries = read_archive_entries(bytes).unwrap();
    let outcome = sync_run(&mut tree, &desc, &entries).unwrap();
    match outcome {
        SyncOutcome::Updated(ext, pr) => {
            assert_eq!(ext.created, 2);
            assert_eq!(ext.rejected, 0);
            assert_eq!(pr.removed, 1);
            assert_eq!(pr.missing, 1);
            assert_eq!(pr.failed, 0);
        },
        other => panic!("expected an update, got {:?}", other),
    }
    assert_eq!(tree.file_content(&marker_path_vec()).unwrap(), &b"1.2.0".to_vec());
    assert_eq!(tree.file_content(&path(&["foo.jar"])).unwrap(), &b"foo".to_vec());
    assert_eq!(tree.file_content(&path(&["config", "bar.cfg"])).unwrap(), &b"bar".to_vec());
    assert!(!tree.has_path(&path(&["old.jar"])));
}
