//! Tests of the manifest reader on literal payload strings: the mandatory
//! fields, the defaults, and each rejection.

use modsync::manifest::{parse_manifest, ManifestError};

#[test]
fn full_payload_parses() {
    let payload = r#"{
        "modpack": "Example Pack",
        "modpack_dir": "example",
        "version": "1.2.0",
        "changelog": "added shaders",
        "blacklist": ["old.jar", "gone.jar"],
        "mods_url": "https://example.invalid/mods.zip"
    }"#;
    let d = parse_manifest(payload).unwrap();
    assert_eq!(d.modpack, "Example Pack");
    assert_eq!(d.modpack_dir, "example");
    assert_eq!(d.version, "1.2.0");
    assert_eq!(d.changelog, "added shaders");
    assert_eq!(d.blacklist, vec![String::from("old.jar"), String::from("gone.jar")]);
    assert_eq!(d.mods_url, "https://example.invalid/mods.zip");
}

#[test]
fn optional_fields_default_to_empty() {
    let payload = r#"{"modpack_dir": "p", "version": "2", "mods_url": "u"}"#;
    let d = parse_manifest(payload).unwrap();
    assert_eq!(d.modpack, "");
    assert_eq!(d.changelog, "");
    assert!(d.blacklist.is_empty());
}

#[test]
fn not_json_is_a_syntax_error() {
    assert_eq!(parse_manifest("not json at all").unwrap_err(), ManifestError::Syntax);
    assert_eq!(parse_manifest("{\"modpack\": ").unwrap_err(), ManifestError::Syntax);
}

#[test]
fn missing_target_dir_is_reported() {
    let payload = r#"{"version": "2", "mods_url": "u"}"#;
    assert_eq!(parse_manifest(payload).unwrap_err(), ManifestError::MissingTargetDir);
}

#[test]
fn missing_version_is_reported() {
    let payload = r#"{"modpack_dir": "p", "mods_url": "u"}"#;
    assert_eq!(parse_manifest(payload).unwrap_err(), ManifestError::MissingVersion);
}

#[test]
fn missing_archive_url_is_reported() {
    let payload = r#"{"modpack_dir": "p", "version": "2"}"#;
    assert_eq!(parse_manifest(payload).unwrap_err(), ManifestError::MissingArchiveUrl);
}

#[test]
fn wrong_field_shapes_are_malformed() {
    let number_version = r#"{"modpack_dir": "p", "version": 3, "mods_url": "u"}"#;
    assert_eq!(parse_manifest(number_version).unwrap_err(), ManifestError::Malformed);
    let blacklist_not_array = r#"{"modpack_dir": "p", "version": "2", "mods_url": "u",
        "blacklist": "old.jar"}"#;
    assert_eq!(parse_manifest(blacklist_not_array).unwrap_err(), ManifestError::Malformed);
    let blacklist_bad_item = r#"{"modpack_dir": "p", "version": "2", "mods_url": "u",
        "blacklist": ["ok.jar", 5]}"#;
    assert_eq!(parse_manifest(blacklist_bad_item).unwrap_err(), ManifestError::Malformed);
}
