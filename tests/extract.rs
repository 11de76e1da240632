use std::io::{Cursor, Write};

use zip::write::FileOptions;
use zip::ZipWriter;
use zip_extract::{
    destination, is_dir_name, is_safe_name, parent_dir, plan_entries, plan_entry, read_archive,
    Action, EntryRecord, ExtractError, Step,
};

fn record(name: &str, data: &[u8]) -> EntryRecord {
    EntryRecord {
        name: name.to_string(),
        enclosed: Some(name.to_string()),
        comment: String::new(),
        size: data.len() as u64,
        unix_mode: None,
        data: data.to_vec(),
    }
}

/// Builds an archive in memory: names ending in `/` become directories.
fn archive(entries: &[(&str, &[u8], Option<u32>)]) -> Vec<u8> {
    let mut w = ZipWriter::new(Cursor::new(Vec::new()));
    for (name, data, mode) in entries {
        let mut opts = FileOptions::default();
        if let Some(m) = mode {
            opts = opts.unix_permissions(*m);
        }
        if name.ends_with('/') {
            w.add_directory(*name, opts).unwrap();
        } else {
            w.start_file(*name, opts).unwrap();
            w.write_all(data).unwrap();
        }
    }
    w.finish().unwrap().into_inner()
}

fn write_of(step: &Step) -> (&str, Option<&str>, &[u8], Option<u32>) {
    match &step.action {
        Action::WriteFile { path, parent, data, mode } => {
            (path.as_str(), parent.as_deref(), data.as_slice(), *mode)
        }
        Action::CreateDir { .. } => panic!("expected a file write"),
    }
}

fn dir_of(step: &Step) -> &str {
    match &step.action {
        Action::CreateDir { path } => path.as_str(),
        Action::WriteFile { .. } => panic!("expected a directory"),
    }
}

#[test]
fn safe_names() {
    assert!(is_safe_name("a.txt"));
    assert!(is_safe_name("dir/"));
    assert!(is_safe_name("dir/sub/file.txt"));
    assert!(is_safe_name("a/..b/c"));
    assert!(is_safe_name("..."));
    assert!(is_safe_name("./a"));
}

#[test]
fn unsafe_names() {
    assert!(!is_safe_name(""));
    assert!(!is_safe_name("/etc/passwd"));
    assert!(!is_safe_name("\\windows"));
    assert!(!is_safe_name(".."));
    assert!(!is_safe_name("../evil.txt"));
    assert!(!is_safe_name("a/../b"));
    assert!(!is_safe_name("a/.."));
    assert!(!is_safe_name("a\\..\\b"));
    assert!(!is_safe_name("a\0b"));
}

#[test]
fn directory_names() {
    assert!(is_dir_name("dir/"));
    assert!(is_dir_name("a\\b\\"));
    assert!(!is_dir_name("dir/file.txt"));
    assert!(!is_dir_name(""));
}

#[test]
fn destinations() {
    assert_eq!(destination("", "dir/file.txt"), "dir/file.txt");
    assert_eq!(destination("out", "dir/file.txt"), "out/dir/file.txt");
    assert_eq!(destination("out/", "a"), "out/a");
}

#[test]
fn parents() {
    assert_eq!(parent_dir("dir/file.txt"), Some("dir".to_string()));
    assert_eq!(parent_dir("out/a/b.txt"), Some("out/a".to_string()));
    assert_eq!(parent_dir("file.txt"), None);
    assert_eq!(parent_dir("/file.txt"), None);
}

#[test]
fn traversal_entry_is_skipped() {
    assert!(plan_entry(&record("../evil.txt", b"x"), "").is_none());
    assert!(plan_entry(&record("/etc/passwd", b"x"), "").is_none());
    assert!(plan_entry(&record("a/../../b", b"x"), "out").is_none());
}

#[test]
fn entry_without_enclosed_path_is_skipped() {
    let mut e = record("a.txt", b"x");
    e.enclosed = None;
    assert!(plan_entry(&e, "").is_none());
    e.enclosed = Some("b.txt".to_string());
    assert!(plan_entry(&e, "").is_none());
}

#[test]
fn directory_entry_creates_directory_only() {
    let s = plan_entry(&record("dir/", b""), "out").unwrap();
    assert_eq!(dir_of(&s), "out/dir/");
    assert_eq!(s.name, "dir/");
    assert_eq!(s.note, None);
}

#[test]
fn file_entry_writes_content_and_mode() {
    let mut e = record("dir/file.txt", b"hello");
    e.unix_mode = Some(0o100640);
    e.comment = "greeting".to_string();
    let s = plan_entry(&e, "").unwrap();
    assert_eq!(write_of(&s), ("dir/file.txt", Some("dir"), &b"hello"[..], Some(0o100640)));
    assert_eq!(s.note, Some("greeting".to_string()));
    assert_eq!(s.size, 5);
}

#[test]
fn plan_keeps_order_and_skips_unsafe() {
    let es = vec![record("b.txt", b"1"), record("../c.txt", b"2"), record("a/", b"")];
    let steps = plan_entries(&es, "");
    assert_eq!(steps.len(), 2);
    assert_eq!(write_of(&steps[0]), ("b.txt", None, &b"1"[..], None));
    assert_eq!(dir_of(&steps[1]), "a/");
}

#[test]
fn planning_twice_gives_the_same_steps() {
    let es = vec![record("d/", b""), record("d/x", b"abc")];
    let first = plan_entries(&es, "root");
    let second = plan_entries(&es, "root");
    assert_eq!(first.len(), second.len());
    assert_eq!(write_of(&first[1]), write_of(&second[1]));
    assert_eq!(dir_of(&first[0]), dir_of(&second[0]));
}

#[test]
fn archive_with_traversal_entry() {
    let bytes = archive(&[
        ("dir/", b"", None),
        ("dir/file.txt", b"hello", None),
        ("../evil.txt", b"evil", None),
    ]);
    let read = read_archive(bytes);
    assert!(read.failure.is_none());
    assert_eq!(read.entries.len(), 3);
    assert_eq!(read.entries[1].data, b"hello".to_vec());
    assert_eq!(read.entries[1].size, 5);
    assert_eq!(read.entries[2].enclosed, None);
    let steps = plan_entries(&read.entries, "");
    assert_eq!(steps.len(), 2);
    assert_eq!(dir_of(&steps[0]), "dir/");
    assert_eq!(write_of(&steps[1]), ("dir/file.txt", Some("dir"), &b"hello"[..], Some(0o100644)));
    assert_eq!(steps[1].note, None);
}

#[test]
fn archive_keeps_permission_bits() {
    let bytes = archive(&[("run.sh", b"#!/bin/sh\n", Some(0o755))]);
    let read = read_archive(bytes);
    assert!(read.failure.is_none());
    let steps = plan_entries(&read.entries, "out");
    assert_eq!(write_of(&steps[0]).3, Some(0o100755));
    assert_eq!(write_of(&steps[0]).0, "out/run.sh");
}

#[test]
fn empty_archive_has_no_steps() {
    let read = read_archive(archive(&[]));
    assert!(read.failure.is_none());
    assert!(read.entries.is_empty());
}

#[test]
fn non_zip_bytes_are_an_archive_error() {
    let read = read_archive(b"this is not a zip file".to_vec());
    assert!(matches!(read.failure, Some(ExtractError::Archive(_))));
    assert!(read.entries.is_empty());
    let read = read_archive(Vec::new());
    assert!(matches!(read.failure, Some(ExtractError::Archive(_))));
}

#[test]
fn corrupt_entry_stops_reading() {
    let mut bytes = archive(&[("a.txt", b"aaaa", None), ("b.txt", b"bbbbbbbbbbbbbbbb", None)]);
    // flip a byte of the second entry's compressed stream, found after its local header name
    let pos = bytes.windows(5).rposition(|w| w == b"b.txt").unwrap();
    let first = bytes.windows(5).position(|w| w == b"b.txt").unwrap();
    assert!(first < pos);
    bytes[first + 5] ^= 0xff;
    let read = read_archive(bytes);
    assert!(read.failure.is_some());
    assert_eq!(read.entries.len(), 1);
    assert_eq!(read.entries[0].data, b"aaaa".to_vec());
}

#[test]
fn reported_size_must_match_content() {
    let mut w = ZipWriter::new(Cursor::new(Vec::new()));
    let opts = FileOptions::default().compression_method(zip::CompressionMethod::Stored);
    w.start_file("a.txt", opts).unwrap();
    w.write_all(b"aaaa").unwrap();
    let mut bytes = w.finish().unwrap().into_inner();
    // the central directory record starts with the signature PK\x01\x02;
    // its uncompressed-size field sits 24 bytes in
    let cd = bytes.windows(4).position(|s| s == b"PK\x01\x02").unwrap();
    assert_eq!(bytes[cd + 24], 4);
    bytes[cd + 24] = 5;
    let read = read_archive(bytes);
    assert!(read.entries.is_empty());
    match read.failure {
        Some(ExtractError::SizeMismatch { name }) => assert_eq!(name, "a.txt"),
        _ => panic!("expected a size mismatch"),
    }
}

#[test]
fn corrupt_unsafe_entry_does_not_stop_reading() {
    let mut bytes = archive(&[("../evil.txt", b"evil evil evil", None), ("ok.txt", b"fine", None)]);
    let first = bytes.windows(11).position(|w| w == b"../evil.txt").unwrap();
    bytes[first + 11] ^= 0xff;
    let read = read_archive(bytes);
    assert!(read.failure.is_none());
    assert_eq!(read.entries.len(), 2);
    assert!(read.entries[0].data.is_empty());
    let steps = plan_entries(&read.entries, "");
    assert_eq!(steps.len(), 1);
    assert_eq!(write_of(&steps[0]), ("ok.txt", None, &b"fine"[..], Some(0o100644)));
}
