use std::io::Write;

use unzip::{extract_archive, open_archive, ExtractError, FsOp};

fn b(x: &str) -> Vec<u8> {
    x.as_bytes().to_vec()
}

fn writer() -> zip::ZipWriter<std::io::Cursor<Vec<u8>>> {
    zip::ZipWriter::new(std::io::Cursor::new(Vec::new()))
}

#[test]
fn empty_archive_plans_nothing() {
    let bytes = writer().finish().unwrap().into_inner();
    let mut archive = open_archive(bytes).unwrap();
    let (outcomes, err) = extract_archive(&mut archive);
    assert!(err.is_none());
    assert_eq!(outcomes.len(), 0);
}

#[test]
fn garbage_bytes_fail_to_open() {
    assert!(open_archive(b("not a zip archive")).is_err());
}

#[test]
fn single_file_is_extracted_byte_for_byte() {
    let mut w = writer();
    let opts = zip::write::SimpleFileOptions::default();
    w.start_file("a/b/c.txt", opts).unwrap();
    w.write_all(b"hello").unwrap();
    let bytes = w.finish().unwrap().into_inner();

    let mut archive = open_archive(bytes).unwrap();
    let (outcomes, err) = extract_archive(&mut archive);
    assert!(err.is_none());
    assert_eq!(outcomes.len(), 1);
    let oc = &outcomes[0];
    assert_eq!(oc.lines.len(), 1);
    assert_eq!(oc.lines[0], b("File 0 extracted to \"a/b/c.txt\" (5 bytes)"));
    match &oc.op {
        Some(FsOp::WriteFile { parent, path, data }) => {
            assert_eq!(parent.as_deref(), Some(b("a/b").as_slice()));
            assert_eq!(path, &b("a/b/c.txt"));
            assert_eq!(data, &b"hello".to_vec());
        }
        _ => panic!("expected a file write"),
    }
}

#[test]
fn traversal_entry_is_skipped_but_run_succeeds() {
    let mut w = writer();
    let opts = zip::write::SimpleFileOptions::default();
    w.start_file("../evil.txt", opts).unwrap();
    w.write_all(b"boom").unwrap();
    w.start_file("ok.txt", opts).unwrap();
    w.write_all(b"fine").unwrap();
    let bytes = w.finish().unwrap().into_inner();

    let mut archive = open_archive(bytes).unwrap();
    let (outcomes, err) = extract_archive(&mut archive);
    assert!(err.is_none());
    assert_eq!(outcomes.len(), 2);
    assert!(outcomes[0].op.is_none());
    assert_eq!(outcomes[0].lines.len(), 0);
    assert_eq!(outcomes[0].mode, None);
    match &outcomes[1].op {
        Some(FsOp::WriteFile { parent, path, data }) => {
            assert_eq!(parent, &None);
            assert_eq!(path, &b("ok.txt"));
            assert_eq!(data, &b"fine".to_vec());
        }
        _ => panic!("expected a file write"),
    }
}

#[test]
fn directory_entry_from_archive_is_planned_as_mkdir() {
    let mut w = writer();
    let opts = zip::write::SimpleFileOptions::default();
    w.add_directory("d/e", opts).unwrap();
    let bytes = w.finish().unwrap().into_inner();

    let mut archive = open_archive(bytes).unwrap();
    let (outcomes, err) = extract_archive(&mut archive);
    assert!(err.is_none());
    assert_eq!(outcomes.len(), 1);
    match &outcomes[0].op {
        Some(FsOp::MkDirAll { path }) => assert_eq!(path, &b("d/e")),
        _ => panic!("expected a directory creation"),
    }
    assert_eq!(outcomes[0].lines[0], b("File 0 extracted to \"d/e\""));
}

#[test]
fn stored_unix_mode_is_reported() {
    let mut w = writer();
    let opts = zip::write::SimpleFileOptions::default().unix_permissions(0o755);
    w.start_file("bin/tool", opts).unwrap();
    w.write_all(b"#!").unwrap();
    let bytes = w.finish().unwrap().into_inner();

    let mut archive = open_archive(bytes).unwrap();
    let (outcomes, err) = extract_archive(&mut archive);
    assert!(err.is_none());
    assert_eq!(outcomes.len(), 1);
    let mode = outcomes[0].mode.expect("a stored mode");
    assert_eq!(mode & 0o777, 0o755);
}

#[test]
fn backslash_entry_is_skipped_but_run_succeeds() {
    let mut w = writer();
    let opts = zip::write::SimpleFileOptions::default();
    w.start_file("..\\evil.txt", opts).unwrap();
    w.write_all(b"boom").unwrap();
    let bytes = w.finish().unwrap().into_inner();

    let mut archive = open_archive(bytes).unwrap();
    let (outcomes, err) = extract_archive(&mut archive);
    assert!(err.is_none());
    assert_eq!(outcomes.len(), 1);
    assert!(outcomes[0].op.is_none());
    assert_eq!(outcomes[0].lines.len(), 0);
}

#[test]
fn corrupt_first_entry_aborts_with_nothing_planned() {
    let mut w = writer();
    let opts = zip::write::SimpleFileOptions::default();
    w.start_file("a.txt", opts).unwrap();
    w.write_all(b"aa").unwrap();
    let mut bytes = w.finish().unwrap().into_inner();
    // The first entry's local header starts at offset 0; break its
    // signature so that fetching the entry fails.
    bytes[0] = b'X';

    let mut archive = open_archive(bytes).unwrap();
    let (outcomes, err) = extract_archive(&mut archive);
    assert!(matches!(err, Some(ExtractError::EntryFailed)));
    assert_eq!(outcomes.len(), 0);
}

#[test]
fn corrupt_second_entry_aborts_after_the_first() {
    let mut w = writer();
    let opts = zip::write::SimpleFileOptions::default();
    w.start_file("a.txt", opts).unwrap();
    w.write_all(b"aa").unwrap();
    w.start_file("b.txt", opts).unwrap();
    w.write_all(b"bb").unwrap();
    let mut bytes = w.finish().unwrap().into_inner();
    // Break the signature of the second local header (the second
    // occurrence of PK\x03\x04) so that only the second fetch fails.
    let sig = [0x50, 0x4b, 0x03, 0x04];
    let second = (1..bytes.len() - 3)
        .find(|&i| bytes[i..i + 4] == sig)
        .expect("a second local header");
    bytes[second] = b'X';

    let mut archive = open_archive(bytes).unwrap();
    let (outcomes, err) = extract_archive(&mut archive);
    assert!(matches!(err, Some(ExtractError::EntryFailed)));
    assert_eq!(outcomes.len(), 1);
    match &outcomes[0].op {
        Some(FsOp::WriteFile { path, data, .. }) => {
            assert_eq!(path, &b("a.txt"));
            assert_eq!(data, &b("aa"));
        }
        _ => panic!("expected a file write"),
    }
}

#[test]
fn entries_keep_archive_order() {
    let mut w = writer();
    let opts = zip::write::SimpleFileOptions::default();
    w.start_file("one.txt", opts).unwrap();
    w.write_all(b"1").unwrap();
    w.start_file("two.txt", opts).unwrap();
    w.write_all(b"22").unwrap();
    w.start_file("three.txt", opts).unwrap();
    w.write_all(b"333").unwrap();
    let bytes = w.finish().unwrap().into_inner();

    let mut archive = open_archive(bytes).unwrap();
    let (outcomes, err) = extract_archive(&mut archive);
    assert!(err.is_none());
    assert_eq!(outcomes.len(), 3);
    let expected = [("one.txt", "1"), ("two.txt", "22"), ("three.txt", "333")];
    for (i, (name, content)) in expected.iter().enumerate() {
        match &outcomes[i].op {
            Some(FsOp::WriteFile { path, data, .. }) => {
                assert_eq!(path, &b(name));
                assert_eq!(data, &b(content));
            }
            _ => panic!("expected a file write"),
        }
    }
}
