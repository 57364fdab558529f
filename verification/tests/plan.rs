use unzip::{cli_action, plan_entry, u64_to_dec, CliAction, FsOp, RawEntry};

fn b(x: &str) -> Vec<u8> {
    x.as_bytes().to_vec()
}

fn entry(name: &str, size: u64, comment: &str, mode: Option<u32>, data: &[u8]) -> RawEntry {
    RawEntry {
        name: b(name),
        size,
        comment: b(comment),
        unix_mode: mode,
        data: data.to_vec(),
    }
}

#[test]
fn decimal_rendering() {
    assert_eq!(u64_to_dec(0), b("0"));
    assert_eq!(u64_to_dec(5), b("5"));
    assert_eq!(u64_to_dec(1234), b("1234"));
    assert_eq!(u64_to_dec(u64::MAX), b("18446744073709551615"));
}

#[test]
fn file_entry_is_planned_with_content_and_size_line() {
    let e = entry("a/b/c.txt", 5, "", None, b"hello");
    let oc = plan_entry(0, &e);
    assert_eq!(oc.lines.len(), 1);
    assert_eq!(oc.lines[0], b("File 0 extracted to \"a/b/c.txt\" (5 bytes)"));
    match oc.op {
        Some(FsOp::WriteFile { parent, path, data }) => {
            assert_eq!(parent, Some(b("a/b")));
            assert_eq!(path, b("a/b/c.txt"));
            assert_eq!(data, b"hello".to_vec());
        }
        _ => panic!("expected a file write"),
    }
    assert_eq!(oc.mode, None);
}

#[test]
fn top_level_file_has_no_parent() {
    let e = entry("c.txt", 0, "", None, b"");
    let oc = plan_entry(0, &e);
    match oc.op {
        Some(FsOp::WriteFile { parent, path, data }) => {
            assert_eq!(parent, None);
            assert_eq!(path, b("c.txt"));
            assert_eq!(data, Vec::<u8>::new());
        }
        _ => panic!("expected a file write"),
    }
}

#[test]
fn traversal_entry_is_skipped_in_silence() {
    let e = entry("../evil.txt", 4, "note", Some(0o644), b"boom");
    let oc = plan_entry(0, &e);
    assert_eq!(oc.lines.len(), 0);
    assert!(oc.op.is_none());
    assert_eq!(oc.mode, None);
}

#[test]
fn directory_entry_is_planned_as_mkdir() {
    let e = entry("a/b/", 0, "", None, b"");
    let oc = plan_entry(1, &e);
    assert_eq!(oc.lines.len(), 1);
    assert_eq!(oc.lines[0], b("File 1 extracted to \"a/b\""));
    match oc.op {
        Some(FsOp::MkDirAll { path }) => assert_eq!(path, b("a/b")),
        _ => panic!("expected a directory creation"),
    }
}

#[test]
fn comment_line_comes_before_extraction_line() {
    let e = entry("x.txt", 2, "hi", None, b"ab");
    let oc = plan_entry(3, &e);
    assert_eq!(oc.lines.len(), 2);
    assert_eq!(oc.lines[0], b("File 3, comment: hi"));
    assert_eq!(oc.lines[1], b("File 3 extracted to \"x.txt\" (2 bytes)"));
}

#[test]
fn stored_mode_is_passed_through() {
    let e = entry("bin/tool", 1, "", Some(0o755), b"x");
    let oc = plan_entry(0, &e);
    assert_eq!(oc.mode, Some(0o755));
}

#[test]
fn missing_argument_asks_for_usage_line() {
    let args = vec![b("prog")];
    match cli_action(&args) {
        CliAction::Usage { line } => assert_eq!(line, b("Usage: prog <filename>")),
        _ => panic!("expected the usage action"),
    }
}

#[test]
fn present_argument_names_the_archive() {
    let args = vec![b("prog"), b("x.zip")];
    match cli_action(&args) {
        CliAction::Extract { archive_path } => assert_eq!(archive_path, b("x.zip")),
        _ => panic!("expected the extract action"),
    }
}
