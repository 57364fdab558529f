use unzip::sanitize_name;

fn b(x: &str) -> Vec<u8> {
    x.as_bytes().to_vec()
}

#[test]
fn plain_relative_name_is_kept() {
    assert_eq!(sanitize_name(&b("a/b/c.txt")), Some(b("a/b/c.txt")));
}

#[test]
fn top_level_name_is_kept() {
    assert_eq!(sanitize_name(&b("c.txt")), Some(b("c.txt")));
}

#[test]
fn parent_escape_is_rejected() {
    assert_eq!(sanitize_name(&b("../evil.txt")), None);
}

#[test]
fn absolute_name_is_rejected() {
    assert_eq!(sanitize_name(&b("/etc/passwd")), None);
}

#[test]
fn inner_parent_step_is_resolved() {
    assert_eq!(sanitize_name(&b("a/../b")), Some(b("b")));
}

#[test]
fn deep_escape_is_rejected() {
    assert_eq!(sanitize_name(&b("a/../../b")), None);
}

#[test]
fn current_dir_components_are_dropped() {
    assert_eq!(sanitize_name(&b("a/./b")), Some(b("a/b")));
}

#[test]
fn doubled_separator_is_collapsed() {
    assert_eq!(sanitize_name(&b("a//b")), Some(b("a/b")));
}

#[test]
fn trailing_separator_is_dropped() {
    assert_eq!(sanitize_name(&b("a/b/")), Some(b("a/b")));
}

#[test]
fn name_with_nul_byte_is_rejected() {
    assert_eq!(sanitize_name(&vec![97, 0, 98]), None);
}

#[test]
fn backslash_escape_is_rejected() {
    assert_eq!(sanitize_name(&b("..\\evil.txt")), None);
}

#[test]
fn name_with_backslash_is_rejected() {
    assert_eq!(sanitize_name(&b("a\\b")), None);
}

#[test]
fn drive_prefixed_name_is_rejected() {
    assert_eq!(sanitize_name(&b("C:\\x")), None);
    assert_eq!(sanitize_name(&b("C:x")), None);
}

#[test]
fn empty_name_is_rejected() {
    assert_eq!(sanitize_name(&b("")), None);
}

#[test]
fn lone_current_dir_is_rejected() {
    assert_eq!(sanitize_name(&b(".")), None);
}

#[test]
fn lone_parent_dir_is_rejected() {
    assert_eq!(sanitize_name(&b("..")), None);
}

#[test]
fn name_resolving_to_nothing_is_rejected() {
    assert_eq!(sanitize_name(&b("a/..")), None);
}
