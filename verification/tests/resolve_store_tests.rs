//! Diff-side resolution of viewed files, and the persisted documents' paths.

use vim_reviewer::resolve::resolve_buffer_path;
use vim_reviewer::review::Side;
use vim_reviewer::store::{get_config_file_path, get_review_file_path};

#[test]
fn test_resolve_working_tree_file() {
    let r = resolve_buffer_path("/home/u/proj/src/lib.rs", "/home/u/proj/");
    assert_eq!(r, Some((Side::RIGHT, "src/lib.rs".to_string())));
}

#[test]
fn test_resolve_snapshot_file() {
    let oid = "0123456789abcdef0123456789abcdef01234567";
    let buffer = format!("fugitive:///home/u/proj/.git//{}/src/lib.rs", oid);
    let r = resolve_buffer_path(buffer.as_str(), "/home/u/proj/");
    assert_eq!(r, Some((Side::LEFT, "src/lib.rs".to_string())));
}

#[test]
fn test_resolve_snapshot_takes_last_object_id() {
    let oid1 = "aaaaaaaaaaaaaaaaaaaaaaaaaaaaaaaaaaaaaaaa";
    let oid2 = "bbbbbbbbbbbbbbbbbbbbbbbbbbbbbbbbbbbbbbbb";
    let buffer = format!("fugitive://x/{}/y/{}/z.rs", oid1, oid2);
    let r = resolve_buffer_path(buffer.as_str(), "/w/");
    assert_eq!(r, Some((Side::LEFT, "z.rs".to_string())));
}

#[test]
fn test_resolve_outside_repository() {
    assert_eq!(resolve_buffer_path("/etc/passwd", "/home/u/proj/"), None);
}

#[test]
fn test_resolve_snapshot_without_object_id() {
    assert_eq!(resolve_buffer_path("fugitive://short", "/home/u/proj/"), None);
}

#[test]
fn test_review_file_path() {
    assert_eq!(
        get_review_file_path("/repo/.git/reviews", 101),
        "/repo/.git/reviews/101-review.json"
    );
    assert_eq!(
        get_review_file_path("/repo/.git/reviews/", 5),
        "/repo/.git/reviews/5-review.json"
    );
}

#[test]
fn test_config_file_path() {
    assert_eq!(get_config_file_path("/repo/.git/reviews"), "/repo/.git/reviews/config.json");
}
