//! The in-memory editing operations: drafts, position lookup, deletion.

use vim_reviewer::review::{Comment, CommitTarget, EditError, GitBackend, Review, Side};

fn sample_review() -> Review {
    Review::new(
        "acme".to_string(),
        "widgets".to_string(),
        GitBackend::GitHub,
        None,
        101,
        String::new(),
        Vec::new(),
    )
}

fn comment_at(path: &str, line: u32, start_line: Option<u32>) -> Comment {
    Comment::new(
        "note".to_string(),
        line,
        path.to_string(),
        Side::RIGHT,
        start_line,
        Some(Side::RIGHT),
    )
}

#[test]
fn test_begin_comment_starts_empty_draft() {
    let mut r = sample_review();
    let ok = r.begin_comment("a.go".to_string(), Side::RIGHT, 10, Some(9), Some(Side::RIGHT));
    assert_eq!(ok, Ok(()));
    let draft = r.in_progress_comment.as_ref().unwrap();
    assert_eq!(draft.body, "");
    assert_eq!(draft.line, 10);
    assert_eq!(draft.path, "a.go");
}

#[test]
fn test_begin_comment_twice_fails() {
    let mut r = sample_review();
    assert_eq!(
        r.begin_comment("a.go".to_string(), Side::RIGHT, 10, Some(9), Some(Side::RIGHT)),
        Ok(())
    );
    let before_comments = r.comments.len();
    let second = r.begin_comment("b.go".to_string(), Side::LEFT, 3, None, None);
    assert_eq!(second, Err(EditError::CommentInProgress));
    // the state is unchanged: the first draft is still there
    let draft = r.in_progress_comment.as_ref().unwrap();
    assert_eq!(draft.path, "a.go");
    assert_eq!(draft.line, 10);
    assert_eq!(r.comments.len(), before_comments);
}

#[test]
fn test_commit_comment_new_appends() {
    let mut r = sample_review();
    r.begin_comment("a.go".to_string(), Side::RIGHT, 10, Some(9), Some(Side::RIGHT)).unwrap();
    let ok = r.commit_comment("looks wrong".to_string(), CommitTarget::New);
    assert_eq!(ok, Ok(()));
    assert!(r.in_progress_comment.is_none());
    assert_eq!(r.comments.len(), 1);
    assert_eq!(r.comments[0].body, "looks wrong");
    assert_eq!(r.comments[0].line, 10);
}

#[test]
fn test_commit_comment_existing_overwrites() {
    let mut r = sample_review();
    r.add_comment(comment_at("a.go", 4, None));
    r.add_comment(comment_at("b.go", 8, None));
    r.begin_comment("c.go".to_string(), Side::LEFT, 20, Some(18), Some(Side::LEFT)).unwrap();
    let ok = r.commit_comment("edited".to_string(), CommitTarget::ExistingAt(1));
    assert_eq!(ok, Ok(()));
    assert!(r.in_progress_comment.is_none());
    assert_eq!(r.comments.len(), 2);
    assert_eq!(r.comments[0].path, "a.go");
    assert_eq!(r.comments[1].body, "edited");
    assert_eq!(r.comments[1].path, "c.go");
}

#[test]
fn test_commit_comment_without_draft_fails() {
    let mut r = sample_review();
    let res = r.commit_comment("text".to_string(), CommitTarget::New);
    assert_eq!(res, Err(EditError::NoInProgressComment));
    assert!(r.comments.is_empty());
}

#[test]
fn test_commit_comment_bad_index_fails() {
    let mut r = sample_review();
    r.begin_comment("a.go".to_string(), Side::RIGHT, 10, None, None).unwrap();
    let res = r.commit_comment("text".to_string(), CommitTarget::ExistingAt(5));
    assert_eq!(res, Err(EditError::IndexOutOfRange));
    // the draft is kept so the text can be committed elsewhere
    assert!(r.in_progress_comment.is_some());
}

#[test]
fn test_find_at_prefers_span_that_covers_line() {
    let mut r = sample_review();
    // single-line comment at line 10 (start one above, by convention)
    r.add_comment(comment_at("a.go", 10, Some(9)));
    // a comment spanning lines 5..=12
    r.add_comment(comment_at("a.go", 12, Some(5)));
    let hit = r.get_comment_at_position("a.go".to_string(), 11);
    let (idx, c) = hit.unwrap();
    assert_eq!(idx, 1);
    assert_eq!(c.start_line, Some(5));
    assert_eq!(c.line, 12);
}

#[test]
fn test_find_at_first_match_in_list_order() {
    let mut r = sample_review();
    r.add_comment(comment_at("a.go", 10, Some(9)));
    r.add_comment(comment_at("a.go", 12, Some(5)));
    // line 10 is covered by both; the first one in list order wins
    let (idx, c) = r.get_comment_at_position("a.go".to_string(), 10).unwrap();
    assert_eq!(idx, 0);
    assert_eq!(c.line, 10);
}

#[test]
fn test_find_at_other_path_misses() {
    let mut r = sample_review();
    r.add_comment(comment_at("a.go", 10, Some(9)));
    assert!(r.get_comment_at_position("b.go".to_string(), 10).is_none());
    assert!(r.get_comment_at_position("a.go".to_string(), 11).is_none());
}

#[test]
fn test_delete_comment_then_find_none() {
    let mut r = sample_review();
    r.add_comment(comment_at("a.go", 10, Some(9)));
    let (_, found) = r.get_comment_at_position("a.go".to_string(), 10).unwrap();
    let found = found.clone();
    assert_eq!(r.delete_comment(&found), Ok(()));
    assert!(r.get_comment_at_position("a.go".to_string(), 10).is_none());
    assert!(r.comments.is_empty());
}

#[test]
fn test_delete_comment_missing_fails() {
    let mut r = sample_review();
    r.add_comment(comment_at("a.go", 10, Some(9)));
    let other = comment_at("a.go", 11, Some(10));
    assert_eq!(r.delete_comment(&other), Err(EditError::CommentNotFound));
    assert_eq!(r.comments.len(), 1);
}

#[test]
fn test_delete_comment_removes_first_equal() {
    let mut r = sample_review();
    r.add_comment(comment_at("a.go", 10, Some(9)));
    r.add_comment(comment_at("b.go", 3, None));
    r.add_comment(comment_at("a.go", 10, Some(9)));
    let victim = comment_at("a.go", 10, Some(9));
    assert_eq!(r.delete_comment(&victim), Ok(()));
    assert_eq!(r.comments.len(), 2);
    assert_eq!(r.comments[0].path, "b.go");
    assert_eq!(r.comments[1].path, "a.go");
}

#[test]
fn test_set_body_replaces() {
    let mut r = sample_review();
    r.set_body("overall: fine".to_string());
    assert_eq!(r.body, "overall: fine");
}

#[test]
fn test_edited_copy_is_not_structurally_equal() {
    let a = comment_at("a.go", 10, Some(9));
    let mut b = a.clone();
    assert_eq!(a, b);
    b.body = "changed".to_string();
    assert_ne!(a, b);
}
