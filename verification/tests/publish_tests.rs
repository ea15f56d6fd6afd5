//! The publication payloads: endpoints, headers, and GitLab's position and
//! line-range encoding.

use vim_reviewer::publish::{comment_is_multi_line, github_auth_header, gitlab_auth_header,
    gitlab_discussion_payload, gitlab_position_json};
use vim_reviewer::review::{Comment, GitBackend, Review, Side};

fn review_on(backend: GitBackend, backend_url: Option<&str>) -> Review {
    Review::new(
        "acme".to_string(),
        "widgets".to_string(),
        backend,
        backend_url.map(|s| s.to_string()),
        7,
        "summary".to_string(),
        Vec::new(),
    )
}

#[test]
fn test_post_url_github() {
    let r = review_on(GitBackend::GitHub, None);
    assert_eq!(r.post_url(), "https://api.github.com/repos/acme/widgets/pulls/7/reviews");
}

#[test]
fn test_post_url_gitlab() {
    let r = review_on(GitBackend::GitLab, None);
    assert_eq!(
        r.post_url(),
        "https://gitlab.com/api/v4/projects/acme%2Fwidgets/merge_requests/7/discussions"
    );
}

#[test]
fn test_gitlab_urls_default_host() {
    let r = review_on(GitBackend::GitLab, None);
    assert_eq!(
        r.gitlab_mr_url(),
        "https://gitlab.com/api/v4/projects/acme%2Fwidgets/merge_requests/7"
    );
    assert_eq!(
        r.gitlab_notes_url(),
        "https://gitlab.com/api/v4/projects/acme%2Fwidgets/merge_requests/7/notes"
    );
    assert_eq!(
        r.gitlab_discussions_url(),
        "https://gitlab.com/api/v4/projects/acme%2Fwidgets/merge_requests/7/discussions"
    );
}

#[test]
fn test_gitlab_urls_override_host() {
    let r = review_on(GitBackend::GitLab, Some("https://gitlab.example.com"));
    assert_eq!(
        r.gitlab_mr_url(),
        "https://gitlab.example.com/api/v4/projects/acme%2Fwidgets/merge_requests/7"
    );
}

#[test]
fn test_note_payload() {
    let r = review_on(GitBackend::GitLab, None);
    assert_eq!(r.gitlab_note_payload(), "{\"body\":\"summary\"}");
}

#[test]
fn test_auth_headers() {
    assert_eq!(github_auth_header("t0"), "token t0");
    assert_eq!(gitlab_auth_header("t0"), "Bearer t0");
}

#[test]
fn test_token_env_vars() {
    assert_eq!(GitBackend::GitHub.token_env_var(), "GH_REVIEW_API_TOKEN");
    assert_eq!(GitBackend::GitLab.token_env_var(), "GITLAB_TOKEN");
}

#[test]
fn test_multi_line_convention() {
    let single = Comment::new(
        String::new(),
        42,
        "a.go".to_string(),
        Side::RIGHT,
        Some(41),
        Some(Side::RIGHT),
    );
    assert!(!comment_is_multi_line(&single));
    let multi = Comment::new(
        String::new(),
        9,
        "a.go".to_string(),
        Side::LEFT,
        Some(5),
        Some(Side::LEFT),
    );
    assert!(comment_is_multi_line(&multi));
    let no_start = Comment::new(String::new(), 1, "a.go".to_string(), Side::RIGHT, None, None);
    assert!(!comment_is_multi_line(&no_start));
    let first_line = Comment::new(
        String::new(),
        0,
        "a.go".to_string(),
        Side::RIGHT,
        Some(0),
        Some(Side::RIGHT),
    );
    assert!(!comment_is_multi_line(&first_line));
}

#[test]
fn test_position_single_line_right() {
    let c = Comment::new(
        "t".to_string(),
        42,
        "a.go".to_string(),
        Side::RIGHT,
        Some(41),
        Some(Side::RIGHT),
    );
    let pos = gitlab_position_json(&c, "B", "S", "H");
    assert_eq!(
        pos,
        "{\"position_type\":\"text\",\"base_sha\":\"B\",\"start_sha\":\"S\",\
         \"head_sha\":\"H\",\"new_path\":\"a.go\",\"old_path\":null,\"new_line\":42,\
         \"old_line\":null}"
    );
}

#[test]
fn test_position_multi_line_left() {
    let c = Comment::new(
        "t".to_string(),
        9,
        "a.go".to_string(),
        Side::LEFT,
        Some(5),
        Some(Side::LEFT),
    );
    let pos = gitlab_position_json(&c, "B", "S", "H");
    assert_eq!(
        pos,
        "{\"position_type\":\"text\",\"base_sha\":\"B\",\"start_sha\":\"S\",\
         \"head_sha\":\"H\",\"new_path\":null,\"old_path\":\"a.go\",\"new_line\":null,\
         \"old_line\":5,\"line_range\":{\"start\":{\"line_code\":\"a.go_5\",\
         \"type\":\"old\"},\"end\":{\"line_code\":\"a.go_9\",\"type\":\"old\"}}}"
    );
}

#[test]
fn test_position_normalizes_backslashes() {
    let c = Comment::new(
        "t".to_string(),
        3,
        "dir\\a.go".to_string(),
        Side::RIGHT,
        None,
        None,
    );
    let pos = gitlab_position_json(&c, "B", "S", "H");
    assert!(pos.contains("\"new_path\":\"dir/a.go\""));
}

#[test]
fn test_position_is_real_json() {
    let c = Comment::new(
        "t".to_string(),
        9,
        "a.go".to_string(),
        Side::LEFT,
        Some(5),
        Some(Side::LEFT),
    );
    let pos = gitlab_position_json(&c, "B", "S", "H");
    let v: serde_json::Value = serde_json::from_str(pos.as_str()).unwrap();
    assert_eq!(v["position_type"].as_str(), Some("text"));
    assert_eq!(v["old_line"].as_u64(), Some(5));
    assert!(v["new_line"].is_null());
    assert_eq!(v["line_range"]["end"]["line_code"].as_str(), Some("a.go_9"));
}

#[test]
fn test_discussion_payload_wraps_position() {
    let c = Comment::new(
        "needs a guard".to_string(),
        42,
        "a.go".to_string(),
        Side::RIGHT,
        Some(41),
        Some(Side::RIGHT),
    );
    let payload = gitlab_discussion_payload(&c, "B", "S", "H");
    let v: serde_json::Value = serde_json::from_str(payload.as_str()).unwrap();
    assert_eq!(v["body"].as_str(), Some("needs a guard"));
    assert_eq!(v["position"]["new_line"].as_u64(), Some(42));
}

#[test]
fn test_discussion_payloads_from_mr_document() {
    let mut r = review_on(GitBackend::GitLab, None);
    r.add_comment(Comment::new(
        "one".to_string(),
        4,
        "a.go".to_string(),
        Side::RIGHT,
        Some(3),
        Some(Side::RIGHT),
    ));
    r.add_comment(Comment::new(
        "two".to_string(),
        9,
        "b.go".to_string(),
        Side::LEFT,
        Some(5),
        Some(Side::LEFT),
    ));
    let mr = "{\"diff_refs\":{\"base_sha\":\"B1\",\"start_sha\":\"S1\",\"head_sha\":\"H1\"}}";
    let payloads = r.gitlab_discussion_payloads(mr).unwrap();
    assert_eq!(payloads.len(), 2);
    assert!(payloads[0].contains("\"body\":\"one\""));
    assert!(payloads[0].contains("\"base_sha\":\"B1\""));
    assert!(payloads[1].contains("\"line_code\":\"b.go_5\""));
}

#[test]
fn test_discussion_payloads_bad_document() {
    let r = review_on(GitBackend::GitLab, None);
    assert!(r.gitlab_discussion_payloads("not json").is_none());
    // a JSON document without diff anchors falls back to empty SHAs
    let payloads = r.gitlab_discussion_payloads("{}").unwrap();
    assert_eq!(payloads.len(), 0);
}
