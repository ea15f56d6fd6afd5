//! The persisted document form: exact encodings, round trips, rejection of
//! other text, and a cross-check against a general JSON parser.

use vim_reviewer::config::Config;
use vim_reviewer::review::{Comment, GitBackend, Review, Side};

fn sample_comment() -> Comment {
    Comment::new(
        "body text".to_string(),
        42,
        "src/a.go".to_string(),
        Side::RIGHT,
        Some(41),
        Some(Side::RIGHT),
    )
}

#[test]
fn test_review_to_json_exact() {
    let r = Review::new(
        "acme".to_string(),
        "widgets".to_string(),
        GitBackend::GitHub,
        None,
        7,
        "hi".to_string(),
        Vec::new(),
    );
    assert_eq!(
        r.to_json(),
        "{\"owner\":\"acme\",\"repo\":\"widgets\",\"backend\":\"GitHub\",\"backend_url\":null,\
         \"pr_number\":7,\"body\":\"hi\",\"comments\":[],\"in_progress_comment\":null}"
    );
}

#[test]
fn test_comment_fields_in_document() {
    let mut r = Review::new(
        "acme".to_string(),
        "widgets".to_string(),
        GitBackend::GitLab,
        Some("https://gitlab.example.com".to_string()),
        9,
        String::new(),
        Vec::new(),
    );
    r.add_comment(sample_comment());
    let text = r.to_json();
    assert!(text.contains(
        "\"comments\":[{\"body\":\"body text\",\"line\":42,\"path\":\"src/a.go\",\
         \"side\":\"RIGHT\",\"start_line\":41,\"start_side\":\"RIGHT\"}]"
    ));
    assert!(text.contains("\"backend\":\"GitLab\""));
    assert!(text.contains("\"backend_url\":\"https://gitlab.example.com\""));
}

#[test]
fn test_review_round_trip_with_draft() {
    // empty comment list and a present draft survive the round trip
    let mut r = Review::new(
        "acme".to_string(),
        "widgets".to_string(),
        GitBackend::GitHub,
        Some("https://github.example.com".to_string()),
        321,
        "summary".to_string(),
        Vec::new(),
    );
    r.begin_comment("x/y.rs".to_string(), Side::LEFT, 8, Some(3), Some(Side::LEFT)).unwrap();
    let text = r.to_json();
    let back = Review::from_json(text.as_str()).unwrap();
    assert_eq!(back, r);
}

#[test]
fn test_review_save_reload_one_comment() {
    // a fresh review for one pull request, one added comment, save, reload
    let mut r = Review::new(
        "acme".to_string(),
        "widgets".to_string(),
        GitBackend::GitHub,
        None,
        101,
        String::new(),
        Vec::new(),
    );
    let c = sample_comment();
    r.add_comment(c.clone());
    let text = r.to_json();
    let back = Review::from_json(text.as_str()).unwrap();
    assert_eq!(back.comments.len(), 1);
    assert_eq!(back.comments[0], c);
    assert_eq!(back, r);
}

#[test]
fn test_round_trip_escapes() {
    let mut r = Review::new(
        "acme".to_string(),
        "widgets".to_string(),
        GitBackend::GitLab,
        None,
        5,
        "line one\nline \"two\"\t\\end\r".to_string(),
        Vec::new(),
    );
    r.add_comment(Comment::new(
        "a \"quoted\"\nbody".to_string(),
        1,
        "weird\\path".to_string(),
        Side::LEFT,
        None,
        None,
    ));
    let text = r.to_json();
    let back = Review::from_json(text.as_str()).unwrap();
    assert_eq!(back, r);
}

#[test]
fn test_from_json_rejects_other_text() {
    assert!(Review::from_json("").is_none());
    assert!(Review::from_json("garbage").is_none());
    assert!(Review::from_json("{\"owner\":\"a\"}").is_none());
    let r = Review::new(
        "a".to_string(),
        "b".to_string(),
        GitBackend::GitHub,
        None,
        1,
        String::new(),
        Vec::new(),
    );
    let mut text = r.to_json();
    text.push('x');
    assert!(Review::from_json(text.as_str()).is_none());
}

#[test]
fn test_config_round_trip() {
    let c = Config::new(
        "acme".to_string(),
        "widgets".to_string(),
        GitBackend::GitLab,
        Some("https://gitlab.example.com".to_string()),
        Some(12),
    );
    let text = c.to_json();
    assert_eq!(
        text,
        "{\"owner\":\"acme\",\"repo\":\"widgets\",\"backend\":\"GitLab\",\
         \"backend_url\":\"https://gitlab.example.com\",\"active_pr\":12}"
    );
    let back = Config::from_json(text.as_str()).unwrap();
    assert_eq!(back, c);
}

#[test]
fn test_config_round_trip_absent_fields() {
    let c = Config::new(
        "o".to_string(),
        "r".to_string(),
        GitBackend::GitHub,
        None,
        None,
    );
    let text = c.to_json();
    assert_eq!(
        text,
        "{\"owner\":\"o\",\"repo\":\"r\",\"backend\":\"GitHub\",\"backend_url\":null,\
         \"active_pr\":null}"
    );
    let back = Config::from_json(text.as_str()).unwrap();
    assert_eq!(back, c);
}

#[test]
fn test_document_is_real_json() {
    // a general-purpose JSON parser agrees with the canonical encoder
    let mut r = Review::new(
        "acme".to_string(),
        "widgets".to_string(),
        GitBackend::GitHub,
        None,
        101,
        "sum\nmary".to_string(),
        Vec::new(),
    );
    r.add_comment(sample_comment());
    let text = r.to_json();
    let v: serde_json::Value = serde_json::from_str(text.as_str()).unwrap();
    assert_eq!(v["owner"].as_str(), Some("acme"));
    assert_eq!(v["pr_number"].as_u64(), Some(101));
    assert_eq!(v["body"].as_str(), Some("sum\nmary"));
    assert_eq!(v["comments"][0]["line"].as_u64(), Some(42));
    assert_eq!(v["comments"][0]["side"].as_str(), Some("RIGHT"));
    assert!(v["in_progress_comment"].is_null());
}

#[test]
fn test_number_too_large_is_rejected() {
    let r = Review::new(
        "o".to_string(),
        "r".to_string(),
        GitBackend::GitHub,
        None,
        1,
        String::new(),
        Vec::new(),
    );
    let text = r.to_json().replace("\"pr_number\":1", "\"pr_number\":4294967296");
    assert!(Review::from_json(text.as_str()).is_none());
}

#[test]
fn test_large_numbers_round_trip() {
    let r = Review::new(
        "o".to_string(),
        "r".to_string(),
        GitBackend::GitHub,
        None,
        u32::MAX,
        String::new(),
        Vec::new(),
    );
    let back = Review::from_json(r.to_json().as_str()).unwrap();
    assert_eq!(back.pr_number, u32::MAX);
}
