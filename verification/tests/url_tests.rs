//! The repository locator: remote URLs of both shapes, the error cases, and
//! the TOML configuration source.

use vim_reviewer::review::GitBackend;
use vim_reviewer::url::{backend_from_str, base_url_of, config_from_toml_text,
    parse_config_from_url, UrlError};

#[test]
fn test_parse_https_github() {
    let r = parse_config_from_url("https://github.com/acme/widgets.git").unwrap();
    assert_eq!(r.0, "acme");
    assert_eq!(r.1, "widgets");
    assert_eq!(r.2, GitBackend::GitHub);
}

#[test]
fn test_parse_ssh_gitlab() {
    let r = parse_config_from_url("git@gitlab.com:acme/widgets.git").unwrap();
    assert_eq!(r.0, "acme");
    assert_eq!(r.1, "widgets");
    assert_eq!(r.2, GitBackend::GitLab);
}

#[test]
fn test_parse_ssh_github() {
    let r = parse_config_from_url("git@github.com:owner/repo.git").unwrap();
    assert_eq!(r.0, "owner");
    assert_eq!(r.1, "repo");
    assert_eq!(r.2, GitBackend::GitHub);
}

#[test]
fn test_parse_https_gitlab_self_hosted() {
    let r = parse_config_from_url("https://gitlab.example.com/group/proj.git").unwrap();
    assert_eq!(r.0, "group");
    assert_eq!(r.1, "proj");
    assert_eq!(r.2, GitBackend::GitLab);
}

#[test]
fn test_parse_without_git_suffix() {
    let r = parse_config_from_url("https://github.com/acme/widgets").unwrap();
    assert_eq!(r.1, "widgets");
}

#[test]
fn test_git_inside_name_is_also_removed() {
    // `.git` removal is a substring replacement, not anchored to the end
    let r = parse_config_from_url("https://github.com/acme/my.gitrepo.git").unwrap();
    assert_eq!(r.1, "myrepo");
}

#[test]
fn test_unknown_backend() {
    assert_eq!(
        parse_config_from_url("https://bitbucket.org/a/b.git"),
        Err(UrlError::UnknownBackend)
    );
}

#[test]
fn test_malformed_ssh() {
    assert_eq!(parse_config_from_url("git@github.com:"), Err(UrlError::MalformedSshUrl));
}

#[test]
fn test_malformed_https() {
    assert_eq!(
        parse_config_from_url("https://github.com"),
        Err(UrlError::MalformedHttpsUrl)
    );
}

#[test]
fn test_unsupported_shape() {
    assert_eq!(parse_config_from_url("github.com/a/b"), Err(UrlError::UnsupportedUrl));
}

#[test]
fn test_base_url() {
    assert_eq!(
        base_url_of("https://gitlab.example.com/group/proj.git"),
        Some("https://gitlab.example.com".to_string())
    );
    assert_eq!(base_url_of("git@gitlab.com:a/b.git"), None);
}

#[test]
fn test_backend_from_str_case_insensitive() {
    assert_eq!(backend_from_str("github"), Some(GitBackend::GitHub));
    assert_eq!(backend_from_str("GitHub"), Some(GitBackend::GitHub));
    assert_eq!(backend_from_str("GITLAB"), Some(GitBackend::GitLab));
    assert_eq!(backend_from_str("sourcehut"), None);
}

#[test]
fn test_config_from_toml() {
    let text = "[backend]\ntype = \"GitLab\"\nurl = \"https://gitlab.example.com/g/p.git\"\ntoken = \"t0\"\n";
    let (backend, url, token) = config_from_toml_text(text).unwrap();
    assert_eq!(backend, GitBackend::GitLab);
    assert_eq!(url, Some("https://gitlab.example.com/g/p.git".to_string()));
    assert_eq!(token, "t0");
}

#[test]
fn test_config_from_toml_without_url() {
    let text = "[backend]\ntype = \"github\"\ntoken = \"t1\"\n";
    let (backend, url, token) = config_from_toml_text(text).unwrap();
    assert_eq!(backend, GitBackend::GitHub);
    assert_eq!(url, None);
    assert_eq!(token, "t1");
}

#[test]
fn test_config_from_toml_rejects() {
    assert!(config_from_toml_text("not toml [").is_none());
    assert!(config_from_toml_text("[backend]\ntype = \"sourcehut\"\ntoken = \"t\"\n").is_none());
    assert!(config_from_toml_text("[backend]\ntype = \"github\"\n").is_none());
}
