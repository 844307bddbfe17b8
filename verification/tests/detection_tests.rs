//! Remote-URL classification and owner/repository parsing.

use jj_ryu::error::RyuError;
use jj_ryu::platform::detect_platform;
use jj_ryu::platform::detect_platform_with_overrides;
use jj_ryu::platform::parse_repo_info;
use jj_ryu::platform::parse_repo_info_with_overrides;
use jj_ryu::types::Platform;

#[test]
fn test_detect_github_https() {
    assert_eq!(
        detect_platform("https://github.com/owner/repo.git"),
        Some(Platform::GitHub)
    );
}

#[test]
fn test_detect_github_ssh() {
    assert_eq!(
        detect_platform("git@github.com:owner/repo.git"),
        Some(Platform::GitHub)
    );
}

#[test]
fn test_detect_gitlab_https() {
    assert_eq!(
        detect_platform("https://gitlab.com/owner/repo.git"),
        Some(Platform::GitLab)
    );
}

#[test]
fn test_parse_github_repo() {
    let config = parse_repo_info("https://github.com/owner/repo.git").unwrap();
    assert_eq!(config.platform, Platform::GitHub);
    assert_eq!(config.owner, "owner");
    assert_eq!(config.repo, "repo");
    assert!(config.host.is_none());
}

#[test]
fn test_parse_gitlab_nested_groups() {
    let config = parse_repo_info("https://gitlab.com/group/subgroup/repo.git").unwrap();
    assert_eq!(config.platform, Platform::GitLab);
    assert_eq!(config.owner, "group/subgroup");
    assert_eq!(config.repo, "repo");
}

#[test]
fn test_detect_subdomain_hosts() {
    assert_eq!(
        detect_platform("https://corp.github.com/o/r"),
        Some(Platform::GitHub)
    );
    assert_eq!(
        detect_platform("git@dev.gitlab.com:o/r.git"),
        Some(Platform::GitLab)
    );
    assert_eq!(detect_platform("https://example.com/o/r.git"), None);
}

#[test]
fn test_detect_with_override_hosts() {
    assert_eq!(
        detect_platform_with_overrides("https://git.corp.example/o/r", Some("git.corp.example"), None),
        Some(Platform::GitHub)
    );
    assert_eq!(
        detect_platform_with_overrides("git@code.example:o/r.git", None, Some("code.example")),
        Some(Platform::GitLab)
    );
    assert_eq!(
        detect_platform_with_overrides("https://code.example/o/r", None, None),
        None
    );
}

#[test]
fn test_parse_self_hosted_keeps_host() {
    let config =
        parse_repo_info_with_overrides("https://git.corp.example/team/repo.git", Some("git.corp.example"), None)
            .unwrap();
    assert_eq!(config.platform, Platform::GitHub);
    assert_eq!(config.owner, "team");
    assert_eq!(config.repo, "repo");
    assert_eq!(config.host.as_deref(), Some("git.corp.example"));
}

#[test]
fn test_parse_ssh_without_git_suffix() {
    let config = parse_repo_info("git@gitlab.com:owner/repo").unwrap();
    assert_eq!(config.platform, Platform::GitLab);
    assert_eq!(config.owner, "owner");
    assert_eq!(config.repo, "repo");
}

#[test]
fn test_parse_unsupported_remote_error() {
    let err = parse_repo_info("https://example.com/owner/repo.git").unwrap_err();
    assert!(matches!(err, RyuError::NoSupportedRemotes));
}

#[test]
fn test_parse_malformed_url_error() {
    // Classified as GitHub, but no owner-and-repository path follows.
    let err = parse_repo_info("https://github.com/onlyrepo").unwrap_err();
    assert!(matches!(err, RyuError::Parse(_)));
    let err2 = parse_repo_info("git@github.com").unwrap_err();
    assert!(matches!(err2, RyuError::Parse(_)));
}
