//! Remote selection and the error rendering helpers.

use jj_ryu::error::RyuError;
use jj_ryu::progress::CliProgress;
use jj_ryu::submit::execute::render_error;
use jj_ryu::types::GitRemote;
use jj_ryu::vcs::select_remote;

fn remote(name: &str) -> GitRemote {
    GitRemote {
        name: name.to_string(),
        url: format!("https://github.com/owner/{name}.git"),
    }
}

#[test]
fn test_select_remote_requested() {
    let remotes = vec![remote("origin"), remote("fork")];
    assert_eq!(select_remote(&remotes, Some("fork")).unwrap(), "fork");
}

#[test]
fn test_select_remote_requested_missing() {
    let remotes = vec![remote("origin")];
    assert!(matches!(
        select_remote(&remotes, Some("nope")).unwrap_err(),
        RyuError::RemoteNotFound(_)
    ));
}

#[test]
fn test_select_remote_single() {
    let remotes = vec![remote("upstream")];
    assert_eq!(select_remote(&remotes, None).unwrap(), "upstream");
}

#[test]
fn test_select_remote_prefers_origin() {
    let remotes = vec![remote("fork"), remote("origin")];
    assert_eq!(select_remote(&remotes, None).unwrap(), "origin");
}

#[test]
fn test_select_remote_falls_back_to_first() {
    let remotes = vec![remote("alpha"), remote("beta")];
    assert_eq!(select_remote(&remotes, None).unwrap(), "alpha");
}

#[test]
fn test_select_remote_none() {
    let remotes: Vec<GitRemote> = vec![];
    assert!(matches!(
        select_remote(&remotes, None).unwrap_err(),
        RyuError::NoSupportedRemotes
    ));
}

#[test]
fn test_render_error_carries_detail() {
    let e = RyuError::BookmarkNotFound("feat-a".to_string());
    let rendered = render_error(&e);
    assert!(rendered.contains("bookmark not found"));
    assert!(rendered.contains("feat-a"));
    let plain = render_error(&RyuError::NoSupportedRemotes);
    assert_eq!(plain, "no supported remotes");
}

#[test]
fn test_cli_progress_modes() {
    assert!(CliProgress::verbose().verbose);
    assert!(!CliProgress::compact().verbose);
}
