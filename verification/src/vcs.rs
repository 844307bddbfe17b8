//! The capability set consumed from the version control system: enumerate
//! bookmarks, evaluate the one ancestry query shape, push, fetch, and report
//! remotes and the trunk name.

use crate::error::RyuError;
use crate::types::Bookmark;
use crate::types::GitRemote;
use crate::types::LogEntry;
use vstd::prelude::*;

verus! {

/// The operations the library needs from a workspace.  Implementations run a
/// version control tool, so nothing is promised of the results: the verified
/// callers state what holds whatever comes back.
pub trait VcsWorkspace {
    /// The local bookmarks, in a stable order.
    fn local_bookmarks(&mut self) -> Result<Vec<Bookmark>, RyuError>;

    /// Evaluates `trunk()..<commit>` and returns its changes newest first.
    fn resolve_revset(&mut self, expr: &str) -> Result<Vec<LogEntry>, RyuError>;

    /// Pushes a bookmark to a remote, creating the remote ref if absent.
    fn git_push(&mut self, bookmark_name: &str, remote: &str) -> Result<(), RyuError>;

    /// Fetches from a remote.
    fn git_fetch(&mut self, remote: &str) -> Result<(), RyuError>;

    /// The configured remotes.
    fn git_remotes(&mut self) -> Result<Vec<GitRemote>, RyuError>;

    /// The trunk bookmark name, such as `main`.
    fn default_branch(&mut self) -> Result<String, RyuError>;
}

/// Picks the remote to use: the requested name if it exists, the only remote
/// if there is one, `origin` if present, else the first.
///
/// Fails with `NoSupportedRemotes` exactly when there is no remote, and with
/// `RemoteNotFound` exactly when the requested name is not a remote.
pub fn select_remote(remotes: &Vec<GitRemote>, requested: Option<&str>) -> (r: Result<
    String,
    RyuError,
>)
    ensures
        match r {
            Ok(name) => {
                &&& remotes@.len() > 0
                &&& exists|i: int| 0 <= i < remotes@.len() && (#[trigger] remotes@[i]).name@ == name@
                &&& match requested {
                    Some(req) => name@ == req@,
                    None => {
                        if remotes@.len() == 1 {
                            name@ == remotes@[0].name@
                        } else if exists|i: int|
                            0 <= i < remotes@.len() && (#[trigger] remotes@[i]).name@
                                == "origin"@ {
                            name@ == "origin"@
                        } else {
                            name@ == remotes@[0].name@
                        }
                    },
                }
            },
            Err(e) => {
                &&& (e is NoSupportedRemotes <==> remotes@.len() == 0)
                &&& (e is RemoteNotFound <==> remotes@.len() > 0 && (requested matches Some(req)
                    && !(exists|i: int|
                        0 <= i < remotes@.len() && (#[trigger] remotes@[i]).name@ == req@)))
                &&& (e is NoSupportedRemotes || e is RemoteNotFound)
            },
        },
{
    if remotes.len() == 0 {
        return Err(RyuError::NoSupportedRemotes);
    }
    match requested {
        Some(req) => {
            let mut i: usize = 0;
            while i < remotes.len()
                invariant
                    i <= remotes@.len(),
                    remotes@.len() > 0,
                    requested matches Some(r2) && r2@ == req@,
                    forall|j: int| 0 <= j < i ==> (#[trigger] remotes@[j]).name@ != req@,
                decreases remotes@.len() - i,
            {
                if crate::strutil::str_eq(remotes[i].name.as_str(), req) {
                    proof {
                        assert((#[trigger] remotes@[i as int]).name@ == req@);
                    }
                    return Ok(remotes[i].name.clone());
                }
                i += 1;
            }
            Err(RyuError::RemoteNotFound(String::from_str(req)))
        },
        None => {
            if remotes.len() == 1 {
                proof {
                    assert((#[trigger] remotes@[0]).name@ == remotes@[0].name@);
                }
                return Ok(remotes[0].name.clone());
            }
            let mut i: usize = 0;
            while i < remotes.len()
                invariant
                    i <= remotes@.len(),
                    remotes@.len() > 1,
                    requested is None,
                    forall|j: int| 0 <= j < i ==> (#[trigger] remotes@[j]).name@ != "origin"@,
                decreases remotes@.len() - i,
            {
                if crate::strutil::str_eq(remotes[i].name.as_str(), "origin") {
                    proof {
                        assert((#[trigger] remotes@[i as int]).name@ == "origin"@);
                    }
                    return Ok(remotes[i].name.clone());
                }
                i += 1;
            }
            proof {
                assert((#[trigger] remotes@[0]).name@ == remotes@[0].name@);
            }
            Ok(remotes[0].name.clone())
        },
    }
}

/// The bookmark a sync run submits for one stack: the first bookmark of the
/// leaf (last) segment, if the stack has one.
pub fn stack_target_bookmark(stack: &crate::types::BranchStack) -> (r: Option<&String>)
    ensures
        match r {
            Some(name) => stack.segments@.len() > 0 && stack.segments@[stack.segments@.len()
                - 1].bookmarks@.len() > 0 && name == stack.segments@[stack.segments@.len()
                - 1].bookmarks@[0].name,
            None => stack.segments@.len() == 0 || stack.segments@[stack.segments@.len()
                - 1].bookmarks@.len() == 0,
        },
{
    if stack.segments.len() == 0 {
        return None;
    }
    let leaf = &stack.segments[stack.segments.len() - 1];
    if leaf.bookmarks.len() == 0 {
        return None;
    }
    Some(&leaf.bookmarks[0].name)
}

} // verus!
