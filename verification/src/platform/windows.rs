//! Windows: links to shares, and sessions by the codes that the system answers with.
use crate::text::{join3, same, starts_with};
use vstd::prelude::*;

verus! {

/// Code of a failure for want of rights.
pub const ERROR_PRIVILEGE_NOT_HELD: i32 = 1314;

/// Code of a session that exists with other credentials.
pub const ERROR_SESSION_CREDENTIAL_CONFLICT: u32 = 1219;

/// Code of a name that is in use already.
pub const ERROR_ALREADY_ASSIGNED: u32 = 85;

/// Code of a connection that does not exist.
pub const ERROR_NOT_CONNECTED: u32 = 2250;

/// Why a link could not be made.
#[derive(Debug, Clone, PartialEq, Eq)]
pub enum SymlinkError {
    NeedsElevation,
    Other(String),
}

impl SymlinkError {
    /// The error of a link, by the code of the system and its message.
    pub fn from_os(code: Option<i32>, message: String) -> (r: SymlinkError)
        ensures
            r == if code == Some(ERROR_PRIVILEGE_NOT_HELD) {
                SymlinkError::NeedsElevation
            } else {
                SymlinkError::Other(message)
            },
    {
        match code {
            Some(c) => if c == ERROR_PRIVILEGE_NOT_HELD {
                SymlinkError::NeedsElevation
            } else {
                SymlinkError::Other(message)
            },
            None => SymlinkError::Other(message),
        }
    }

    /// The error in words.
    pub fn to_text(&self) -> (out: String)
        ensures
            out@ == match *self {
                SymlinkError::NeedsElevation => "Symlink creation requires elevation"@,
                SymlinkError::Other(msg) => msg@,
            },
    {
        match self {
            SymlinkError::NeedsElevation => "Symlink creation requires elevation".to_owned(),
            SymlinkError::Other(msg) => msg.clone(),
        }
    }

    /// The error as the mapping reports it.
    pub fn mapping_error(self) -> (out: String)
        ensures
            out@ == match self {
                SymlinkError::NeedsElevation => "NEEDS_ELEVATION"@,
                SymlinkError::Other(msg) => msg@,
            },
    {
        match self {
            SymlinkError::NeedsElevation => "NEEDS_ELEVATION".to_owned(),
            SymlinkError::Other(msg) => msg,
        }
    }
}

/// A path on a server, and not one in the long form of a local path.
pub open spec fn is_unc(path: Seq<char>) -> bool {
    "\\\\"@.is_prefix_of(path) && !"\\\\?\\"@.is_prefix_of(path)
}

/// Whether a path is one on a server.
pub fn is_unc_path(path: &str) -> (r: bool)
    ensures
        r == is_unc(path@),
{
    starts_with(path, "\\\\") && !starts_with(path, "\\\\?\\")
}

/// How a link is made.
#[derive(Clone, Copy, Debug, PartialEq, Eq, Structural)]
pub enum LinkKind {
    /// A symbolic link, which needs rights and can lead to a server.
    Symlink,
    /// A junction, which needs none and leads to a local directory.
    Junction,
}

/// What to do about a link.
#[derive(Clone, Copy, Debug, PartialEq, Eq, Structural)]
pub enum SwitchPlan {
    /// It is right as it is.
    Keep,
    /// Make it, after removing an old one where there is one.
    Make { remove_old: bool, kind: LinkKind },
}

/// Links that lead the user to a share.
pub struct WindowsMountMapping;

impl WindowsMountMapping {
    pub fn new() -> (s: WindowsMountMapping)
        ensures
            s == WindowsMountMapping,
    {
        WindowsMountMapping
    }

    /// What to do so that the mount point leads to the target; `current` is where a link that is
    /// there leads. Anything but a link is not overwritten.
    pub fn switch_plan(
        &self,
        mount_point: &str,
        target: &str,
        occupied: bool,
        is_link: bool,
        current: &Option<String>,
    ) -> (r: Result<SwitchPlan, String>)
        ensures
            ({
                let kind = if is_unc(target@) {
                    LinkKind::Symlink
                } else {
                    LinkKind::Junction
                };
                if is_link && current is Some && current->0@ == target@ {
                    r == Ok::<SwitchPlan, String>(SwitchPlan::Keep)
                } else if occupied && !is_link {
                    r matches Err(e) && e@ == "Path "@ + mount_point@
                        + " exists and is not a symlink/junction — refusing to overwrite"@
                } else {
                    r == Ok::<SwitchPlan, String>(
                        SwitchPlan::Make { remove_old: is_link, kind },
                    )
                }
            }),
    {
        if is_link {
            if let Some(c) = current {
                if same(c.as_str(), target) {
                    return Ok(SwitchPlan::Keep);
                }
            }
        }
        if occupied && !is_link {
            return Err(
                join3(
                    "Path ",
                    mount_point,
                    " exists and is not a symlink/junction — refusing to overwrite",
                ),
            );
        }
        let kind = if is_unc_path(target) {
            LinkKind::Symlink
        } else {
            LinkKind::Junction
        };
        Ok(SwitchPlan::Make { remove_old: is_link, kind })
    }
}

/// Credentials that the system keeps.
pub struct WindowsCredentialStore;

impl WindowsCredentialStore {
    pub fn new() -> (s: WindowsCredentialStore)
        ensures
            s == WindowsCredentialStore,
    {
        WindowsCredentialStore
    }
}

/// Whether the answer to opening a session means that there is one: it was opened, or one
/// existed already.
pub fn session_established(code: u32) -> (r: bool)
    ensures
        r == (code == 0 || code == ERROR_SESSION_CREDENTIAL_CONFLICT || code
            == ERROR_ALREADY_ASSIGNED),
{
    code == 0 || code == ERROR_SESSION_CREDENTIAL_CONFLICT || code == ERROR_ALREADY_ASSIGNED
}

/// Whether the answer to disconnecting a drive means that it is not connected.
pub fn drive_disconnected(code: u32) -> (r: bool)
    ensures
        r == (code == 0 || code == ERROR_NOT_CONNECTED),
{
    code == 0 || code == ERROR_NOT_CONNECTED
}

/// A local directory is linked without special rights, and a server never is.
pub proof fn law_only_servers_need_rights(path: Seq<char>)
    requires
        path.len() > 0,
        path[0] != '\\',
    ensures
        !is_unc(path),
{
    reveal_strlit("\\\\");
    if "\\\\"@.is_prefix_of(path) {
        assert("\\\\"@[0] == path.subrange(0, 2)[0]);
    }
}

/// A path lies on a server where it starts with two backslashes and something other than a
/// question mark, which begins the long form of a local path.
pub proof fn law_servers_are_told_by_two_backslashes(rest: Seq<char>)
    requires
        rest.len() > 0,
        rest[0] != '?',
    ensures
        is_unc(seq!['\\', '\\'] + rest),
        !is_unc(seq!['\\', '\\', '?', '\\'] + rest),
{
    reveal_strlit("\\\\");
    reveal_strlit("\\\\?\\");
    let a = seq!['\\', '\\'] + rest;
    let b = seq!['\\', '\\', '?', '\\'] + rest;
    assert(a.subrange(0, 2) =~= "\\\\"@);
    if "\\\\?\\"@.is_prefix_of(a) {
        assert(a.subrange(0, 4)[2] == '?');
        assert(a[2] == rest[0]);
    }
    assert(b.subrange(0, 4) =~= "\\\\?\\"@);
}

/// A link that leads to the target is kept, anything but a link is left alone, and a link to a
/// server is made another way than one to a local directory.
pub proof fn law_only_wrong_links_are_replaced(
    s: WindowsMountMapping,
    point: &str,
    target: &str,
    occupied: bool,
    is_link: bool,
    current: Option<String>,
    r: Result<SwitchPlan, String>,
)
    requires
        call_ensures(
            WindowsMountMapping::switch_plan,
            (&s, point, target, occupied, is_link, &current),
            r,
        ),
    ensures
        r is Err <==> occupied && !is_link,
        r matches Ok(SwitchPlan::Keep) ==> is_link && current is Some && current->0@ == target@,
        is_link && current is Some && current->0@ == target@ ==> r == Ok::<SwitchPlan, String>(
            SwitchPlan::Keep,
        ),
        r matches Ok(SwitchPlan::Make { remove_old, kind }) ==> remove_old == is_link && (kind
            is Symlink <==> is_unc(target@)),
{
}

/// Only one code of the system asks for rights, and that is what the mapping reports then; any
/// other failure is told by its own message.
pub proof fn law_missing_rights_are_told_by_their_code(
    code: Option<i32>,
    message: String,
    e: SymlinkError,
    told: String,
)
    requires
        call_ensures(SymlinkError::from_os, (code, message), e),
        call_ensures(SymlinkError::mapping_error, (e,), told),
    ensures
        e is NeedsElevation <==> code == Some(1_314i32),
        code == Some(1_314i32) ==> told@ == "NEEDS_ELEVATION"@,
        code != Some(1_314i32) ==> told@ == message@,
{
}

/// A session is there where it was opened or existed already, and a drive is gone where it was
/// disconnected or was not connected.
pub proof fn law_codes_tell_what_is_there(code: u32, there: bool, gone: bool)
    requires
        call_ensures(session_established, (code,), there),
        call_ensures(drive_disconnected, (code,), gone),
    ensures
        there <==> code == 0 || code == 1_219 || code == 85,
        gone <==> code == 0 || code == 2_250,
{
}

} // verus!
