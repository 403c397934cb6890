//! A sync root from its registration to its end.
use crate::paths::{join, joined, Platform};
use crate::text::{decimal, decimal_of, join2, join3};
use vstd::prelude::*;

verus! {

/// Name under which sync roots are registered.
pub const PROVIDER_NAME: &'static str = "MediaMount";

/// What is done about the cache and the visited folders when a sync root starts.
#[derive(Clone, Copy, Debug, PartialEq, Eq, Structural)]
pub struct StartPlan {
    /// The cache could not be read: rebuild it and drop all contents.
    pub rebuild: bool,
    /// The cache is empty though the root was there before: look for contents and note them.
    pub index_found: bool,
    /// Note all folders of the root as visited, and follow them.
    pub seed_folders: bool,
}

/// What ends a sync root, in order.
#[derive(Clone, Copy, Debug, PartialEq, Eq, Structural)]
pub enum StopStep {
    NoteConnected,
    StopUploads,
    StopWatcher,
    Disconnect,
}

/// A sync root and which of its parts run.
pub struct SyncRoot {
    pub mount_id: String,
    pub nas_root: String,
    pub client_root: String,
    pub connected: bool,
    pub uploads: bool,
    pub watcher: bool,
}

impl SyncRoot {
    /// What is done when a sync root starts. `damaged` says that its cache could not be read,
    /// `reconnected` that it was registered before, and `cached_bytes` what the cache holds.
    pub fn start(damaged: bool, reconnected: bool, cached_bytes: u64) -> (p: StartPlan)
        ensures
            p == (StartPlan {
                rebuild: damaged,
                index_found: !damaged && reconnected && cached_bytes == 0,
                seed_folders: reconnected,
            }),
    {
        StartPlan {
            rebuild: damaged,
            index_found: !damaged && cached_bytes == 0 && reconnected,
            seed_folders: reconnected,
        }
    }

    /// What ends the sync root: its uploads first, then the watcher, then the session. The
    /// registration stays.
    pub fn stop(&mut self) -> (out: Vec<StopStep>)
        ensures
            out@ == seq![StopStep::NoteConnected] + (if old(self).uploads {
                seq![StopStep::StopUploads]
            } else {
                Seq::empty()
            }) + (if old(self).watcher {
                seq![StopStep::StopWatcher]
            } else {
                Seq::empty()
            }) + seq![StopStep::Disconnect],
            !final(self).uploads,
            !final(self).watcher,
            !final(self).connected,
            final(self).mount_id == old(self).mount_id,
            final(self).nas_root == old(self).nas_root,
            final(self).client_root == old(self).client_root,
    {
        let mut out: Vec<StopStep> = Vec::new();
        out.push(StopStep::NoteConnected);
        if self.uploads {
            out.push(StopStep::StopUploads);
            self.uploads = false;
        }
        if self.watcher {
            out.push(StopStep::StopWatcher);
            self.watcher = false;
        }
        out.push(StopStep::Disconnect);
        self.connected = false;
        assert(out@ =~= seq![StopStep::NoteConnected] + (if old(self).uploads {
            seq![StopStep::StopUploads]
        } else {
            Seq::empty()
        }) + (if old(self).watcher {
            seq![StopStep::StopWatcher]
        } else {
            Seq::empty()
        }) + seq![StopStep::Disconnect]);
        out
    }

    /// Whether anything of the sync root still runs.
    pub fn is_running(&self) -> (r: bool)
        ensures
            r == (self.connected || self.uploads || self.watcher),
    {
        self.connected || self.uploads || self.watcher
    }

    /// What is told of the uploads, where they run.
    pub fn activity_summary(&self, summary: &str) -> (out: String)
        ensures
            out@ == if self.uploads {
                summary@
            } else {
                "Disabled"@
            },
    {
        if self.uploads {
            summary.to_owned()
        } else {
            "Disabled".to_owned()
        }
    }
}

/// What is told of running uploads.
pub open spec fn uploads_text(n: nat) -> Seq<char> {
    if n == 0 {
        "Idle"@
    } else {
        "Uploading "@ + decimal(n) + " files"@
    }
}

/// What is told of running uploads.
pub fn uploads_summary(n: u64) -> (out: String)
    ensures
        out@ == uploads_text(n as nat),
{
    if n == 0 {
        "Idle".to_owned()
    } else {
        join3("Uploading ", decimal_of(n).as_str(), " files")
    }
}

/// The icon of a sync root: the one beside the program where it is there, else the program's own,
/// else one of the system. `exe` is the path of the program and its directory, where that has one.
pub open spec fn icon_text(exe: Option<(Seq<char>, Option<Seq<char>>)>, beside: bool) -> Seq<char> {
    match exe {
        Some((path, dir)) => match dir {
            Some(d) => if beside {
                joined(Platform::Windows, d, "cloud-sync.ico"@)
            } else {
                path + ",0"@
            },
            None => path + ",0"@,
        },
        None => "%SystemRoot%\\system32\\shell32.dll,12"@,
    }
}

/// The icon of a sync root.
pub fn find_icon(exe: Option<&str>, dir: Option<&str>, beside: bool) -> (out: String)
    ensures
        out@ == icon_text(
            match exe {
                Some(e) => Some(
                    (
                        e@,
                        match dir {
                            Some(d) => Some(d@),
                            None => None,
                        },
                    ),
                ),
                None => None,
            },
            beside,
        ),
{
    match exe {
        Some(e) => {
            match dir {
                Some(d) => if beside {
                    return join(Platform::Windows, d, "cloud-sync.ico");
                },
                None => {},
            }
            join2(e, ",0")
        },
        None => "%SystemRoot%\\system32\\shell32.dll,12".to_owned(),
    }
}

/// Whether the start of a program with elevated rights succeeded, by the number that the system
/// returned.
pub fn elevation_outcome(code: usize) -> (r: Result<(), String>)
    ensures
        r is Ok <==> code > 32,
        r matches Err(e) ==> e@ == "ShellExecuteW failed with code "@ + crate::text::decimal(
            code as nat,
        ) + " (user may have cancelled UAC)"@,
{
    if code > 32 {
        return Ok(());
    }
    let digits = crate::text::decimal_of(code as u64);
    let mut e = join2("ShellExecuteW failed with code ", digits.as_str());
    e.append(" (user may have cancelled UAC)");
    Err(e)
}

/// A cache that cannot be read is rebuilt and not searched; contents are looked for only where the
/// root was there before and its cache says that there are none.
pub proof fn law_lost_contents_are_looked_for(
    damaged: bool,
    reconnected: bool,
    bytes: u64,
    p: StartPlan,
)
    requires
        call_ensures(SyncRoot::start, (damaged, reconnected, bytes), p),
    ensures
        p.rebuild <==> damaged,
        p.index_found ==> !p.rebuild,
        p.index_found <==> reconnected && bytes == 0 && !damaged,
        p.seed_folders <==> reconnected,
{
}

/// Uploads are told by their number, and none by its own word.
pub proof fn law_uploads_are_told_by_their_number(n: nat)
    ensures
        n == 0 ==> uploads_text(n) == "Idle"@,
        n > 0 ==> uploads_text(n) == "Uploading "@ + decimal(n) + " files"@,
{
}

/// The icon beside the program is used where it is there, and otherwise the program's own.
pub proof fn law_icons_come_from_the_program(path: Seq<char>, dir: Seq<char>)
    ensures
        icon_text(Some((path, Some(dir))), true) == joined(
            Platform::Windows,
            dir,
            "cloud-sync.ico"@,
        ),
        icon_text(Some((path, Some(dir))), false) == path + ",0"@,
        icon_text(Some((path, None)), true) == path + ",0"@,
        icon_text(None, true) == icon_text(None, false),
{
}

/// A sync root runs as long as any part of it does, and tells of its uploads only while they do.
pub proof fn law_running_parts_are_told(s: SyncRoot, r: bool, summary: &str, told: String)
    requires
        call_ensures(SyncRoot::is_running, (&s,), r),
        call_ensures(SyncRoot::activity_summary, (&s, summary), told),
    ensures
        s.connected ==> r,
        s.uploads ==> r && told@ == summary@,
        s.watcher ==> r,
        !s.connected && !s.uploads && !s.watcher ==> !r,
        !s.uploads ==> told@ == "Disabled"@,
{
}

/// A program was started with elevated rights exactly where the system answered with a number
/// above thirty-two; the number is told otherwise.
pub proof fn law_refused_rights_are_told(code: usize, r: Result<(), String>)
    requires
        call_ensures(elevation_outcome, (code,), r),
    ensures
        r is Ok <==> code > 32,
        r matches Err(e) ==> crate::text::occurs(e@, decimal(code as nat)),
{
    if let Err(e) = r {
        let lead = "ShellExecuteW failed with code "@.len() as int;
        let d = decimal(code as nat);
        assert(e@.subrange(lead, lead + d.len()) =~= d);
        assert(crate::text::occurs_at(e@, d, lead));
    }
}

/// A sync root ends with its session, after what runs in it was stopped; what does not run is not
/// stopped, and the root stays what it was.
pub proof fn law_sync_roots_end_in_order(s: &mut SyncRoot, out: Vec<StopStep>)
    requires
        call_ensures(SyncRoot::stop, (s,), out),
    ensures
        out@[0] is NoteConnected,
        out@.last() is Disconnect,
        out@.contains(StopStep::StopUploads) <==> old(s).uploads,
        out@.contains(StopStep::StopWatcher) <==> old(s).watcher,
        old(s).uploads && old(s).watcher ==> out@[1] is StopUploads && out@[2] is StopWatcher,
        !final(s).uploads && !final(s).watcher && !final(s).connected,
        final(s).client_root == old(s).client_root,
{
    if old(s).uploads {
        assert(out@[1] == StopStep::StopUploads);
        if old(s).watcher {
            assert(out@[2] == StopStep::StopWatcher);
        }
    } else if old(s).watcher {
        assert(out@[1] == StopStep::StopWatcher);
    }
}

} // verus!
