//! Messages between the agent and its clients.
use vstd::prelude::*;

verus! {

/// What the agent tells its clients.
#[derive(Clone, Debug, PartialEq, Eq)]
pub enum AgentToUfb {
    MountStateUpdate(MountStateUpdateMsg),
    Ack(AckMsg),
    Error(ErrorMsg),
    Pong,
    ConflictDetected(ConflictDetectedMsg),
    /// Answer to `UfbToAgent::GetCacheStats`, all zero for a mount without a cache.
    CacheStats(CacheStatsMsg),
    /// The local content of a file changed.
    BadgeUpdate(BadgeUpdateMsg),
}

/// How much of a file is held locally.
#[derive(Clone, Copy, Debug, PartialEq, Eq, Structural)]
pub enum BadgeKind {
    /// All of it.
    Hydrated,
    /// Some chunks.
    Partial,
    /// Nothing.
    Uncached,
}

#[derive(Clone, Debug, PartialEq, Eq)]
pub struct BadgeUpdateMsg {
    pub domain: String,
    /// Path relative to the root of the share.
    pub relpath: String,
    pub badge: BadgeKind,
}

#[derive(Clone, Debug, PartialEq, Eq)]
pub struct CacheStatsMsg {
    pub mount_id: String,
    /// Bytes of file content held locally for the share.
    pub hydrated_bytes: u64,
    /// Number of files held locally.
    pub hydrated_count: u64,
    /// The command that asked.
    pub command_id: String,
}

#[derive(Clone, Debug, PartialEq, Eq)]
pub struct ConflictDetectedMsg {
    /// Share on which the conflict occurred.
    pub domain: String,
    /// Path that was being written.
    pub original_path: String,
    /// Path under which the conflicting content was kept.
    pub conflict_path: String,
    /// Name of this machine.
    pub host: String,
    /// Seconds since the epoch at which the conflict was noticed.
    pub detected_at: u64,
}

#[derive(Clone, Debug, PartialEq, Eq)]
pub struct MountStateUpdateMsg {
    pub mount_id: String,
    pub state: String,
    pub state_detail: String,
    /// State of on-demand sync.
    pub sync_state: Option<String>,
    /// The same for people to read.
    pub sync_state_detail: Option<String>,
    /// Whether the link can only be made with elevated rights.
    pub needs_elevation: Option<bool>,
}

#[derive(Clone, Debug, PartialEq, Eq)]
pub struct AckMsg {
    pub command_id: String,
}

#[derive(Clone, Debug, PartialEq, Eq)]
pub struct ErrorMsg {
    pub command_id: String,
    pub message: String,
}

/// What a client asks of the agent.
#[derive(Clone, Debug, PartialEq, Eq)]
pub enum UfbToAgent {
    StartMount(MountIdMsg),
    StopMount(MountIdMsg),
    RestartMount(MountIdMsg),
    ClearSyncCache(MountIdMsg),
    /// Asks how much is held locally for a share.
    GetCacheStats(MountIdMsg),
    CreateSymlinks,
    ReloadConfig,
    GetStates,
    Ping,
    Quit,
    /// Something happened in front of the user: check for changes.
    FreshnessSweep(FreshnessSweepMsg),
}

#[derive(Clone, Debug, PartialEq, Eq)]
pub struct FreshnessSweepMsg {
    /// The share to check; all enabled ones where there is none.
    pub domain: Option<String>,
    pub command_id: String,
}

#[derive(Clone, Debug, PartialEq, Eq)]
pub struct MountIdMsg {
    pub mount_id: String,
    pub command_id: String,
}

/// One entry of a directory. Times are microseconds since the epoch.
#[derive(Clone, Debug, PartialEq, Eq)]
pub struct DirEntry {
    pub name: String,
    pub is_dir: bool,
    pub size: u64,
    pub modified: i64,
    pub created: i64,
}

} // verus!
