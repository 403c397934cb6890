//! The orchestrator of one mount: the steps by which a share is mounted, synced and
//! disconnected, and what follows from the outcome of each.
use crate::config::{domain_dir, share, share_mount_path, sync_dir, user_path, volume, MountConfig};
use crate::messages::{AgentToUfb, MountStateUpdateMsg};
use crate::paths::{Environment, Platform};
use crate::state::{
    effects, step, transition, Effect, EffectView, EventView, LogLevel, MountEvent, MountState,
    StateView,
};
use crate::text::{
    before_first, head_before_first, join2, list_has, lowercased, same, starts_with, texts,
    to_lowercase, trim_front, trim_start_char,
};
use vstd::prelude::*;

verus! {

/// What a link that needs rights the agent does not have reports.
pub const NEEDS_ELEVATION: &'static str = "NEEDS_ELEVATION";

/// A step on the way to a mounted share.
pub enum DriveStep {
    /// Look whether something is at the path of the link.
    InspectLink { path: String },
    /// Make the link.
    MakeLink { path: String, target: String },
    /// Open a session to the share in the background.
    OpenSession,
    /// Make sure that there is a session at the mount point.
    EnsureSession { mount_point: String },
    /// Mount the share.
    MountShare,
    /// Start to watch the mounted share.
    StartWatcher { volume: String },
    /// Have the link that the user sees lead to the target.
    SwitchLink { path: String, target: String },
    /// It failed: this event tells the state machine.
    Failed(MountEvent),
    /// It is done.
    Done,
}

/// What a `DriveStep` says.
pub enum DriveView {
    InspectLink(Seq<char>),
    MakeLink(Seq<char>, Seq<char>),
    OpenSession,
    EnsureSession(Seq<char>),
    MountShare,
    StartWatcher(Seq<char>),
    SwitchLink(Seq<char>, Seq<char>),
    Failed(EventView),
    Done,
}

impl View for DriveStep {
    type V = DriveView;

    open spec fn view(&self) -> DriveView {
        match self {
            DriveStep::InspectLink { path } => DriveView::InspectLink(path@),
            DriveStep::MakeLink { path, target } => DriveView::MakeLink(path@, target@),
            DriveStep::OpenSession => DriveView::OpenSession,
            DriveStep::EnsureSession { mount_point } => DriveView::EnsureSession(mount_point@),
            DriveStep::MountShare => DriveView::MountShare,
            DriveStep::StartWatcher { volume } => DriveView::StartWatcher(volume@),
            DriveStep::SwitchLink { path, target } => DriveView::SwitchLink(path@, target@),
            DriveStep::Failed(e) => DriveView::Failed(e@),
            DriveStep::Done => DriveView::Done,
        }
    }
}

/// What came of a step.
pub enum StepOutcome {
    /// It was done.
    Done,
    /// Something was found or not.
    Found(bool),
    /// It was done and leads to this path.
    Path(String),
    /// It failed for this reason.
    Failed(String),
}

/// What a `StepOutcome` says.
pub enum OutcomeView {
    Done,
    Found(bool),
    Path(Seq<char>),
    Failed(Seq<char>),
}

impl View for StepOutcome {
    type V = OutcomeView;

    open spec fn view(&self) -> OutcomeView {
        match self {
            StepOutcome::Done => OutcomeView::Done,
            StepOutcome::Found(b) => OutcomeView::Found(*b),
            StepOutcome::Path(p) => OutcomeView::Path(p@),
            StepOutcome::Failed(r) => OutcomeView::Failed(r@),
        }
    }
}

/// The first step of mounting a share.
pub open spec fn first_step(env: Environment, m: MountConfig) -> DriveView {
    match env.platform {
        Platform::Windows => DriveView::InspectLink(volume(env, m)),
        Platform::Linux => DriveView::EnsureSession(share_mount_path(env, m)),
        Platform::Macos => DriveView::MountShare,
    }
}

/// The step that follows, and whether elevated rights turned out to be needed.
pub open spec fn step_after(
    env: Environment,
    m: MountConfig,
    step: DriveView,
    outcome: OutcomeView,
) -> (DriveView, bool) {
    match (step, outcome) {
        (DriveView::InspectLink(path), OutcomeView::Found(found)) => if found {
            (DriveView::OpenSession, false)
        } else {
            (DriveView::MakeLink(path, m.nas_share_path@), false)
        },
        (DriveView::MakeLink(_, _), OutcomeView::Failed(reason)) => if reason == NEEDS_ELEVATION@ {
            (DriveView::OpenSession, true)
        } else {
            (DriveView::Failed(EventView::DriveMapFailed(reason)), false)
        },
        (DriveView::MakeLink(_, _), _) => (DriveView::OpenSession, false),
        (DriveView::EnsureSession(_), OutcomeView::Failed(reason)) => (
            DriveView::Failed(EventView::SmbMapFailed(reason)),
            false,
        ),
        (DriveView::EnsureSession(target), _) => (
            DriveView::SwitchLink(user_path(env, m), target),
            false,
        ),
        (DriveView::MountShare, OutcomeView::Path(path)) => if m.sync_enabled {
            (DriveView::StartWatcher(path), false)
        } else {
            (DriveView::SwitchLink(user_path(env, m), path), false)
        },
        (DriveView::MountShare, OutcomeView::Failed(reason)) => (
            DriveView::Failed(EventView::SmbMapFailed(reason)),
            false,
        ),
        (DriveView::StartWatcher(_), _) => (
            DriveView::SwitchLink(user_path(env, m), domain_dir(env, m)),
            false,
        ),
        (DriveView::SwitchLink(_, _), OutcomeView::Failed(reason)) => (
            DriveView::Failed(EventView::DriveMapFailed(reason)),
            false,
        ),
        _ => (DriveView::Done, false),
    }
}

/// What follows an event, by the state that it led to.
#[derive(Clone, Copy, Debug, PartialEq, Eq, Structural)]
pub enum FollowUp {
    /// The mount has stopped: leave the loop.
    Exit,
    /// The effects of mounting have run without a failure: say so.
    Confirm,
    /// Wait for the next event.
    Wait,
}

/// State of on-demand sync.
#[derive(Clone, Debug, PartialEq, Eq)]
pub enum SyncState {
    Disabled,
    Registering,
    Active,
    Offline,
    Reconnecting,
    Error(String),
    Deregistering,
}

impl SyncState {
    /// The state as clients know it.
    pub open spec fn name(&self) -> Seq<char> {
        match self {
            SyncState::Disabled => "disabled"@,
            SyncState::Registering => "registering"@,
            SyncState::Active => "active"@,
            SyncState::Offline => "offline"@,
            SyncState::Reconnecting => "reconnecting"@,
            SyncState::Error(_) => "error"@,
            SyncState::Deregistering => "deregistering"@,
        }
    }

    /// The state as clients know it.
    pub fn state_name(&self) -> (out: String)
        ensures
            out@ == self.name(),
    {
        match self {
            SyncState::Disabled => "disabled".to_owned(),
            SyncState::Registering => "registering".to_owned(),
            SyncState::Active => "active".to_owned(),
            SyncState::Offline => "offline".to_owned(),
            SyncState::Reconnecting => "reconnecting".to_owned(),
            SyncState::Error(_) => "error".to_owned(),
            SyncState::Deregistering => "deregistering".to_owned(),
        }
    }
}

/// What has to be done after a heartbeat, in order.
#[derive(Clone, Copy, Debug, PartialEq, Eq, Structural)]
pub enum HeartbeatAction {
    /// The share counts as offline.
    SetOffline,
    /// Stop to watch the share.
    StopWatcher,
    /// Tell the clients.
    Emit,
    /// The share counts as reconnecting.
    SetReconnecting,
    /// Open the session to the share again.
    OpenSession,
    /// Watch the share again, and catch up.
    RestartWatcher,
    /// The share counts as online.
    SetOnline,
}

/// What a heartbeat leads to: a share that fails while it is active goes offline and waits to
/// come back, one that answers while it is waited for is reconnected, and nothing else changes.
pub open spec fn heartbeat(reachable: bool, s: SyncState) -> (SyncState, Seq<HeartbeatAction>) {
    if !reachable && s is Active {
        (
            SyncState::Reconnecting,
            seq![
                HeartbeatAction::SetOffline,
                HeartbeatAction::StopWatcher,
                HeartbeatAction::Emit,
                HeartbeatAction::SetReconnecting,
                HeartbeatAction::Emit,
            ],
        )
    } else if reachable && (s is Offline || s is Reconnecting) {
        (
            SyncState::Active,
            seq![
                HeartbeatAction::OpenSession,
                HeartbeatAction::RestartWatcher,
                HeartbeatAction::SetOnline,
                HeartbeatAction::Emit,
            ],
        )
    } else {
        (s, Seq::empty())
    }
}

/// A step on the way to a synced share.
pub enum SyncStep {
    /// Open a session to the share.
    OpenSession,
    /// Register and connect the folder of synced files.
    StartRoot { client_root: String },
    /// Have the link that the user sees lead to that folder.
    Link { path: String, target: String },
    /// Bring the visited folders up to date.
    Reconcile,
    /// It failed: this event tells the state machine.
    Failed(MountEvent),
    /// It is done.
    Done,
}

/// What a `SyncStep` says.
pub enum SyncView {
    OpenSession,
    StartRoot(Seq<char>),
    Link(Seq<char>, Seq<char>),
    Reconcile,
    Failed(EventView),
    Done,
}

impl View for SyncStep {
    type V = SyncView;

    open spec fn view(&self) -> SyncView {
        match self {
            SyncStep::OpenSession => SyncView::OpenSession,
            SyncStep::StartRoot { client_root } => SyncView::StartRoot(client_root@),
            SyncStep::Link { path, target } => SyncView::Link(path@, target@),
            SyncStep::Reconcile => SyncView::Reconcile,
            SyncStep::Failed(e) => SyncView::Failed(e@),
            SyncStep::Done => SyncView::Done,
        }
    }
}

/// The step of syncing that follows. A link that cannot be made does not stop the sync.
pub open spec fn sync_after(
    env: Environment,
    m: MountConfig,
    cache_root: Seq<char>,
    step: SyncView,
    failure: Option<Seq<char>>,
) -> SyncView {
    match (step, failure) {
        (SyncView::OpenSession, Some(reason)) => SyncView::Failed(EventView::SmbMapFailed(reason)),
        (SyncView::OpenSession, None) => SyncView::StartRoot(sync_dir(env, m, cache_root)),
        (SyncView::StartRoot(_), Some(reason)) => SyncView::Failed(
            EventView::DriveMapFailed(reason),
        ),
        (SyncView::StartRoot(root), None) => SyncView::Link(volume(env, m), root),
        (SyncView::Link(_, _), _) => SyncView::Reconcile,
        _ => SyncView::Done,
    }
}

/// A step of disconnecting a share.
pub enum DisconnectStep {
    StopWatcher,
    RemoveLink(String),
    Unmount(String),
    CloseSession,
}

/// What a `DisconnectStep` says.
pub enum DisconnectView {
    StopWatcher,
    RemoveLink(Seq<char>),
    Unmount(Seq<char>),
    CloseSession,
}

impl View for DisconnectStep {
    type V = DisconnectView;

    open spec fn view(&self) -> DisconnectView {
        match self {
            DisconnectStep::StopWatcher => DisconnectView::StopWatcher,
            DisconnectStep::RemoveLink(p) => DisconnectView::RemoveLink(p@),
            DisconnectStep::Unmount(p) => DisconnectView::Unmount(p@),
            DisconnectStep::CloseSession => DisconnectView::CloseSession,
        }
    }
}

pub open spec fn disconnects(v: Seq<DisconnectStep>) -> Seq<DisconnectView> {
    v.map_values(|s: DisconnectStep| s@)
}

/// The steps of disconnecting a share, in order; `link_target` is where the link that the user
/// sees leads.
pub open spec fn disconnect(
    env: Environment,
    m: MountConfig,
    link_target: Option<Seq<char>>,
) -> Seq<DisconnectView> {
    match env.platform {
        Platform::Windows => seq![
            DisconnectView::RemoveLink(volume(env, m)),
            DisconnectView::CloseSession,
        ],
        Platform::Linux => seq![DisconnectView::RemoveLink(user_path(env, m))],
        Platform::Macos => if m.sync_enabled {
            seq![
                DisconnectView::StopWatcher,
                DisconnectView::RemoveLink(user_path(env, m)),
                DisconnectView::Unmount("/Volumes/"@ + share(m)),
            ]
        } else {
            match link_target {
                Some(t) => seq![
                    DisconnectView::RemoveLink(user_path(env, m)),
                    DisconnectView::Unmount(t),
                ],
                None => seq![DisconnectView::RemoveLink(user_path(env, m))],
            }
        },
    }
}

/// The prefix of credential keys in the store of the system.
pub open spec fn cred_prefix() -> Seq<char> {
    "mediamount_"@
}

/// A credential key as the store of the system has it.
pub open spec fn store_key(key: Seq<char>) -> Seq<char> {
    if cred_prefix().is_prefix_of(key) {
        key
    } else {
        cred_prefix() + key
    }
}

/// The server of a UNC path, as it is written.
pub open spec fn server_name(nas_path: Seq<char>) -> Seq<char> {
    before_first(trim_front(nas_path, '\\'), '\\')
}

/// The server of a UNC path, as it is written.
pub fn server_part(nas_path: &str) -> (out: String)
    ensures
        out@ == server_name(nas_path@),
{
    let bare = trim_start_char(nas_path, '\\');
    head_before_first(bare.as_str(), '\\')
}

/// The server of a UNC path in lower case.
pub fn server_host(nas_path: &str) -> (out: String)
    ensures
        out@ == lowercased(server_name(nas_path@)),
{
    let server = server_part(nas_path);
    to_lowercase(server.as_str())
}

/// A credential key as the store of the system has it.
pub fn prefixed_key(key: &str) -> (out: String)
    ensures
        out@ == store_key(key@),
{
    if starts_with(key, "mediamount_") {
        key.to_owned()
    } else {
        join2("mediamount_", key)
    }
}

/// The key to look credentials up under: none where the server, whose name in lower case is
/// given, is connected already, and none without a key.
pub fn credential_lookup(host: &str, credential_key: &str, connected: &Vec<String>) -> (r: Option<
    String,
>)
    ensures
        r is None <==> (host@.len() > 0 && texts(connected@).contains(host@))
            || credential_key@.len() == 0,
        r matches Some(k) ==> k@ == store_key(credential_key@),
{
    if !host.is_empty() && list_has(connected, host) {
        return None;
    }
    if credential_key.is_empty() {
        return None;
    }
    Some(prefixed_key(credential_key))
}

/// The servers that are connected, with one more; an empty name does not count.
pub fn mark_connected(connected: &mut Vec<String>, host: &str)
    ensures
        forall|s: Seq<char>| #[trigger]
            texts(final(connected)@).contains(s) <==> texts(old(connected)@).contains(s) || (s
                == host@ && host@.len() > 0),
        texts(old(connected)@).no_duplicates() ==> texts(final(connected)@).no_duplicates(),
{
    if host.is_empty() || list_has(connected, host) {
        return ;
    }
    let ghost before = texts(connected@);
    connected.push(host.to_owned());
    proof {
        let now = texts(connected@);
        assert(now =~= before.push(host@));
        assert forall|s: Seq<char>| #[trigger] now.contains(s) <==> before.contains(s) || (s
            == host@ && host@.len() > 0) by {
            if before.contains(s) {
                let i = choose|i: int| 0 <= i < before.len() && before[i] == s;
                assert(now[i] == s);
            }
            assert(now[before.len() as int] == host@);
            if now.contains(s) {
                let i = choose|i: int| 0 <= i < now.len() && now[i] == s;
                if i < before.len() {
                    assert(before[i] == s);
                }
            }
        }
        if before.no_duplicates() {
            assert forall|a: int, b: int|
                0 <= a < now.len() && 0 <= b < now.len() && a != b implies now[a] != now[b] by {
                if a == before.len() {
                    assert(before.contains(before[b]));
                } else if b == before.len() {
                    assert(before.contains(before[a]));
                }
            }
        }
    }
}

/// The orchestrator of one mount.
pub struct Orchestrator {
    pub config: MountConfig,
    pub env: Environment,
    pub cache_root: String,
}

/// What an effect of the state machine asks of the surroundings.
pub enum Work {
    /// Nothing by itself: mounting opens the session, and state updates reach the tray.
    Nothing,
    /// Go through the steps to a synced share.
    StartSync,
    /// Go through the steps to a mounted share.
    MountDrive,
    Log { level: LogLevel, message: String },
    /// Tell the clients the state.
    Emit,
}

/// What a `Work` says.
pub enum WorkView {
    Nothing,
    StartSync,
    MountDrive,
    Log(LogLevel, Seq<char>),
    Emit,
}

impl View for Work {
    type V = WorkView;

    open spec fn view(&self) -> WorkView {
        match self {
            Work::Nothing => WorkView::Nothing,
            Work::StartSync => WorkView::StartSync,
            Work::MountDrive => WorkView::MountDrive,
            Work::Log { level, message } => WorkView::Log(*level, message@),
            Work::Emit => WorkView::Emit,
        }
    }
}

pub open spec fn works(v: Seq<Work>) -> Seq<WorkView> {
    v.map_values(|w: Work| w@)
}

/// Whether the mount is synced by placeholders, which only Windows has.
pub open spec fn has_sync_root(env: Environment, m: MountConfig) -> bool {
    env.platform is Windows && m.sync_enabled
}

/// What an effect asks for.
pub open spec fn work_for(env: Environment, m: MountConfig, e: EffectView) -> WorkView {
    match e {
        EffectView::MapDriveToSmb => if has_sync_root(env, m) {
            WorkView::StartSync
        } else {
            WorkView::MountDrive
        },
        EffectView::EnsureSmbSession => WorkView::Nothing,
        EffectView::UpdateTray => WorkView::Nothing,
        EffectView::LogEvent(level, message) => WorkView::Log(level, message),
        EffectView::EmitStateUpdate => WorkView::Emit,
    }
}

/// What effects ask for, in order.
pub open spec fn works_for(env: Environment, m: MountConfig, fx: Seq<EffectView>) -> Seq<WorkView> {
    fx.map_values(|e: EffectView| work_for(env, m, e))
}

impl Orchestrator {
    /// The orchestrator of a mount.
    pub fn new(config: MountConfig, env: Environment, cache_root: String) -> (o: Orchestrator)
        ensures
            o.config == config,
            o.env == env,
            o.cache_root == cache_root,
    {
        Orchestrator { config, env, cache_root }
    }

    /// What an effect asks for.
    pub fn dispatch_effect(&self, effect: Effect) -> (w: Work)
        ensures
            w@ == work_for(self.env, self.config, effect@),
    {
        match effect {
            Effect::MapDriveToSmb => match self.env.platform {
                Platform::Windows => if self.config.sync_enabled {
                    Work::StartSync
                } else {
                    Work::MountDrive
                },
                _ => Work::MountDrive,
            },
            Effect::EnsureSmbSession => Work::Nothing,
            Effect::UpdateTray => Work::Nothing,
            Effect::LogEvent { level, message } => Work::Log { level, message },
            Effect::EmitStateUpdate => Work::Emit,
        }
    }

    /// The state that an event leads to, and what has to be done on the way, in order.
    pub fn handle_event(&self, state: MountState, event: MountEvent) -> (r: (MountState, Vec<Work>))
        ensures
            r.0@ == step(state@, event@).0,
            works(r.1@) == works_for(self.env, self.config, step(state@, event@).1),
    {
        let (next, todo) = transition(state, event);
        let ghost fx = effects(todo@);
        let ghost all = todo@;
        let mut left = todo;
        let mut out: Vec<Work> = Vec::new();
        while left.len() > 0
            invariant
                left@.len() <= all.len(),
                left@ == all.skip(all.len() - left@.len()),
                out@.len() == all.len() - left@.len(),
                forall|k: int|
                    0 <= k < out@.len() ==> (#[trigger] out@[k])@ == work_for(
                        self.env,
                        self.config,
                        all[k]@,
                    ),
            decreases left@.len(),
        {
            let effect = left.remove(0);
            out.push(self.dispatch_effect(effect));
        }
        assert(works(out@) =~= works_for(self.env, self.config, fx));
        (next, out)
    }

    /// The key to look the credentials of the mount up under: none where another mount is connected
    /// to the server already, so that its session is used, and none without a key.
    pub fn credential_key(&self, connected: &Vec<String>) -> (r: Option<String>)
        ensures
            ({
                let host = lowercased(server_name(self.config.nas_share_path@));
                &&& r is None <==> (host.len() > 0 && texts(connected@).contains(host))
                    || self.config.credential_key@.len() == 0
                &&& r matches Some(k) ==> k@ == store_key(self.config.credential_key@)
            }),
    {
        let host = server_host(self.config.nas_share_path.as_str());
        credential_lookup(host.as_str(), self.config.credential_key.as_str(), connected)
    }

    /// The user name and the password with which the server is asked: those that the store had, else
    /// empty ones.
    pub fn retrieve_credentials(found: Option<Result<(String, String), String>>) -> (r: (
        String,
        String,
    ))
        ensures
            match found {
                Some(Ok((u, p))) => r.0@ == u@ && r.1@ == p@,
                _ => r.0@ == Seq::<char>::empty() && r.1@ == Seq::<char>::empty(),
            },
    {
        match found {
            Some(Ok((u, p))) => (u, p),
            _ => {
                let u = String::new();
                let p = String::new();
                assert(u@ =~= Seq::<char>::empty());
                assert(p@ =~= Seq::<char>::empty());
                (u, p)
            },
        }
    }

    /// What follows an event, by the state that it led to.
    pub fn follow_up(state: &MountState) -> (r: FollowUp)
        ensures
            r == match state@ {
                StateView::Stopped => FollowUp::Exit,
                StateView::Mounting => FollowUp::Confirm,
                _ => FollowUp::Wait,
            },
    {
        match state {
            MountState::Stopped => FollowUp::Exit,
            MountState::Mounting => FollowUp::Confirm,
            _ => FollowUp::Wait,
        }
    }

    /// The first step of mounting the share.
    pub fn mount_drive(&self) -> (r: DriveStep)
        ensures
            r@ == first_step(self.env, self.config),
    {
        match self.env.platform {
            Platform::Windows => DriveStep::InspectLink {
                path: self.config.volume_path(&self.env),
            },
            Platform::Linux => DriveStep::EnsureSession {
                mount_point: self.config.smb_target_path(&self.env),
            },
            Platform::Macos => DriveStep::MountShare,
        }
    }

    /// The step that follows, and whether elevated rights turned out to be needed.
    pub fn mount_drive_next(&self, step: DriveStep, outcome: StepOutcome) -> (r: (DriveStep, bool))
        ensures
            (r.0@, r.1) == step_after(self.env, self.config, step@, outcome@),
    {
        match step {
            DriveStep::InspectLink { path } => match outcome {
                StepOutcome::Found(found) => if found {
                    (DriveStep::OpenSession, false)
                } else {
                    (
                        DriveStep::MakeLink { path, target: self.config.nas_share_path.clone() },
                        false,
                    )
                },
                _ => (DriveStep::Done, false),
            },
            DriveStep::MakeLink { path: _, target: _ } => match outcome {
                StepOutcome::Failed(reason) => if same(reason.as_str(), NEEDS_ELEVATION) {
                    (DriveStep::OpenSession, true)
                } else {
                    (DriveStep::Failed(MountEvent::DriveMapFailed { reason }), false)
                },
                _ => (DriveStep::OpenSession, false),
            },
            DriveStep::EnsureSession { mount_point } => match outcome {
                StepOutcome::Failed(reason) => (
                    DriveStep::Failed(MountEvent::SmbMapFailed { reason }),
                    false,
                ),
                _ => (
                    DriveStep::SwitchLink {
                        path: self.config.mount_path(&self.env),
                        target: mount_point,
                    },
                    false,
                ),
            },
            DriveStep::MountShare => match outcome {
                StepOutcome::Path(p) => if self.config.sync_enabled {
                    (DriveStep::StartWatcher { volume: p }, false)
                } else {
                    (
                        DriveStep::SwitchLink {
                            path: self.config.mount_path(&self.env),
                            target: p,
                        },
                        false,
                    )
                },
                StepOutcome::Failed(reason) => (
                    DriveStep::Failed(MountEvent::SmbMapFailed { reason }),
                    false,
                ),
                _ => (DriveStep::Done, false),
            },
            DriveStep::StartWatcher { volume: _ } => (
                DriveStep::SwitchLink {
                    path: self.config.mount_path(&self.env),
                    target: self.config.fileprovider_domain_path(&self.env),
                },
                false,
            ),
            DriveStep::SwitchLink { path: _, target: _ } => match outcome {
                StepOutcome::Failed(reason) => (
                    DriveStep::Failed(MountEvent::DriveMapFailed { reason }),
                    false,
                ),
                _ => (DriveStep::Done, false),
            },
            _ => (DriveStep::Done, false),
        }
    }

    /// The step of syncing that follows, and whether elevated rights turned out to be needed.
    /// Syncing begins with opening a session.
    pub fn start_sync_next(&self, step: SyncStep, failure: Option<String>) -> (r: (
        SyncStep,
        SyncState,
        bool,
    ))
        ensures
            r.0@ == sync_after(
                self.env,
                self.config,
                self.cache_root@,
                step@,
                crate::config::opt_text(failure),
            ),
            r.1 == match (step@, failure) {
                (SyncView::OpenSession, Some(reason)) => SyncState::Error(reason),
                (SyncView::StartRoot(_), Some(reason)) => SyncState::Error(reason),
                (SyncView::OpenSession, None) => SyncState::Registering,
                _ => SyncState::Active,
            },
            r.2 == (step@ is Link && failure is Some && failure->0@ == NEEDS_ELEVATION@),
    {
        match step {
            SyncStep::OpenSession => match failure {
                Some(reason) => (
                    SyncStep::Failed(MountEvent::SmbMapFailed { reason: reason.clone() }),
                    SyncState::Error(reason),
                    false,
                ),
                None => (
                    SyncStep::StartRoot {
                        client_root: self.config.sync_root_dir(
                            &self.env,
                            self.cache_root.as_str(),
                        ),
                    },
                    SyncState::Registering,
                    false,
                ),
            },
            SyncStep::StartRoot { client_root } => match failure {
                Some(reason) => (
                    SyncStep::Failed(MountEvent::DriveMapFailed { reason: reason.clone() }),
                    SyncState::Error(reason),
                    false,
                ),
                None => (
                    SyncStep::Link {
                        path: self.config.volume_path(&self.env),
                        target: client_root,
                    },
                    SyncState::Active,
                    false,
                ),
            },
            SyncStep::Link { path: _, target: _ } => {
                let elevation = match failure {
                    Some(reason) => same(reason.as_str(), NEEDS_ELEVATION),
                    None => false,
                };
                (SyncStep::Reconcile, SyncState::Active, elevation)
            },
            _ => (SyncStep::Done, SyncState::Active, false),
        }
    }

    /// What a heartbeat leads to.
    pub fn handle_heartbeat_result(reachable: bool, state: SyncState) -> (r: (
        SyncState,
        Vec<HeartbeatAction>,
    ))
        ensures
            (r.0, r.1@) == heartbeat(reachable, state),
    {
        match state {
            SyncState::Active => {
                if reachable {
                    (SyncState::Active, Vec::new())
                } else {
                    let todo: Vec<HeartbeatAction> = vec![
                        HeartbeatAction::SetOffline,
                        HeartbeatAction::StopWatcher,
                        HeartbeatAction::Emit,
                        HeartbeatAction::SetReconnecting,
                        HeartbeatAction::Emit,
                    ];
                    assert(todo@ =~= heartbeat(false, SyncState::Active).1);
                    (SyncState::Reconnecting, todo)
                }
            },
            SyncState::Offline => Self::back_online(reachable, SyncState::Offline),
            SyncState::Reconnecting => Self::back_online(reachable, SyncState::Reconnecting),
            other => (other, Vec::new()),
        }
    }

    fn back_online(reachable: bool, state: SyncState) -> (r: (SyncState, Vec<HeartbeatAction>))
        requires
            state is Offline || state is Reconnecting,
        ensures
            (r.0, r.1@) == heartbeat(reachable, state),
    {
        if reachable {
            let todo: Vec<HeartbeatAction> = vec![
                HeartbeatAction::OpenSession,
                HeartbeatAction::RestartWatcher,
                HeartbeatAction::SetOnline,
                HeartbeatAction::Emit,
            ];
            assert(todo@ =~= heartbeat(true, state).1);
            (SyncState::Active, todo)
        } else {
            (state, Vec::new())
        }
    }

    /// The steps of disconnecting the share, in order.
    pub fn disconnect_drive(&self, link_target: Option<String>) -> (out: Vec<DisconnectStep>)
        ensures
            disconnects(out@) == disconnect(
                self.env,
                self.config,
                crate::config::opt_text(link_target),
            ),
    {
        let ghost want = disconnect(
            self.env,
            self.config,
            crate::config::opt_text(link_target),
        );
        match self.env.platform {
            Platform::Windows => {
                let out: Vec<DisconnectStep> = vec![
                    DisconnectStep::RemoveLink(self.config.volume_path(&self.env)),
                    DisconnectStep::CloseSession,
                ];
                assert(disconnects(out@) =~= want);
                out
            },
            Platform::Linux => {
                let out: Vec<DisconnectStep> = vec![
                    DisconnectStep::RemoveLink(self.config.mount_path(&self.env)),
                ];
                assert(disconnects(out@) =~= want);
                out
            },
            Platform::Macos => {
                let remove = DisconnectStep::RemoveLink(self.config.mount_path(&self.env));
                if self.config.sync_enabled {
                    let name = self.config.share_name();
                    let out: Vec<DisconnectStep> = vec![
                        DisconnectStep::StopWatcher,
                        remove,
                        DisconnectStep::Unmount(join2("/Volumes/", name.as_str())),
                    ];
                    assert(disconnects(out@) =~= want);
                    return out;
                }
                match link_target {
                    Some(t) => {
                        let out: Vec<DisconnectStep> = vec![remove, DisconnectStep::Unmount(t)];
                        assert(disconnects(out@) =~= want);
                        out
                    },
                    None => {
                        let out: Vec<DisconnectStep> = vec![remove];
                        assert(disconnects(out@) =~= want);
                        out
                    },
                }
            },
        }
    }

    /// The message that tells clients of the state of the mount. The state of sync is part of it
    /// on Windows for a synced mount; its detail is a summary of activity while sync is active
    /// and there is one, and the name of the state otherwise.
    pub fn emit_state_update(
        &self,
        state: &MountState,
        sync: &SyncState,
        summary: Option<String>,
        needs_elevation: bool,
    ) -> (r: AgentToUfb)
        ensures
            r matches AgentToUfb::MountStateUpdate(u) && {
                let windows = self.env.platform is Windows;
                &&& u.mount_id@ == self.config.id@
                &&& u.state@ == state@.name()
                &&& u.state_detail@ == state@.text()
                &&& windows && self.config.sync_enabled ==> (u.sync_state matches Some(n) && n@
                    == sync.name()) && (u.sync_state_detail matches Some(d) && d@ == (if sync
                    is Active && summary is Some {
                    summary->0@
                } else {
                    sync.name()
                }))
                &&& !(windows && self.config.sync_enabled) ==> u.sync_state is None
                    && u.sync_state_detail is None
                &&& u.needs_elevation == if windows && needs_elevation {
                    Some(true)
                } else {
                    None
                }
            },
    {
        let windows = match self.env.platform {
            Platform::Windows => true,
            _ => false,
        };
        let mut sync_state: Option<String> = None;
        let mut sync_state_detail: Option<String> = None;
        if windows && self.config.sync_enabled {
            sync_state = Some(sync.state_name());
            let active = match sync {
                SyncState::Active => true,
                _ => false,
            };
            sync_state_detail = match summary {
                Some(s) => if active {
                    Some(s)
                } else {
                    Some(sync.state_name())
                },
                None => Some(sync.state_name()),
            };
        }
        AgentToUfb::MountStateUpdate(
            MountStateUpdateMsg {
                mount_id: self.config.id.clone(),
                state: state.name(),
                state_detail: state.to_text(),
                sync_state,
                sync_state_detail,
                needs_elevation: if windows && needs_elevation {
                    Some(true)
                } else {
                    None
                },
            },
        )
    }
}

/// A share is mounted or synced exactly when its mount begins to mount, and never both.
pub proof fn law_mounts_on_entry(env: Environment, m: MountConfig, s: StateView, e: EventView)
    ensures
        ({
            let todo = works_for(env, m, step(s, e).1);
            let begins = step(s, e).0 is Mounting && s !is Mounting;
            &&& todo.contains(WorkView::StartSync) <==> begins && has_sync_root(env, m)
            &&& todo.contains(WorkView::MountDrive) <==> begins && !has_sync_root(env, m)
        }),
{
    let fx = step(s, e).1;
    let todo = works_for(env, m, fx);
    crate::state::law_mounting_runs_both_effects(s, e);
    if step(s, e).0 is Mounting && s !is Mounting {
        assert(todo[1] == work_for(env, m, fx[1]));
    }
    assert forall|w: WorkView|
        #[trigger] todo.contains(w) && (w is StartSync || w is MountDrive) implies fx.contains(
        EffectView::MapDriveToSmb,
    ) && w == work_for(env, m, EffectView::MapDriveToSmb) by {
        let k = choose|k: int| 0 <= k < todo.len() && todo[k] == w;
        assert(todo[k] == work_for(env, m, fx[k]));
        assert(fx[k] is MapDriveToSmb);
    }
}

/// A key that has the prefix already is not given it again.
pub proof fn law_key_prefix_is_added_once(key: Seq<char>)
    ensures
        store_key(store_key(key)) == store_key(key),
        cred_prefix().is_prefix_of(store_key(key)),
{
    let p = cred_prefix();
    assert((p + key).subrange(0, p.len() as int) =~= p);
}

/// How many outcomes lead to the end of mounting at most.
pub open spec fn steps_left(step: DriveView) -> nat {
    match step {
        DriveView::InspectLink(_) => 3,
        DriveView::MakeLink(_, _) => 2,
        DriveView::OpenSession => 1,
        DriveView::EnsureSession(_) => 2,
        DriveView::MountShare => 3,
        DriveView::StartWatcher(_) => 2,
        DriveView::SwitchLink(_, _) => 1,
        DriveView::Failed(_) => 0,
        DriveView::Done => 0,
    }
}

/// Mounting comes to an end, whatever the outcomes of its steps are.
pub proof fn law_mounting_ends(
    env: Environment,
    m: MountConfig,
    step: DriveView,
    outcome: OutcomeView,
)
    requires
        step !is Done,
        step !is Failed,
    ensures
        steps_left(step_after(env, m, step, outcome).0) < steps_left(step),
{
}

/// Want of rights does not fail a mount: it is reported, and the mount goes on.
pub proof fn law_elevation_is_no_failure(
    env: Environment,
    m: MountConfig,
    path: Seq<char>,
    target: Seq<char>,
)
    ensures
        step_after(
            env,
            m,
            DriveView::MakeLink(path, target),
            OutcomeView::Failed(NEEDS_ELEVATION@),
        ) == (DriveView::OpenSession, true),
{
}

/// A share that went down and came back is active again, and clients heard of both.
pub proof fn law_heartbeat_recovers(s: SyncState)
    requires
        s is Active,
    ensures
        ({
            let down = heartbeat(false, s);
            let up = heartbeat(true, down.0);
            up.0 is Active && down.1.contains(HeartbeatAction::Emit) && up.1.contains(
                HeartbeatAction::Emit,
            )
        }),
        heartbeat(false, heartbeat(false, s).0).1.len() == 0,
{
    let down = heartbeat(false, s);
    let up = heartbeat(true, down.0);
    assert(down.1[2] == HeartbeatAction::Emit);
    assert(up.1[3] == HeartbeatAction::Emit);
}

/// The link that the user sees leads to where the share was mounted: for a share that is not
/// synced, to the very path that the mounting step reported, and for a synced one, to the folder
/// of its synced files once the mounted share is being watched.
pub proof fn law_link_leads_to_the_share(
    env: Environment,
    m: MountConfig,
    mounted: Seq<char>,
    watched: OutcomeView,
)
    ensures
        ({
            let next = step_after(env, m, DriveView::MountShare, OutcomeView::Path(mounted)).0;
            &&& !m.sync_enabled ==> next == DriveView::SwitchLink(user_path(env, m), mounted)
            &&& m.sync_enabled ==> next == DriveView::StartWatcher(mounted)
            &&& m.sync_enabled ==> step_after(env, m, next, watched).0 == DriveView::SwitchLink(
                user_path(env, m),
                domain_dir(env, m),
            )
        }),
{
}

/// Every link that mounting makes is at the path where the user finds the share, and leads to
/// what the step before it was about.
pub proof fn law_only_the_users_link_is_made(
    env: Environment,
    m: MountConfig,
    step: DriveView,
    outcome: OutcomeView,
)
    ensures
        step_after(env, m, step, outcome).0 matches DriveView::SwitchLink(path, target) ==> path
            == user_path(env, m) && match step {
            DriveView::EnsureSession(mount_point) => target == mount_point,
            DriveView::MountShare => outcome == OutcomeView::Path(target) && !m.sync_enabled,
            DriveView::StartWatcher(_) => target == domain_dir(env, m),
            _ => false,
        },
        step_after(env, m, step, outcome).0 matches DriveView::MakeLink(path, target) ==> step
            == DriveView::InspectLink(path) && outcome == OutcomeView::Found(false) && target
            == m.nas_share_path@,
{
}

/// On Linux the share is mounted at the path for shares, and the link that the user sees leads to
/// that same path.
pub proof fn law_linux_link_leads_to_the_mount_point(env: Environment, m: MountConfig)
    requires
        env.platform is Linux,
    ensures
        first_step(env, m) == DriveView::EnsureSession(share_mount_path(env, m)),
        step_after(env, m, first_step(env, m), OutcomeView::Done).0 == DriveView::SwitchLink(
            user_path(env, m),
            share_mount_path(env, m),
        ),
{
}

/// On Windows the link that the user sees leads to the share itself, and is left as it is where
/// there is one already; either way the session is opened last.
pub proof fn law_windows_link_leads_to_the_share(
    env: Environment,
    m: MountConfig,
    opened: OutcomeView,
)
    requires
        env.platform is Windows,
    ensures
        ({
            let first = first_step(env, m);
            let make = step_after(env, m, first, OutcomeView::Found(false)).0;
            &&& first == DriveView::InspectLink(user_path(env, m))
            &&& step_after(env, m, first, OutcomeView::Found(true)).0 is OpenSession
            &&& make == DriveView::MakeLink(user_path(env, m), m.nas_share_path@)
            &&& step_after(env, m, make, OutcomeView::Done).0 is OpenSession
            &&& step_after(env, m, DriveView::OpenSession, opened).0 is Done
        }),
{
}

/// A failure ends the mounting with its own reason: one of the server where the share could not
/// be reached, and one of the link where that could not be made. Success is reported only after
/// the last step.
pub proof fn law_failures_keep_their_reason(env: Environment, m: MountConfig, reason: Seq<char>)
    ensures
        ({
            let failed = OutcomeView::Failed(reason);
            &&& forall|p: Seq<char>|
                (#[trigger] step_after(env, m, DriveView::EnsureSession(p), failed)).0
                    == DriveView::Failed(EventView::SmbMapFailed(reason))
            &&& step_after(env, m, DriveView::MountShare, failed).0 == DriveView::Failed(
                EventView::SmbMapFailed(reason),
            )
            &&& forall|p: Seq<char>, t: Seq<char>|
                (#[trigger] step_after(env, m, DriveView::SwitchLink(p, t), failed)).0
                    == DriveView::Failed(EventView::DriveMapFailed(reason))
            &&& reason != "NEEDS_ELEVATION"@ ==> forall|p: Seq<char>, t: Seq<char>|
                (#[trigger] step_after(env, m, DriveView::MakeLink(p, t), failed)).0
                    == DriveView::Failed(EventView::DriveMapFailed(reason))
            &&& forall|p: Seq<char>, t: Seq<char>|
                (#[trigger] step_after(env, m, DriveView::SwitchLink(p, t), OutcomeView::Done)).0
                    is Done
        }),
{
}

/// Syncing opens a session, registers the folder of synced files, links the user's path to that
/// very folder and catches up, in this order; only a failure of the first two stops it, and with
/// its own reason.
pub proof fn law_sync_links_the_folder_it_registered(
    env: Environment,
    m: MountConfig,
    cache_root: Seq<char>,
    linked: Option<Seq<char>>,
    reason: Seq<char>,
)
    ensures
        ({
            let root = sync_after(env, m, cache_root, SyncView::OpenSession, None);
            let link = sync_after(env, m, cache_root, root, None);
            &&& root == SyncView::StartRoot(sync_dir(env, m, cache_root))
            &&& link == SyncView::Link(volume(env, m), sync_dir(env, m, cache_root))
            &&& sync_after(env, m, cache_root, link, linked) is Reconcile
            &&& sync_after(env, m, cache_root, SyncView::Reconcile, linked) is Done
            &&& sync_after(env, m, cache_root, SyncView::OpenSession, Some(reason))
                == SyncView::Failed(EventView::SmbMapFailed(reason))
            &&& sync_after(env, m, cache_root, root, Some(reason)) == SyncView::Failed(
                EventView::DriveMapFailed(reason),
            )
        }),
{
}

/// Disconnecting takes the link away that mounting made, and no other; it unmounts what that link
/// led to, or the volume of a synced share. Windows closes the session.
pub proof fn law_disconnecting_removes_the_users_link(
    env: Environment,
    m: MountConfig,
    target: Option<Seq<char>>,
    path: Seq<char>,
)
    ensures
        ({
            let steps = disconnect(env, m, target);
            &&& steps.contains(DisconnectView::RemoveLink(path)) <==> path == user_path(env, m)
            &&& steps.contains(DisconnectView::Unmount(path)) <==> env.platform is Macos && (
            if m.sync_enabled {
                path == "/Volumes/"@ + share(m)
            } else {
                target == Some(path)
            })
            &&& steps.contains(DisconnectView::CloseSession) <==> env.platform is Windows
            &&& steps.contains(DisconnectView::StopWatcher) <==> env.platform is Macos
                && m.sync_enabled
        }),
{
    let steps = disconnect(env, m, target);
    assert(1 <= steps.len() <= 3);
    let first = steps[0];
    assert(steps.contains(first));
    if steps.len() == 1 {
        assert(steps =~= seq![first]);
    } else if steps.len() == 2 {
        assert(steps.contains(steps[1]));
        assert(steps =~= seq![first, steps[1]]);
    } else {
        assert(steps.contains(steps[1]));
        assert(steps.contains(steps[2]));
        assert(steps =~= seq![first, steps[1], steps[2]]);
    }
}

/// A heartbeat changes nothing of a share that answers while it is active, that fails while it is
/// waited for, or whose sync is not running.
pub proof fn law_heartbeats_change_nothing_else(reachable: bool, s: SyncState)
    requires
        s is Active ==> reachable,
        s is Offline || s is Reconnecting ==> !reachable,
    ensures
        heartbeat(reachable, s).0 == s,
        heartbeat(reachable, s).1.len() == 0,
{
}

/// A share that fails while it is active is no longer watched and counts as reconnecting, and one
/// that comes back gets its session before it is watched again and counts as online after that.
pub proof fn law_heartbeats_stop_and_restart_the_watcher(s: SyncState)
    ensures
        s is Active ==> {
            let r = heartbeat(false, s);
            &&& r.0 is Reconnecting
            &&& r.1.contains(HeartbeatAction::StopWatcher)
            &&& r.1.contains(HeartbeatAction::SetReconnecting)
            &&& r.1.last() == HeartbeatAction::Emit
            &&& !r.1.contains(HeartbeatAction::SetOnline)
            &&& !r.1.contains(HeartbeatAction::RestartWatcher)
        },
        s is Offline || s is Reconnecting ==> {
            let r = heartbeat(true, s);
            &&& r.0 is Active
            &&& r.1[0] == HeartbeatAction::OpenSession
            &&& r.1[1] == HeartbeatAction::RestartWatcher
            &&& r.1[2] == HeartbeatAction::SetOnline
            &&& r.1.last() == HeartbeatAction::Emit
            &&& !r.1.contains(HeartbeatAction::StopWatcher)
        },
{
    if s is Active {
        let r = heartbeat(false, s).1;
        assert(r[1] == HeartbeatAction::StopWatcher);
        assert(r[3] == HeartbeatAction::SetReconnecting);
    }
}

/// The server of a UNC path is what stands between the leading backslashes and the next one.
pub proof fn law_server_is_the_first_component(server: Seq<char>, rest: Seq<char>)
    requires
        server.len() > 0,
        forall|i: int| 0 <= i < server.len() ==> server[i] != '\\',
    ensures
        server_name(seq!['\\', '\\'] + server + seq!['\\'] + rest) == server,
        server_name(seq!['\\', '\\'] + server) == server,
        server_name(server) == server,
{
    let front = seq!['\\', '\\'];
    let a = front + server + seq!['\\'] + rest;
    let b = front + server;
    crate::text::lemma_trim_front(a, '\\', 2);
    crate::text::lemma_trim_front(b, '\\', 2);
    crate::text::lemma_trim_front(server, '\\', 0);
    assert(server.skip(0) =~= server);
    assert(b.skip(2) =~= server);
    assert(a.skip(2) =~= server + seq!['\\'] + rest);
    crate::text::lemma_first_pos_is(a.skip(2), '\\', server.len() as int);
    crate::text::lemma_first_pos_is(server, '\\', server.len() as int);
    assert(a.skip(2).take(server.len() as int) =~= server);
    assert(server.take(server.len() as int) =~= server);
}

/// Mounting is left to on-demand sync exactly on Windows for a synced mount, and everything else
/// that the state machine asks for is kept in its order.
pub proof fn law_effects_become_work_in_order(
    env: Environment,
    m: MountConfig,
    fx: Seq<EffectView>,
    i: int,
)
    requires
        0 <= i < fx.len(),
    ensures
        works_for(env, m, fx).len() == fx.len(),
        fx[i] is MapDriveToSmb ==> (works_for(env, m, fx)[i] is StartSync <==> env.platform
            is Windows && m.sync_enabled) && (works_for(env, m, fx)[i] is MountDrive <==> !(
        env.platform is Windows && m.sync_enabled)),
        fx[i] is EmitStateUpdate <==> works_for(env, m, fx)[i] is Emit,
        fx[i] matches EffectView::LogEvent(level, message) ==> works_for(env, m, fx)[i]
            == WorkView::Log(level, message),
        works_for(env, m, fx)[i] is Nothing <==> fx[i] is EnsureSmbSession || fx[i] is UpdateTray,
{
}

/// Clients tell the states of sync apart by their names.
pub proof fn law_sync_states_have_their_own_names(a: SyncState, b: SyncState)
    requires
        a.name() == b.name(),
    ensures
        a is Disabled <==> b is Disabled,
        a is Registering <==> b is Registering,
        a is Active <==> b is Active,
        a is Offline <==> b is Offline,
        a is Reconnecting <==> b is Reconnecting,
        a is Error <==> b is Error,
        a is Deregistering <==> b is Deregistering,
{
    reveal_strlit("disabled");
    reveal_strlit("registering");
    reveal_strlit("active");
    reveal_strlit("offline");
    reveal_strlit("reconnecting");
    reveal_strlit("error");
    reveal_strlit("deregistering");
    assert("disabled"@.len() == 8);
    assert("registering"@.len() == 11);
    assert("active"@.len() == 6);
    assert("offline"@.len() == 7);
    assert("reconnecting"@.len() == 12);
    assert("error"@.len() == 5);
    assert("deregistering"@.len() == 13);
}

/// Clients are told of the mount by its identifier, of its state by name and in words, and of sync
/// only on Windows for a synced mount.
pub proof fn law_state_updates_are_about_the_mount(
    o: Orchestrator,
    state: MountState,
    sync: SyncState,
    summary: Option<String>,
    elevation: bool,
    r: AgentToUfb,
)
    requires
        call_ensures(
            Orchestrator::emit_state_update,
            (&o, &state, &sync, summary, elevation),
            r,
        ),
    ensures
        ({
            let windows = o.env.platform is Windows;
            let synced = windows && o.config.sync_enabled;
            r matches AgentToUfb::MountStateUpdate(u) && {
                &&& u.mount_id@ == o.config.id@
                &&& u.state@ == state@.name()
                &&& u.state_detail@ == state@.text()
                &&& u.sync_state is Some <==> synced
                &&& u.sync_state matches Some(n) ==> n@ == sync.name()
                &&& u.sync_state_detail is Some <==> synced
                &&& synced && sync is Active ==> (summary matches Some(t)
                    ==> u.sync_state_detail->0@ == t@)
                &&& synced && !(sync is Active) ==> u.sync_state_detail->0@ == sync.name()
                &&& u.needs_elevation == Some(true) <==> windows && elevation
                &&& u.needs_elevation is None <==> !(windows && elevation)
            }
        }),
{
}

/// Credentials that the store had are used as they are, and the server is asked without any where
/// it had none.
pub proof fn law_missing_credentials_are_empty(
    u: String,
    p: String,
    e: String,
    found: (String, String),
    missing: (String, String),
    failed: (String, String),
)
    requires
        call_ensures(Orchestrator::retrieve_credentials, (Some(Ok((u, p))),), found),
        call_ensures(Orchestrator::retrieve_credentials, (None,), missing),
        call_ensures(Orchestrator::retrieve_credentials, (Some(Err(e)),), failed),
    ensures
        found.0@ == u@ && found.1@ == p@,
        missing.0@.len() == 0 && missing.1@.len() == 0,
        failed.0@.len() == 0 && failed.1@.len() == 0,
{
}

/// A server is asked with the mount's own key unless it is connected already or there is no key.
pub proof fn law_connected_servers_need_no_credentials(
    host: &str,
    key: &str,
    connected: Vec<String>,
    r: Option<String>,
)
    requires
        host@.len() > 0,
        call_ensures(credential_lookup, (host, key, &connected), r),
    ensures
        texts(connected@).contains(host@) ==> r is None,
        key@.len() == 0 ==> r is None,
        !texts(connected@).contains(host@) && key@.len() > 0 ==> r is Some,
        r matches Some(k) ==> key@.is_suffix_of(k@) && "mediamount_"@.is_prefix_of(k@),
{
    if let Some(k) = r {
        let p = "mediamount_"@;
        if p.is_prefix_of(key@) {
            assert(key@.subrange(0, key@.len() as int) =~= key@);
        } else {
            assert(k@.subrange(k@.len() - key@.len(), k@.len() as int) =~= key@);
            assert(k@.subrange(0, p.len() as int) =~= p);
        }
    }
}

/// The loop of a mount ends only once it has stopped, and success is confirmed only while it
/// mounts.
pub proof fn law_only_stopped_mounts_leave(state: MountState, r: FollowUp)
    requires
        call_ensures(Orchestrator::follow_up, (&state,), r),
    ensures
        r is Exit <==> state is Stopped,
        r is Confirm <==> state is Mounting,
{
}

/// The state of sync follows its steps: an error of the first two is the state, and elevated
/// rights are asked for only by the link.
pub proof fn law_sync_state_follows_the_steps(
    o: Orchestrator,
    step: SyncStep,
    failure: Option<String>,
    r: (SyncStep, SyncState, bool),
)
    requires
        call_ensures(Orchestrator::start_sync_next, (&o, step, failure), r),
    ensures
        step is OpenSession && failure is None ==> r.1 is Registering && r.0 is StartRoot,
        step is StartRoot && failure is None ==> r.1 is Active && r.0 is Link,
        (step is OpenSession || step is StartRoot) ==> (failure matches Some(why) ==> r.1
            == SyncState::Error(why) && r.0 is Failed),
        r.2 ==> step is Link && failure is Some && failure->0@ == "NEEDS_ELEVATION"@,
        step is Link ==> r.0 is Reconcile && r.1 is Active,
        step is Link && failure is Some && failure->0@ == "NEEDS_ELEVATION"@ ==> r.2,
{
}

} // verus!
