//! State of a mount: a pure transition function from state and event to the next
//! state and the effects that the orchestrator has to carry out.
use crate::text::join2;
use vstd::prelude::*;

verus! {

/// State of a mount.
#[derive(Debug, Clone, PartialEq, Eq)]
pub enum MountState {
    Initializing,
    Mounting,
    Mounted,
    Error(MountError),
    Stopped,
}

/// Why a mount is in error.
#[derive(Debug, Clone, PartialEq, Eq)]
pub enum MountError {
    ConfigInvalid { reason: String },
    DriveMapFailed { reason: String },
    SmbFailed { reason: String },
}

/// What can happen to a mount.
#[derive(Debug, Clone, PartialEq, Eq)]
pub enum MountEvent {
    Start,
    Stop,
    Restart,
    ConfigReloaded,
    DriveMapFailed { reason: String },
    SmbMapFailed { reason: String },
    /// Asks for the state; while mounting it says that the effects have succeeded.
    RequestStateUpdate,
}

/// What the orchestrator has to do.
#[derive(Debug, Clone, PartialEq, Eq)]
pub enum Effect {
    MapDriveToSmb,
    EnsureSmbSession,
    UpdateTray,
    LogEvent { level: LogLevel, message: String },
    EmitStateUpdate,
}

/// Level of a log line.
#[derive(Debug, Clone, Copy, PartialEq, Eq, Structural)]
pub enum LogLevel {
    Info,
    Warn,
    Error,
}

/// What a `MountState` says.
pub enum StateView {
    Initializing,
    Mounting,
    Mounted,
    Error(ErrorView),
    Stopped,
}

/// What a `MountError` says.
pub enum ErrorView {
    ConfigInvalid(Seq<char>),
    DriveMapFailed(Seq<char>),
    SmbFailed(Seq<char>),
}

/// What a `MountEvent` says.
pub enum EventView {
    Start,
    Stop,
    Restart,
    ConfigReloaded,
    DriveMapFailed(Seq<char>),
    SmbMapFailed(Seq<char>),
    RequestStateUpdate,
}

/// What an `Effect` says.
pub enum EffectView {
    MapDriveToSmb,
    EnsureSmbSession,
    UpdateTray,
    LogEvent(LogLevel, Seq<char>),
    EmitStateUpdate,
}

impl View for MountError {
    type V = ErrorView;

    open spec fn view(&self) -> ErrorView {
        match self {
            MountError::ConfigInvalid { reason } => ErrorView::ConfigInvalid(reason@),
            MountError::DriveMapFailed { reason } => ErrorView::DriveMapFailed(reason@),
            MountError::SmbFailed { reason } => ErrorView::SmbFailed(reason@),
        }
    }
}

impl View for MountState {
    type V = StateView;

    open spec fn view(&self) -> StateView {
        match self {
            MountState::Initializing => StateView::Initializing,
            MountState::Mounting => StateView::Mounting,
            MountState::Mounted => StateView::Mounted,
            MountState::Error(e) => StateView::Error(e@),
            MountState::Stopped => StateView::Stopped,
        }
    }
}

impl View for MountEvent {
    type V = EventView;

    open spec fn view(&self) -> EventView {
        match self {
            MountEvent::Start => EventView::Start,
            MountEvent::Stop => EventView::Stop,
            MountEvent::Restart => EventView::Restart,
            MountEvent::ConfigReloaded => EventView::ConfigReloaded,
            MountEvent::DriveMapFailed { reason } => EventView::DriveMapFailed(reason@),
            MountEvent::SmbMapFailed { reason } => EventView::SmbMapFailed(reason@),
            MountEvent::RequestStateUpdate => EventView::RequestStateUpdate,
        }
    }
}

impl View for Effect {
    type V = EffectView;

    open spec fn view(&self) -> EffectView {
        match self {
            Effect::MapDriveToSmb => EffectView::MapDriveToSmb,
            Effect::EnsureSmbSession => EffectView::EnsureSmbSession,
            Effect::UpdateTray => EffectView::UpdateTray,
            Effect::LogEvent { level, message } => EffectView::LogEvent(*level, message@),
            Effect::EmitStateUpdate => EffectView::EmitStateUpdate,
        }
    }
}

pub open spec fn effects(v: Seq<Effect>) -> Seq<EffectView> {
    v.map_values(|e: Effect| e@)
}

/// The effects of beginning to mount, with the reason to log.
pub open spec fn begin(message: Seq<char>) -> Seq<EffectView> {
    seq![
        EffectView::EnsureSmbSession,
        EffectView::MapDriveToSmb,
        EffectView::LogEvent(LogLevel::Info, message),
        EffectView::EmitStateUpdate,
    ]
}

/// The effects of coming to rest in a state, with the line to log.
pub open spec fn settle(level: LogLevel, message: Seq<char>) -> Seq<EffectView> {
    seq![
        EffectView::LogEvent(level, message),
        EffectView::UpdateTray,
        EffectView::EmitStateUpdate,
    ]
}

/// The table of transitions.
pub open spec fn step(s: StateView, e: EventView) -> (StateView, Seq<EffectView>) {
    match (s, e) {
        (StateView::Initializing, EventView::Start) => (
            StateView::Mounting,
            begin("mounting SMB share"@),
        ),
        (StateView::Mounting, EventView::RequestStateUpdate) => (
            StateView::Mounted,
            settle(LogLevel::Info, "mounted"@),
        ),
        (StateView::Mounting, EventView::SmbMapFailed(reason)) => (
            StateView::Error(ErrorView::SmbFailed(reason)),
            settle(LogLevel::Error, "SMB mount failed: "@ + reason),
        ),
        (StateView::Mounting, EventView::DriveMapFailed(reason)) => (
            StateView::Error(ErrorView::DriveMapFailed(reason)),
            settle(LogLevel::Error, "drive map failed: "@ + reason),
        ),
        (StateView::Mounted, EventView::Restart) => (
            StateView::Mounting,
            begin("restart requested"@),
        ),
        (StateView::Error(_), EventView::Start) | (StateView::Error(_), EventView::Restart) => (
            StateView::Mounting,
            begin("retrying from error state"@),
        ),
        (StateView::Stopped, EventView::Start) => (
            StateView::Mounting,
            begin("starting from stopped state"@),
        ),
        (_, EventView::RequestStateUpdate) => (s, seq![EffectView::EmitStateUpdate]),
        (_, EventView::Stop) => (StateView::Stopped, settle(LogLevel::Info, "mount stopped"@)),
        _ => (s, Seq::empty()),
    }
}

fn begin_effects(message: &str) -> (out: Vec<Effect>)
    ensures
        effects(out@) == begin(message@),
{
    let out: Vec<Effect> = vec![
        Effect::EnsureSmbSession,
        Effect::MapDriveToSmb,
        Effect::LogEvent { level: LogLevel::Info, message: message.to_owned() },
        Effect::EmitStateUpdate,
    ];
    assert(effects(out@) =~= begin(message@));
    out
}

fn settle_effects(level: LogLevel, message: String) -> (out: Vec<Effect>)
    ensures
        effects(out@) == settle(level, message@),
{
    let ghost said = message@;
    let out: Vec<Effect> = vec![
        Effect::LogEvent { level, message },
        Effect::UpdateTray,
        Effect::EmitStateUpdate,
    ];
    assert(effects(out@) =~= settle(level, said));
    out
}

/// The next state and what has to be done on the way there.
pub fn transition(state: MountState, event: MountEvent) -> (r: (MountState, Vec<Effect>))
    ensures
        (r.0@, effects(r.1@)) == step(state@, event@),
{
    match event {
        MountEvent::Start => match state {
            MountState::Initializing => (
                MountState::Mounting,
                begin_effects("mounting SMB share"),
            ),
            MountState::Error(_) => (
                MountState::Mounting,
                begin_effects("retrying from error state"),
            ),
            MountState::Stopped => (
                MountState::Mounting,
                begin_effects("starting from stopped state"),
            ),
            other => nothing(other),
        },
        MountEvent::Restart => match state {
            MountState::Mounted => (MountState::Mounting, begin_effects("restart requested")),
            MountState::Error(_) => (
                MountState::Mounting,
                begin_effects("retrying from error state"),
            ),
            other => nothing(other),
        },
        MountEvent::Stop => (
            MountState::Stopped,
            settle_effects(LogLevel::Info, "mount stopped".to_owned()),
        ),
        MountEvent::RequestStateUpdate => match state {
            MountState::Mounting => (
                MountState::Mounted,
                settle_effects(LogLevel::Info, "mounted".to_owned()),
            ),
            other => {
                let out: Vec<Effect> = vec![Effect::EmitStateUpdate];
                assert(effects(out@) =~= seq![EffectView::EmitStateUpdate]);
                (other, out)
            },
        },
        MountEvent::SmbMapFailed { reason } => match state {
            MountState::Mounting => {
                let message = join2("SMB mount failed: ", reason.as_str());
                (
                    MountState::Error(MountError::SmbFailed { reason }),
                    settle_effects(LogLevel::Error, message),
                )
            },
            other => nothing(other),
        },
        MountEvent::DriveMapFailed { reason } => match state {
            MountState::Mounting => {
                let message = join2("drive map failed: ", reason.as_str());
                (
                    MountState::Error(MountError::DriveMapFailed { reason }),
                    settle_effects(LogLevel::Error, message),
                )
            },
            other => nothing(other),
        },
        MountEvent::ConfigReloaded => nothing(state),
    }
}

/// The state as it is, with nothing to do.
fn nothing(state: MountState) -> (r: (MountState, Vec<Effect>))
    ensures
        r.0 == state,
        effects(r.1@) == Seq::<EffectView>::empty(),
{
    let out: Vec<Effect> = Vec::new();
    assert(effects(out@) =~= Seq::<EffectView>::empty());
    (state, out)
}

impl ErrorView {
    /// The error in words.
    pub open spec fn text(self) -> Seq<char> {
        match self {
            ErrorView::ConfigInvalid(reason) => "invalid config: "@ + reason,
            ErrorView::DriveMapFailed(reason) => "drive map failed: "@ + reason,
            ErrorView::SmbFailed(reason) => "SMB failed: "@ + reason,
        }
    }
}

impl StateView {
    /// The state in words.
    pub open spec fn text(self) -> Seq<char> {
        match self {
            StateView::Initializing => "Initializing"@,
            StateView::Mounting => "Mounting"@,
            StateView::Mounted => "Mounted"@,
            StateView::Error(e) => "Error: "@ + e.text(),
            StateView::Stopped => "Stopped"@,
        }
    }

    /// The state as clients know it.
    pub open spec fn name(self) -> Seq<char> {
        match self {
            StateView::Initializing => "initializing"@,
            StateView::Mounting => "mounting"@,
            StateView::Mounted => "mounted"@,
            StateView::Error(_) => "error"@,
            StateView::Stopped => "stopped"@,
        }
    }
}

impl MountError {
    /// The error in words.
    pub fn to_text(&self) -> (out: String)
        ensures
            out@ == self@.text(),
    {
        match self {
            MountError::ConfigInvalid { reason } => join2("invalid config: ", reason.as_str()),
            MountError::DriveMapFailed { reason } => join2("drive map failed: ", reason.as_str()),
            MountError::SmbFailed { reason } => join2("SMB failed: ", reason.as_str()),
        }
    }
}

impl MountState {
    /// The state in words.
    pub fn to_text(&self) -> (out: String)
        ensures
            out@ == self@.text(),
    {
        match self {
            MountState::Initializing => "Initializing".to_owned(),
            MountState::Mounting => "Mounting".to_owned(),
            MountState::Mounted => "Mounted".to_owned(),
            MountState::Error(e) => {
                let detail = e.to_text();
                join2("Error: ", detail.as_str())
            },
            MountState::Stopped => "Stopped".to_owned(),
        }
    }

    /// The state as clients know it.
    pub fn name(&self) -> (out: String)
        ensures
            out@ == self@.name(),
    {
        match self {
            MountState::Initializing => "initializing".to_owned(),
            MountState::Mounting => "mounting".to_owned(),
            MountState::Mounted => "mounted".to_owned(),
            MountState::Error(_) => "error".to_owned(),
            MountState::Stopped => "stopped".to_owned(),
        }
    }
}

/// A mount can be stopped from every state.
pub proof fn law_stop_always_stops(s: StateView)
    ensures
        step(s, EventView::Stop).0 is Stopped,
{
}

/// Clients hear of every change of state, last of all.
pub proof fn law_every_change_is_announced(s: StateView, e: EventView)
    ensures
        step(s, e).0 != s ==> step(s, e).1.len() > 0 && step(s, e).1.last()
            is EmitStateUpdate,
{
}

/// A mount in error comes back: a start or a restart mounts it again, and it is mounted once
/// the effects have succeeded.
pub proof fn law_error_recovers(err: ErrorView, e: EventView)
    requires
        e is Start || e is Restart,
    ensures
        step(StateView::Error(err), e).0 is Mounting,
        step(step(StateView::Error(err), e).0, EventView::RequestStateUpdate).0 is Mounted,
{
}

/// Mounting is begun with the session first and the drive second, and only on entering
/// the mounting state.
pub proof fn law_mounting_runs_both_effects(s: StateView, e: EventView)
    ensures
        step(s, e).0 is Mounting && s !is Mounting ==> step(s, e).1.len() >= 2 && step(s, e).1[0]
            is EnsureSmbSession && step(s, e).1[1] is MapDriveToSmb,
        step(s, e).1.contains(EffectView::MapDriveToSmb) ==> step(s, e).0 is Mounting && s
            !is Mounting,
{
    let fx = step(s, e).1;
    if fx.contains(EffectView::MapDriveToSmb) {
        let i = choose|i: int| 0 <= i < fx.len() && fx[i] == EffectView::MapDriveToSmb;
        assert(fx[i] is MapDriveToSmb);
    }
}

/// An event that a state does not know leaves everything as it is.
pub proof fn law_unknown_events_do_nothing(s: StateView, e: EventView)
    requires
        e is ConfigReloaded || ((e is SmbMapFailed || e is DriveMapFailed) && s !is Mounting) || (e
            is Start && (s is Mounting || s is Mounted)) || (e is Restart && (s is Initializing || s
            is Mounting || s is Stopped)),
    ensures
        step(s, e) == (s, Seq::<EffectView>::empty()),
{
}

/// Mounting begins wherever a start or a restart is asked for and the share is not mounted or
/// being mounted, and a mounted share is mounted anew by a restart; nothing else begins it.
pub proof fn law_mounting_begins_on_request(s: StateView, e: EventView)
    requires
        s !is Mounting,
    ensures
        step(s, e).0 is Mounting <==> (e is Start && (s is Initializing || s is Error || s
            is Stopped)) || (e is Restart && (s is Mounted || s is Error)),
{
}

/// A share counts as mounted only once mounting has been confirmed, and as failed only by a
/// failure of mounting, with the reason that came with it.
pub proof fn law_mounting_ends_as_it_went(s: StateView, e: EventView, reason: Seq<char>)
    ensures
        step(s, e).0 is Mounted && s !is Mounted ==> s is Mounting && e is RequestStateUpdate,
        step(s, e).0 is Error && s !is Error ==> s is Mounting && (e is SmbMapFailed || e
            is DriveMapFailed),
        step(StateView::Mounting, EventView::RequestStateUpdate).0 is Mounted,
        step(StateView::Mounting, EventView::SmbMapFailed(reason)).0 == StateView::Error(
            ErrorView::SmbFailed(reason),
        ),
        step(StateView::Mounting, EventView::DriveMapFailed(reason)).0 == StateView::Error(
            ErrorView::DriveMapFailed(reason),
        ),
        step(s, e).0 is Stopped && s !is Stopped ==> e is Stop,
{
}

/// A failure is logged as an error, and the line ends with its reason.
pub proof fn law_failures_are_logged(e: EventView, reason: Seq<char>)
    requires
        e == EventView::SmbMapFailed(reason) || e == EventView::DriveMapFailed(reason),
    ensures
        exists|i: int|
            0 <= i < step(StateView::Mounting, e).1.len() && (#[trigger] step(
                StateView::Mounting,
                e,
            ).1[i] matches EffectView::LogEvent(level, message) && level == LogLevel::Error
                && reason.is_suffix_of(message)),
{
    let fx = step(StateView::Mounting, e).1;
    let m = fx[0]->LogEvent_1;
    assert(m.subrange(m.len() - reason.len(), m.len() as int) =~= reason);
    assert(fx[0] matches EffectView::LogEvent(level, message) && level == LogLevel::Error
        && reason.is_suffix_of(message));
}

/// A question for the state is answered in every state, and changes none but the mounting one.
pub proof fn law_questions_are_answered(s: StateView)
    ensures
        step(s, EventView::RequestStateUpdate).1.len() > 0,
        step(s, EventView::RequestStateUpdate).1.last() is EmitStateUpdate,
        s !is Mounting ==> step(s, EventView::RequestStateUpdate).0 == s,
{
}

/// The tray is brought up to date whenever a mount comes to rest in another state.
pub proof fn law_tray_follows_the_state(s: StateView, e: EventView)
    requires
        step(s, e).0 != s,
        step(s, e).0 !is Mounting,
    ensures
        step(s, e).1.contains(EffectView::UpdateTray),
{
    assert(step(s, e).1[1] == EffectView::UpdateTray);
}

/// An error is shown with its reason.
pub proof fn law_errors_show_their_reason(reason: Seq<char>, e: ErrorView)
    requires
        e == ErrorView::ConfigInvalid(reason) || e == ErrorView::DriveMapFailed(reason) || e
            == ErrorView::SmbFailed(reason),
    ensures
        reason.is_suffix_of(e.text()),
        e.text().is_suffix_of(StateView::Error(e).text()),
        e.text().len() > reason.len(),
{
    reveal_strlit("invalid config: ");
    reveal_strlit("drive map failed: ");
    reveal_strlit("SMB failed: ");
    let t = e.text();
    let w = StateView::Error(e).text();
    assert(t.subrange(t.len() - reason.len(), t.len() as int) =~= reason);
    assert(w.subrange(w.len() - t.len(), w.len() as int) =~= t);
}

/// Clients tell the states apart by their names.
pub proof fn law_states_have_their_own_names(a: StateView, b: StateView)
    requires
        a.name() == b.name(),
    ensures
        a is Initializing <==> b is Initializing,
        a is Mounting <==> b is Mounting,
        a is Mounted <==> b is Mounted,
        a is Error <==> b is Error,
        a is Stopped <==> b is Stopped,
{
    reveal_strlit("initializing");
    reveal_strlit("mounting");
    reveal_strlit("mounted");
    reveal_strlit("error");
    reveal_strlit("stopped");
    assert("initializing"@.len() == 12);
    assert("mounting"@.len() == 8);
    assert("mounted"@.len() == 7 && "mounted"@[0] == 'm');
    assert("error"@.len() == 5);
    assert("stopped"@.len() == 7 && "stopped"@[0] == 's');
}

} // verus!
