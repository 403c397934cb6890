//! The manager of all mounts: what has to be done when the configuration changes,
//! and how commands and events are answered and routed.
use crate::config::{
    agree, default_sync_dir, given, law_agreement_is_in_every_field, opt_text, share, MountConfig,
    MountsConfig,
};
use crate::messages::{
    AckMsg, AgentToUfb, CacheStatsMsg, ErrorMsg, FreshnessSweepMsg, MountIdMsg, UfbToAgent,
};
use crate::paths::{Environment, Platform};
use crate::state::{EventView, MountEvent};
use crate::text::{join2, same, texts};
use vstd::prelude::*;

verus! {

/// What has to be done after a change of the configuration, in order.
pub enum ServiceAction {
    /// Stop the mount with this identifier and forget it.
    Stop(String),
    /// Take all servers of synced shares down; where there was one, forget their caches and
    /// have all of them built anew.
    TearDownServers,
    /// Hand the mount its new configuration.
    Reconfigure(String),
    /// Start the mount.
    Start(String),
}

/// What a `ServiceAction` says.
pub enum ActionView {
    Stop(Seq<char>),
    TearDownServers,
    Reconfigure(Seq<char>),
    Start(Seq<char>),
}

impl View for ServiceAction {
    type V = ActionView;

    open spec fn view(&self) -> ActionView {
        match self {
            ServiceAction::Stop(id) => ActionView::Stop(id@),
            ServiceAction::TearDownServers => ActionView::TearDownServers,
            ServiceAction::Reconfigure(id) => ActionView::Reconfigure(id@),
            ServiceAction::Start(id) => ActionView::Start(id@),
        }
    }
}

pub open spec fn actions(v: Seq<ServiceAction>) -> Seq<ActionView> {
    v.map_values(|a: ServiceAction| a@)
}

/// The position of the mount with the given identifier, or the length where there is none.
pub open spec fn mount_pos(run: Seq<MountConfig>, id: Seq<char>) -> int
    decreases run.len(),
{
    if run.len() == 0 || run[0].id@ == id {
        0
    } else {
        1 + mount_pos(run.drop_first(), id)
    }
}

/// Whether a mount with the given identifier runs.
pub open spec fn runs(run: Seq<MountConfig>, id: Seq<char>) -> bool {
    mount_pos(run, id) < run.len()
}

/// No identifier occurs twice.
pub open spec fn unique_ids(run: Seq<MountConfig>) -> bool {
    forall|i: int, j: int|
        0 <= i < j < run.len() ==> (#[trigger] run[i]).id@ != (#[trigger] run[j]).id@
}

/// Whether a configuration names the identifier.
pub open spec fn names_id(ms: Seq<MountConfig>, id: Seq<char>) -> bool {
    exists|i: int| 0 <= i < ms.len() && (#[trigger] ms[i]).id@ == id
}

/// The running mounts, and the actions so far.
pub struct Progress {
    pub run: Seq<MountConfig>,
    pub todo: Seq<ActionView>,
}

pub open spec fn progress(run: Seq<MountConfig>, todo: Seq<ActionView>) -> Progress {
    Progress { run, todo }
}

/// Stops the first `n` running mounts for which `gone` holds, and keeps the others.
pub open spec fn stop_where(
    run: Seq<MountConfig>,
    gone: spec_fn(MountConfig) -> bool,
    n: nat,
) -> Progress
    decreases n,
{
    if n == 0 {
        Progress { run: Seq::empty(), todo: Seq::empty() }
    } else {
        let p = stop_where(run, gone, (n - 1) as nat);
        let m = run[n - 1];
        if gone(m) {
            Progress { todo: p.todo.push(ActionView::Stop(m.id@)), ..p }
        } else {
            Progress { run: p.run.push(m), ..p }
        }
    }
}

/// What one entry of the configuration asks for.
pub open spec fn settle_one(p: Progress, m: MountConfig) -> Progress {
    let i = mount_pos(p.run, m.id@);
    if !m.enabled {
        if runs(p.run, m.id@) {
            Progress { run: p.run.remove(i), todo: p.todo.push(ActionView::Stop(m.id@)) }
        } else {
            p
        }
    } else if runs(p.run, m.id@) {
        if agree(p.run[i], m) {
            p
        } else {
            Progress {
                run: p.run.update(i, m),
                todo: p.todo.push(ActionView::Reconfigure(m.id@)),
            }
        }
    } else {
        Progress { run: p.run.push(m), todo: p.todo.push(ActionView::Start(m.id@)) }
    }
}

/// What the first `n` entries of the configuration ask for, one after the other.
pub open spec fn settle_all(p: Progress, ms: Seq<MountConfig>, n: nat) -> Progress
    decreases n,
{
    if n == 0 {
        p
    } else {
        settle_one(settle_all(p, ms, (n - 1) as nat), ms[n - 1])
    }
}

/// The synced mounts are stopped, and then the servers taken down, where the folder of synced
/// files changed.
pub open spec fn move_cache(run: Seq<MountConfig>, moved: bool) -> Progress {
    if moved {
        let p = stop_where(run, |m: MountConfig| m.sync_enabled, run.len());
        Progress { todo: p.todo.push(ActionView::TearDownServers), ..p }
    } else {
        Progress { run, todo: Seq::empty() }
    }
}

/// Mounts that the configuration no longer names are stopped.
pub open spec fn drop_unnamed(p: Progress, ms: Seq<MountConfig>) -> Progress {
    let q = stop_where(p.run, |m: MountConfig| !names_id(ms, m.id@), p.run.len());
    Progress { run: q.run, todo: p.todo + q.todo }
}

/// What a new configuration asks for.
pub open spec fn applied(run: Seq<MountConfig>, moved: bool, ms: Seq<MountConfig>) -> Progress {
    settle_all(drop_unnamed(move_cache(run, moved), ms), ms, ms.len())
}

pub proof fn lemma_mount_pos(run: Seq<MountConfig>, id: Seq<char>)
    ensures
        0 <= mount_pos(run, id) <= run.len(),
        runs(run, id) ==> run[mount_pos(run, id)].id@ == id,
        forall|i: int| 0 <= i < mount_pos(run, id) ==> (#[trigger] run[i]).id@ != id,
    decreases run.len(),
{
    if run.len() > 0 && run[0].id@ != id {
        lemma_mount_pos(run.drop_first(), id);
        assert forall|i: int| 0 <= i < mount_pos(run, id) implies (#[trigger] run[i]).id@ != id by {
            if i > 0 {
                assert(run.drop_first()[i - 1].id@ != id);
            }
        }
    }
}

pub proof fn lemma_mount_pos_is(run: Seq<MountConfig>, id: Seq<char>, k: int)
    requires
        0 <= k <= run.len(),
        k < run.len() ==> run[k].id@ == id,
        forall|i: int| 0 <= i < k ==> (#[trigger] run[i]).id@ != id,
    ensures
        mount_pos(run, id) == k,
{
    lemma_mount_pos(run, id);
    let q = mount_pos(run, id);
    if q < k {
        assert(run[q].id@ != id);
    }
    if k < q {
        assert(run[k].id@ != id);
    }
}

/// The manager of all mounts.
pub struct MountService {
    running: Vec<MountConfig>,
    cache_root: String,
}

impl MountService {
    /// The mounts that run, with the configuration that they run under.
    pub closed spec fn running(&self) -> Seq<MountConfig> {
        self.running@
    }

    /// The folder of synced files.
    pub closed spec fn root(&self) -> Seq<char> {
        self.cache_root@
    }

    /// No mount runs twice.
    pub open spec fn wf(&self) -> bool {
        unique_ids(self.running())
    }

    /// A manager without mounts.
    pub fn new(env: &Environment) -> (s: MountService)
        ensures
            s.wf(),
            s.running() == Seq::<MountConfig>::empty(),
            s.root() == default_sync_dir(*env),
    {
        MountService { running: Vec::new(), cache_root: MountConfig::default_cache_root(env) }
    }

    /// The position of the mount with the given identifier.
    fn find(&self, id: &str) -> (i: usize)
        ensures
            i == mount_pos(self.running(), id@),
            i <= self.running().len(),
    {
        let mut i: usize = 0;
        while i < self.running.len() && !same(self.running[i].id.as_str(), id)
            invariant
                i <= self.running@.len(),
                forall|k: int| 0 <= k < i ==> (#[trigger] self.running@[k]).id@ != id@,
            decreases self.running@.len() - i,
        {
            i += 1;
        }
        proof {
            lemma_mount_pos_is(self.running@, id@, i as int);
        }
        i
    }

    /// The configuration under which a mount runs.
    pub fn running_config(&self, id: &str) -> (r: Option<&MountConfig>)
        ensures
            r is Some <==> runs(self.running(), id@),
            r matches Some(m) ==> *m == self.running()[mount_pos(self.running(), id@)],
    {
        let i: usize = self.find(id);
        if i < self.running.len() {
            Some(&self.running[i])
        } else {
            None
        }
    }

    /// Stops the mounts that are synced.
    fn stop_synced(&mut self) -> (todo: Vec<ServiceAction>)
        ensures
            final(self).root() == old(self).root(),
            progress(final(self).running(), actions(todo@)) == stop_where(
                old(self).running(),
                (|m: MountConfig| m.sync_enabled),
                old(self).running().len(),
            ),
    {
        let ghost run0 = self.running@;
        let ghost gone = |m: MountConfig| m.sync_enabled;
        let mut kept: Vec<MountConfig> = Vec::new();
        let mut todo: Vec<ServiceAction> = Vec::new();
        let ghost mut n: nat = 0;
        assert(actions(todo@) =~= Seq::<ActionView>::empty());
        while self.running.len() > 0
            invariant
                n <= run0.len(),
                self.running@ == run0.skip(n as int),
                self.cache_root@ == old(self).cache_root@,
                gone == (|m: MountConfig| m.sync_enabled),
                progress(kept@, actions(todo@)) == stop_where(run0, gone, n),
            decreases self.running@.len(),
        {
            let ghost before = actions(todo@);
            let m = self.running.remove(0);
            proof {
                assert(m == run0[n as int]);
                assert(self.running@ =~= run0.skip(n as int + 1));
                n = n + 1;
            }
            if m.sync_enabled {
                todo.push(ServiceAction::Stop(m.id.clone()));
                assert(actions(todo@) =~= before.push(ActionView::Stop(m.id@)));
            } else {
                kept.push(m);
            }
        }
        self.running = kept;
        todo
    }

    /// Stops the mounts that the configuration no longer names.
    fn stop_unnamed(&mut self, ms: &Vec<MountConfig>, todo: &mut Vec<ServiceAction>)
        ensures
            final(self).root() == old(self).root(),
            progress(final(self).running(), actions(final(todo)@)) == drop_unnamed(
                progress(old(self).running(), actions(old(todo)@)),
                ms@,
            ),
    {
        let ghost run0 = self.running@;
        let ghost todo0 = actions(todo@);
        let ghost gone = |m: MountConfig| !names_id(ms@, m.id@);
        let mut kept: Vec<MountConfig> = Vec::new();
        let ghost mut n: nat = 0;
        assert(actions(todo@) =~= todo0 + stop_where(run0, gone, 0).todo);
        while self.running.len() > 0
            invariant
                n <= run0.len(),
                self.running@ == run0.skip(n as int),
                self.cache_root@ == old(self).cache_root@,
                gone == (|m: MountConfig| !names_id(ms@, m.id@)),
                kept@ == stop_where(run0, gone, n).run,
                actions(todo@) == todo0 + stop_where(run0, gone, n).todo,
            decreases self.running@.len(),
        {
            let ghost before = actions(todo@);
            let m = self.running.remove(0);
            proof {
                assert(m == run0[n as int]);
                assert(self.running@ =~= run0.skip(n as int + 1));
                n = n + 1;
            }
            if !has_id(ms, m.id.as_str()) {
                todo.push(ServiceAction::Stop(m.id.clone()));
                assert(actions(todo@) =~= before.push(ActionView::Stop(m.id@)));
                assert(actions(todo@) =~= todo0 + stop_where(run0, gone, n).todo);
            } else {
                kept.push(m);
            }
        }
        self.running = kept;
    }

    /// Takes over a new configuration. Where the folder of synced files changed, the synced
    /// mounts are stopped and the servers taken down first. Mounts that are no longer named or
    /// no longer enabled are stopped, those whose entry changed get their new one, and the
    /// others of the configuration are started.
    pub fn apply_config(&mut self, config: MountsConfig, env: &Environment) -> (todo: Vec<
        ServiceAction,
    >)
        requires
            old(self).wf(),
        ensures
            final(self).wf(),
            ({
                let root = match given(config.sync_cache_root) {
                    Some(p) => p,
                    None => default_sync_dir(*env),
                };
                &&& final(self).root() == root
                &&& progress(final(self).running(), actions(todo@)) == applied(
                    old(self).running(),
                    root != old(self).root(),
                    config.mounts@,
                )
            }),
    {
        let new_root = config.cache_root(env);
        let ghost run0 = self.running@;
        let ghost ms = config.mounts@;
        let moved: bool = !same(new_root.as_str(), self.cache_root.as_str());
        let mut todo: Vec<ServiceAction> = Vec::new();
        assert(actions(todo@) =~= Seq::<ActionView>::empty());
        if moved {
            todo = self.stop_synced();
            let ghost before = actions(todo@);
            todo.push(ServiceAction::TearDownServers);
            assert(actions(todo@) =~= before.push(ActionView::TearDownServers));
        }
        self.cache_root = new_root;
        let mut mounts = config.mounts;
        self.stop_unnamed(&mounts, &mut todo);
        let ghost p = drop_unnamed(move_cache(run0, moved), ms);
        let ghost mut n: nat = 0;
        assert(ms.skip(0) =~= ms);
        while mounts.len() > 0
            invariant
                n <= ms.len(),
                mounts@ == ms.skip(n as int),
                self.cache_root@ == new_root@,
                progress(self.running@, actions(todo@)) == settle_all(p, ms, n),
            decreases mounts@.len(),
        {
            let m = mounts.remove(0);
            proof {
                assert(m == ms[n as int]);
                assert(mounts@ =~= ms.skip(n as int + 1));
                n = n + 1;
            }
            self.settle(m, &mut todo);
        }
        proof {
            lemma_move_cache(run0, moved);
            lemma_drop_unnamed(move_cache(run0, moved), ms);
            lemma_settle_all_unique(p, ms, ms.len());
        }
        todo
    }

    /// Does what one entry of the configuration asks for.
    fn settle(&mut self, m: MountConfig, todo: &mut Vec<ServiceAction>)
        ensures
            final(self).root() == old(self).root(),
            progress(final(self).running(), actions(final(todo)@)) == settle_one(
                progress(old(self).running(), actions(old(todo)@)),
                m,
            ),
    {
        let ghost before = actions(todo@);
        let i: usize = self.find(m.id.as_str());
        if !m.enabled {
            if i < self.running.len() {
                let _gone = self.running.remove(i);
                todo.push(ServiceAction::Stop(m.id.clone()));
                assert(actions(todo@) =~= before.push(ActionView::Stop(m.id@)));
            }
            return ;
        }
        if i < self.running.len() {
            if !self.running[i].same_as(&m) {
                todo.push(ServiceAction::Reconfigure(m.id.clone()));
                assert(actions(todo@) =~= before.push(ActionView::Reconfigure(m.id@)));
                self.running.set(i, m);
            }
            return ;
        }
        todo.push(ServiceAction::Start(m.id.clone()));
        assert(actions(todo@) =~= before.push(ActionView::Start(m.id@)));
        self.running.push(m);
    }

    /// Forgets all mounts; returned are those to stop.
    pub fn shutdown(&mut self) -> (ids: Vec<String>)
        ensures
            final(self).running() == Seq::<MountConfig>::empty(),
            final(self).root() == old(self).root(),
            texts(ids@) == old(self).running().map_values(|m: MountConfig| m.id@),
    {
        let ids = self.mount_ids();
        self.running.clear();
        ids
    }

    /// The identifiers of the running mounts.
    pub fn mount_ids(&self) -> (ids: Vec<String>)
        ensures
            texts(ids@) == self.running().map_values(|m: MountConfig| m.id@),
    {
        let mut ids: Vec<String> = Vec::new();
        let ghost all = self.running@.map_values(|m: MountConfig| m.id@);
        let mut i: usize = 0;
        assert(texts(ids@) =~= all.take(0));
        while i < self.running.len()
            invariant
                i <= self.running@.len(),
                all == self.running@.map_values(|m: MountConfig| m.id@),
                texts(ids@) == all.take(i as int),
            decreases self.running@.len() - i,
        {
            let ghost before = texts(ids@);
            ids.push(self.running[i].id.clone());
            assert(texts(ids@) =~= before.push(all[i as int]));
            assert(all.take(i + 1) =~= all.take(i as int).push(all[i as int]));
            i += 1;
        }
        assert(all.take(all.len() as int) =~= all);
        ids
    }

    /// The names of the shares of the running mounts.
    fn share_names(&self) -> (out: Vec<String>)
        ensures
            texts(out@) == self.running().map_values(|m: MountConfig| share(m)),
    {
        let mut out: Vec<String> = Vec::new();
        let ghost all = self.running@.map_values(|m: MountConfig| share(m));
        let mut i: usize = 0;
        assert(texts(out@) =~= all.take(0));
        while i < self.running.len()
            invariant
                i <= self.running@.len(),
                all == self.running@.map_values(|m: MountConfig| share(m)),
                texts(out@) == all.take(i as int),
            decreases self.running@.len() - i,
        {
            let ghost before = texts(out@);
            out.push(self.running[i].share_name());
            assert(texts(out@) =~= before.push(all[i as int]));
            assert(all.take(i + 1) =~= all.take(i as int).push(all[i as int]));
            i += 1;
        }
        assert(all.take(all.len() as int) =~= all);
        out
    }
}

/// Whether a configuration names the identifier.
fn has_id(ms: &Vec<MountConfig>, id: &str) -> (r: bool)
    ensures
        r == names_id(ms@, id@),
{
    let mut i: usize = 0;
    while i < ms.len()
        invariant
            i <= ms@.len(),
            forall|k: int| 0 <= k < i ==> (#[trigger] ms@[k]).id@ != id@,
        decreases ms@.len() - i,
    {
        if same(ms[i].id.as_str(), id) {
            return true;
        }
        i += 1;
    }
    false
}

/// Whether some enabled mount of a configuration has a share of the given name.
pub open spec fn active_name(ms: Seq<MountConfig>, name: Seq<char>) -> bool {
    exists|i: int| 0 <= i < ms.len() && (#[trigger] ms[i]).enabled && share(ms[i]) == name
}

/// Whether an entry of the directory of mount points belongs to a mount that is in use; the
/// others are left over from mounts that are gone.
pub fn is_active_entry(config: &MountsConfig, name: &str) -> (r: bool)
    ensures
        r == active_name(config.mounts@, name@),
{
    let mut i: usize = 0;
    while i < config.mounts.len()
        invariant
            i <= config.mounts@.len(),
            forall|k: int|
                0 <= k < i ==> !((#[trigger] config.mounts@[k]).enabled && share(config.mounts@[k])
                    == name@),
        decreases config.mounts@.len() - i,
    {
        if config.mounts[i].enabled {
            let s = config.mounts[i].share_name();
            if same(s.as_str(), name) {
                return true;
            }
        }
        i += 1;
    }
    false
}

/// What a command asks for.
pub enum CommandPlan {
    /// Answer at once.
    Reply(AgentToUfb),
    /// Read the configuration again and apply it.
    Reload,
    /// Ask the mounts with these identifiers for their state.
    AskStates(Vec<String>),
    /// Hand the event to the mount, and answer by whether that worked.
    Send { mount_id: String, event: MountEvent, command_id: String },
    /// Drop what is held locally of the share.
    ClearCache { domain: String, mount_id: String, command_id: String },
    /// Answer with how much is held locally of the share, where there is one.
    ReportCache { domain: Option<String>, msg: MountIdMsg },
    /// Have links made with elevated rights, where the platform has that.
    CreateLinks,
    /// Stop all mounts and end.
    Quit,
    /// Have these shares checked for changes, and answer.
    Sweep { domains: Vec<String>, reply: Option<AgentToUfb> },
}

/// `r` acknowledges the command, where it has an identifier.
pub open spec fn is_ack(r: Option<AgentToUfb>, command_id: Seq<char>) -> bool {
    if command_id.len() == 0 {
        r is None
    } else {
        r matches Some(AgentToUfb::Ack(a)) && a.command_id@ == command_id
    }
}

/// Acknowledges a command that has an identifier.
pub fn ack(command_id: &str) -> (r: Option<AgentToUfb>)
    ensures
        is_ack(r, command_id@),
{
    if command_id.is_empty() {
        None
    } else {
        Some(AgentToUfb::Ack(AckMsg { command_id: command_id.to_owned() }))
    }
}

/// The answer to a command for one mount: an unknown mount is an error, and an event that could
/// not be delivered is not acknowledged.
pub fn send_to_mount_reply(known: bool, delivered: bool, mount_id: &str, command_id: &str) -> (r:
    Option<AgentToUfb>)
    ensures
        known && delivered ==> is_ack(r, command_id@),
        known && !delivered ==> r is None,
        !known && command_id@.len() == 0 ==> r is None,
        !known && command_id@.len() > 0 ==> (r matches Some(AgentToUfb::Error(e)) && e.command_id@
            == command_id@ && e.message@ == "unknown mount: "@ + mount_id@),
{
    if known {
        if delivered {
            ack(command_id)
        } else {
            None
        }
    } else if command_id.is_empty() {
        None
    } else {
        Some(
            AgentToUfb::Error(
                ErrorMsg {
                    command_id: command_id.to_owned(),
                    message: join2("unknown mount: ", mount_id),
                },
            ),
        )
    }
}

/// The answer to a question for what is held locally: zero where the share has no cache.
pub fn cache_stats_reply(msg: MountIdMsg, stats: Option<(u64, u64)>) -> (r: AgentToUfb)
    ensures
        r matches AgentToUfb::CacheStats(c) && c.mount_id == msg.mount_id && c.command_id
            == msg.command_id && (c.hydrated_bytes, c.hydrated_count) == (match stats {
            Some(s) => s,
            None => (0u64, 0u64),
        }),
{
    let (hydrated_bytes, hydrated_count) = match stats {
        Some(s) => s,
        None => (0u64, 0u64),
    };
    AgentToUfb::CacheStats(
        CacheStatsMsg {
            mount_id: msg.mount_id,
            hydrated_bytes,
            hydrated_count,
            command_id: msg.command_id,
        },
    )
}

/// The answers after a cache was cleared: the acknowledgement, and what is held now.
pub fn drained_replies(mount_id: &str, command_id: &str, bytes: u64, count: u64) -> (r: (
    Option<AgentToUfb>,
    AgentToUfb,
))
    ensures
        is_ack(r.0, command_id@),
        r.1 matches AgentToUfb::CacheStats(c) && c.mount_id@ == mount_id@ && c.hydrated_bytes
            == bytes && c.hydrated_count == count && c.command_id@.len() == 0,
{
    let stats = CacheStatsMsg {
        mount_id: mount_id.to_owned(),
        hydrated_bytes: bytes,
        hydrated_count: count,
        command_id: String::new(),
    };
    (ack(command_id), AgentToUfb::CacheStats(stats))
}

/// What has to be done with an event for a mount, in order.
pub enum RouteAction {
    /// Take the server of the share down and forget its cache.
    ShutdownServer(String),
    /// Hand the event to the mount.
    Forward(MountEvent),
    /// Have the server of the share built.
    SpawnServer(String),
}

/// What a `RouteAction` says.
pub enum RouteView {
    ShutdownServer(Seq<char>),
    Forward(EventView),
    SpawnServer(Seq<char>),
}

impl View for RouteAction {
    type V = RouteView;

    open spec fn view(&self) -> RouteView {
        match self {
            RouteAction::ShutdownServer(d) => RouteView::ShutdownServer(d@),
            RouteAction::Forward(e) => RouteView::Forward(e@),
            RouteAction::SpawnServer(d) => RouteView::SpawnServer(d@),
        }
    }
}

pub open spec fn routes(v: Seq<RouteAction>) -> Seq<RouteView> {
    v.map_values(|a: RouteAction| a@)
}

/// The way of an event to a mount: the server of a synced share goes down before a stop, comes
/// up after a start, and both for a restart. Linux has no such servers.
pub open spec fn route(
    run: Seq<MountConfig>,
    platform: Platform,
    id: Seq<char>,
    event: EventView,
) -> Seq<RouteView> {
    if !runs(run, id) {
        Seq::empty()
    } else {
        let m = run[mount_pos(run, id)];
        let domain = share(m);
        if !m.sync_enabled || platform is Linux {
            seq![RouteView::Forward(event)]
        } else {
            match event {
                EventView::Stop => seq![
                    RouteView::ShutdownServer(domain),
                    RouteView::Forward(event),
                ],
                EventView::Start => seq![
                    RouteView::Forward(event),
                    RouteView::SpawnServer(domain),
                ],
                EventView::Restart => seq![
                    RouteView::ShutdownServer(domain),
                    RouteView::Forward(event),
                    RouteView::SpawnServer(domain),
                ],
                _ => seq![RouteView::Forward(event)],
            }
        }
    }
}

impl MountService {
    /// What a command asks for.
    pub fn handle_command(&self, cmd: UfbToAgent) -> (plan: CommandPlan)
        ensures
            match cmd {
                UfbToAgent::Ping => plan == CommandPlan::Reply(AgentToUfb::Pong),
                UfbToAgent::ReloadConfig => plan is Reload,
                UfbToAgent::GetStates => plan matches CommandPlan::AskStates(ids) && texts(ids@)
                    == self.running().map_values(|m: MountConfig| m.id@),
                UfbToAgent::StartMount(msg) => plan == (CommandPlan::Send {
                    mount_id: msg.mount_id,
                    event: MountEvent::Start,
                    command_id: msg.command_id,
                }),
                UfbToAgent::StopMount(msg) => plan == (CommandPlan::Send {
                    mount_id: msg.mount_id,
                    event: MountEvent::Stop,
                    command_id: msg.command_id,
                }),
                UfbToAgent::RestartMount(msg) => plan == (CommandPlan::Send {
                    mount_id: msg.mount_id,
                    event: MountEvent::Restart,
                    command_id: msg.command_id,
                }),
                UfbToAgent::ClearSyncCache(msg) => plan matches CommandPlan::ClearCache {
                    domain,
                    mount_id,
                    command_id,
                } && domain@ == self.cache_domain(msg.mount_id@) && mount_id == msg.mount_id
                    && command_id == msg.command_id,
                UfbToAgent::GetCacheStats(msg) => plan matches CommandPlan::ReportCache {
                    domain,
                    msg: asked,
                } && asked == msg && (domain is Some <==> runs(self.running(), msg.mount_id@)) && (
                domain is Some ==> domain->0@ == self.cache_domain(msg.mount_id@)),
                UfbToAgent::CreateSymlinks => plan is CreateLinks,
                UfbToAgent::Quit => plan is Quit,
                UfbToAgent::FreshnessSweep(msg) => plan matches CommandPlan::Sweep {
                    domains,
                    reply,
                } && is_ack(reply, msg.command_id@) && texts(domains@) == (match msg.domain {
                    Some(d) => seq![d@],
                    None => self.running().map_values(|m: MountConfig| share(m)),
                }),
            },
    {
        match cmd {
            UfbToAgent::Ping => CommandPlan::Reply(AgentToUfb::Pong),
            UfbToAgent::ReloadConfig => CommandPlan::Reload,
            UfbToAgent::GetStates => CommandPlan::AskStates(self.mount_ids()),
            UfbToAgent::StartMount(msg) => CommandPlan::Send {
                mount_id: msg.mount_id,
                event: MountEvent::Start,
                command_id: msg.command_id,
            },
            UfbToAgent::StopMount(msg) => CommandPlan::Send {
                mount_id: msg.mount_id,
                event: MountEvent::Stop,
                command_id: msg.command_id,
            },
            UfbToAgent::RestartMount(msg) => CommandPlan::Send {
                mount_id: msg.mount_id,
                event: MountEvent::Restart,
                command_id: msg.command_id,
            },
            UfbToAgent::ClearSyncCache(msg) => {
                let domain = match self.running_config(msg.mount_id.as_str()) {
                    Some(m) => m.share_name(),
                    None => msg.mount_id.clone(),
                };
                CommandPlan::ClearCache {
                    domain,
                    mount_id: msg.mount_id,
                    command_id: msg.command_id,
                }
            },
            UfbToAgent::GetCacheStats(msg) => {
                let domain: Option<String> = match self.running_config(msg.mount_id.as_str()) {
                    Some(m) => Some(m.share_name()),
                    None => None,
                };
                CommandPlan::ReportCache { domain, msg }
            },
            UfbToAgent::CreateSymlinks => CommandPlan::CreateLinks,
            UfbToAgent::Quit => CommandPlan::Quit,
            UfbToAgent::FreshnessSweep(msg) => self.handle_freshness_sweep(msg),
        }
    }

    /// The share whose cache a command for a mount is about: the identifier stands for an
    /// unknown mount.
    pub open spec fn cache_domain(&self, id: Seq<char>) -> Seq<char> {
        if runs(self.running(), id) {
            share(self.running()[mount_pos(self.running(), id)])
        } else {
            id
        }
    }

    /// The shares to check for changes, and the answer.
    fn handle_freshness_sweep(&self, msg: FreshnessSweepMsg) -> (plan: CommandPlan)
        ensures
            plan matches CommandPlan::Sweep { domains, reply } && is_ack(reply, msg.command_id@)
                && texts(domains@) == (match msg.domain {
                Some(d) => seq![d@],
                None => self.running().map_values(|m: MountConfig| share(m)),
            }),
    {
        let reply = ack(msg.command_id.as_str());
        let domains: Vec<String> = match msg.domain {
            Some(d) => {
                let ghost name = d@;
                let one: Vec<String> = vec![d];
                assert(texts(one@) =~= seq![name]);
                one
            },
            None => self.share_names(),
        };
        CommandPlan::Sweep { domains, reply }
    }

    /// The way of an event to a mount.
    pub fn route_event(&self, platform: Platform, mount_id: &str, event: MountEvent) -> (out: Vec<
        RouteAction,
    >)
        ensures
            routes(out@) == route(self.running(), platform, mount_id@, event@),
    {
        let ghost ev = event@;
        match self.running_config(mount_id) {
            None => {
                let out: Vec<RouteAction> = Vec::new();
                assert(routes(out@) =~= Seq::<RouteView>::empty());
                out
            },
            Some(m) => {
                let linux = match platform {
                    Platform::Linux => true,
                    _ => false,
                };
                if !m.sync_enabled || linux {
                    let out: Vec<RouteAction> = vec![RouteAction::Forward(event)];
                    assert(routes(out@) =~= seq![RouteView::Forward(ev)]);
                    return out;
                }
                let down = RouteAction::ShutdownServer(m.share_name());
                let up = RouteAction::SpawnServer(m.share_name());
                match event {
                    MountEvent::Stop => {
                        let out: Vec<RouteAction> = vec![
                            down,
                            RouteAction::Forward(MountEvent::Stop),
                        ];
                        assert(routes(out@) =~= seq![down@, RouteView::Forward(ev)]);
                        out
                    },
                    MountEvent::Start => {
                        let out: Vec<RouteAction> = vec![
                            RouteAction::Forward(MountEvent::Start),
                            up,
                        ];
                        assert(routes(out@) =~= seq![RouteView::Forward(ev), up@]);
                        out
                    },
                    MountEvent::Restart => {
                        let out: Vec<RouteAction> = vec![
                            down,
                            RouteAction::Forward(MountEvent::Restart),
                            up,
                        ];
                        assert(routes(out@) =~= seq![down@, RouteView::Forward(ev), up@]);
                        out
                    },
                    other => {
                        let out: Vec<RouteAction> = vec![RouteAction::Forward(other)];
                        assert(routes(out@) =~= seq![RouteView::Forward(ev)]);
                        out
                    },
                }
            },
        }
    }
}


/// What is kept is unique where the running mounts are, and comes from them.
proof fn lemma_stop_where(run: Seq<MountConfig>, gone: spec_fn(MountConfig) -> bool, n: nat)
    requires
        unique_ids(run),
        n <= run.len(),
    ensures
        unique_ids(stop_where(run, gone, n).run),
        forall|k: int|
            0 <= k < stop_where(run, gone, n).run.len() ==> !gone(
                #[trigger] stop_where(run, gone, n).run[k],
            ),
        forall|k: int|
            0 <= k < stop_where(run, gone, n).run.len() ==> exists|j: int|
                0 <= j < n && run[j] == #[trigger] stop_where(run, gone, n).run[k],
    decreases n,
{
    if n > 0 {
        lemma_stop_where(run, gone, (n - 1) as nat);
        let before = stop_where(run, gone, (n - 1) as nat).run;
        let after = stop_where(run, gone, n).run;
        let m = run[n - 1];
        assert forall|k: int| 0 <= k < after.len() implies exists|j: int|
            0 <= j < n && run[j] == #[trigger] after[k] by {
            if k < before.len() {
                let j = choose|j: int| 0 <= j < n - 1 && run[j] == before[k];
                assert(run[j] == after[k]);
            } else {
                assert(run[n - 1] == after[k]);
            }
        }
        assert forall|a: int, b: int| 0 <= a < b < after.len() implies (#[trigger] after[a]).id@
            != (#[trigger] after[b]).id@ by {
            if b < before.len() {
                assert(before[a].id@ != before[b].id@);
            } else {
                let j = choose|j: int| 0 <= j < n - 1 && run[j] == before[a];
                assert(run[j].id@ != run[n - 1].id@);
            }
        }
    }
}

/// Where nothing is to be stopped, nothing happens.
proof fn lemma_stop_nothing(run: Seq<MountConfig>, gone: spec_fn(MountConfig) -> bool, n: nat)
    requires
        n <= run.len(),
        forall|k: int| 0 <= k < run.len() ==> !gone(#[trigger] run[k]),
    ensures
        stop_where(run, gone, n).run == run.take(n as int),
        stop_where(run, gone, n).todo.len() == 0,
    decreases n,
{
    if n > 0 {
        lemma_stop_nothing(run, gone, (n - 1) as nat);
        assert(run.take(n as int) =~= run.take(n - 1).push(run[n - 1]));
    } else {
        assert(run.take(0) =~= Seq::<MountConfig>::empty());
    }
}

proof fn lemma_move_cache(run: Seq<MountConfig>, moved: bool)
    requires
        unique_ids(run),
    ensures
        unique_ids(move_cache(run, moved).run),
{
    lemma_stop_where(run, |m: MountConfig| m.sync_enabled, run.len());
}

proof fn lemma_drop_unnamed(p: Progress, ms: Seq<MountConfig>)
    requires
        unique_ids(p.run),
    ensures
        unique_ids(drop_unnamed(p, ms).run),
        forall|k: int|
            0 <= k < drop_unnamed(p, ms).run.len() ==> names_id(
                ms,
                (#[trigger] drop_unnamed(p, ms).run[k]).id@,
            ),
{
    let gone = |m: MountConfig| !names_id(ms, m.id@);
    lemma_stop_where(p.run, gone, p.run.len());
    assert forall|k: int| 0 <= k < drop_unnamed(p, ms).run.len() implies names_id(
        ms,
        (#[trigger] drop_unnamed(p, ms).run[k]).id@,
    ) by {
        assert(!gone(stop_where(p.run, gone, p.run.len()).run[k]));
    }
}

proof fn lemma_settle_all_unique(p: Progress, ms: Seq<MountConfig>, n: nat)
    requires
        unique_ids(p.run),
        n <= ms.len(),
    ensures
        unique_ids(settle_all(p, ms, n).run),
    decreases n,
{
    if n > 0 {
        lemma_settle_all_unique(p, ms, (n - 1) as nat);
        lemma_settle_one(settle_all(p, ms, (n - 1) as nat), ms[n - 1], ms[n - 1].id@);
    }
}

/// One entry decides about its own mount, and about no other.
proof fn lemma_settle_one(p: Progress, m: MountConfig, other: Seq<char>)
    requires
        unique_ids(p.run),
    ensures
        unique_ids(settle_one(p, m).run),
        runs(settle_one(p, m).run, m.id@) == m.enabled,
        m.enabled ==> agree(
            settle_one(p, m).run[mount_pos(settle_one(p, m).run, m.id@)],
            m,
        ),
        other != m.id@ ==> runs(settle_one(p, m).run, other) == runs(p.run, other),
        other != m.id@ && runs(p.run, other) ==> settle_one(p, m).run[mount_pos(
            settle_one(p, m).run,
            other,
        )] == p.run[mount_pos(p.run, other)],
{
    let run = p.run;
    let after = settle_one(p, m).run;
    let i = mount_pos(run, m.id@);
    let o = mount_pos(run, other);
    lemma_mount_pos(run, m.id@);
    lemma_mount_pos(run, other);
    lemma_mount_pos(after, m.id@);
    if !m.enabled && runs(run, m.id@) {
        assert forall|a: int| 0 <= a < after.len() implies #[trigger] after[a] == run[if a < i {
            a
        } else {
            a + 1
        }] by {}
        assert forall|a: int, b: int| 0 <= a < b < after.len() implies (#[trigger] after[a]).id@
            != (#[trigger] after[b]).id@ by {
            let x = if a < i { a } else { a + 1 };
            let y = if b < i { b } else { b + 1 };
            assert(run[x].id@ != run[y].id@);
        }
        if runs(after, m.id@) {
            let q = mount_pos(after, m.id@);
            let x = if q < i { q } else { q + 1 };
            assert(after[q] == run[x]);
            if x < i {
                assert(run[x].id@ != run[i].id@);
            } else {
                assert(run[i].id@ != run[x].id@);
            }
        }
        if other != m.id@ {
            if runs(run, other) {
                let q = if o < i { o } else { o - 1 };
                assert(after[q] == run[o]);
                assert forall|k: int| 0 <= k < q implies (#[trigger] after[k]).id@ != other by {
                    let x = if k < i { k } else { k + 1 };
                    assert(run[x].id@ != other);
                }
                lemma_mount_pos_is(after, other, q);
            } else {
                assert forall|k: int| 0 <= k < after.len() implies (#[trigger] after[k]).id@
                    != other by {
                    let x = if k < i { k } else { k + 1 };
                    assert(run[x].id@ != other);
                }
                lemma_mount_pos_is(after, other, after.len() as int);
            }
        }
    } else if m.enabled && runs(run, m.id@) {
        assert forall|a: int| 0 <= a < run.len() implies (#[trigger] after[a]).id@
            == run[a].id@ by {}
        assert forall|a: int, b: int| 0 <= a < b < after.len() implies (#[trigger] after[a]).id@
            != (#[trigger] after[b]).id@ by {
            assert(run[a].id@ != run[b].id@);
        }
        assert forall|k: int| 0 <= k < i implies (#[trigger] after[k]).id@ != m.id@ by {
            assert(run[k].id@ != m.id@);
        }
        lemma_mount_pos_is(after, m.id@, i);
        assert forall|k: int| 0 <= k < o implies (#[trigger] after[k]).id@ != other by {
            assert(run[k].id@ != other);
        }
        if other != m.id@ {
            lemma_mount_pos_is(after, other, o);
        }
    } else if m.enabled {
        assert forall|a: int| 0 <= a < run.len() implies #[trigger] after[a] == run[a] by {}
        assert forall|a: int, b: int| 0 <= a < b < after.len() implies (#[trigger] after[a]).id@
            != (#[trigger] after[b]).id@ by {
            if b < run.len() {
                assert(run[a].id@ != run[b].id@);
            } else {
                assert(run[a].id@ != m.id@);
            }
        }
        assert forall|k: int| 0 <= k < run.len() implies (#[trigger] after[k]).id@ != m.id@ by {
            assert(run[k].id@ != m.id@);
        }
        lemma_mount_pos_is(after, m.id@, run.len() as int);
        if other != m.id@ {
            assert forall|k: int| 0 <= k < o implies (#[trigger] after[k]).id@ != other by {
                assert(run[k].id@ != other);
            }
            if runs(run, other) {
                lemma_mount_pos_is(after, other, o);
            } else {
                lemma_mount_pos_is(after, other, after.len() as int);
            }
        }
    }
}

proof fn lemma_settle_all(p: Progress, ms: Seq<MountConfig>, n: nat, j: int)
    requires
        unique_ids(p.run),
        unique_ids(ms),
        0 <= j < n <= ms.len(),
    ensures
        unique_ids(settle_all(p, ms, n).run),
        runs(settle_all(p, ms, n).run, ms[j].id@) == ms[j].enabled,
        ms[j].enabled ==> agree(
            settle_all(p, ms, n).run[mount_pos(settle_all(p, ms, n).run, ms[j].id@)],
            ms[j],
        ),
    decreases n,
{
    lemma_settle_all_unique(p, ms, (n - 1) as nat);
    let before = settle_all(p, ms, (n - 1) as nat);
    lemma_settle_one(before, ms[n - 1], ms[j].id@);
    if j < n - 1 {
        lemma_settle_all(p, ms, (n - 1) as nat, j);
        assert(ms[j].id@ != ms[n - 1].id@);
    }
}

/// What runs in the end ran before or is named by one of the entries.
proof fn lemma_settle_all_named(p: Progress, ms: Seq<MountConfig>, n: nat, id: Seq<char>)
    requires
        unique_ids(p.run),
        n <= ms.len(),
        runs(settle_all(p, ms, n).run, id),
    ensures
        runs(p.run, id) || names_id(ms, id),
    decreases n,
{
    if n > 0 {
        lemma_settle_all_unique(p, ms, (n - 1) as nat);
        lemma_settle_one(settle_all(p, ms, (n - 1) as nat), ms[n - 1], id);
        if id != ms[n - 1].id@ {
            lemma_settle_all_named(p, ms, (n - 1) as nat, id);
        }
    }
}

/// Once a configuration that names no mount twice was applied, the mounts that run are the
/// enabled ones of the configuration, and each runs under its entry.
pub proof fn law_running_mounts_match_configuration(
    run: Seq<MountConfig>,
    moved: bool,
    ms: Seq<MountConfig>,
    id: Seq<char>,
)
    requires
        unique_ids(run),
        unique_ids(ms),
    ensures
        ({
            let after = applied(run, moved, ms).run;
            &&& runs(after, id) <==> exists|j: int|
                0 <= j < ms.len() && (#[trigger] ms[j]).id@ == id && ms[j].enabled
            &&& forall|j: int|
                0 <= j < ms.len() && (#[trigger] ms[j]).id@ == id && ms[j].enabled ==> agree(
                    after[mount_pos(after, id)],
                    ms[j],
                )
        }),
{
    let p = drop_unnamed(move_cache(run, moved), ms);
    let after = applied(run, moved, ms).run;
    lemma_move_cache(run, moved);
    lemma_drop_unnamed(move_cache(run, moved), ms);
    assert forall|j: int| 0 <= j < ms.len() && (#[trigger] ms[j]).id@ == id implies runs(after, id)
        == ms[j].enabled && (ms[j].enabled ==> agree(after[mount_pos(after, id)], ms[j])) by {
        lemma_settle_all(p, ms, ms.len(), j);
    }
    if runs(after, id) {
        lemma_settle_all_named(p, ms, ms.len(), id);
        if !names_id(ms, id) {
            lemma_mount_pos(p.run, id);
            let k = mount_pos(p.run, id);
            assert(names_id(ms, p.run[k].id@));
        }
        let j = choose|j: int| 0 <= j < ms.len() && (#[trigger] ms[j]).id@ == id;
        assert(ms[j].enabled);
    }
}

proof fn lemma_settled(p: Progress, ms: Seq<MountConfig>, n: nat)
    requires
        n <= ms.len(),
        forall|j: int|
            0 <= j < ms.len() ==> runs(p.run, (#[trigger] ms[j]).id@) == ms[j].enabled && (
            ms[j].enabled ==> agree(p.run[mount_pos(p.run, ms[j].id@)], ms[j])),
    ensures
        settle_all(p, ms, n) == p,
    decreases n,
{
    if n > 0 {
        lemma_settled(p, ms, (n - 1) as nat);
        assert(runs(p.run, ms[n - 1].id@) == ms[n - 1].enabled);
    }
}

/// A configuration that was applied already asks for nothing more.
pub proof fn law_applying_again_does_nothing(
    run: Seq<MountConfig>,
    moved: bool,
    ms: Seq<MountConfig>,
)
    requires
        unique_ids(run),
        unique_ids(ms),
    ensures
        ({
            let after = applied(run, moved, ms).run;
            applied(after, false, ms) == progress(after, Seq::empty())
        }),
{
    let after = applied(run, moved, ms).run;
    lemma_move_cache(run, moved);
    lemma_drop_unnamed(move_cache(run, moved), ms);
    lemma_settle_all_unique(drop_unnamed(move_cache(run, moved), ms), ms, ms.len());
    let gone = |m: MountConfig| !names_id(ms, m.id@);
    assert forall|k: int| 0 <= k < after.len() implies !gone(#[trigger] after[k]) by {
        let id = after[k].id@;
        law_running_mounts_match_configuration(run, moved, ms, id);
        assert forall|i: int| 0 <= i < k implies (#[trigger] after[i]).id@ != id by {
            assert(after[i].id@ != after[k].id@);
        }
        lemma_mount_pos_is(after, id, k);
        assert(runs(after, id));
        let j = choose|j: int|
            0 <= j < ms.len() && (#[trigger] ms[j]).id@ == id && ms[j].enabled;
        assert(names_id(ms, id));
    }
    lemma_stop_nothing(after, gone, after.len());
    assert(after.take(after.len() as int) =~= after);
    let q = drop_unnamed(move_cache(after, false), ms);
    assert(q.run == after);
    assert(q.todo =~= Seq::<ActionView>::empty());
    assert forall|j: int| 0 <= j < ms.len() implies runs(q.run, (#[trigger] ms[j]).id@)
        == ms[j].enabled && (ms[j].enabled ==> agree(
        q.run[mount_pos(q.run, ms[j].id@)],
        ms[j],
    )) by {
        law_running_mounts_match_configuration(run, moved, ms, ms[j].id@);
        if runs(after, ms[j].id@) && !ms[j].enabled {
            let k = choose|k: int|
                0 <= k < ms.len() && (#[trigger] ms[k]).id@ == ms[j].id@ && ms[k].enabled;
            if k < j {
                assert(ms[k].id@ != ms[j].id@);
            }
            if j < k {
                assert(ms[j].id@ != ms[k].id@);
            }
        }
    }
    lemma_settled(q, ms, ms.len());
}

/// A mount that is not synced is not touched by its servers: its events go straight to it.
pub proof fn law_plain_mounts_get_their_events(
    run: Seq<MountConfig>,
    platform: Platform,
    id: Seq<char>,
    event: EventView,
)
    requires
        runs(run, id),
    ensures
        route(run, platform, id, event).contains(RouteView::Forward(event)),
        !run[mount_pos(run, id)].sync_enabled ==> route(run, platform, id, event).len() == 1,
{
    let r = route(run, platform, id, event);
    let m = run[mount_pos(run, id)];
    if !m.sync_enabled || platform is Linux {
        assert(r[0] == RouteView::Forward(event));
    } else {
        match event {
            EventView::Stop => {
                assert(r[1] == RouteView::Forward(event));
            },
            EventView::Restart => {
                assert(r[1] == RouteView::Forward(event));
            },
            _ => {
                assert(r[0] == RouteView::Forward(event));
            },
        }
    }
}

/// Once a configuration that names no mount twice was applied, the mount of each enabled entry
/// runs exactly once, and what it runs under has the same value in every field as the entry.
pub proof fn law_mounts_run_under_every_field_of_their_entry(
    run: Seq<MountConfig>,
    moved: bool,
    ms: Seq<MountConfig>,
    j: int,
)
    requires
        unique_ids(run),
        unique_ids(ms),
        0 <= j < ms.len(),
        ms[j].enabled,
    ensures
        ({
            let after = applied(run, moved, ms).run;
            exists|k: int| #![trigger after[k]]
                0 <= k < after.len() && {
                    &&& after[k].id@ == ms[j].id@
                    &&& after[k].enabled == ms[j].enabled
                    &&& after[k].display_name@ == ms[j].display_name@
                    &&& after[k].nas_share_path@ == ms[j].nas_share_path@
                    &&& after[k].credential_key@ == ms[j].credential_key@
                    &&& after[k].mount_drive_letter@ == ms[j].mount_drive_letter@
                    &&& opt_text(after[k].smb_mount_path) == opt_text(ms[j].smb_mount_path)
                    &&& opt_text(after[k].mount_path_linux) == opt_text(ms[j].mount_path_linux)
                    &&& opt_text(after[k].mount_path_macos) == opt_text(ms[j].mount_path_macos)
                    &&& after[k].is_jobs_folder == ms[j].is_jobs_folder
                    &&& after[k].sync_enabled == ms[j].sync_enabled
                    &&& opt_text(after[k].sync_root_path) == opt_text(ms[j].sync_root_path)
                    &&& after[k].sync_cache_limit_bytes == ms[j].sync_cache_limit_bytes
                    &&& after[k].rclone_drive_letter@ == ms[j].rclone_drive_letter@
                    &&& after[k].smb_drive_letter@ == ms[j].smb_drive_letter@
                    &&& after[k].junction_path@ == ms[j].junction_path@
                    &&& opt_text(after[k].rclone_mount_path) == opt_text(ms[j].rclone_mount_path)
                    &&& opt_text(after[k].rclone_remote) == opt_text(ms[j].rclone_remote)
                    &&& after[k].cache_dir_path@ == ms[j].cache_dir_path@
                    &&& after[k].cache_max_size@ == ms[j].cache_max_size@
                    &&& after[k].cache_max_age@ == ms[j].cache_max_age@
                    &&& after[k].vfs_write_back@ == ms[j].vfs_write_back@
                    &&& after[k].vfs_read_chunk_size@ == ms[j].vfs_read_chunk_size@
                    &&& after[k].vfs_read_chunk_streams == ms[j].vfs_read_chunk_streams
                    &&& after[k].vfs_read_ahead@ == ms[j].vfs_read_ahead@
                    &&& after[k].buffer_size@ == ms[j].buffer_size@
                    &&& after[k].probe_interval_secs == ms[j].probe_interval_secs
                    &&& after[k].probe_timeout_ms == ms[j].probe_timeout_ms
                    &&& after[k].fallback_threshold == ms[j].fallback_threshold
                    &&& after[k].recovery_threshold == ms[j].recovery_threshold
                    &&& after[k].max_rclone_start_attempts == ms[j].max_rclone_start_attempts
                    &&& after[k].healthcheck_file_name@ == ms[j].healthcheck_file_name@
                    &&& texts(after[k].extra_rclone_flags@) == texts(ms[j].extra_rclone_flags@)
                    &&& after[k]@ == ms[j]@
                    &&& forall|other: int|
                        0 <= other < after.len() && other != k ==> (#[trigger] after[other]).id@
                            != ms[j].id@
                }
        }),
{
    let after = applied(run, moved, ms).run;
    let k = mount_pos(after, ms[j].id@);
    law_running_mounts_match_configuration(run, moved, ms, ms[j].id@);
    law_agreement_is_in_every_field(after[k], ms[j]);
    lemma_mount_pos(after, ms[j].id@);
    lemma_move_cache(run, moved);
    lemma_drop_unnamed(move_cache(run, moved), ms);
    lemma_settle_all_unique(drop_unnamed(move_cache(run, moved), ms), ms, ms.len());
    assert forall|other: int| 0 <= other < after.len() && other != k implies (
    #[trigger] after[other]).id@ != ms[j].id@ by {
        if other < k {
            assert(after[other].id@ != after[k].id@);
        } else {
            assert(after[k].id@ != after[other].id@);
        }
    }
    assert(after[k]@ == ms[j]@);
}

proof fn lemma_pushed(todo: Seq<ActionView>, a: ActionView, b: ActionView)
    ensures
        todo.push(a).contains(b) <==> todo.contains(b) || a == b,
{
    let more = todo.push(a);
    if todo.contains(b) {
        let i = choose|i: int| 0 <= i < todo.len() && todo[i] == b;
        assert(more[i] == b);
    }
    if a == b {
        assert(more[todo.len() as int] == b);
    }
    if more.contains(b) {
        let i = choose|i: int| 0 <= i < more.len() && more[i] == b;
        if i < todo.len() {
            assert(todo[i] == b);
        }
    }
}

proof fn lemma_stopped(
    run: Seq<MountConfig>,
    gone: spec_fn(MountConfig) -> bool,
    n: nat,
    a: ActionView,
)
    requires
        n <= run.len(),
    ensures
        stop_where(run, gone, n).todo.contains(a) <==> exists|k: int|
            0 <= k < n && gone(#[trigger] run[k]) && a == ActionView::Stop(run[k].id@),
        forall|k: int|
            0 <= k < n && !gone(#[trigger] run[k]) ==> stop_where(run, gone, n).run.contains(
                run[k],
            ),
    decreases n,
{
    if n > 0 {
        let p = stop_where(run, gone, (n - 1) as nat);
        let q = stop_where(run, gone, n);
        let m = run[n - 1];
        lemma_stopped(run, gone, (n - 1) as nat, a);
        lemma_pushed(p.todo, ActionView::Stop(m.id@), a);
        if p.todo.contains(a) {
            let k = choose|k: int|
                0 <= k < n - 1 && gone(#[trigger] run[k]) && a == ActionView::Stop(run[k].id@);
            assert(0 <= k < n && gone(run[k]));
        }
        assert forall|k: int| 0 <= k < n && !gone(#[trigger] run[k]) implies q.run.contains(
            run[k],
        ) by {
            if k < n - 1 {
                let i = choose|i: int| 0 <= i < p.run.len() && p.run[i] == run[k];
                assert(q.run[i] == run[k]);
            } else {
                assert(q.run[p.run.len() as int] == run[k]);
            }
        }
    }
}

/// What an entry asks of the mount that ran before is found among the actions, and nothing else.
proof fn lemma_settled_actions(
    p: Progress,
    ms: Seq<MountConfig>,
    n: nat,
    id: Seq<char>,
)
    requires
        unique_ids(p.run),
        unique_ids(ms),
        n <= ms.len(),
    ensures
        ({
            let q = settle_all(p, ms, n);
            let here = runs(p.run, id);
            let was = p.run[mount_pos(p.run, id)];
            &&& unique_ids(q.run)
            &&& q.todo.contains(ActionView::TearDownServers) <==> p.todo.contains(
                ActionView::TearDownServers,
            )
            &&& q.todo.contains(ActionView::Start(id)) <==> p.todo.contains(ActionView::Start(id))
                || (!here && exists|j: int| 0 <= j < n && (#[trigger] ms[j]).id@ == id && ms[j].enabled)
            &&& q.todo.contains(ActionView::Stop(id)) <==> p.todo.contains(ActionView::Stop(id))
                || (here && exists|j: int| 0 <= j < n && (#[trigger] ms[j]).id@ == id && !ms[j].enabled)
            &&& q.todo.contains(ActionView::Reconfigure(id)) <==> p.todo.contains(
                ActionView::Reconfigure(id),
            ) || (here && exists|j: int|
                0 <= j < n && (#[trigger] ms[j]).id@ == id && ms[j].enabled && was@ != ms[j]@)
            &&& (forall|j: int| 0 <= j < n ==> (#[trigger] ms[j]).id@ != id) ==> runs(q.run, id)
                == here && (here ==> q.run[mount_pos(q.run, id)] == was)
        }),
    decreases n,
{
    if n > 0 {
        let before = settle_all(p, ms, (n - 1) as nat);
        let q = settle_all(p, ms, n);
        let m = ms[n - 1];
        let was = p.run[mount_pos(p.run, id)];
        lemma_settled_actions(p, ms, (n - 1) as nat, id);
        lemma_settle_one(before, m, id);
        let pushed = q.todo.last();
        if !(before.todo == q.todo) {
            lemma_pushed(before.todo, pushed, ActionView::TearDownServers);
            lemma_pushed(before.todo, pushed, ActionView::Start(id));
            lemma_pushed(before.todo, pushed, ActionView::Stop(id));
            lemma_pushed(before.todo, pushed, ActionView::Reconfigure(id));
        }
        assert forall|j: int| 0 <= j < n - 1 implies (#[trigger] ms[j]).id@ != m.id@ by {
            assert(ms[j].id@ != ms[n - 1].id@);
        }
        if m.id@ == id {
            law_agreement_is_in_every_field(was, m);
            assert(ms[n - 1].id@ == id);
        } else {
            let f = |j: int| 0 <= j < n - 1 && ms[j].id@ == id;
            assert forall|j: int| 0 <= j < n && (#[trigger] ms[j]).id@ == id implies f(j) by {}
        }
    }
}

/// What a new configuration asks for, mount by mount. A mount is reconfigured exactly where it
/// runs on and the enabled entry of its identifier says something else in some field; it is
/// started exactly where an enabled entry names it and it does not run, or ran synced from a
/// folder that has moved; it is stopped exactly where it ran and no enabled entry names it, or the
/// folder of its synced files has moved. The servers are taken down exactly where that folder moved.
pub proof fn law_each_mount_gets_what_its_entry_asks_for(
    run: Seq<MountConfig>,
    moved: bool,
    ms: Seq<MountConfig>,
    id: Seq<char>,
)
    requires
        unique_ids(run),
        unique_ids(ms),
    ensures
        ({
            let todo = applied(run, moved, ms).todo;
            &&& todo.contains(ActionView::Reconfigure(id)) <==> exists|k: int, j: int|
                #![trigger run[k], ms[j]]
                0 <= k < run.len() && 0 <= j < ms.len() && run[k].id@ == id && ms[j].id@ == id && !(
                moved && run[k].sync_enabled) && ms[j].enabled && run[k]@ != ms[j]@
            &&& todo.contains(ActionView::Start(id)) <==> (exists|j: int|
                0 <= j < ms.len() && (#[trigger] ms[j]).id@ == id && ms[j].enabled) && (forall|k: int|
                0 <= k < run.len() && (#[trigger] run[k]).id@ == id ==> moved
                    && run[k].sync_enabled)
            &&& todo.contains(ActionView::Stop(id)) <==> exists|k: int|
                0 <= k < run.len() && (#[trigger] run[k]).id@ == id && (moved
                    && run[k].sync_enabled || forall|j: int|
                    0 <= j < ms.len() && (#[trigger] ms[j]).id@ == id ==> !ms[j].enabled)
            &&& todo.contains(ActionView::TearDownServers) <==> moved
        }),
{
    let synced = |m: MountConfig| m.sync_enabled;
    let unnamed = |m: MountConfig| !names_id(ms, m.id@);
    let a = move_cache(run, moved);
    let b = drop_unnamed(a, ms);
    let halted = stop_where(run, synced, run.len());
    let kept = stop_where(a.run, unnamed, a.run.len());
    lemma_move_cache(run, moved);
    lemma_drop_unnamed(a, ms);
    lemma_stop_where(run, synced, run.len());
    lemma_stop_where(a.run, unnamed, a.run.len());
    lemma_settled_actions(b, ms, ms.len(), id);
    let start = ActionView::Start(id);
    let stop = ActionView::Stop(id);
    let again = ActionView::Reconfigure(id);
    let down = ActionView::TearDownServers;
    lemma_stopped(run, synced, run.len(), start);
    lemma_stopped(run, synced, run.len(), stop);
    lemma_stopped(run, synced, run.len(), again);
    lemma_stopped(run, synced, run.len(), down);
    lemma_stopped(a.run, unnamed, a.run.len(), start);
    lemma_stopped(a.run, unnamed, a.run.len(), stop);
    lemma_stopped(a.run, unnamed, a.run.len(), again);
    lemma_stopped(a.run, unnamed, a.run.len(), down);
    if moved {
        lemma_pushed(halted.todo, down, start);
        lemma_pushed(halted.todo, down, stop);
        lemma_pushed(halted.todo, down, again);
        lemma_pushed(halted.todo, down, down);
    }
    lemma_either(a.todo, kept.todo, start);
    lemma_either(a.todo, kept.todo, stop);
    lemma_either(a.todo, kept.todo, again);
    lemma_either(a.todo, kept.todo, down);
    lemma_survivors(run, moved, ms, id);
    lemma_mount_pos(run, id);
    lemma_mount_pos(a.run, id);
    let r = mount_pos(run, id);
    if runs(run, id) {
        assert forall|k: int| 0 <= k < run.len() && (#[trigger] run[k]).id@ == id implies k == r by {
            if k > r {
                assert(run[r].id@ != run[k].id@);
            }
        }
        assert(run[r].id@ == id);
        if moved && run[r].sync_enabled {
            assert(synced(run[r]));
        }
        if runs(a.run, id) {
            assert(a.run[mount_pos(a.run, id)].id@ == id);
        }
        assert forall|k: int|
            0 <= k < a.run.len() && unnamed(#[trigger] a.run[k]) && stop == ActionView::Stop(
                a.run[k].id@,
            ) implies !names_id(ms, id) && runs(a.run, id) by {
            lemma_mount_pos(a.run, id);
            if mount_pos(a.run, id) >= a.run.len() {
                assert(a.run[k].id@ != id);
            }
        }
        if !names_id(ms, id) && runs(a.run, id) {
            assert(unnamed(a.run[mount_pos(a.run, id)]));
        }
        if names_id(ms, id) {
            let j = choose|j: int| 0 <= j < ms.len() && (#[trigger] ms[j]).id@ == id;
            assert forall|i: int| 0 <= i < ms.len() && (#[trigger] ms[i]).id@ == id implies i
                == j by {
                if i < j {
                    assert(ms[i].id@ != ms[j].id@);
                }
                if j < i {
                    assert(ms[j].id@ != ms[i].id@);
                }
            }
        }
    } else {
        assert forall|k: int| 0 <= k < run.len() implies (#[trigger] run[k]).id@ != id by {}
    }
}

/// Which mount of an identifier is left once the mounts to stop are stopped.
proof fn lemma_survivors(
    run: Seq<MountConfig>,
    moved: bool,
    ms: Seq<MountConfig>,
    id: Seq<char>,
)
    requires
        unique_ids(run),
    ensures
        ({
            let a = move_cache(run, moved);
            let b = drop_unnamed(a, ms);
            let r = mount_pos(run, id);
            &&& runs(a.run, id) <==> runs(run, id) && !(moved && run[r].sync_enabled)
            &&& runs(b.run, id) <==> runs(a.run, id) && names_id(ms, id)
            &&& runs(b.run, id) ==> b.run[mount_pos(b.run, id)] == run[r]
        }),
{
    let synced = |m: MountConfig| m.sync_enabled;
    let unnamed = |m: MountConfig| !names_id(ms, m.id@);
    let a = move_cache(run, moved);
    let b = drop_unnamed(a, ms);
    let r = mount_pos(run, id);
    lemma_mount_pos(run, id);
    lemma_mount_pos(a.run, id);
    lemma_mount_pos(b.run, id);
    lemma_move_cache(run, moved);
    lemma_stop_where(run, synced, run.len());
    lemma_stop_where(a.run, unnamed, a.run.len());
    lemma_stopped(run, synced, run.len(), ActionView::TearDownServers);
    lemma_stopped(a.run, unnamed, a.run.len(), ActionView::TearDownServers);
    let pa = mount_pos(a.run, id);
    let pb = mount_pos(b.run, id);
    assert forall|k: int| 0 <= k < run.len() && (#[trigger] run[k]).id@ == id implies k == r by {
        if k > r {
            assert(run[r].id@ != run[k].id@);
        }
    }
    if runs(a.run, id) {
        if moved {
            let k = choose|k: int| 0 <= k < run.len() && run[k] == a.run[pa];
            assert(run[k].id@ == id);
            assert(!synced(a.run[pa]));
        }
        assert(a.run[pa] == run[r]);
    }
    if runs(run, id) && !(moved && run[r].sync_enabled) {
        assert(!moved || !synced(run[r]));
        assert(a.run.contains(run[r]));
        let k = choose|k: int| 0 <= k < a.run.len() && a.run[k] == run[r];
        assert(a.run[k].id@ == id);
        assert(runs(a.run, id));
    }
    if runs(b.run, id) {
        let k = choose|k: int| 0 <= k < a.run.len() && a.run[k] == b.run[pb];
        assert(a.run[k].id@ == id);
        assert(!unnamed(b.run[pb]));
        assert(runs(a.run, id));
        if k != pa {
            assert(a.run[pa].id@ != a.run[k].id@);
        }
    }
    if runs(a.run, id) && names_id(ms, id) {
        assert(!unnamed(a.run[pa]));
        let k = choose|k: int| 0 <= k < b.run.len() && b.run[k] == a.run[pa];
        assert(b.run[k].id@ == id);
    }
}

proof fn lemma_either(x: Seq<ActionView>, y: Seq<ActionView>, a: ActionView)
    ensures
        (x + y).contains(a) <==> x.contains(a) || y.contains(a),
{
    let z = x + y;
    if x.contains(a) {
        let i = choose|i: int| 0 <= i < x.len() && x[i] == a;
        assert(z[i] == a);
    }
    if y.contains(a) {
        let i = choose|i: int| 0 <= i < y.len() && y[i] == a;
        assert(z[x.len() + i] == a);
    }
    if z.contains(a) {
        let i = choose|i: int| 0 <= i < z.len() && z[i] == a;
        if i < x.len() {
            assert(x[i] == a);
        } else {
            assert(y[i - x.len()] == a);
        }
    }
}

/// An event reaches the mount that it is for and no server but that of its share. The server goes
/// down for a stop and comes up for a start, a restart does both, and nothing else touches it; it
/// is down before the mount hears of the event, and comes up after that.
pub proof fn law_servers_follow_their_mount(
    run: Seq<MountConfig>,
    platform: Platform,
    k: int,
    event: EventView,
    name: Seq<char>,
)
    requires
        unique_ids(run),
        0 <= k < run.len(),
    ensures
        ({
            let r = route(run, platform, run[k].id@, event);
            let served = run[k].sync_enabled && !(platform is Linux) && name == share(run[k]);
            &&& r.contains(RouteView::ShutdownServer(name)) <==> served && (event is Stop
                || event is Restart)
            &&& r.contains(RouteView::SpawnServer(name)) <==> served && (event is Start
                || event is Restart)
            &&& forall|e: EventView| r.contains(RouteView::Forward(e)) <==> e == event
            &&& forall|i: int, j: int|
                0 <= i < r.len() && 0 <= j < r.len() && #[trigger] r[i] is ShutdownServer
                    && #[trigger] r[j] is Forward ==> i < j
            &&& forall|i: int, j: int|
                0 <= i < r.len() && 0 <= j < r.len() && #[trigger] r[i] is SpawnServer
                    && #[trigger] r[j] is Forward ==> i > j
        }),
{
    let id = run[k].id@;
    let r = route(run, platform, id, event);
    lemma_mount_pos(run, id);
    assert forall|i: int| 0 <= i < k implies (#[trigger] run[i]).id@ != id by {
        assert(run[i].id@ != run[k].id@);
    }
    lemma_mount_pos_is(run, id, k);
    assert(1 <= r.len() <= 3);
    let d = RouteView::ShutdownServer(name);
    let u = RouteView::SpawnServer(name);
    let f = RouteView::Forward(event);
    if r.len() == 1 {
        assert(r =~= seq![f]);
        assert(r[0] == f);
    } else if event is Stop {
        assert(r =~= seq![RouteView::ShutdownServer(share(run[k])), f]);
        assert(r[0] == RouteView::ShutdownServer(share(run[k])));
        assert(r[1] == f);
    } else if event is Start {
        assert(r =~= seq![f, RouteView::SpawnServer(share(run[k]))]);
        assert(r[0] == f);
        assert(r[1] == RouteView::SpawnServer(share(run[k])));
    } else {
        assert(r =~= seq![
            RouteView::ShutdownServer(share(run[k])),
            f,
            RouteView::SpawnServer(share(run[k])),
        ]);
        assert(r[0] == RouteView::ShutdownServer(share(run[k])));
        assert(r[1] == f);
        assert(r[2] == RouteView::SpawnServer(share(run[k])));
    }
}

/// An event for a mount that does not run goes nowhere.
pub proof fn law_unknown_mounts_get_no_events(
    run: Seq<MountConfig>,
    platform: Platform,
    id: Seq<char>,
    event: EventView,
)
    requires
        forall|k: int| 0 <= k < run.len() ==> (#[trigger] run[k]).id@ != id,
    ensures
        route(run, platform, id, event).len() == 0,
{
    lemma_mount_pos(run, id);
}

/// A command for a mount is handed on with the identifiers that came with it, and as the event
/// that it asks for.
pub proof fn law_commands_keep_their_mount(
    s: MountService,
    start: MountIdMsg,
    stop: MountIdMsg,
    restart: MountIdMsg,
    clear: MountIdMsg,
    stats: MountIdMsg,
    plans: (CommandPlan, CommandPlan, CommandPlan, CommandPlan, CommandPlan),
)
    requires
        s.wf(),
        call_ensures(MountService::handle_command, (&s, UfbToAgent::StartMount(start)), plans.0),
        call_ensures(MountService::handle_command, (&s, UfbToAgent::StopMount(stop)), plans.1),
        call_ensures(MountService::handle_command, (&s, UfbToAgent::RestartMount(restart)), plans.2),
        call_ensures(MountService::handle_command, (&s, UfbToAgent::ClearSyncCache(clear)), plans.3),
        call_ensures(MountService::handle_command, (&s, UfbToAgent::GetCacheStats(stats)), plans.4),
    ensures
        plans.0 matches CommandPlan::Send { mount_id, event, command_id } && event is Start
            && mount_id@ == start.mount_id@ && command_id@ == start.command_id@,
        plans.1 matches CommandPlan::Send { mount_id, event, command_id } && event is Stop
            && mount_id@ == stop.mount_id@ && command_id@ == stop.command_id@,
        plans.2 matches CommandPlan::Send { mount_id, event, command_id } && event is Restart
            && mount_id@ == restart.mount_id@ && command_id@ == restart.command_id@,
        plans.3 matches CommandPlan::ClearCache { domain, mount_id, command_id } && mount_id@
            == clear.mount_id@ && command_id@ == clear.command_id@ && forall|k: int|
            0 <= k < s.running().len() && (#[trigger] s.running()[k]).id@ == clear.mount_id@
                ==> domain@ == share(s.running()[k]),
        plans.4 matches CommandPlan::ReportCache { domain, msg } && msg == stats && (domain is None
            <==> forall|k: int|
            0 <= k < s.running().len() ==> (#[trigger] s.running()[k]).id@ != stats.mount_id@)
            && forall|k: int|
            0 <= k < s.running().len() && (#[trigger] s.running()[k]).id@ == stats.mount_id@
                ==> domain is Some && domain->0@ == share(s.running()[k]),
{
    let run = s.running();
    lemma_mount_pos(run, clear.mount_id@);
    lemma_mount_pos(run, stats.mount_id@);
    assert forall|k: int| 0 <= k < run.len() && (#[trigger] run[k]).id@ == clear.mount_id@ implies k
        == mount_pos(run, clear.mount_id@) by {
        if k > mount_pos(run, clear.mount_id@) {
            assert(run[mount_pos(run, clear.mount_id@)].id@ != run[k].id@);
        }
    }
    assert forall|k: int| 0 <= k < run.len() && (#[trigger] run[k]).id@ == stats.mount_id@ implies k
        == mount_pos(run, stats.mount_id@) by {
        if k > mount_pos(run, stats.mount_id@) {
            assert(run[mount_pos(run, stats.mount_id@)].id@ != run[k].id@);
        }
    }
}

/// Only commands with an identifier are answered, and the answer carries that identifier.
pub proof fn law_answers_carry_their_command(
    known: bool,
    delivered: bool,
    mount_id: &str,
    command_id: &str,
    r: Option<AgentToUfb>,
)
    requires
        call_ensures(send_to_mount_reply, (known, delivered, mount_id, command_id), r),
    ensures
        command_id@.len() == 0 ==> r is None,
        command_id@.len() > 0 ==> (r is None <==> known && !delivered),
        r matches Some(AgentToUfb::Ack(a)) ==> a.command_id@ == command_id@ && known && delivered,
        r matches Some(AgentToUfb::Error(e)) ==> e.command_id@ == command_id@ && !known
            && mount_id@.is_suffix_of(e.message@),
        r is Some ==> r->0 is Ack || r->0 is Error,
{
    if let Some(AgentToUfb::Error(e)) = r {
        let m = e.message@;
        assert(m.subrange(m.len() - mount_id@.len(), m.len() as int) =~= mount_id@);
    }
}

/// What is held of a share is reported as it was counted, and a cache that is not there counts as
/// empty.
pub proof fn law_cache_stats_are_as_counted(
    msg: MountIdMsg,
    bytes: u64,
    count: u64,
    some: AgentToUfb,
    none: AgentToUfb,
)
    requires
        call_ensures(cache_stats_reply, (msg, Some((bytes, count))), some),
        call_ensures(cache_stats_reply, (msg, None), none),
    ensures
        some matches AgentToUfb::CacheStats(c) && c.mount_id@ == msg.mount_id@ && c.command_id@
            == msg.command_id@ && c.hydrated_bytes == bytes && c.hydrated_count == count,
        none matches AgentToUfb::CacheStats(c) && c.mount_id@ == msg.mount_id@ && c.command_id@
            == msg.command_id@ && c.hydrated_bytes == 0 && c.hydrated_count == 0,
{
}

/// An entry of the directory of mount points is in use exactly where an enabled mount has a share
/// of that name.
pub proof fn law_entries_in_use_belong_to_mounts(ms: Seq<MountConfig>, m: MountConfig, name: Seq<char>)
    ensures
        active_name(ms.push(m), name) <==> active_name(ms, name) || (m.enabled && share(m) == name),
        !active_name(Seq::empty(), name),
{
    let more = ms.push(m);
    if active_name(ms, name) {
        let i = choose|i: int| 0 <= i < ms.len() && (#[trigger] ms[i]).enabled && share(ms[i]) == name;
        assert(more[i] == ms[i]);
    }
    assert(more[ms.len() as int] == m);
    if active_name(more, name) {
        let i = choose|i: int|
            0 <= i < more.len() && (#[trigger] more[i]).enabled && share(more[i]) == name;
        if i < ms.len() {
            assert(ms[i] == more[i]);
        }
    }
}

/// Applying a configuration takes its folder of synced files over, and treats the mounts as moved
/// exactly where that is another one than before.
pub proof fn law_folder_of_synced_files_is_taken_over(
    s: &mut MountService,
    config: MountsConfig,
    env: Environment,
    todo: Vec<ServiceAction>,
    path: String,
)
    requires
        old(s).wf(),
        unique_ids(config.mounts@),
        config.sync_cache_root == Some(path),
        path@.len() > 0,
        call_ensures(MountService::apply_config, (s, config, &env), todo),
    ensures
        final(s).root() == path@,
        actions(todo@).contains(ActionView::TearDownServers) <==> path@ != old(s).root(),
        final(s).wf(),
{
    law_each_mount_gets_what_its_entry_asks_for(
        old(s).running(),
        path@ != old(s).root(),
        config.mounts@,
        Seq::empty(),
    );
    assert(actions(todo@) == applied(
        old(s).running(),
        path@ != old(s).root(),
        config.mounts@,
    ).todo) by {
        assert(progress(final(s).running(), actions(todo@)).todo == actions(todo@));
    }
}

/// The end of the agent stops every mount that runs, and none runs after it.
pub proof fn law_all_mounts_are_stopped_at_the_end(
    s: &mut MountService,
    ids: Vec<String>,
    k: int,
)
    requires
        0 <= k < old(s).running().len(),
        call_ensures(MountService::shutdown, (s,), ids),
    ensures
        final(s).running().len() == 0,
        ids@.len() == old(s).running().len(),
        ids@[k]@ == old(s).running()[k].id@,
{
    assert(texts(ids@).len() == ids@.len());
    assert(texts(ids@)[k] == ids@[k]@);
}

/// A check for changes is about the share that it names, or about those of all mounts that run, and
/// is acknowledged.
pub proof fn law_sweeps_are_about_their_shares(
    s: MountService,
    msg: FreshnessSweepMsg,
    plan: CommandPlan,
)
    requires
        call_ensures(MountService::handle_command, (&s, UfbToAgent::FreshnessSweep(msg)), plan),
    ensures
        plan matches CommandPlan::Sweep { domains, reply } && {
            &&& msg.domain matches Some(d) ==> domains@.len() == 1 && domains@[0]@ == d@
            &&& msg.domain is None ==> domains@.len() == s.running().len() && forall|k: int|
                0 <= k < domains@.len() ==> (#[trigger] domains@[k])@ == share(s.running()[k])
            &&& msg.command_id@.len() == 0 ==> reply is None
            &&& msg.command_id@.len() > 0 ==> (reply matches Some(AgentToUfb::Ack(a))
                && a.command_id@ == msg.command_id@)
        },
{
    if let CommandPlan::Sweep { domains, reply } = plan {
        assert(texts(domains@).len() == domains@.len());
        if let Some(d) = msg.domain {
            assert(texts(domains@)[0] == domains@[0]@);
        } else {
            assert forall|k: int| 0 <= k < domains@.len() implies (#[trigger] domains@[k])@ == share(
                s.running()[k],
            ) by {
                assert(texts(domains@)[k] == domains@[k]@);
            }
        }
    }
}

/// What was cleared is acknowledged, and what is held since is told of the same mount.
pub proof fn law_cleared_caches_are_told(
    mount_id: &str,
    command_id: &str,
    bytes: u64,
    count: u64,
    r: (Option<AgentToUfb>, AgentToUfb),
)
    requires
        call_ensures(drained_replies, (mount_id, command_id, bytes, count), r),
    ensures
        command_id@.len() > 0 ==> (r.0 matches Some(AgentToUfb::Ack(a)) && a.command_id@
            == command_id@),
        command_id@.len() == 0 ==> r.0 is None,
        r.1 matches AgentToUfb::CacheStats(c) && c.mount_id@ == mount_id@ && c.hydrated_bytes
            == bytes && c.hydrated_count == count,
{
}

} // verus!
