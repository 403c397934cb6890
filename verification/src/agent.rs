//! What the agent decides when it starts and while it runs.
use crate::config::{share, sync_dir, volume, MountConfig, MountsConfig};
use crate::nfs::BASE_PORT;
use crate::paths::{home_dir, join, joined, Environment, Platform};
use crate::text::{contains, lowercased, occurs, precedes, same, text_less, to_lowercase};
use vstd::prelude::*;

verus! {

/// A log file larger than this is started anew.
pub const LOG_LIMIT: u64 = 2_097_152;

/// Seconds between two looks at the configuration file.
pub const CONFIG_POLL_SECS: u64 = 5;

/// What is logged.
#[derive(Clone, Copy, Debug, PartialEq, Eq, Structural)]
pub enum LevelFilter {
    Warn,
    Info,
    Debug,
    Trace,
}

/// What is logged, from the lower-case text of the setting, where there is one, and whether
/// debugging was asked for.
pub open spec fn level_of(setting: Option<Seq<char>>, debug: bool) -> LevelFilter {
    match setting {
        Some(s) if occurs(s, "debug"@) => LevelFilter::Debug,
        Some(s) if occurs(s, "trace"@) => LevelFilter::Trace,
        Some(s) if occurs(s, "warn"@) => LevelFilter::Warn,
        _ => if debug {
            LevelFilter::Debug
        } else {
            LevelFilter::Info
        },
    }
}

/// What is logged, from the lower-case text of the setting.
pub fn level_for(setting: Option<&str>, debug: bool) -> (l: LevelFilter)
    ensures
        l == level_of(
            match setting {
                Some(s) => Some(s@),
                None => None,
            },
            debug,
        ),
{
    match setting {
        Some(s) => {
            if contains(s, "debug") {
                return LevelFilter::Debug;
            }
            if contains(s, "trace") {
                return LevelFilter::Trace;
            }
            if contains(s, "warn") {
                return LevelFilter::Warn;
            }
        },
        None => {},
    }
    if debug {
        LevelFilter::Debug
    } else {
        LevelFilter::Info
    }
}

/// What is logged, from the variables `RUST_LOG` and `UFB_DEBUG`.
pub fn log_level(rust_log: Option<&str>, ufb_debug: Option<&str>) -> (l: LevelFilter)
    ensures
        l == level_of(
            match rust_log {
                Some(s) => Some(lowercased(s@)),
                None => None,
            },
            ufb_debug matches Some(d) && d@ == "1"@,
        ),
{
    let debug = match ufb_debug {
        Some(d) => same(d, "1"),
        None => false,
    };
    match rust_log {
        Some(s) => {
            let lower = to_lowercase(s);
            level_for(Some(lower.as_str()), debug)
        },
        None => level_for(None, debug),
    }
}

/// The directory of the log file and its path.
pub open spec fn log_place(env: Environment) -> Option<(Seq<char>, Seq<char>)> {
    let p = env.platform;
    let in_dir = |dir: Seq<char>| Some((dir, joined(p, dir, "mediamount-agent.log"@)));
    match p {
        Platform::Windows => match env.local_app_data {
            Some(local) => in_dir(joined(p, local@, "ufb"@)),
            None => None,
        },
        _ => match env.home {
            Some(home) => in_dir(joined(p, home@, ".local/share/ufb"@)),
            None => None,
        },
    }
}

/// The directory of the log file and its path, if the user has a place for it.
pub fn log_file_path(env: &Environment) -> (r: Option<(String, String)>)
    ensures
        r matches Some((d, f)) ==> log_place(*env) == Some((d@, f@)),
        r is None ==> log_place(*env) is None,
{
    let dir = match env.platform {
        Platform::Windows => match &env.local_app_data {
            Some(local) => join(env.platform, local.as_str(), "ufb"),
            None => {
                return None;
            },
        },
        _ => match &env.home {
            Some(home) => join(env.platform, home.as_str(), ".local/share/ufb"),
            None => {
                return None;
            },
        },
    };
    let file = join(env.platform, dir.as_str(), "mediamount-agent.log");
    Some((dir, file))
}

/// Whether a log file is started anew.
pub fn log_is_full(len: u64) -> (r: bool)
    ensures
        r == (len > LOG_LIMIT),
{
    len > LOG_LIMIT
}

/// The directory of the file that keeps a second agent from running, and its path.
pub fn lock_path(env: &Environment) -> (r: (String, String))
    ensures
        r.0@ == match env.runtime_dir {
            Some(run) => joined(env.platform, run@, "ufb"@),
            None => "/tmp"@,
        },
        r.1@ == joined(env.platform, r.0@, "mediamount-agent.lock"@),
{
    let dir = match &env.runtime_dir {
        Some(run) => join(env.platform, run.as_str(), "ufb"),
        None => "/tmp".to_owned(),
    };
    let file = join(env.platform, dir.as_str(), "mediamount-agent.lock");
    (dir, file)
}

/// Whether the configuration file was written since the last look; a file that cannot be looked at
/// changes nothing.
pub fn config_changed(last: Option<i64>, current: Option<i64>) -> (r: bool)
    ensures
        r == (current is Some && current != last),
{
    match current {
        Some(c) => match last {
            Some(l) => c != l,
            None => true,
        },
        None => false,
    }
}

/// A link that is made with elevated rights.
#[derive(Debug, Clone, PartialEq, Eq)]
pub struct SymlinkJob {
    pub link: String,
    pub target: String,
    /// The drive that the link takes the place of.
    pub drive: Option<String>,
}

/// Whether a job makes the link of this mount: to the folder of its synced files, or to its share.
pub open spec fn links_mount(
    j: SymlinkJob,
    env: Environment,
    m: MountConfig,
    cache_root: Seq<char>,
) -> bool {
    &&& j.link@ == volume(env, m)
    &&& j.target@ == if m.sync_enabled {
        sync_dir(env, m, cache_root)
    } else {
        m.nas_share_path@
    }
    &&& match j.drive {
        Some(d) => m.mount_drive_letter@.len() > 0 && d@ == m.mount_drive_letter@,
        None => m.mount_drive_letter@.len() == 0,
    }
}

/// The enabled mounts, in order.
pub open spec fn enabled_mounts(ms: Seq<MountConfig>) -> Seq<MountConfig>
    decreases ms.len(),
{
    if ms.len() == 0 {
        Seq::empty()
    } else if ms.last().enabled {
        enabled_mounts(ms.drop_last()).push(ms.last())
    } else {
        enabled_mounts(ms.drop_last())
    }
}

/// The links that are made with elevated rights: one for each enabled mount.
pub fn symlink_jobs(env: &Environment, config: &MountsConfig) -> (out: Vec<SymlinkJob>)
    ensures
        ({
            let ms = enabled_mounts(config.mounts@);
            let root = match crate::config::given(config.sync_cache_root) {
                Some(p) => p,
                None => crate::config::default_sync_dir(*env),
            };
            &&& out@.len() == ms.len()
            &&& forall|i: int|
                0 <= i < out@.len() ==> links_mount(#[trigger] out@[i], *env, ms[i], root)
        }),
{
    let root = config.cache_root(env);
    let mut out: Vec<SymlinkJob> = Vec::new();
    let ghost all = config.mounts@;
    let mut i: usize = 0;
    assert(all.take(0) =~= Seq::empty());
    while i < config.mounts.len()
        invariant
            i <= all.len(),
            all == config.mounts@,
            out@.len() == enabled_mounts(all.take(i as int)).len(),
            forall|k: int|
                0 <= k < out@.len() ==> links_mount(
                    #[trigger] out@[k],
                    *env,
                    enabled_mounts(all.take(i as int))[k],
                    root@,
                ),
        decreases all.len() - i,
    {
        let m = &config.mounts[i];
        assert(all.take(i + 1).drop_last() =~= all.take(i as int));
        assert(all.take(i + 1).last() == *m);
        if m.enabled {
            let target = if m.sync_enabled {
                m.sync_root_dir(env, root.as_str())
            } else {
                m.nas_share_path.clone()
            };
            let drive = if m.mount_drive_letter.as_str().is_empty() {
                None
            } else {
                Some(m.mount_drive_letter.clone())
            };
            out.push(SymlinkJob { link: m.volume_path(env), target, drive });
        }
        i += 1;
    }
    assert(all.take(all.len() as int) =~= all);
    out
}

/// Whether a mount gets a file server.
pub open spec fn served_mount(m: MountConfig) -> bool {
    m.enabled && m.sync_enabled
}

/// The order in which file servers are started: by identifier, and by position where two mounts
/// have the same one.
pub open spec fn starts_before(ms: Seq<MountConfig>, a: int, b: int) -> bool {
    precedes(ms[a].id@, ms[b].id@) || (ms[a].id@ == ms[b].id@ && a < b)
}

/// Positions in the order in which file servers are started.
pub open spec fn start_order(ms: Seq<MountConfig>, v: Seq<usize>) -> bool {
    forall|i: int, j: int|
        0 <= i < j < v.len() ==> starts_before(
            ms,
            (#[trigger] v[i]) as int,
            (#[trigger] v[j]) as int,
        )
}

/// The positions of the mounts that get a file server, in the order in which those are started.
pub fn nfs_mounts(config: &MountsConfig) -> (out: Vec<usize>)
    ensures
        start_order(config.mounts@, out@),
        forall|k: usize| #[trigger]
            out@.contains(k) <==> k < config.mounts@.len() && served_mount(
                config.mounts@[k as int],
            ),
{
    let ghost ms = config.mounts@;
    let mut out: Vec<usize> = Vec::new();
    let mut i: usize = 0;
    while i < config.mounts.len()
        invariant
            i <= ms.len(),
            ms == config.mounts@,
            start_order(ms, out@),
            forall|k: usize| #[trigger]
                out@.contains(k) <==> k < i && served_mount(ms[k as int]),
            forall|j: int| 0 <= j < out@.len() ==> (#[trigger] out@[j]) < i,
        decreases ms.len() - i,
    {
        let m = &config.mounts[i];
        if m.enabled && m.is_sync_mode() {
            let ghost o0 = out@;
            let mut p: usize = out.len();
            while p > 0 && text_less(m.id.as_str(), config.mounts[out[p - 1]].id.as_str())
                invariant
                    p <= out@.len(),
                    out@ == o0,
                    ms == config.mounts@,
                    i < ms.len(),
                    *m == ms[i as int],
                    forall|j: int| 0 <= j < o0.len() ==> (#[trigger] o0[j]) < i,
                    forall|j: int|
                        p <= j < o0.len() ==> precedes(m.id@, ms[(#[trigger] o0[j]) as int].id@),
                decreases p,
            {
                p -= 1;
            }
            out.insert(p, i);
            proof {
                lemma_start_inserted(ms, o0, p as int, i);
            }
        }
        i += 1;
    }
    out
}

proof fn lemma_start_inserted(ms: Seq<MountConfig>, v: Seq<usize>, p: int, new: usize)
    requires
        start_order(ms, v),
        0 <= p <= v.len(),
        forall|j: int| 0 <= j < v.len() ==> (#[trigger] v[j]) < new,
        forall|j: int|
            p <= j < v.len() ==> precedes(ms[new as int].id@, ms[(#[trigger] v[j]) as int].id@),
        p > 0 ==> !precedes(ms[new as int].id@, ms[v[p - 1] as int].id@),
    ensures
        start_order(ms, v.insert(p, new)),
        forall|k: usize| #[trigger] v.insert(p, new).contains(k) <==> v.contains(k) || k == new,
        forall|j: int| 0 <= j < v.insert(p, new).len() ==> (#[trigger] v.insert(p, new)[j]) <= new,
{
    let w = v.insert(p, new);
    let id = ms[new as int].id@;
    assert forall|j: int| 0 <= j < p implies starts_before(
        ms,
        (#[trigger] v[j]) as int,
        new as int,
    ) by {
        let a = ms[v[j] as int].id@;
        let b = ms[v[p - 1] as int].id@;
        if j < p - 1 {
            assert(starts_before(ms, v[j] as int, v[p - 1] as int));
        }
        // Neither sorts behind the new one.
        if precedes(id, a) {
            if precedes(a, b) {
                crate::text::lemma_precedes_transitive(id, a, b);
            }
        }
        if a != id {
            crate::text::lemma_precedes_total(a, id);
        }
    }
    assert forall|i: int, j: int| 0 <= i < j < w.len() implies starts_before(
        ms,
        (#[trigger] w[i]) as int,
        (#[trigger] w[j]) as int,
    ) by {
        if i == p {
            assert(w[j] == v[j - 1]);
        } else if j == p {
            assert(w[i] == v[i]);
        } else {
            let a = if i < p { i } else { i - 1 };
            let b = if j < p { j } else { j - 1 };
            assert(w[i] == v[a] && w[j] == v[b]);
        }
    }
    assert forall|k: usize| #[trigger] w.contains(k) <==> v.contains(k) || k == new by {
        if w.contains(k) && k != new {
            let i = w.index_of(k);
            let a = if i < p { i } else { i - 1 };
            assert(v[a] == k);
        }
        if v.contains(k) {
            let a = v.index_of(k);
            let i = if a < p { a } else { a + 1 };
            assert(w[i] == k);
        }
        assert(w[p] == new);
    }
}

/// The port of the file server at this place of the order.
pub fn nfs_port(place: u16) -> (port: u16)
    requires
        BASE_PORT + place <= u16::MAX,
    ensures
        port == BASE_PORT + place,
{
    BASE_PORT + place
}

/// The directories at which a share may be mounted.
pub fn nfs_candidates(env: &Environment, mount: &MountConfig) -> (r: (String, String))
    ensures
        r.0@ == joined(
            env.platform,
            home_dir(*env, ".local/share/ufb/smb-mounts"@, "/tmp/ufb-smb-mounts"@),
            share(*mount),
        ),
        r.1@ == joined(env.platform, "/Volumes"@, share(*mount)),
{
    let base = MountConfig::smb_mount_base(env);
    let name = mount.share_name();
    (
        join(env.platform, base.as_str(), name.as_str()),
        join(env.platform, "/Volumes", name.as_str()),
    )
}

/// Whether a directory is a mount: it lies on another device than the directory above it.
pub open spec fn other_device(devices: Option<(u64, u64)>) -> bool {
    devices matches Some((own, above)) && own != above
}

/// The directory that a share is served from: the first candidate that is a mount, else the volume
/// that was found for it. The devices are those of a candidate and of the directory above it.
pub fn nfs_root(
    env: &Environment,
    mount: &MountConfig,
    first: Option<(u64, u64)>,
    second: Option<(u64, u64)>,
    found: Option<String>,
) -> (r: Option<String>)
    ensures
        other_device(first) ==> (r matches Some(p) && p@ == joined(
            env.platform,
            home_dir(*env, ".local/share/ufb/smb-mounts"@, "/tmp/ufb-smb-mounts"@),
            share(*mount),
        )),
        !other_device(first) && other_device(second) ==> (r matches Some(p) && p@ == joined(
            env.platform,
            "/Volumes"@,
            share(*mount),
        )),
        !other_device(first) && !other_device(second) ==> r == found,
{
    let (a, b) = nfs_candidates(env, mount);
    match first {
        Some((own, above)) => if own != above {
            return Some(a);
        },
        None => {},
    }
    match second {
        Some((own, above)) => if own != above {
            return Some(b);
        },
        None => {},
    }
    found
}

/// The name of the program that the tray opens.
pub open spec fn ufb_name(platform: Platform) -> Seq<char> {
    match platform {
        Platform::Windows => "ufb-tauri.exe"@,
        _ => "ufb-tauri"@,
    }
}

/// The name of the program that the tray opens.
pub fn ufb_program(platform: Platform) -> (out: String)
    ensures
        out@ == ufb_name(platform),
{
    match platform {
        Platform::Windows => "ufb-tauri.exe".to_owned(),
        _ => "ufb-tauri".to_owned(),
    }
}

/// The places beside the agent in which the program may lie: that of an installation, and that of a
/// development build.
pub fn ufb_places(platform: Platform, dir: &str) -> (r: (String, String))
    ensures
        r.0@ == joined(platform, dir@, ufb_name(platform)),
        r.1@ == joined(
            platform,
            joined(platform, dir@, "../../src-tauri/target/debug"@),
            ufb_name(platform),
        ),
{
    let name = ufb_program(platform);
    let dev = join(platform, dir, "../../src-tauri/target/debug");
    (join(platform, dir, name.as_str()), join(platform, dev.as_str(), name.as_str()))
}

/// The program that the tray opens: the one beside the agent, the one of a development build, or the
/// one that the system finds by its name.
pub fn ufb_path(
    platform: Platform,
    dir: Option<&str>,
    beside: bool,
    development: Option<String>,
) -> (out: String)
    ensures
        out@ == match dir {
            Some(d) => if beside {
                joined(platform, d@, ufb_name(platform))
            } else {
                match development {
                    Some(p) => p@,
                    None => ufb_name(platform),
                }
            },
            None => ufb_name(platform),
        },
{
    match dir {
        Some(d) => {
            if beside {
                return ufb_places(platform, d).0;
            }
            match development {
                Some(p) => p,
                None => ufb_program(platform),
            }
        },
        None => ufb_program(platform),
    }
}

/// The link of a mount is made where the user finds the share. It leads to the share itself where
/// the mount is not synced, to the folder of its synced files where it is, and takes the place of
/// the drive that the mount names, if it names one.
pub proof fn law_links_lead_to_their_mount(
    j: SymlinkJob,
    env: Environment,
    m: MountConfig,
    cache_root: Seq<char>,
)
    requires
        links_mount(j, env, m, cache_root),
    ensures
        j.link@ == volume(env, m),
        !m.sync_enabled ==> j.target@ == m.nas_share_path@,
        m.sync_enabled ==> j.target@ == sync_dir(env, m, cache_root),
        j.drive is Some <==> m.mount_drive_letter@.len() > 0,
        j.drive matches Some(d) ==> d@ == m.mount_drive_letter@,
{
}

/// The enabled mounts are all those that are enabled, in their order, and no others.
pub proof fn law_enabled_mounts_are_kept_in_order(ms: Seq<MountConfig>, m: MountConfig)
    ensures
        m.enabled ==> enabled_mounts(ms.push(m)) == enabled_mounts(ms).push(m),
        !m.enabled ==> enabled_mounts(ms.push(m)) == enabled_mounts(ms),
        enabled_mounts(Seq::empty()).len() == 0,
{
    assert(ms.push(m).drop_last() =~= ms);
}

/// Every enabled mount gets its link, and no link is made for another one.
pub proof fn law_enabled_mounts_get_links(
    env: Environment,
    config: MountsConfig,
    out: Vec<SymlinkJob>,
    i: int,
)
    requires
        call_ensures(symlink_jobs, (&env, &config), out),
        0 <= i < config.mounts@.len(),
    ensures
        out@.len() == enabled_mounts(config.mounts@).len(),
        config.mounts@[i].enabled ==> exists|k: int|
            0 <= k < out@.len() && (#[trigger] out@[k]).link@ == volume(env, config.mounts@[i]) && (
            !config.mounts@[i].sync_enabled ==> out@[k].target@
                == config.mounts@[i].nas_share_path@),
{
    let ms = config.mounts@;
    lemma_enabled_at(ms, i);
    if ms[i].enabled {
        let all = enabled_mounts(ms);
        let k = choose|k: int| 0 <= k < all.len() && all[k] == ms[i];
        let root = match crate::config::given(config.sync_cache_root) {
            Some(p) => p,
            None => crate::config::default_sync_dir(env),
        };
        assert(links_mount(out@[k], env, all[k], root));
    }
}

proof fn lemma_enabled_at(ms: Seq<MountConfig>, i: int)
    requires
        0 <= i < ms.len(),
    ensures
        ms[i].enabled ==> enabled_mounts(ms).contains(ms[i]),
    decreases ms.len(),
{
    let d = ms.drop_last();
    let front = enabled_mounts(d);
    let all = enabled_mounts(ms);
    if ms[i].enabled {
        if i < d.len() {
            lemma_enabled_at(d, i);
            assert(d[i] == ms[i]);
            let k = choose|k: int| 0 <= k < front.len() && front[k] == ms[i];
            assert(all[k] == ms[i]);
        } else {
            assert(all[front.len() as int] == ms[i]);
        }
    }
}

/// Debugging is logged where the setting names it, and where it names nothing else and debugging
/// was asked for; a setting that names nothing logs as if there were none.
pub proof fn law_settings_choose_the_level(s: Seq<char>, debug: bool)
    ensures
        occurs(s, "debug"@) ==> level_of(Some(s), debug) is Debug,
        !occurs(s, "debug"@) && occurs(s, "trace"@) ==> level_of(Some(s), debug) is Trace,
        !occurs(s, "debug"@) && !occurs(s, "trace"@) && occurs(s, "warn"@) ==> level_of(
            Some(s),
            debug,
        ) is Warn,
        !occurs(s, "debug"@) && !occurs(s, "trace"@) && !occurs(s, "warn"@) ==> level_of(
            Some(s),
            debug,
        ) == level_of(None, debug),
        level_of(None, true) is Debug,
        level_of(None, false) is Info,
{
}

/// The log file lies in its directory, which is that of the user's own data.
pub proof fn law_log_lies_with_the_users_data(env: Environment)
    ensures
        log_place(env) matches Some(p) ==> p.1 == joined(
            env.platform,
            p.0,
            "mediamount-agent.log"@,
        ),
        env.platform is Windows ==> (log_place(env) is Some <==> env.local_app_data is Some),
        !(env.platform is Windows) ==> (log_place(env) is Some <==> env.home is Some),
        env.platform is Windows ==> (env.local_app_data matches Some(d) ==> (log_place(
            env,
        ) matches Some((dir, _)) && dir == joined(env.platform, d@, "ufb"@))),
        !(env.platform is Windows) ==> (env.home matches Some(h) ==> (log_place(
            env,
        ) matches Some((dir, _)) && dir == joined(env.platform, h@, ".local/share/ufb"@))),
{
}

/// A configuration counts as changed exactly where its file can be looked at and its time is
/// another one than at the last look.
pub proof fn law_unreadable_configuration_changes_nothing(
    last: Option<i64>,
    current: Option<i64>,
    r: bool,
)
    requires
        call_ensures(config_changed, (last, current), r),
    ensures
        current is None ==> !r,
        current matches Some(c) ==> (r <==> last != Some(c)),
{
}

/// File servers are started for the enabled mounts that are synced, in the order of their
/// identifiers.
pub proof fn law_synced_mounts_are_served_in_order(
    config: MountsConfig,
    out: Vec<usize>,
    k: usize,
    i: int,
    j: int,
)
    requires
        call_ensures(nfs_mounts, (&config,), out),
        0 <= i < j < out@.len(),
    ensures
        out@.contains(k) <==> k < config.mounts@.len() && config.mounts@[k as int].enabled
            && config.mounts@[k as int].sync_enabled,
        !precedes(config.mounts@[out@[j] as int].id@, config.mounts@[out@[i] as int].id@),
        out@[i] != out@[j],
{
    let ms = config.mounts@;
    assert(starts_before(ms, out@[i] as int, out@[j] as int));
    if precedes(ms[out@[i] as int].id@, ms[out@[j] as int].id@) {
        crate::text::lemma_precedes_asymmetric(
            ms[out@[i] as int].id@,
            ms[out@[j] as int].id@,
        );
    } else if precedes(ms[out@[j] as int].id@, ms[out@[i] as int].id@) {
        crate::text::lemma_precedes_asymmetric(
            ms[out@[j] as int].id@,
            ms[out@[i] as int].id@,
        );
    }
}

/// A share is served from the first candidate that is a mount of its own, and from what was found
/// elsewhere only where neither is.
pub proof fn law_own_mounts_are_served_first(
    env: Environment,
    mount: MountConfig,
    first: (u64, u64),
    second: (u64, u64),
    found: Option<String>,
    r: Option<String>,
)
    requires
        call_ensures(
            nfs_root,
            (&env, &mount, Some(first), Some(second), found),
            r,
        ),
    ensures
        first.0 != first.1 ==> r is Some && r->0@ == joined(
            env.platform,
            home_dir(env, ".local/share/ufb/smb-mounts"@, "/tmp/ufb-smb-mounts"@),
            share(mount),
        ),
        first.0 == first.1 && second.0 != second.1 ==> r is Some && r->0@ == joined(
            env.platform,
            "/Volumes"@,
            share(mount),
        ),
        first.0 == first.1 && second.0 == second.1 ==> r == found,
{
}

/// A log of more than two mebibytes is started anew, and file servers take one port after the
/// other.
pub proof fn law_limits_are_fixed(len: u64, full: bool, place: u16, port: u16)
    requires
        place < 1_000,
        call_ensures(log_is_full, (len,), full),
        call_ensures(nfs_port, (place,), port),
    ensures
        full <==> len > 2 * 1_024 * 1_024,
        port == 12_345 + place,
{
}

} // verus!
