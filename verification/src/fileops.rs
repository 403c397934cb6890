//! File operations for the file provider of macOS: which file a request is about, what is noted in
//! the cache, and when a write met another one.
use crate::cache_core::parent_path;
use crate::config::{share, MountConfig, MountsConfig};
use crate::macos_cache::{
    changes, distinct_folders, drifts, is_gone_path, is_hidden_name, plain_names, reported,
    with_changes, without_paths, ChangedEntry, ChangesResult, FolderListing, MacosCache,
};
use crate::messages::{AgentToUfb, ConflictDetectedMsg, DirEntry};
use crate::file_table::Row;
use crate::nfs::shown_entries;
use crate::paths::{
    below, file_name, join, joined, last_part, parts, strip_prefix, Environment, Platform,
};
use crate::text::{
    decimal, decimal_of, hexadecimal, hexadecimal_of, join2, join3, same, texts,
};
use vstd::prelude::*;

verus! {

/// The container that the agent shares with the file provider.
pub open spec fn container_dir(env: Environment) -> Seq<char> {
    match env.home {
        Some(home) => joined(
            env.platform,
            joined(env.platform, home@, "Library/Group Containers"@),
            "5Z4S9VHV56.group.com.unionfiles.mediamount-tray"@,
        ),
        None => "/tmp/ufb-fileprovider"@,
    }
}

/// The container that the agent shares with the file provider.
pub fn app_group_container(env: &Environment) -> (out: String)
    ensures
        out@ == container_dir(*env),
{
    match &env.home {
        Some(home) => {
            let dir = join(env.platform, home.as_str(), "Library/Group Containers");
            join(env.platform, dir.as_str(), "5Z4S9VHV56.group.com.unionfiles.mediamount-tray")
        },
        None => "/tmp/ufb-fileprovider".to_owned(),
    }
}

/// The socket on which file operations arrive.
pub fn socket_path(env: &Environment) -> (out: String)
    ensures
        out@ == joined(env.platform, container_dir(*env), "fp.sock"@),
{
    let dir = app_group_container(env);
    join(env.platform, dir.as_str(), "fp.sock")
}

/// The directory in which contents are handed over.
pub fn temp_dir(env: &Environment) -> (out: String)
    ensures
        out@ == joined(env.platform, container_dir(*env), "temp"@),
{
    let dir = app_group_container(env);
    join(env.platform, dir.as_str(), "temp")
}

/// The name of a file in which content is handed over, from the time in microseconds and the number
/// of the process.
pub fn temp_name(micros: u64, pid: u32) -> (out: String)
    ensures
        out@ == decimal(micros as nat) + "-"@ + hexadecimal(pid as nat) + ".tmp"@,
{
    let mut out = decimal_of(micros);
    let hex = hexadecimal_of(pid as u64);
    out.append("-");
    out.append(hex.as_str());
    out.append(".tmp");
    out
}

/// Whether a mount serves a domain.
pub open spec fn serves(m: MountConfig, domain: Seq<char>) -> bool {
    m.enabled && share(m) == domain
}

/// The position of the first mount that serves a domain, or the number of mounts.
pub open spec fn mount_pos(ms: Seq<MountConfig>, domain: Seq<char>) -> int
    decreases ms.len(),
{
    if ms.len() == 0 || serves(ms[0], domain) {
        0
    } else {
        1 + mount_pos(ms.drop_first(), domain)
    }
}

proof fn lemma_mount_pos(ms: Seq<MountConfig>, domain: Seq<char>, k: int)
    requires
        0 <= k <= ms.len(),
        forall|i: int| 0 <= i < k ==> !serves(#[trigger] ms[i], domain),
        k < ms.len() ==> serves(ms[k], domain),
    ensures
        mount_pos(ms, domain) == k,
    decreases ms.len(),
{
    if k > 0 {
        let w = ms.drop_first();
        assert(!serves(ms[0], domain));
        assert forall|i: int| 0 <= i < k - 1 implies !serves(#[trigger] w[i], domain) by {
            assert(w[i] == ms[i + 1]);
        }
        lemma_mount_pos(w, domain, k - 1);
    }
}

fn find_mount(config: &MountsConfig, domain: &str) -> (k: usize)
    ensures
        k == mount_pos(config.mounts@, domain@),
        k <= config.mounts@.len(),
{
    let mut k: usize = 0;
    while k < config.mounts.len()
        invariant
            k <= config.mounts@.len(),
            forall|i: int| 0 <= i < k ==> !serves(#[trigger] config.mounts@[i], domain@),
        ensures
            k <= config.mounts@.len(),
            k < config.mounts@.len() ==> serves(config.mounts@[k as int], domain@),
        decreases config.mounts@.len() - k,
    {
        let name = config.mounts[k].share_name();
        if config.mounts[k].enabled && same(name.as_str(), domain) {
            break;
        }
        k += 1;
    }
    proof {
        lemma_mount_pos(config.mounts@, domain@, k as int);
    }
    k
}

/// The limit of the cache of a domain: that of the first mount which serves the domain and syncs
/// on demand.
pub open spec fn cache_pos(ms: Seq<MountConfig>, domain: Seq<char>) -> int
    decreases ms.len(),
{
    if ms.len() == 0 || (serves(ms[0], domain) && ms[0].sync_enabled) {
        0
    } else {
        1 + cache_pos(ms.drop_first(), domain)
    }
}

proof fn lemma_cache_pos(ms: Seq<MountConfig>, domain: Seq<char>, k: int)
    requires
        0 <= k <= ms.len(),
        forall|i: int|
            0 <= i < k ==> !(serves(#[trigger] ms[i], domain) && ms[i].sync_enabled),
        k < ms.len() ==> serves(ms[k], domain) && ms[k].sync_enabled,
    ensures
        cache_pos(ms, domain) == k,
    decreases ms.len(),
{
    if k > 0 {
        let w = ms.drop_first();
        assert(!(serves(ms[0], domain) && ms[0].sync_enabled));
        assert forall|i: int| 0 <= i < k - 1 implies !(serves(#[trigger] w[i], domain)
            && w[i].sync_enabled) by {
            assert(w[i] == ms[i + 1]);
        }
        lemma_cache_pos(w, domain, k - 1);
    }
}

/// The byte budget of the cache that is opened for a domain, where one is.
pub fn cache_limit_for(config: &MountsConfig, domain: &str) -> (r: Option<u64>)
    ensures
        ({
            let k = cache_pos(config.mounts@, domain@);
            r == if k < config.mounts@.len() {
                Some(config.mounts@[k].sync_cache_limit_bytes)
            } else {
                None
            }
        }),
{
    let mut k: usize = 0;
    while k < config.mounts.len()
        invariant
            k <= config.mounts@.len(),
            forall|i: int|
                0 <= i < k ==> !(serves(#[trigger] config.mounts@[i], domain@)
                    && config.mounts@[i].sync_enabled),
        decreases config.mounts@.len() - k,
    {
        let m = &config.mounts[k];
        let name = m.share_name();
        if m.enabled && m.is_sync_mode() && same(name.as_str(), domain) {
            proof {
                lemma_cache_pos(config.mounts@, domain@, k as int);
            }
            return Some(m.sync_cache_limit_bytes);
        }
        k += 1;
    }
    proof {
        lemma_cache_pos(config.mounts@, domain@, k as int);
    }
    None
}

/// The domains that have a cache, with their byte budgets.
pub open spec fn cached_domains(ms: Seq<MountConfig>) -> Seq<(Seq<char>, u64)>
    decreases ms.len(),
{
    if ms.len() == 0 {
        Seq::empty()
    } else {
        let front = cached_domains(ms.drop_last());
        let m = ms.last();
        if m.enabled && m.sync_enabled {
            front.push((share(m), m.sync_cache_limit_bytes))
        } else {
            front
        }
    }
}

/// Serves the file operations of the file provider.
pub struct FileOpsServer;

impl FileOpsServer {
    /// The caches that are opened when the server starts: those of the enabled mounts that sync on
    /// demand.
    pub fn caches(config: &MountsConfig) -> (out: Vec<(String, u64)>)
        ensures
            crate::cache_index::held_views(out@) == cached_domains(config.mounts@),
    {
        let mut out: Vec<(String, u64)> = Vec::new();
        let ghost ms = config.mounts@;
        let mut i: usize = 0;
        assert(ms.take(0) =~= Seq::empty());
        assert(crate::cache_index::held_views(out@) =~= Seq::empty());
        while i < config.mounts.len()
            invariant
                i <= ms.len(),
                ms == config.mounts@,
                crate::cache_index::held_views(out@) == cached_domains(ms.take(i as int)),
            decreases ms.len() - i,
        {
            let m = &config.mounts[i];
            let ghost before = crate::cache_index::held_views(out@);
            assert(ms.take(i + 1).drop_last() =~= ms.take(i as int));
            assert(ms.take(i + 1).last() == *m);
            if m.enabled && m.is_sync_mode() {
                let name = m.share_name();
                let ghost d = name@;
                out.push((name, m.sync_cache_limit_bytes));
                assert(crate::cache_index::held_views(out@) =~= before.push(
                    (d, m.sync_cache_limit_bytes),
                ));
            }
            i += 1;
        }
        assert(ms.take(ms.len() as int) =~= ms);
        out
    }
}

/// Where the share of a domain is mounted by the system.
pub open spec fn volume_of(domain: Seq<char>) -> Seq<char> {
    joined(Platform::Macos, "/Volumes"@, domain)
}

/// Where the share of a domain is mounted by the system, if a mount serves the domain.
pub fn resolve_base(config: &MountsConfig, domain: &str) -> (r: Result<String, String>)
    ensures
        ({
            let served = mount_pos(config.mounts@, domain@) < config.mounts@.len();
            match r {
                Ok(p) => served && p@ == volume_of(domain@),
                Err(e) => !served && e@ == "No enabled mount found for domain '"@ + domain@ + "'"@,
            }
        }),
{
    let k: usize = find_mount(config, domain);
    if k < config.mounts.len() {
        proof {
            lemma_served(config.mounts@, domain@);
        }
        let name = config.mounts[k].share_name();
        Ok(join(Platform::Macos, "/Volumes", name.as_str()))
    } else {
        Err(join3("No enabled mount found for domain '", domain, "'"))
    }
}

proof fn lemma_served(ms: Seq<MountConfig>, domain: Seq<char>)
    requires
        mount_pos(ms, domain) < ms.len(),
    ensures
        0 <= mount_pos(ms, domain),
        serves(ms[mount_pos(ms, domain)], domain),
    decreases ms.len(),
{
    if ms.len() > 0 && !serves(ms[0], domain) {
        lemma_served(ms.drop_first(), domain);
    }
}

/// The path of a request below the real path of its share.
pub fn resolve_full(base: &str, relative_path: &str) -> (out: String)
    ensures
        out@ == if relative_path@.len() == 0 {
            base@
        } else {
            joined(Platform::Macos, base@, relative_path@)
        },
{
    if relative_path.is_empty() {
        base.to_owned()
    } else {
        join(Platform::Macos, base, relative_path)
    }
}

/// What is told where the share is not mounted.
pub fn share_missing(base: &str) -> (out: String)
    ensures
        out@ == "SMB mount not found at "@ + base@,
{
    join2("SMB mount not found at ", base)
}

/// The answer to a request whose real path was found: that path, if it lies in the share.
pub open spec fn inside(base: Seq<char>, canonical: Seq<char>, relative_path: Seq<char>) -> Result<
    Seq<char>,
    Seq<char>,
> {
    if below(Platform::Macos, base, canonical) is Some {
        Ok(canonical)
    } else {
        Err("Path traversal detected: "@ + relative_path)
    }
}

/// The views of a text and of what is told in its place.
pub open spec fn answer_view(r: Result<String, String>) -> Result<Seq<char>, Seq<char>> {
    match r {
        Ok(p) => Ok(p@),
        Err(e) => Err(e@),
    }
}

/// The real path of a request, if it lies in the share.
pub fn check_inside(base: &str, canonical: &str, relative_path: &str) -> (r: Result<
    String,
    String,
>)
    ensures
        answer_view(r) == inside(base@, canonical@, relative_path@),
{
    match strip_prefix(Platform::Macos, base, canonical) {
        Some(_) => Ok(canonical.to_owned()),
        None => Err(join2("Path traversal detected: ", relative_path)),
    }
}

/// What looking for the target of a write gave.
#[derive(Clone, Debug)]
pub enum WriteTarget {
    /// The target exists: the real paths of the share and of the target.
    Found(String, String),
    /// No real path could be had.
    Missing,
}

/// The path that a request writes to, where `found` holds the real paths of the share and of an
/// existing target: the target's, if that lies in the share, and in every other case the place below
/// the share.
pub open spec fn write_path(
    mounts: Seq<MountConfig>,
    domain: Seq<char>,
    relative_path: Seq<char>,
    found: Option<(Seq<char>, Seq<char>)>,
) -> Result<Seq<char>, Seq<char>> {
    match found {
        Some((base, canonical)) => if inside(base, canonical, relative_path) is Ok {
            Ok(canonical)
        } else {
            new_path(mounts, domain, relative_path)
        },
        None => new_path(mounts, domain, relative_path),
    }
}

/// The place of a path below the share.
pub open spec fn new_path(
    mounts: Seq<MountConfig>,
    domain: Seq<char>,
    relative_path: Seq<char>,
) -> Result<Seq<char>, Seq<char>> {
    if mount_pos(mounts, domain) < mounts.len() {
        Ok(joined(Platform::Macos, volume_of(domain), relative_path))
    } else {
        Err("No mount for domain '"@ + domain + "'"@)
    }
}

impl WriteTarget {
    /// The real paths of the share and of the target, where the target exists.
    pub open spec fn found(self) -> Option<(Seq<char>, Seq<char>)> {
        match self {
            WriteTarget::Found(base, canonical) => Some((base@, canonical@)),
            WriteTarget::Missing => None,
        }
    }
}

/// The path that a request writes to.
pub fn resolve_path_for_write(
    config: &MountsConfig,
    domain: &str,
    relative_path: &str,
    target: WriteTarget,
) -> (r: Result<String, String>)
    ensures
        answer_view(r) == write_path(config.mounts@, domain@, relative_path@, target.found()),
{
    if let WriteTarget::Found(base, canonical) = target {
        if let Ok(p) = check_inside(base.as_str(), canonical.as_str(), relative_path) {
            return Ok(p);
        }
    }
    match resolve_base(config, domain) {
        Ok(base) => Ok(join(Platform::Macos, base.as_str(), relative_path)),
        Err(_) => Err(join3("No mount for domain '", domain, "'")),
    }
}

/// What failed.
#[derive(Clone, Copy, Debug, PartialEq, Eq, Structural)]
pub enum FailedOp {
    ReadDirectory,
    Stat,
    FindFile,
    Copy,
    CreateDirectory,
    Write,
    FindItem,
    Delete,
    Rename,
}

/// How a failure is told.
pub open spec fn failure_prefix(op: FailedOp) -> Seq<char> {
    match op {
        FailedOp::ReadDirectory => "Failed to read directory: "@,
        FailedOp::Stat => "Stat failed: "@,
        FailedOp::FindFile => "File not found: "@,
        FailedOp::Copy => "Failed to copy file: "@,
        FailedOp::CreateDirectory => "Failed to create directory: "@,
        FailedOp::Write => "Failed to write file: "@,
        FailedOp::FindItem => "Item not found: "@,
        FailedOp::Delete => "Failed to delete: "@,
        FailedOp::Rename => "Rename failed: "@,
    }
}

/// How a failure is told.
pub fn failure_message(op: FailedOp, why: &str) -> (out: String)
    ensures
        out@ == failure_prefix(op) + why@,
{
    let what = match op {
        FailedOp::ReadDirectory => "Failed to read directory: ",
        FailedOp::Stat => "Stat failed: ",
        FailedOp::FindFile => "File not found: ",
        FailedOp::Copy => "Failed to copy file: ",
        FailedOp::CreateDirectory => "Failed to create directory: ",
        FailedOp::Write => "Failed to write file: ",
        FailedOp::FindItem => "Item not found: ",
        FailedOp::Delete => "Failed to delete: ",
        FailedOp::Rename => "Rename failed: ",
    };
    join2(what, why)
}

/// The cache after the server's version of a file was seen: what differs is taken over, and what
/// fits is noted as compared.
pub open spec fn seen_row(r: Row, size: u64, mtime: i64, now: i64) -> Row {
    if drifts(r, size, mtime) {
        Row { nas_size: size, nas_mtime: mtime, last_verified_at: now, ..r }
    } else {
        Row { last_verified_at: now, ..r }
    }
}

/// Takes note of the server's version of a file. One that differs from what is known replaces it
/// and, if so told, is queued to be dropped where its content is held. Returned is whether it
/// differs, where the file is known.
pub fn note_stat(
    cache: &mut MacosCache,
    relative_path: &str,
    size: u64,
    mtime: i64,
    now: i64,
    drop_held: bool,
) -> (r: Option<bool>)
    requires
        old(cache).wf(),
    ensures
        final(cache).wf(),
        final(cache).folders() == old(cache).folders(),
        final(cache).limit() == old(cache).limit(),
        ({
            let m = old(cache).files();
            let p = relative_path@;
            if !m.contains_key(p) {
                &&& r is None
                &&& final(cache).files() == m
                &&& final(cache).pending() == old(cache).pending()
            } else {
                &&& r == Some(drifts(m[p], size, mtime))
                &&& final(cache).files() == m.insert(p, seen_row(m[p], size, mtime, now))
                &&& final(cache).pending() == if drifts(m[p], size, mtime) && drop_held
                    && m[p].is_hydrated {
                    old(cache).pending().push(p)
                } else {
                    old(cache).pending()
                }
            }
        }),
{
    let differs = cache.compare_nas_metadata(relative_path, size, mtime);
    match differs {
        Some(true) => {
            cache.update_nas_metadata(relative_path, size, mtime, now);
            if drop_held {
                cache.queue_eviction_if_hydrated(relative_path);
            }
        },
        Some(false) => {
            cache.record_verification(relative_path, now);
        },
        None => {},
    }
    differs
}

/// Whether somebody else wrote to the target of a write: `before` and `after` are its size and time
/// in nanoseconds, `written` is the size of what was written. The target then has a time more than
/// two whole seconds later, and its size is not that of what was written.
pub open spec fn met_another(
    before: Option<(u64, i64)>,
    after: Option<(u64, Option<i64>)>,
    written: Option<u64>,
) -> bool {
    match (before, after, written) {
        (Some((_, pre)), Some((post_size, Some(post))), Some(n)) => {
            &&& post - pre >= 3_000_000_000
            &&& post_size != n
        },
        _ => false,
    }
}

/// Whether somebody else wrote to the target of a write.
pub fn write_conflict(
    before: Option<(u64, i64)>,
    after: Option<(u64, Option<i64>)>,
    written: Option<u64>,
) -> (r: bool)
    ensures
        r == met_another(before, after, written),
{
    match (before, after, written) {
        (Some((_, pre)), Some((post_size, Some(post))), Some(n)) => {
            post as i128 - pre as i128 >= 3_000_000_000 && post_size != n
        },
        _ => false,
    }
}

/// What is told of a conflict.
pub fn conflict_event(
    domain: &str,
    original_path: &str,
    conflict_path: &str,
    host: &str,
    now: u64,
) -> (msg: AgentToUfb)
    ensures
        msg matches AgentToUfb::ConflictDetected(m) && {
            &&& m.domain@ == domain@
            &&& m.original_path@ == original_path@
            &&& m.conflict_path@ == last_part(Platform::Macos, conflict_path@)
            &&& m.host@ == host@
            &&& m.detected_at == now
        },
{
    AgentToUfb::ConflictDetected(
        ConflictDetectedMsg {
            domain: domain.to_owned(),
            original_path: original_path.to_owned(),
            conflict_path: file_name(Platform::Macos, conflict_path),
            host: host.to_owned(),
            detected_at: now,
        },
    )
}

/// What is known of a file that was just written.
pub open spec fn written_row(path: Seq<char>, is_dir: bool, size: u64, modified: i64) -> Row {
    crate::file_table::fresh_row(
        last_part(Platform::Macos, path),
        is_dir,
        size,
        modified,
        modified,
        parent_path(path),
    )
}

/// Records a file that was just written.
pub fn record_written(
    cache: &mut MacosCache,
    relative_path: &str,
    is_dir: bool,
    size: u64,
    modified: i64,
)
    requires
        old(cache).wf(),
    ensures
        final(cache).wf(),
        final(cache).folders() == old(cache).folders(),
        final(cache).pending() == old(cache).pending(),
        final(cache).limit() == old(cache).limit(),
        final(cache).files() == old(cache).files().insert(
            relative_path@,
            written_row(relative_path@, is_dir, size, modified),
        ),
{
    let entry = DirEntry {
        name: file_name(Platform::Macos, relative_path),
        is_dir,
        size,
        modified,
        created: modified,
    };
    cache.record_known_file(relative_path, &entry);
}

/// Records that a file was renamed; nothing is held of it under its new name.
pub fn record_renamed(
    cache: &mut MacosCache,
    old_path: &str,
    new_path: &str,
    is_dir: bool,
    size: u64,
    modified: i64,
)
    requires
        old(cache).wf(),
    ensures
        final(cache).wf(),
        final(cache).folders() == old(cache).folders(),
        final(cache).pending() == old(cache).pending(),
        final(cache).limit() == old(cache).limit(),
        final(cache).files() == old(cache).files().remove(old_path@).insert(
            new_path@,
            written_row(new_path@, is_dir, size, modified),
        ),
{
    cache.remove_known_file(old_path);
    record_written(cache, new_path, is_dir, size, modified);
}

/// The changes of a share since the last time they were asked for, and the files whose content is
/// to be dropped.
pub fn get_changes(cache: &mut MacosCache, snapshot: &Vec<FolderListing>) -> (r: (
    ChangesResult,
    Vec<String>,
))
    requires
        old(cache).wf(),
    ensures
        final(cache).wf(),
        final(cache).limit() == old(cache).limit(),
        final(cache).folders() == old(cache).folders(),
        final(cache).pending() == Seq::<Seq<char>>::empty(),
        texts(r.1@) == old(cache).pending(),
        changes(r.0.updated@) == reported(old(cache).files(), snapshot@),
        forall|p: Seq<char>| #[trigger]
            texts(r.0.deleted@).contains(p) <==> is_gone_path(old(cache).files(), snapshot@, p),
        distinct_folders(snapshot@) && plain_names(old(cache).files()) ==> texts(
            r.0.deleted@,
        ).no_duplicates(),
        final(cache).files() == without_paths(
            with_changes(old(cache).files(), changes(r.0.updated@)),
            texts(r.0.deleted@),
        ),
{
    let result = cache.get_changes_since(snapshot);
    let evict = cache.drain_pending_evictions();
    (result, evict)
}

/// Whether a reported change is about this entry of the root of a share.
pub open spec fn is_change_of(c: ChangedEntry, e: DirEntry) -> bool {
    &&& c.relative_path@ == e.name@
    &&& c.name@ == e.name@
    &&& c.is_dir == e.is_dir
    &&& c.size == e.size
    &&& c.modified == e.modified
    &&& c.created == e.created
}

/// A share without a cache is reported whole each time.
pub fn passthrough_changes(entries: &Vec<DirEntry>) -> (out: Vec<ChangedEntry>)
    ensures
        out@.len() == shown_entries(entries@).len(),
        forall|i: int|
            0 <= i < out@.len() ==> is_change_of(#[trigger] out@[i], shown_entries(entries@)[i]),
{
    let mut out: Vec<ChangedEntry> = Vec::new();
    let mut i: usize = 0;
    assert(entries@.take(0) =~= Seq::empty());
    while i < entries.len()
        invariant
            i <= entries@.len(),
            out@.len() == shown_entries(entries@.take(i as int)).len(),
            forall|k: int|
                0 <= k < out@.len() ==> is_change_of(
                    #[trigger] out@[k],
                    shown_entries(entries@.take(i as int))[k],
                ),
        decreases entries@.len() - i,
    {
        let e = &entries[i];
        assert(entries@.take(i + 1).drop_last() =~= entries@.take(i as int));
        assert(entries@.take(i + 1).last() == *e);
        if !is_hidden_name(e.name.as_str()) {
            out.push(
                ChangedEntry {
                    relative_path: e.name.clone(),
                    name: e.name.clone(),
                    is_dir: e.is_dir,
                    size: e.size,
                    modified: e.modified,
                    created: e.created,
                },
            );
        }
        i += 1;
    }
    assert(entries@.take(entries@.len() as int) =~= entries@);
    out
}

/// What is read lies in the share: the path that is answered starts with the parts of the share's. A
/// write goes to what was found there, and takes what was found elsewhere as not found.
pub proof fn law_found_paths_stay_in_share(
    mounts: Seq<MountConfig>,
    domain: Seq<char>,
    relative_path: Seq<char>,
    base: Seq<char>,
    canonical: Seq<char>,
)
    ensures
        inside(base, canonical, relative_path) matches Ok(p) ==> p == canonical && parts(
            Platform::Macos,
            base,
        ).is_prefix_of(parts(Platform::Macos, p)),
        write_path(mounts, domain, relative_path, Some((base, canonical))) == if inside(
            base,
            canonical,
            relative_path,
        ) is Ok {
            inside(base, canonical, relative_path)
        } else {
            write_path(mounts, domain, relative_path, None)
        },
{
}

/// A sole writer meets nobody: where the target has the size of what was written, there is no
/// conflict, whatever it was before and however long the write took.
pub proof fn law_sole_writer_meets_nobody(
    before: Option<(u64, i64)>,
    size: u64,
    time: Option<i64>,
)
    ensures
        !met_another(before, Some((size, time)), Some(size)),
{
}

/// A domain is served by the first enabled mount whose share has its name, and by none where there
/// is no such mount.
pub proof fn law_domains_are_served_by_their_share(ms: Seq<MountConfig>, domain: Seq<char>, i: int)
    requires
        0 <= i < ms.len(),
    ensures
        0 <= mount_pos(ms, domain) <= ms.len(),
        mount_pos(ms, domain) == i ==> ms[i].enabled && share(ms[i]) == domain,
        ms[i].enabled && share(ms[i]) == domain ==> mount_pos(ms, domain) <= i,
    decreases ms.len(),
{
    if !serves(ms[0], domain) {
        if i > 0 {
            law_domains_are_served_by_their_share(ms.drop_first(), domain, i - 1);
            assert(ms.drop_first()[i - 1] == ms[i]);
        } else if ms.len() > 1 {
            law_domains_are_served_by_their_share(ms.drop_first(), domain, 0);
        } else {
            assert(mount_pos(ms.drop_first(), domain) == 0);
        }
    }
}

/// The budget of a cache is that of the first enabled mount that syncs the share of its name.
pub proof fn law_budgets_come_from_synced_mounts(ms: Seq<MountConfig>, domain: Seq<char>, i: int)
    requires
        0 <= i < ms.len(),
    ensures
        0 <= cache_pos(ms, domain) <= ms.len(),
        cache_pos(ms, domain) == i ==> ms[i].enabled && ms[i].sync_enabled && share(ms[i])
            == domain,
        ms[i].enabled && ms[i].sync_enabled && share(ms[i]) == domain ==> cache_pos(ms, domain)
            <= i,
    decreases ms.len(),
{
    if !(serves(ms[0], domain) && ms[0].sync_enabled) {
        if i > 0 {
            law_budgets_come_from_synced_mounts(ms.drop_first(), domain, i - 1);
            assert(ms.drop_first()[i - 1] == ms[i]);
        } else if ms.len() > 1 {
            law_budgets_come_from_synced_mounts(ms.drop_first(), domain, 0);
        } else {
            assert(cache_pos(ms.drop_first(), domain) == 0);
        }
    }
}

/// A cache is opened for every enabled mount that is synced, under the name of its share and with
/// its own budget, and for no other.
pub proof fn law_caches_belong_to_synced_mounts(ms: Seq<MountConfig>, d: Seq<char>, limit: u64)
    ensures
        cached_domains(ms).contains((d, limit)) <==> exists|i: int|
            0 <= i < ms.len() && (#[trigger] ms[i]).enabled && ms[i].sync_enabled && share(ms[i])
                == d && ms[i].sync_cache_limit_bytes == limit,
    decreases ms.len(),
{
    if ms.len() > 0 {
        let less = ms.drop_last();
        let front = cached_domains(less);
        let all = cached_domains(ms);
        law_caches_belong_to_synced_mounts(less, d, limit);
        if front.contains((d, limit)) {
            let k = choose|k: int| 0 <= k < front.len() && front[k] == (d, limit);
            assert(all[k] == (d, limit));
            let i = choose|i: int|
                0 <= i < less.len() && (#[trigger] less[i]).enabled && less[i].sync_enabled
                    && share(less[i]) == d && less[i].sync_cache_limit_bytes == limit;
            assert(ms[i] == less[i]);
        }
        assert(ms[ms.len() - 1] == ms.last());
        if all.contains((d, limit)) && !front.contains((d, limit)) {
            let k = choose|k: int| 0 <= k < all.len() && all[k] == (d, limit);
            if k < front.len() {
                assert(front[k] == (d, limit));
            }
        }
        if exists|i: int|
            0 <= i < ms.len() && (#[trigger] ms[i]).enabled && ms[i].sync_enabled && share(ms[i])
                == d && ms[i].sync_cache_limit_bytes == limit {
            let i = choose|i: int|
                0 <= i < ms.len() && (#[trigger] ms[i]).enabled && ms[i].sync_enabled && share(
                    ms[i],
                ) == d && ms[i].sync_cache_limit_bytes == limit;
            if i < less.len() {
                assert(less[i] == ms[i]);
            } else {
                assert(all[front.len() as int] == (d, limit));
            }
        }
    }
}

/// A share is found where the system mounts volumes, under its own name.
pub proof fn law_volumes_have_their_name(domain: Seq<char>)
    requires
        domain.len() == 0 || domain[0] != '/',
    ensures
        volume_of(domain) == "/Volumes/"@ + domain,
{
    reveal_strlit("/Volumes");
    reveal_strlit("/Volumes/");
    assert("/Volumes"@.last() == 's');
    assert("/Volumes"@.push('/') =~= "/Volumes/"@);
}

/// What is not there yet is written below the volume of its own domain, at the path that was asked
/// for; a domain without a mount is told by its name.
pub proof fn law_new_files_stay_in_their_domain(
    mounts: Seq<MountConfig>,
    domain: Seq<char>,
    rel: Seq<char>,
)
    requires
        domain.len() > 0,
        domain[0] != '/',
        crate::paths::joins_below(Platform::Macos, rel),
        crate::paths::trimmed_path(Platform::Macos, rel) == rel,
    ensures
        write_path(mounts, domain, rel, None) matches Ok(p) ==> below(
            Platform::Macos,
            "/Volumes/"@ + domain,
            p,
        ) == Some(rel),
        write_path(mounts, domain, rel, None) is Ok <==> exists|i: int|
            0 <= i < mounts.len() && (#[trigger] mounts[i]).enabled && share(mounts[i]) == domain,
{
    law_volumes_have_their_name(domain);
    crate::paths::law_joined_path_lies_below(Platform::Macos, volume_of(domain), rel);
    if mount_pos(mounts, domain) < mounts.len() {
        lemma_served(mounts, domain);
        assert(mounts[mount_pos(mounts, domain)].enabled);
    }
    if exists|i: int|
        0 <= i < mounts.len() && (#[trigger] mounts[i]).enabled && share(mounts[i]) == domain {
        let i = choose|i: int|
            0 <= i < mounts.len() && (#[trigger] mounts[i]).enabled && share(mounts[i]) == domain;
        law_domains_are_served_by_their_share(mounts, domain, i);
    }
}

/// A path that leads out of the share is refused, with the path that was asked for.
pub proof fn law_paths_outside_are_refused(
    base: Seq<char>,
    canonical: Seq<char>,
    relative_path: Seq<char>,
)
    ensures
        inside(base, canonical, relative_path) is Ok <==> below(Platform::Macos, base, canonical)
            is Some,
        inside(base, canonical, relative_path) matches Ok(p) ==> p == canonical,
        inside(base, canonical, relative_path) matches Err(e) ==> relative_path.is_suffix_of(e),
        inside(base, base, relative_path) == Ok::<Seq<char>, Seq<char>>(base),
{
    crate::paths::law_path_lies_below_itself(Platform::Macos, base);
    if let Err(e) = inside(base, canonical, relative_path) {
        assert(e.subrange(e.len() - relative_path.len(), e.len() as int) =~= relative_path);
    }
}

/// Failures of different operations are told differently.
pub proof fn law_failures_are_told_apart(a: FailedOp, b: FailedOp)
    requires
        failure_prefix(a) == failure_prefix(b),
    ensures
        a == b,
        failure_prefix(a).len() > 0,
{
    reveal_strlit("Failed to read directory: ");
    reveal_strlit("Stat failed: ");
    reveal_strlit("File not found: ");
    reveal_strlit("Failed to copy file: ");
    reveal_strlit("Failed to create directory: ");
    reveal_strlit("Failed to write file: ");
    reveal_strlit("Item not found: ");
    reveal_strlit("Failed to delete: ");
    reveal_strlit("Rename failed: ");
    assert("Failed to read directory: "@.len() == 26);
    assert("Stat failed: "@.len() == 13);
    assert("File not found: "@.len() == 16 && "File not found: "@[0] == 'F');
    assert("Failed to copy file: "@.len() == 21);
    assert("Failed to create directory: "@.len() == 28);
    assert("Failed to write file: "@.len() == 22);
    assert("Item not found: "@.len() == 16 && "Item not found: "@[0] == 'I');
    assert("Failed to delete: "@.len() == 18);
    assert("Rename failed: "@.len() == 15);
}

/// Once the server's version of a file was seen, its size is the known one and the time of the
/// comparison is noted; what is held of the file, and everything else about it, is unchanged.
pub proof fn law_seen_version_is_known(r: Row, size: u64, mtime: i64, now: i64)
    ensures
        ({
            let s = seen_row(r, size, mtime, now);
            &&& s.nas_size == size
            &&& s.nas_mtime == mtime || (s.nas_mtime == r.nas_mtime && r.nas_size == size)
            &&& size != r.nas_size ==> s.nas_mtime == mtime
            &&& s.last_verified_at == now
            &&& s.name == r.name && s.is_dir == r.is_dir && s.parent == r.parent
            &&& s.is_hydrated == r.is_hydrated && s.hydrated_size == r.hydrated_size
            &&& s.nas_created == r.nas_created && s.last_accessed == r.last_accessed
            &&& !drifts(s, size, mtime)
        }),
{
}

/// A write met another one exactly where all values are known, the target is three seconds or more
/// younger than it was, and its size is not the written one.
pub proof fn law_other_writers_are_noticed(
    size: u64,
    pre: i64,
    post_size: u64,
    post: i64,
    written: u64,
)
    ensures
        met_another(Some((size, pre)), Some((post_size, Some(post))), Some(written)) <==> post - pre
            >= 3_000_000_000 && post_size != written,
        !met_another(None, Some((post_size, Some(post))), Some(written)),
        !met_another(Some((size, pre)), None, Some(written)),
        !met_another(Some((size, pre)), Some((post_size, None)), Some(written)),
        !met_another(Some((size, pre)), Some((post_size, Some(post))), None),
{
}

/// A file that was written is known by its name and its folder, with the size and the time that it
/// was written with, and nothing of it is held.
pub proof fn law_written_files_are_known(
    path: Seq<char>,
    is_dir: bool,
    size: u64,
    modified: i64,
)
    ensures
        ({
            let r = written_row(path, is_dir, size, modified);
            &&& r.name == last_part(Platform::Macos, path)
            &&& r.parent == parent_path(path)
            &&& r.is_dir == is_dir
            &&& r.nas_size == size
            &&& r.nas_mtime == modified
            &&& r.nas_created == modified
            &&& !r.is_hydrated
            &&& r.hydrated_size == 0
        }),
{
}

/// A share without a cache is reported with every visible entry of its root, each as it is.
pub proof fn law_uncached_shares_are_reported_whole(
    entries: Vec<DirEntry>,
    out: Vec<ChangedEntry>,
    i: int,
)
    requires
        call_ensures(passthrough_changes, (&entries,), out),
        0 <= i < entries@.len(),
        entries@[i].name@.len() > 0 ==> entries@[i].name@[0] != '.' && entries@[i].name@[0] != '@'
            && entries@[i].name@[0] != '#',
    ensures
        exists|k: int|
            0 <= k < out@.len() && (#[trigger] out@[k]).relative_path@ == entries@[i].name@
                && out@[k].name@ == entries@[i].name@ && out@[k].is_dir == entries@[i].is_dir
                && out@[k].size == entries@[i].size && out@[k].modified == entries@[i].modified
                && out@[k].created == entries@[i].created,
{
    crate::nfs::law_visible_entries_are_shown(entries@, entries@[i]);
    assert(entries@.contains(entries@[i]));
    let shown = shown_entries(entries@);
    let k = choose|k: int| 0 <= k < shown.len() && shown[k] == entries@[i];
    assert(is_change_of(out@[k], shown[k]));
}

/// A conflict is told with the paths, the machine and the time that it was noticed with.
pub proof fn law_conflicts_are_told_as_they_are(
    domain: &str,
    original: &str,
    conflict: &str,
    host: &str,
    now: u64,
    msg: AgentToUfb,
)
    requires
        call_ensures(conflict_event, (domain, original, conflict, host, now), msg),
    ensures
        msg matches AgentToUfb::ConflictDetected(m) && m.domain@ == domain@ && m.original_path@
            == original@ && m.conflict_path@ == last_part(Platform::Macos, conflict@) && m.host@
            == host@ && m.detected_at == now,
{
}

/// A version of the server that differs from the known one replaces it and, where so told, has what
/// is held of the file dropped; one that agrees is noted, and a file that is not known stays so.
pub proof fn law_seen_versions_are_noted(
    c: &mut MacosCache,
    path: &str,
    size: u64,
    mtime: i64,
    now: i64,
    drop_held: bool,
    r: Option<bool>,
)
    requires
        old(c).wf(),
        call_ensures(note_stat, (c, path, size, mtime, now, drop_held), r),
    ensures
        ({
            let m = old(c).files();
            let known = m.contains_key(path@);
            &&& r is Some <==> known
            &&& !known ==> final(c).files() == m && final(c).pending() == old(c).pending()
            &&& known ==> final(c).files()[path@].nas_size == size
                && final(c).files()[path@].last_verified_at == now
            &&& known && m[path@].nas_size != size ==> r == Some(true)
            &&& r == Some(true) && drop_held && m[path@].is_hydrated ==> final(c).pending() == old(
                c,
            ).pending().push(path@)
            &&& !(r == Some(true) && drop_held && m[path@].is_hydrated) ==> final(c).pending()
                == old(c).pending()
        }),
{
}

/// A renamed file is known under its new name alone, with the values it was renamed with.
pub proof fn law_renamed_files_are_known_anew(
    c: &mut MacosCache,
    from: &str,
    to: &str,
    is_dir: bool,
    size: u64,
    modified: i64,
)
    requires
        old(c).wf(),
        from@ != to@,
        call_ensures(record_renamed, (c, from, to, is_dir, size, modified), ()),
    ensures
        !final(c).files().contains_key(from@),
        final(c).files().contains_key(to@),
        final(c).files()[to@].is_dir == is_dir,
        final(c).files()[to@].nas_size == size,
        final(c).files()[to@].nas_mtime == modified,
        !final(c).files()[to@].is_hydrated,
        forall|p: Seq<char>|
            p != from@ && p != to@ ==> #[trigger] final(c).files().contains_key(p) == old(
                c,
            ).files().contains_key(p),
{
}

/// A request goes to the volume of its domain where an enabled mount serves that, and is refused
/// with the name of the domain otherwise.
pub proof fn law_unserved_domains_are_refused(
    config: MountsConfig,
    domain: &str,
    r: Result<String, String>,
)
    requires
        call_ensures(resolve_base, (&config, domain), r),
    ensures
        r is Ok <==> exists|i: int|
            0 <= i < config.mounts@.len() && (#[trigger] config.mounts@[i]).enabled && share(
                config.mounts@[i],
            ) == domain@,
        r matches Ok(p) ==> p@ == joined(Platform::Macos, "/Volumes"@, domain@),
        r matches Err(e) ==> crate::text::occurs(e@, domain@),
{
    let ms = config.mounts@;
    if mount_pos(ms, domain@) < ms.len() {
        lemma_served(ms, domain@);
        assert(ms[mount_pos(ms, domain@)].enabled);
    }
    if exists|i: int| 0 <= i < ms.len() && (#[trigger] ms[i]).enabled && share(ms[i]) == domain@ {
        let i = choose|i: int|
            0 <= i < ms.len() && (#[trigger] ms[i]).enabled && share(ms[i]) == domain@;
        law_domains_are_served_by_their_share(ms, domain@, i);
    }
    if let Err(e) = r {
        let n = "No enabled mount found for domain '"@.len() as int;
        assert(e@.subrange(n, n + domain@.len()) =~= domain@);
        assert(crate::text::occurs_at(e@, domain@, n));
    }
}

} // verus!
