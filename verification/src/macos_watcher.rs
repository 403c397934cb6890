//! Following a share on macOS: which events count, which folders they make stale, and when the
//! file provider is told.
use crate::path_map::{keep_later, later_than, PathMap};
use crate::paths::{
    below, file_name, last_part, parent_dir, parent_of_path, strip_prefix, Platform,
};
use crate::text::{
    contains, list_has, occurs, same, starts_with_char, texts,
};
use crate::write_through::sync_mark;
use vstd::prelude::*;

verus! {

/// Milliseconds for which changes of a written file count as echoes.
pub const ECHO_TTL_MS: u64 = 5_000;

/// The file provider is told at most once in this many milliseconds.
pub const NOTIFY_WINDOW_MS: u64 = 500;

/// Milliseconds between two looks at the visited folders.
pub const POLL_INTERVAL_MS: u64 = 30_000;

/// Milliseconds between two looks at whether the agent stops.
pub const POLL_STEP_MS: u64 = 500;

/// Keeps the agent's own writes from being reported as changes: the time until which each path is
/// ignored.
pub struct EchoSuppressor {
    entries: PathMap<u64>,
}

impl View for EchoSuppressor {
    type V = Map<Seq<char>, u64>;

    closed spec fn view(&self) -> Map<Seq<char>, u64> {
        self.entries@
    }
}

/// Whether a path is ignored at `now`.
pub open spec fn ignored(m: Map<Seq<char>, u64>, path: Seq<char>, now: u64) -> bool {
    m.contains_key(path) && m[path] > now
}

impl EchoSuppressor {
    pub closed spec fn wf(&self) -> bool {
        self.entries.wf()
    }

    /// Nothing is ignored at first.
    pub fn new() -> (e: EchoSuppressor)
        ensures
            e.wf(),
            e@ == Map::<Seq<char>, u64>::empty(),
    {
        EchoSuppressor { entries: PathMap::new() }
    }

    /// Ignores a path for the next five seconds; times that have passed are dropped.
    pub fn suppress(&mut self, path: &str, now: u64)
        requires
            old(self).wf(),
            now + ECHO_TTL_MS <= u64::MAX,
        ensures
            final(self).wf(),
            final(self)@ == later_than(
                old(self)@.insert(path@, (now + ECHO_TTL_MS) as u64),
                now as int,
            ),
    {
        self.entries.put(path, now + ECHO_TTL_MS);
        keep_later(&mut self.entries, now);
    }

    /// Whether a path is ignored.
    pub fn is_suppressed(&self, path: &str, now: u64) -> (r: bool)
        requires
            self.wf(),
        ensures
            r == ignored(self@, path@, now),
    {
        match self.entries.get(path) {
            Some(expiry) => expiry > now,
            None => false,
        }
    }
}

/// A path is ignored for five seconds after it was written, and paths that were not written keep
/// their state.
pub proof fn law_own_writes_are_ignored(
    m: Map<Seq<char>, u64>,
    path: Seq<char>,
    other: Seq<char>,
    written: u64,
    now: u64,
)
    requires
        written + ECHO_TTL_MS <= u64::MAX,
        written <= now,
    ensures
        ({
            let after = later_than(
                m.insert(path, (written + ECHO_TTL_MS) as u64),
                written as int,
            );
            &&& ignored(after, path, now) <==> now - written < ECHO_TTL_MS
            &&& other != path ==> ignored(after, other, now) == ignored(m, other, now)
        }),
{
}

/// Whether the last part of a path says that a change does not count: folders of the server,
/// settings of the Finder and files of an upload.
pub open spec fn noise_name(name: Seq<char>) -> bool {
    (name.len() > 0 && (name[0] == '@' || name[0] == '#')) || name == ".DS_Store"@ || occurs(
        name,
        sync_mark(),
    )
}

fn is_noise_name(name: &str) -> (r: bool)
    ensures
        r == noise_name(name@),
{
    starts_with_char(name, '@') || starts_with_char(name, '#') || same(name, ".DS_Store")
        || contains(name, ".~sync.")
}

/// The path below the share, or the whole path where it lies outside.
pub open spec fn below_or_whole(root: Seq<char>, path: Seq<char>) -> Seq<char> {
    match below(Platform::Macos, root, path) {
        Some(r) => r,
        None => path,
    }
}

/// Whether a path keeps its event from counting.
pub open spec fn muted(
    root: Seq<char>,
    path: Seq<char>,
    echo: Map<Seq<char>, u64>,
    now: u64,
) -> bool {
    noise_name(last_part(Platform::Macos, path)) || ignored(echo, below_or_whole(root, path), now)
}

/// The directory that holds a path; a path without one holds itself.
pub open spec fn holder(path: Seq<char>) -> Seq<char> {
    match parent_dir(Platform::Macos, path) {
        Some(d) => d,
        None => path,
    }
}

fn holder_of(path: &str) -> (out: String)
    ensures
        out@ == holder(path@),
{
    match parent_of_path(Platform::Macos, path) {
        Some(d) => d,
        None => path.to_owned(),
    }
}

/// A changed path and whether it is a directory.
#[derive(Debug, Clone, PartialEq, Eq)]
pub struct ChangedPath {
    pub path: String,
    pub is_dir: bool,
}

/// The folder below the share that a change makes stale; none for changes outside.
pub open spec fn stale_folder(root: Seq<char>, c: ChangedPath) -> Option<Seq<char>> {
    below(
        Platform::Macos,
        root,
        if c.is_dir {
            c.path@
        } else {
            holder(c.path@)
        },
    )
}

/// Whether one of the paths of an event keeps it from counting.
pub open spec fn muted_event(
    root: Seq<char>,
    paths: Seq<ChangedPath>,
    echo: Map<Seq<char>, u64>,
    now: u64,
) -> bool {
    exists|i: int| 0 <= i < paths.len() && muted(root, (#[trigger] paths[i]).path@, echo, now)
}

/// Whether one of the changes makes a folder stale.
pub open spec fn makes_stale(root: Seq<char>, paths: Seq<ChangedPath>, folder: Seq<char>) -> bool {
    exists|i: int| 0 <= i < paths.len() && stale_folder(root, #[trigger] paths[i]) == Some(folder)
}

/// Follows one share.
pub struct MacosNasWatcher {
    nas_root: String,
    domain: String,
    echo: EchoSuppressor,
    dirty: Vec<String>,
    last_notify: Option<u64>,
}

impl MacosNasWatcher {
    pub closed spec fn wf(&self) -> bool {
        &&& self.echo.wf()
        &&& self.stale().no_duplicates()
    }

    pub closed spec fn root(&self) -> Seq<char> {
        self.nas_root@
    }

    pub closed spec fn domain_name(&self) -> Seq<char> {
        self.domain@
    }

    /// The paths that are ignored.
    pub closed spec fn echoes(&self) -> Map<Seq<char>, u64> {
        self.echo@
    }

    /// The folders that changed.
    pub closed spec fn stale(&self) -> Seq<Seq<char>> {
        texts(self.dirty@)
    }

    /// When the file provider was told last.
    pub closed spec fn told(&self) -> Option<u64> {
        self.last_notify
    }

    /// A watcher that has seen nothing.
    pub fn new(nas_root: String, domain: String) -> (w: MacosNasWatcher)
        ensures
            w.wf(),
            w.root() == nas_root@,
            w.domain_name() == domain@,
            w.echoes() == Map::<Seq<char>, u64>::empty(),
            w.stale() == Seq::<Seq<char>>::empty(),
            w.told() is None,
    {
        let w = MacosNasWatcher {
            nas_root,
            domain,
            echo: EchoSuppressor::new(),
            dirty: Vec::new(),
            last_notify: None,
        };
        assert(w.stale() =~= Seq::<Seq<char>>::empty());
        w
    }

    /// Ignores a path below the share for the next five seconds.
    pub fn suppress(&mut self, path: &str, now: u64)
        requires
            old(self).wf(),
            now + ECHO_TTL_MS <= u64::MAX,
        ensures
            final(self).wf(),
            final(self).root() == old(self).root(),
            final(self).domain_name() == old(self).domain_name(),
            final(self).stale() == old(self).stale(),
            final(self).told() == old(self).told(),
            final(self).echoes() == later_than(
                old(self).echoes().insert(path@, (now + ECHO_TTL_MS) as u64),
                now as int,
            ),
    {
        self.echo.suppress(path, now);
    }

    fn is_muted(&self, path: &str, now: u64) -> (r: bool)
        requires
            self.wf(),
        ensures
            r == muted(self.root(), path@, self.echoes(), now),
    {
        let name = file_name(Platform::Macos, path);
        if is_noise_name(name.as_str()) {
            return true;
        }
        match strip_prefix(Platform::Macos, self.nas_root.as_str(), path) {
            Some(r) => self.echo.is_suppressed(r.as_str(), now),
            None => self.echo.is_suppressed(path, now),
        }
    }

    fn note_stale(&mut self, folder: String)
        requires
            old(self).wf(),
        ensures
            final(self).wf(),
            final(self).root() == old(self).root(),
            final(self).domain_name() == old(self).domain_name(),
            final(self).echoes() == old(self).echoes(),
            final(self).told() == old(self).told(),
            final(self).stale() == if old(self).stale().contains(folder@) {
                old(self).stale()
            } else {
                old(self).stale().push(folder@)
            },
    {
        if !list_has(&self.dirty, folder.as_str()) {
            let ghost before = self.stale();
            self.dirty.push(folder);
            assert(self.stale() =~= before.push(folder@));
        }
    }

    /// Takes note of an event of the system. Returned is whether the file provider is to be told
    /// now.
    pub fn on_event(&mut self, paths: &Vec<ChangedPath>, now: u64) -> (tell: bool)
        requires
            old(self).wf(),
        ensures
            final(self).wf(),
            final(self).root() == old(self).root(),
            final(self).domain_name() == old(self).domain_name(),
            final(self).echoes() == old(self).echoes(),
            final(self).stale().no_duplicates(),
            muted_event(old(self).root(), paths@, old(self).echoes(), now) ==> {
                &&& !tell
                &&& final(self).stale() == old(self).stale()
                &&& final(self).told() == old(self).told()
            },
            !muted_event(old(self).root(), paths@, old(self).echoes(), now) ==> {
                &&& tell == (match old(self).told() {
                    Some(t) => now - t > NOTIFY_WINDOW_MS,
                    None => true,
                })
                &&& final(self).told() == if tell {
                    Some(now)
                } else {
                    old(self).told()
                }
                &&& forall|f: Seq<char>| #[trigger]
                    final(self).stale().contains(f) <==> old(self).stale().contains(f)
                        || makes_stale(old(self).root(), paths@, f)
            },
    {
        let mut i: usize = 0;
        while i < paths.len()
            invariant
                i <= paths@.len(),
                self.wf(),
                *self == *old(self),
                forall|k: int|
                    0 <= k < i ==> !muted(
                        self.root(),
                        (#[trigger] paths@[k]).path@,
                        self.echoes(),
                        now,
                    ),
            decreases paths@.len() - i,
        {
            if self.is_muted(paths[i].path.as_str(), now) {
                assert(muted(self.root(), paths@[i as int].path@, self.echoes(), now));
                return false;
            }
            i += 1;
        }
        let ghost before = self.stale();
        let ghost root = self.root();
        let mut j: usize = 0;
        while j < paths.len()
            invariant
                j <= paths@.len(),
                self.wf(),
                root == self.root(),
                root == old(self).root(),
                before == old(self).stale(),
                self.domain_name() == old(self).domain_name(),
                self.echoes() == old(self).echoes(),
                self.told() == old(self).told(),
                forall|f: Seq<char>| #[trigger]
                    self.stale().contains(f) <==> before.contains(f) || makes_stale(
                        root,
                        paths@.take(j as int),
                        f,
                    ),
            decreases paths@.len() - j,
        {
            let c = &paths[j];
            let ghost now_stale = self.stale();
            let folder = if c.is_dir {
                c.path.clone()
            } else {
                holder_of(c.path.as_str())
            };
            let rel = strip_prefix(Platform::Macos, self.nas_root.as_str(), folder.as_str());
            let ghost this = stale_folder(root, *c);
            match rel {
                Some(r) => {
                    assert(this == Some(r@));
                    self.note_stale(r);
                },
                None => {},
            }
            proof {
                let t0 = paths@.take(j as int);
                let t1 = paths@.take(j + 1);
                assert forall|f: Seq<char>| #[trigger]
                    self.stale().contains(f) <==> before.contains(f) || makes_stale(
                        root,
                        t1,
                        f,
                    ) by {
                    assert(t1[j as int] == *c);
                    assert(makes_stale(root, t1, f) <==> makes_stale(root, t0, f) || this == Some(
                        f,
                    )) by {
                        if makes_stale(root, t1, f) {
                            let k = choose|k: int|
                                0 <= k < t1.len() && stale_folder(root, #[trigger] t1[k]) == Some(
                                    f,
                                );
                            if k < j {
                                assert(t0[k] == t1[k]);
                            }
                        }
                        if makes_stale(root, t0, f) {
                            let k = choose|k: int|
                                0 <= k < t0.len() && stale_folder(root, #[trigger] t0[k]) == Some(
                                    f,
                                );
                            assert(t1[k] == t0[k]);
                        }
                    }
                    assert(now_stale.contains(f) <==> before.contains(f) || makes_stale(
                        root,
                        t0,
                        f,
                    ));
                    if this is Some {
                        lemma_push_contains(now_stale, this->0, f);
                    }
                }
            }
            j += 1;
        }
        assert(paths@.take(paths@.len() as int) =~= paths@);
        let ghost after = self.stale();
        let tell = match self.last_notify {
            Some(t) => now > t && now - t > NOTIFY_WINDOW_MS,
            None => true,
        };
        if tell {
            self.last_notify = Some(now);
        }
        assert(self.stale() == after);
        assert(!muted_event(root, paths@, old(self).echoes(), now));
        tell
    }

    /// Hands out the folders that changed and forgets them.
    pub fn take_dirty_folders(&mut self) -> (out: Vec<String>)
        requires
            old(self).wf(),
        ensures
            final(self).wf(),
            final(self).root() == old(self).root(),
            final(self).domain_name() == old(self).domain_name(),
            final(self).echoes() == old(self).echoes(),
            final(self).told() == old(self).told(),
            texts(out@) == old(self).stale(),
            texts(out@).no_duplicates(),
            final(self).stale() == Seq::<Seq<char>>::empty(),
    {
        let mut out: Vec<String> = Vec::new();
        std::mem::swap(&mut out, &mut self.dirty);
        assert(self.stale() =~= Seq::<Seq<char>>::empty());
        out
    }
}

proof fn lemma_push_contains(v: Seq<Seq<char>>, last: Seq<char>, f: Seq<char>)
    ensures
        v.push(last).contains(f) <==> v.contains(f) || f == last,
{
    let w = v.push(last);
    if v.contains(f) {
        assert(w[v.index_of(f)] == f);
    }
    if f == last {
        assert(w[v.len() as int] == f);
    }
    if w.contains(f) && f != last {
        assert(v[w.index_of(f)] == f);
    }
}

/// What is remembered of a folder: the number of its visible entries and its time.
#[derive(Clone, Copy, Debug, PartialEq, Eq, Structural)]
pub struct FolderSnapshot {
    pub entry_count: usize,
    pub mtime: i64,
}

/// The folders that are looked at regularly.
pub struct FolderPoll {
    state: PathMap<FolderSnapshot>,
}

impl View for FolderPoll {
    type V = Map<Seq<char>, FolderSnapshot>;

    closed spec fn view(&self) -> Map<Seq<char>, FolderSnapshot> {
        self.state@
    }
}

impl FolderPoll {
    pub closed spec fn wf(&self) -> bool {
        self.state.wf()
    }

    /// No folder is known.
    pub fn new() -> (p: FolderPoll)
        ensures
            p.wf(),
            p@ == Map::<Seq<char>, FolderSnapshot>::empty(),
    {
        FolderPoll { state: PathMap::new() }
    }

    /// Takes note of a look at a folder; one that cannot be read leaves everything as it is.
    /// Returned is whether it changed since the last look.
    pub fn on_snapshot(&mut self, folder: &str, seen: Option<FolderSnapshot>) -> (changed: bool)
        requires
            old(self).wf(),
        ensures
            final(self).wf(),
            match seen {
                Some(s) => {
                    &&& final(self)@ == old(self)@.insert(folder@, s)
                    &&& changed == (old(self)@.contains_key(folder@) && old(self)@[folder@] != s)
                },
                None => {
                    &&& final(self)@ == old(self)@
                    &&& !changed
                },
            },
    {
        match seen {
            Some(s) => {
                let changed = match self.state.get(folder) {
                    Some(before) => before.entry_count != s.entry_count || before.mtime != s.mtime,
                    None => false,
                };
                self.state.put(folder, s);
                changed
            },
            None => false,
        }
    }
}

/// Number of visible names.
pub open spec fn visible_count(names: Seq<Seq<char>>) -> nat
    decreases names.len(),
{
    if names.len() == 0 {
        0
    } else {
        visible_count(names.drop_last()) + if crate::macos_cache::hidden_name(names.last()) {
            0nat
        } else {
            1nat
        }
    }
}

/// What is remembered of a folder, from the names of its entries and its time.
pub fn snapshot_folder(names: &Vec<String>, mtime: i64) -> (s: FolderSnapshot)
    ensures
        s.entry_count == visible_count(texts(names@)),
        s.mtime == mtime,
{
    let ghost ns = texts(names@);
    let mut n: usize = 0;
    let mut i: usize = 0;
    assert(ns.take(0) =~= Seq::empty());
    while i < names.len()
        invariant
            i <= names@.len(),
            ns == texts(names@),
            n <= i,
            n == visible_count(ns.take(i as int)),
        decreases names@.len() - i,
    {
        assert(ns.take(i + 1).drop_last() =~= ns.take(i as int));
        assert(ns.take(i + 1).last() == names@[i as int]@);
        if !crate::macos_cache::is_hidden_name(names[i].as_str()) {
            n += 1;
        }
        i += 1;
    }
    assert(ns.take(ns.len() as int) =~= ns);
    FolderSnapshot { entry_count: n, mtime }
}

/// The name of the notification that tells the file provider of changes.
pub fn changed_notification(domain: &str) -> (out: String)
    ensures
        out@ == "com.unionfiles.ufb.nas-changed."@ + domain@,
{
    crate::text::join2("com.unionfiles.ufb.nas-changed.", domain)
}

/// The name of the notification that tells the file provider to drop what it holds.
pub fn clear_cache_notification(domain: &str) -> (out: String)
    ensures
        out@ == "com.unionfiles.ufb.clear-cache."@ + domain@,
{
    crate::text::join2("com.unionfiles.ufb.clear-cache.", domain)
}

/// A change does not count by its name where it belongs to the server, to the Finder or to an
/// upload, and counts otherwise.
pub proof fn law_noise_is_told_by_the_name(name: Seq<char>)
    ensures
        name.len() > 0 && (name[0] == '@' || name[0] == '#') ==> noise_name(name),
        noise_name(".DS_Store"@),
        occurs(name, ".~sync."@) ==> noise_name(name),
        noise_name(name) && name != ".DS_Store"@ && !occurs(name, ".~sync."@) ==> name.len() > 0 && (
        name[0] == '@' || name[0] == '#'),
{
}

/// One path that does not count mutes its whole event, and an event without such a path counts.
pub proof fn law_one_muted_path_mutes_the_event(
    root: Seq<char>,
    paths: Seq<ChangedPath>,
    c: ChangedPath,
    echo: Map<Seq<char>, u64>,
    now: u64,
)
    ensures
        muted_event(root, paths.push(c), echo, now) <==> muted_event(root, paths, echo, now)
            || muted(root, c.path@, echo, now),
        !muted_event(root, Seq::empty(), echo, now),
{
    let more = paths.push(c);
    assert(more[paths.len() as int] == c);
    if muted_event(root, paths, echo, now) {
        let i = choose|i: int|
            0 <= i < paths.len() && muted(root, (#[trigger] paths[i]).path@, echo, now);
        assert(more[i] == paths[i]);
    }
    if muted_event(root, more, echo, now) {
        let i = choose|i: int|
            0 <= i < more.len() && muted(root, (#[trigger] more[i]).path@, echo, now);
        if i < paths.len() {
            assert(paths[i] == more[i]);
        }
    }
}

/// A changed directory makes itself stale, and a changed file the folder that holds it; the path
/// of a write that is ignored is that below the share.
pub proof fn law_changes_make_their_folder_stale(root: Seq<char>, rel: Seq<char>, c: ChangedPath)
    requires
        root.len() > 0,
        crate::paths::joins_below(Platform::Macos, rel),
        crate::paths::trimmed_path(Platform::Macos, rel) == rel,
    ensures
        c.is_dir && c.path@ == crate::paths::joined(Platform::Macos, root, rel) ==> stale_folder(
            root,
            c,
        ) == Some(rel),
        !c.is_dir && parent_dir(Platform::Macos, c.path@) == Some(
            crate::paths::joined(Platform::Macos, root, rel),
        ) ==> stale_folder(root, c) == Some(rel),
        !c.is_dir && parent_dir(Platform::Macos, c.path@) == Some(root) ==> stale_folder(root, c)
            == Some(Seq::<char>::empty()),
        below_or_whole(root, crate::paths::joined(Platform::Macos, root, rel)) == rel,
{
    crate::paths::law_joined_path_lies_below(Platform::Macos, root, rel);
    crate::paths::law_path_lies_below_itself(Platform::Macos, root);
}

/// Names count as visible where they start with neither a dot nor `@` or `#`.
pub proof fn law_visible_names_are_counted(names: Seq<Seq<char>>, name: Seq<char>)
    ensures
        name.len() == 0 || (name[0] != '.' && name[0] != '@' && name[0] != '#') ==> visible_count(
            names.push(name),
        ) == visible_count(names) + 1,
        name.len() > 0 && (name[0] == '.' || name[0] == '@' || name[0] == '#') ==> visible_count(
            names.push(name),
        ) == visible_count(names),
        visible_count(Seq::empty()) == 0,
{
    assert(names.push(name).drop_last() =~= names);
}

/// The file provider hears of a domain by the name of the notification, which says what to do.
pub proof fn law_notifications_name_their_domain(
    domain: &str,
    changed: String,
    clear: String,
)
    requires
        call_ensures(changed_notification, (domain,), changed),
        call_ensures(clear_cache_notification, (domain,), clear),
    ensures
        domain@.is_suffix_of(changed@),
        domain@.is_suffix_of(clear@),
        changed@ != clear@,
{
    reveal_strlit("com.unionfiles.ufb.nas-changed.");
    reveal_strlit("com.unionfiles.ufb.clear-cache.");
    let a = changed@;
    let b = clear@;
    assert(a.subrange(a.len() - domain@.len(), a.len() as int) =~= domain@);
    assert(b.subrange(b.len() - domain@.len(), b.len() as int) =~= domain@);
    assert(a[19] == 'n');
    assert(b[19] == 'c');
}

/// The file provider is told of an event that counts, but not again within half a second; the
/// folders that changed are remembered in either case.
pub proof fn law_file_provider_is_told_in_time(
    w: &mut MacosNasWatcher,
    paths: Vec<ChangedPath>,
    now: u64,
    tell: bool,
    i: int,
    folder: Seq<char>,
)
    requires
        old(w).wf(),
        0 <= i < paths@.len(),
        stale_folder(old(w).root(), paths@[i]) == Some(folder),
        call_ensures(MacosNasWatcher::on_event, (w, &paths, now), tell),
    ensures
        muted_event(old(w).root(), paths@, old(w).echoes(), now) ==> !tell && final(w).stale()
            == old(w).stale(),
        !muted_event(old(w).root(), paths@, old(w).echoes(), now) ==> final(w).stale().contains(
            folder,
        ) && (tell <==> (match old(w).told() {
            Some(t) => now - t > 500,
            None => true,
        })),
        tell ==> final(w).told() == Some(now),
        !tell ==> final(w).told() == old(w).told(),
{
    assert(makes_stale(old(w).root(), paths@, folder));
}

/// Folders that changed are handed out once.
pub proof fn law_changed_folders_are_handed_out_once(
    w: &mut MacosNasWatcher,
    out: Vec<String>,
)
    requires
        old(w).wf(),
        call_ensures(MacosNasWatcher::take_dirty_folders, (w,), out),
    ensures
        texts(out@) == old(w).stale(),
        final(w).stale().len() == 0,
        final(w).told() == old(w).told(),
{
}

/// A folder counts as changed where its number of entries or its time is another one than at the
/// last look; the first look, and one that fails, tell nothing.
pub proof fn law_folders_change_by_count_or_time(
    p: &mut FolderPoll,
    folder: &str,
    seen: Option<FolderSnapshot>,
    changed: bool,
)
    requires
        old(p).wf(),
        call_ensures(FolderPoll::on_snapshot, (p, folder, seen), changed),
    ensures
        seen is None ==> !changed && final(p)@ == old(p)@,
        !old(p)@.contains_key(folder@) ==> !changed,
        seen matches Some(s) ==> final(p)@.contains_key(folder@) && final(p)@[folder@] == s,
        seen matches Some(s) ==> old(p)@.contains_key(folder@) ==> (changed <==> old(p)@[folder@].entry_count
            != s.entry_count || old(p)@[folder@].mtime != s.mtime),
{
}

/// A changed file makes the directory stale that it lies in.
pub proof fn law_changed_files_make_their_directory_stale(dir: Seq<char>, c: ChangedPath, name: Seq<char>)
    requires
        !c.is_dir,
        c.path@ == crate::paths::joined(Platform::Macos, dir, name),
        crate::paths::joins_below(Platform::Macos, name),
        crate::paths::front_len(Platform::Macos, dir) < dir.len(),
        crate::paths::names_end(Platform::Macos, dir) == dir.len(),
        forall|i: int| 0 <= i < name.len() ==> #[trigger] name[i] != '/',
        name != seq!['.'],
        name != seq!['.', '.'],
    ensures
        holder(c.path@) == dir,
        stale_folder(dir, c) == Some(Seq::<char>::empty()),
{
    assert forall|i: int| 0 <= i < name.len() implies !crate::paths::sep_of(
        Platform::Macos,
        #[trigger] name[i],
    ) by {
        assert(name[i] != '/');
    }
    crate::paths::law_parent_of_joined(Platform::Macos, dir, name);
    crate::paths::law_path_lies_below_itself(Platform::Macos, dir);
}

/// A path is muted for its name or as an echo of an own write, and for nothing else.
pub proof fn law_name_or_echo_mutes(
    root: Seq<char>,
    path: Seq<char>,
    rel: Seq<char>,
    echo: Map<Seq<char>, u64>,
    now: u64,
)
    requires
        below(Platform::Macos, root, path) == Some(rel),
    ensures
        noise_name(last_part(Platform::Macos, path)) ==> muted(root, path, echo, now),
        ignored(echo, rel, now) ==> muted(root, path, echo, now),
        !noise_name(last_part(Platform::Macos, path)) && !echo.contains_key(rel) ==> !muted(
            root,
            path,
            echo,
            now,
        ),
{
}

} // verus!
