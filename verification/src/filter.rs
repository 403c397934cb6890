//! What the agent answers when the system asks it for the contents of the sync root.
use crate::cache_index::{differs, verified, with_version, CacheIndex};
use crate::file_table::Row;
use crate::folder_table::{with_folder, Folder};
use crate::macos_cache::StatResult;
use crate::path_map::PathMap;
use crate::paths::{below, join, joined, strip_prefix, Platform};
use crate::placeholders::{NasStat, NasWatcher};
use crate::text::{starts_with_char, texts};
use crate::write_through::EchoSuppressor;
use vstd::prelude::*;
use vstd::utf8::{
    decode_utf8, encode_utf8, encode_utf8_decode_utf8, encode_utf8_first_scalar,
    encode_utf8_valid_utf8, valid_utf8,
};

verus! {

/// Bytes that are fetched at a time.
pub const FETCH_CHUNK: u64 = 4_194_304;

/// Ranges larger than this report their progress.
pub const PROGRESS_THRESHOLD: u64 = 1_048_576;

/// Seconds for which an opened file is retried; the system waits a minute.
pub const RETRY_WINDOW_SECS: u64 = 50;

/// Seconds between two tries.
pub const RETRY_DELAY_SECS: u64 = 3;

/// Seconds for which a file that was compared with the server counts as fresh.
pub const STAT_VERIFY_TTL_SECS: i64 = 30;

/// The text that bytes stand for, as `String::from_utf8_lossy` gives it.
pub uninterp spec fn utf8_text(bytes: Seq<u8>) -> Seq<char>;

/// Decodes UTF-8 with `String::from_utf8_lossy`, which replaces what is not valid. The contract
/// claims that bytes which are valid are decoded, and otherwise only that the text depends on the
/// bytes alone.
#[verifier::external_body]
fn from_utf8(bytes: &Vec<u8>) -> (s: String)
    ensures
        s@ == utf8_text(bytes@),
        valid_utf8(bytes@) ==> s@ == decode_utf8(bytes@),
{
    String::from_utf8_lossy(bytes.as_slice()).into_owned()
}

/// Names of the server's own folders, which are never shown.
pub open spec fn filtered_name(name: Seq<char>) -> bool {
    name.len() > 0 && (name[0] == '#' || name[0] == '@')
}

/// What becomes of an entry when a folder of the server is listed.
#[derive(Clone, Copy, Debug, PartialEq, Eq, Structural)]
pub enum ListStep {
    /// It belongs to the server itself.
    Filtered,
    /// The server no longer has it.
    Unreadable,
    /// Its placeholder is there but out of date: make it anew.
    Refresh,
    /// Its placeholder is there and fits: note that.
    Verified,
    PushDir,
    /// Record it and hand out a placeholder.
    PushFile { size: u64, mtime: i64 },
}

/// What becomes of an entry when a folder of the server is listed.
pub open spec fn list_action(
    name: Seq<char>,
    stat: Option<NasStat>,
    occupied: bool,
    drift: Option<bool>,
) -> ListStep {
    if filtered_name(name) {
        ListStep::Filtered
    } else {
        match stat {
            None => ListStep::Unreadable,
            Some(m) => if m.is_dir {
                ListStep::PushDir
            } else if occupied && drift == Some(true) {
                ListStep::Refresh
            } else if occupied && drift == Some(false) {
                ListStep::Verified
            } else {
                ListStep::PushFile { size: m.size, mtime: m.mtime }
            },
        }
    }
}

/// An entry of a folder of the server that is listed.
#[derive(Clone, Debug, PartialEq, Eq)]
pub struct ListedEntry {
    pub name: String,
    /// What the server says of it; nothing where it cannot be read.
    pub stat: Option<NasStat>,
    /// Whether something is at its place in the sync root.
    pub occupied: bool,
}

/// A placeholder that is handed to the system.
#[derive(Clone, Debug, PartialEq, Eq)]
pub struct NewPlaceholder {
    pub name: String,
    pub is_dir: bool,
    pub size: u64,
    /// The entry of the server that it stands for.
    pub source: String,
}

/// What a `NewPlaceholder` says.
pub struct PlaceholderView {
    pub name: Seq<char>,
    pub is_dir: bool,
    pub size: u64,
    pub source: Seq<char>,
}

impl View for NewPlaceholder {
    type V = PlaceholderView;

    open spec fn view(&self) -> PlaceholderView {
        PlaceholderView {
            name: self.name@,
            is_dir: self.is_dir,
            size: self.size,
            source: self.source@,
        }
    }
}

pub open spec fn placeholder_views(v: Seq<NewPlaceholder>) -> Seq<PlaceholderView> {
    v.map_values(|p: NewPlaceholder| p@)
}

/// What is done about a listed folder.
#[derive(Clone, Debug, PartialEq, Eq)]
pub struct FetchPlan {
    /// The placeholders that the system gets.
    pub placeholders: Vec<NewPlaceholder>,
    /// The names of those that are there and have to be made anew.
    pub refresh: Vec<String>,
}

/// What a listing leads to.
pub struct Listing {
    pub files: Map<Seq<char>, Row>,
    pub push: Seq<PlaceholderView>,
    pub refresh: Seq<Seq<char>>,
}

/// Whether the server has another version of a listed file than is known.
pub open spec fn entry_drift(
    m: Map<Seq<char>, Row>,
    path: Seq<char>,
    stat: Option<NasStat>,
) -> Option<bool> {
    match stat {
        Some(f) => differs(m, path, f.size, f.mtime),
        None => None,
    }
}

/// The listing `a` after one more entry.
pub open spec fn listed_one(
    a: Listing,
    client_dir: Seq<char>,
    nas_dir: Seq<char>,
    e: ListedEntry,
    now: i64,
) -> Listing {
    let path = joined(Platform::Windows, client_dir, e.name@);
    let source = joined(Platform::Windows, nas_dir, e.name@);
    match list_action(e.name@, e.stat, e.occupied, entry_drift(a.files, path, e.stat)) {
        ListStep::Filtered => a,
        ListStep::Unreadable => a,
        ListStep::Refresh => Listing { refresh: a.refresh.push(e.name@), ..a },
        ListStep::Verified => Listing { files: verified(a.files, path, now), ..a },
        ListStep::PushDir => Listing {
            push: a.push.push(PlaceholderView { name: e.name@, is_dir: true, size: 0, source }),
            ..a
        },
        ListStep::PushFile { size, mtime } => Listing {
            files: with_version(a.files, path, size, mtime),
            push: a.push.push(PlaceholderView { name: e.name@, is_dir: false, size, source }),
            ..a
        },
    }
}

/// What the entries of a folder lead to, one after the other.
pub open spec fn listed(
    m: Map<Seq<char>, Row>,
    client_dir: Seq<char>,
    nas_dir: Seq<char>,
    entries: Seq<ListedEntry>,
    now: i64,
) -> Listing
    decreases entries.len(),
{
    if entries.len() == 0 {
        Listing { files: m, push: Seq::empty(), refresh: Seq::empty() }
    } else {
        listed_one(
            listed(m, client_dir, nas_dir, entries.drop_last(), now),
            client_dir,
            nas_dir,
            entries.last(),
            now,
        )
    }
}

/// What follows when a file was opened and compared with the server.
#[derive(Clone, Copy, Debug, PartialEq, Eq, Structural)]
pub enum OpenCheck {
    Nothing,
    /// The server has another version: make the placeholder anew.
    Refresh,
    /// The server was not reached: report a network error.
    ReportNetwork,
}

/// How an attempt to open a file of the server goes on.
#[derive(Clone, Copy, Debug, PartialEq, Eq, Structural)]
pub enum OpenStep {
    /// Report a network error, wait and try again.
    Retry,
    /// Give up, and report a network error if it was one.
    GiveUp { report: bool },
}

/// What is removed on the server when an entry of the sync root is removed.
#[derive(Clone, Copy, Debug, PartialEq, Eq, Structural)]
pub enum DeleteStep {
    RemoveTree,
    RemoveFile,
    AlreadyGone,
}

/// Answers the requests of the system for one sync root.
pub struct NasSyncFilter {
    nas_root: String,
    client_root: String,
}

impl NasSyncFilter {
    pub closed spec fn nas(&self) -> Seq<char> {
        self.nas_root@
    }

    pub closed spec fn client(&self) -> Seq<char> {
        self.client_root@
    }

    /// The path of a request below the sync root; empty for what lies outside.
    pub open spec fn relative(&self, request: Seq<char>) -> Seq<char> {
        match below(Platform::Windows, self.client(), request) {
            Some(r) => r,
            None => Seq::empty(),
        }
    }

    /// The place of a request on the server.
    pub open spec fn target(&self, request: Seq<char>) -> Seq<char> {
        joined(Platform::Windows, self.nas(), self.relative(request))
    }

    /// A filter between a share and its sync root.
    pub fn new(nas_root: String, client_root: String) -> (f: NasSyncFilter)
        ensures
            f.nas() == nas_root@,
            f.client() == client_root@,
    {
        NasSyncFilter { nas_root, client_root }
    }

    /// The path of a request below the sync root; empty for what lies outside.
    pub fn relative_path(&self, request_path: &str) -> (out: String)
        ensures
            out@ == self.relative(request_path@),
    {
        match strip_prefix(Platform::Windows, self.client_root.as_str(), request_path) {
            Some(r) => r,
            None => {
                let out = String::new();
                assert(out@ =~= Seq::<char>::empty());
                out
            },
        }
    }

    /// The place on the server of a path below the sync root.
    pub fn nas_path(&self, relative: &str) -> (out: String)
        ensures
            out@ == joined(Platform::Windows, self.nas(), relative@),
    {
        join(Platform::Windows, self.nas_root.as_str(), relative)
    }

    /// The place of a request on the server.
    pub fn target_path(&self, request_path: &str) -> (out: String)
        ensures
            out@ == self.target(request_path@),
    {
        let relative = self.relative_path(request_path);
        self.nas_path(relative.as_str())
    }

    /// Whether a name belongs to the server itself.
    pub fn is_filtered(name: &str) -> (r: bool)
        ensures
            r == filtered_name(name@),
    {
        starts_with_char(name, '#') || starts_with_char(name, '@')
    }

    /// What becomes of an entry when a folder of the server is listed. `drift` is the comparison
    /// with what was recorded of the file: different, equal, or nothing recorded.
    pub fn list_step(
        name: &str,
        stat: Option<NasStat>,
        occupied: bool,
        drift: Option<bool>,
    ) -> (s: ListStep)
        ensures
            s == list_action(name@, stat, occupied, drift),
    {
        if NasSyncFilter::is_filtered(name) {
            return ListStep::Filtered;
        }
        match stat {
            None => ListStep::Unreadable,
            Some(m) => {
                if m.is_dir {
                    return ListStep::PushDir;
                }
                if occupied {
                    match drift {
                        Some(true) => {
                            return ListStep::Refresh;
                        },
                        Some(false) => {
                            return ListStep::Verified;
                        },
                        None => {},
                    }
                }
                ListStep::PushFile { size: m.size, mtime: m.mtime }
            },
        }
    }

    /// Lists a folder of the server for the system: the folder counts as visited and is followed,
    /// new entries get placeholders, those that are there and out of date are named, and the
    /// others are noted as checked.
    pub fn fetch_placeholders(
        &self,
        cache: &mut CacheIndex,
        watcher: &mut NasWatcher,
        request_path: &str,
        folder_mtime: i64,
        entries: &Vec<ListedEntry>,
        now: i64,
    ) -> (plan: FetchPlan)
        requires
            old(cache).wf(),
        ensures
            final(cache).wf(),
            final(cache).connected() == old(cache).connected(),
            final(cache).limit() == old(cache).limit(),
            final(cache).folders() == with_folder(
                old(cache).folders(),
                Folder {
                    path: self.target(request_path@),
                    client: request_path@,
                    mtime: folder_mtime,
                },
            ),
            final(watcher).folders() == with_folder(
                old(watcher).folders(),
                Folder { path: self.target(request_path@), client: request_path@, mtime: 0 },
            ),
            ({
                let l = listed(
                    old(cache).files(),
                    request_path@,
                    self.target(request_path@),
                    entries@,
                    now,
                );
                &&& final(cache).files() == l.files
                &&& placeholder_views(plan.placeholders@) == l.push
                &&& texts(plan.refresh@) == l.refresh
            }),
    {
        let nas_dir = self.target_path(request_path);
        watcher.register(nas_dir.as_str(), request_path);
        cache.record_visited_folder(nas_dir.as_str(), request_path, folder_mtime);
        let ghost m = cache.files();
        let ghost before = *cache;
        let mut placeholders: Vec<NewPlaceholder> = Vec::new();
        let mut refresh: Vec<String> = Vec::new();
        assert(placeholder_views(placeholders@) =~= Seq::empty());
        assert(texts(refresh@) =~= Seq::empty());
        assert(entries@.take(0) =~= Seq::empty());
        let mut i: usize = 0;
        while i < entries.len()
            invariant
                i <= entries@.len(),
                cache.wf(),
                cache.same_but_files(before),
                nas_dir@ == self.target(request_path@),
                ({
                    let l = listed(m, request_path@, nas_dir@, entries@.take(i as int), now);
                    &&& cache.files() == l.files
                    &&& placeholder_views(placeholders@) == l.push
                    &&& texts(refresh@) == l.refresh
                }),
            decreases entries@.len() - i,
        {
            let e = &entries[i];
            let ghost push0 = placeholders@;
            let ghost refresh0 = refresh@;
            let path = join(Platform::Windows, request_path, e.name.as_str());
            let drift = match e.stat {
                Some(f) => cache.compare_nas_metadata(path.as_str(), f.size, f.mtime),
                None => None,
            };
            let step = NasSyncFilter::list_step(e.name.as_str(), e.stat, e.occupied, drift);
            match step {
                ListStep::Filtered => {},
                ListStep::Unreadable => {},
                ListStep::Refresh => {
                    refresh.push(e.name.as_str().to_owned());
                    assert(texts(refresh@) =~= texts(refresh0).push(e.name@));
                },
                ListStep::Verified => {
                    cache.record_verification(path.as_str(), now);
                },
                ListStep::PushDir => {
                    let p = NewPlaceholder {
                        name: e.name.as_str().to_owned(),
                        is_dir: true,
                        size: 0,
                        source: join(Platform::Windows, nas_dir.as_str(), e.name.as_str()),
                    };
                    placeholders.push(p);
                    assert(placeholder_views(placeholders@) =~= placeholder_views(push0).push(p@));
                },
                ListStep::PushFile { size, mtime } => {
                    cache.record_known_file(path.as_str(), size, mtime);
                    let p = NewPlaceholder {
                        name: e.name.as_str().to_owned(),
                        is_dir: false,
                        size,
                        source: join(Platform::Windows, nas_dir.as_str(), e.name.as_str()),
                    };
                    placeholders.push(p);
                    assert(placeholder_views(placeholders@) =~= placeholder_views(push0).push(p@));
                },
            }
            proof {
                let next = entries@.take(i + 1);
                assert(next.drop_last() =~= entries@.take(i as int));
                assert(next.last() == entries@[i as int]);
            }
            i += 1;
        }
        assert(entries@.take(i as int) =~= entries@);
        FetchPlan { placeholders, refresh }
    }

    /// Takes note that a file was opened. Whether it has to be compared with the server: another
    /// opener could be disturbed by that.
    pub fn opened(
        handles: &mut OpenHandles,
        cache: &mut CacheIndex,
        path: &str,
        now: i64,
    ) -> (check: bool)
        requires
            old(handles).wf(),
            open_count(old(handles)@, path@) < u32::MAX,
            old(cache).wf(),
        ensures
            final(handles).wf(),
            final(handles)@ == after_open(old(handles)@, path@),
            final(cache).wf(),
            final(cache).same_but_files(*old(cache)),
            final(cache).files() == if old(cache).files().contains_key(path@) {
                old(cache).files().insert(
                    path@,
                    Row { last_accessed: now, ..old(cache).files()[path@] },
                )
            } else {
                old(cache).files()
            },
            check == (open_count(old(handles)@, path@) == 0),
    {
        let first = handles.opened(path);
        cache.touch(path, now);
        first
    }

    /// What follows from what the server says of a file that was opened. An error is told by
    /// whether it was one of the network.
    pub fn checked_on_open(
        cache: &mut CacheIndex,
        path: &str,
        stat: Result<(u64, i64), bool>,
        now: i64,
    ) -> (r: OpenCheck)
        requires
            old(cache).wf(),
        ensures
            final(cache).wf(),
            final(cache).same_but_files(*old(cache)),
            ({
                let m = old(cache).files();
                let p = path@;
                let known = m.contains_key(p);
                let due = known && now - m[p].last_verified_at >= STAT_VERIFY_TTL_SECS;
                match stat {
                    Ok((size, mtime)) => if !due {
                        r is Nothing && final(cache).files() == m
                    } else if size == m[p].nas_size && mtime == m[p].nas_mtime {
                        r is Nothing && final(cache).files() == verified(m, p, now)
                    } else {
                        r is Refresh && final(cache).files() == m.insert(
                            p,
                            Row {
                                nas_size: size,
                                nas_mtime: mtime,
                                last_verified_at: now,
                                ..m[p]
                            },
                        )
                    },
                    Err(network) => {
                        &&& r == if network && (due || !known) {
                            OpenCheck::ReportNetwork
                        } else {
                            OpenCheck::Nothing
                        }
                        &&& final(cache).files() == m
                    },
                }
            }),
    {
        let (network, said) = match stat {
            Ok(v) => (false, Ok(v)),
            Err(network) => (network, Err(String::new())),
        };
        match cache.stat_and_refresh(path, said, STAT_VERIFY_TTL_SECS, now) {
            StatResult::Drifted { size: _, mtime: _ } => OpenCheck::Refresh,
            StatResult::Error(_) => if network {
                OpenCheck::ReportNetwork
            } else {
                OpenCheck::Nothing
            },
            _ => OpenCheck::Nothing,
        }
    }

    /// What a placeholder keeps of the file of the server that it stands for: its path.
    pub fn blob_of(nas_path: &str) -> (out: Vec<u8>)
        ensures
            out@ == encode_utf8(nas_path@),
    {
        let bytes = nas_path.as_bytes();
        let mut out: Vec<u8> = Vec::new();
        let mut i: usize = 0;
        while i < bytes.len()
            invariant
                i <= bytes@.len(),
                out@ == bytes@.take(i as int),
            decreases bytes@.len() - i,
        {
            out.push(bytes[i]);
            i += 1;
        }
        assert(bytes@.take(bytes@.len() as int) =~= bytes@);
        out
    }

    /// The file of the server that holds the contents of a placeholder: the one that the
    /// placeholder names, or the one at its place. What was kept of a path leads back to it.
    pub fn source_path(&self, blob: &Vec<u8>, request_path: &str) -> (out: String)
        ensures
            out@ == if blob@.len() > 0 {
                utf8_text(blob@)
            } else {
                self.target(request_path@)
            },
            forall|path: Seq<char>|
                path.len() > 0 && blob@ == #[trigger] encode_utf8(path) ==> out@ == path,
    {
        proof {
            assert forall|path: Seq<char>|
                path.len() > 0 && blob@ == #[trigger] encode_utf8(path) implies blob@.len() > 0
                && valid_utf8(blob@) && decode_utf8(blob@) == path by {
                encode_utf8_valid_utf8(path);
                encode_utf8_decode_utf8(path);
                encode_utf8_first_scalar(path);
            }
        }
        if blob.len() > 0 {
            from_utf8(blob)
        } else {
            self.target_path(request_path)
        }
    }

    /// What is removed on the server when an entry of the sync root is removed. The change that
    /// this makes on the server is marked as an echo first.
    pub fn delete(
        &self,
        echo: &mut EchoSuppressor,
        request_path: &str,
        is_dir: bool,
        occupied: bool,
        now: u64,
    ) -> (s: DeleteStep)
        requires
            old(echo).wf(),
        ensures
            final(echo).wf(),
            final(echo)@ == old(echo)@.insert(self.target(request_path@), now),
            s == if is_dir {
                DeleteStep::RemoveTree
            } else if occupied {
                DeleteStep::RemoveFile
            } else {
                DeleteStep::AlreadyGone
            },
    {
        let nas_path = self.target_path(request_path);
        echo.suppress(nas_path.as_str(), now);
        if is_dir {
            DeleteStep::RemoveTree
        } else if occupied {
            DeleteStep::RemoveFile
        } else {
            DeleteStep::AlreadyGone
        }
    }

    /// The old and the new place on the server of an entry of the sync root that was renamed.
    pub fn rename(&self, request_path: &str, target_path: &str) -> (r: (String, String))
        ensures
            r.0@ == self.target(request_path@),
            r.1@ == self.target(target_path@),
    {
        (self.target_path(request_path), self.target_path(target_path))
    }
}

/// How an attempt to open a file of the server goes on after an error. Errors of the network are
/// tried again for a while.
pub fn open_failed(network: bool, elapsed_secs: u64) -> (s: OpenStep)
    ensures
        s == if network && elapsed_secs < RETRY_WINDOW_SECS {
            OpenStep::Retry
        } else {
            OpenStep::GiveUp { report: network }
        },
{
    if network && elapsed_secs < RETRY_WINDOW_SECS {
        OpenStep::Retry
    } else {
        OpenStep::GiveUp { report: network }
    }
}

/// Fetching of a range of a file.
pub struct Hydration {
    start: u64,
    position: u64,
    end: u64,
}

impl Hydration {
    /// Where the range starts.
    pub closed spec fn from(&self) -> int {
        self.start as int
    }

    /// Up to where it has been fetched.
    pub closed spec fn at(&self) -> int {
        self.position as int
    }

    /// Where the range ends.
    pub closed spec fn to(&self) -> int {
        self.end as int
    }

    pub open spec fn wf(&self) -> bool {
        0 <= self.from() <= self.at() && self.from() <= self.to() <= u64::MAX
            && self.at() <= u64::MAX
    }

    /// A range of which nothing has been fetched.
    pub fn new(start: u64, end: u64) -> (h: Hydration)
        requires
            start <= end,
        ensures
            h.wf(),
            h.from() == start,
            h.at() == start,
            h.to() == end,
    {
        Hydration { start, position: start, end }
    }

    /// How many bytes to read next, and from where; none once the range is complete.
    pub fn next_read(&self) -> (r: Option<(u64, u64)>)
        requires
            self.wf(),
        ensures
            r == if self.at() < self.to() {
                Some(
                    (
                        self.at() as u64,
                        if self.to() - self.at() < FETCH_CHUNK {
                            (self.to() - self.at()) as u64
                        } else {
                            FETCH_CHUNK
                        },
                    ),
                )
            } else {
                None
            },
    {
        if self.position >= self.end {
            return None;
        }
        let remaining: u64 = self.end - self.position;
        let len: u64 = if remaining < FETCH_CHUNK {
            remaining
        } else {
            FETCH_CHUNK
        };
        Some((self.position, len))
    }

    /// Takes note of bytes that were handed out. Returned is the progress to be reported, as the
    /// size of the range and the bytes so far, where the range is large enough for that.
    pub fn on_written(&mut self, n: u64) -> (progress: Option<(u64, u64)>)
        requires
            old(self).wf(),
            old(self).at() + n <= old(self).to(),
        ensures
            final(self).wf(),
            final(self).from() == old(self).from(),
            final(self).to() == old(self).to(),
            final(self).at() == old(self).at() + n,
            progress == if old(self).to() - old(self).from() > PROGRESS_THRESHOLD {
                Some(
                    (
                        (old(self).to() - old(self).from()) as u64,
                        (old(self).at() + n - old(self).from()) as u64,
                    ),
                )
            } else {
                None
            },
    {
        self.position = self.position + n;
        let total: u64 = self.end - self.start;
        if total > PROGRESS_THRESHOLD {
            Some((total, self.position - self.start))
        } else {
            None
        }
    }

    /// The bytes that were fetched.
    pub fn total_written(&self) -> (n: u64)
        requires
            self.wf(),
        ensures
            n == self.at() - self.from(),
    {
        self.position - self.start
    }
}

/// How often each file of the sync root is open.
pub struct OpenHandles {
    counts: PathMap<u32>,
}

impl View for OpenHandles {
    type V = Map<Seq<char>, u32>;

    closed spec fn view(&self) -> Map<Seq<char>, u32> {
        self.counts@
    }
}

/// How often a file is open.
pub open spec fn open_count(m: Map<Seq<char>, u32>, path: Seq<char>) -> int {
    if m.contains_key(path) {
        m[path] as int
    } else {
        0
    }
}

/// The counts after a file was opened.
pub open spec fn after_open(m: Map<Seq<char>, u32>, path: Seq<char>) -> Map<Seq<char>, u32> {
    m.insert(path, (open_count(m, path) + 1) as u32)
}

/// The counts after a file was closed.
pub open spec fn after_close(m: Map<Seq<char>, u32>, path: Seq<char>) -> Map<Seq<char>, u32> {
    if open_count(m, path) <= 1 {
        m.remove(path)
    } else {
        m.insert(path, (open_count(m, path) - 1) as u32)
    }
}

impl OpenHandles {
    pub closed spec fn wf(&self) -> bool {
        self.counts.wf()
    }

    /// No file is open.
    pub fn new() -> (h: OpenHandles)
        ensures
            h.wf(),
            h@ == Map::<Seq<char>, u32>::empty(),
    {
        OpenHandles { counts: PathMap::new() }
    }

    /// A file was opened. Returned is whether nobody else has it open, so that it may be compared
    /// with the server.
    pub fn opened(&mut self, path: &str) -> (first: bool)
        requires
            old(self).wf(),
            open_count(old(self)@, path@) < u32::MAX,
        ensures
            final(self).wf(),
            first == (open_count(old(self)@, path@) == 0),
            final(self)@ == after_open(old(self)@, path@),
    {
        let before: u32 = self.count(path);
        self.counts.put(path, before + 1);
        before == 0
    }

    /// How often a file is open.
    pub fn count(&self, path: &str) -> (n: u32)
        requires
            self.wf(),
        ensures
            n == open_count(self@, path@),
    {
        match self.counts.get(path) {
            Some(n) => n,
            None => 0,
        }
    }

    /// The files that are open, each once.
    pub fn paths(&self) -> (out: Vec<String>)
        requires
            self.wf(),
        ensures
            texts(out@).no_duplicates(),
            forall|p: Seq<char>| #[trigger] texts(out@).contains(p) <==> self@.contains_key(p),
    {
        let mut out: Vec<String> = Vec::new();
        let mut i: usize = 0;
        while i < self.counts.len()
            invariant
                i == out@.len(),
                i <= self.counts.items().len(),
                forall|j: int|
                    0 <= j < i ==> (#[trigger] out@[j])@ == self.counts.items()[j].0@,
            decreases self.counts.items().len() - i,
        {
            out.push(self.counts.key_at(i).clone());
            i += 1;
        }
        proof {
            let items = self.counts.items();
            let t = texts(out@);
            assert forall|a: int, b: int| 0 <= a < t.len() && 0 <= b < t.len() && a != b implies t[a]
                != t[b] by {
                if a < b {
                    assert(items[a].0@ != items[b].0@);
                } else {
                    assert(items[b].0@ != items[a].0@);
                }
            }
            assert forall|p: Seq<char>| #[trigger] t.contains(p) <==> self@.contains_key(p) by {
                if t.contains(p) {
                    let a = choose|a: int| 0 <= a < t.len() && t[a] == p;
                    assert(t[a] == out@[a]@);
                    crate::path_map::lemma_entry(items, a);
                }
                if self@.contains_key(p) {
                    let a = crate::path_map::key_index(items, p);
                    assert(items[a].0@ == p);
                    assert(t[a] == out@[a]@);
                }
            }
        }
        out
    }

    /// A file was closed.
    pub fn closed(&mut self, path: &str)
        requires
            old(self).wf(),
        ensures
            final(self).wf(),
            final(self)@ == after_close(old(self)@, path@),
    {
        match self.counts.get(path) {
            Some(n) => {
                if n <= 1 {
                    let _count = self.counts.remove(path);
                } else {
                    self.counts.put(path, n - 1);
                }
            },
            None => {
                assert(self@ =~= self@.remove(path@));
            },
        }
    }
}

/// Closing a file undoes opening it.
pub proof fn law_close_undoes_open(m: Map<Seq<char>, u32>, path: Seq<char>)
    requires
        open_count(m, path) < u32::MAX,
        m.contains_key(path) ==> m[path] > 0,
    ensures
        after_close(after_open(m, path), path) == m,
{
    assert(after_close(after_open(m, path), path) =~= m);
}

/// What the server itself needs is never shown, and every other entry that can be read is: it gets
/// a placeholder, or its placeholder is made anew, or it has one and is known.
pub proof fn law_listing_shows_the_folder(
    m: Map<Seq<char>, Row>,
    client_dir: Seq<char>,
    nas_dir: Seq<char>,
    entries: Seq<ListedEntry>,
    now: i64,
)
    ensures
        ({
            let l = listed(m, client_dir, nas_dir, entries, now);
            &&& forall|k: int| 0 <= k < l.push.len() ==> !filtered_name((#[trigger] l.push[k]).name)
            &&& forall|i: int|
                0 <= i < entries.len() && !filtered_name((#[trigger] entries[i]).name@)
                    && entries[i].stat is Some ==> is_shown(l, client_dir, entries[i])
        }),
    decreases entries.len(),
{
    if entries.len() > 0 {
        let front = entries.drop_last();
        law_listing_shows_the_folder(m, client_dir, nas_dir, front, now);
        let a = listed(m, client_dir, nas_dir, front, now);
        let l = listed(m, client_dir, nas_dir, entries, now);
        let e = entries.last();
        assert forall|i: int|
            0 <= i < entries.len() && !filtered_name((#[trigger] entries[i]).name@)
                && entries[i].stat is Some implies is_shown(l, client_dir, entries[i]) by {
            if i < front.len() {
                assert(front[i] == entries[i]);
                assert(is_shown(a, client_dir, front[i]));
                if pushed(a.push, front[i].name@) {
                    let k = choose|k: int|
                        0 <= k < a.push.len() && (#[trigger] a.push[k]).name == front[i].name@;
                    assert(l.push[k] == a.push[k]);
                }
                if a.refresh.contains(front[i].name@) {
                    let k = choose|k: int|
                        0 <= k < a.refresh.len() && a.refresh[k] == front[i].name@;
                    assert(l.refresh[k] == front[i].name@);
                }
            } else {
                if l.push.len() > a.push.len() {
                    assert(l.push[a.push.len() as int].name == e.name@);
                }
                if l.refresh.len() > a.refresh.len() {
                    assert(l.refresh[a.refresh.len() as int] == e.name@);
                }
            }
        }
        assert forall|k: int| 0 <= k < l.push.len() implies !filtered_name(
            (#[trigger] l.push[k]).name,
        ) by {
            if k < a.push.len() {
                assert(l.push[k] == a.push[k]);
            }
        }
    }
}

/// Whether a placeholder with this name is handed out.
pub open spec fn pushed(push: Seq<PlaceholderView>, name: Seq<char>) -> bool {
    exists|k: int| 0 <= k < push.len() && (#[trigger] push[k]).name == name
}

/// Whether an entry is shown after a listing.
pub open spec fn is_shown(l: Listing, client_dir: Seq<char>, e: ListedEntry) -> bool {
    ||| pushed(l.push, e.name@)
    ||| l.refresh.contains(e.name@)
    ||| e.occupied && l.files.contains_key(joined(Platform::Windows, client_dir, e.name@))
}

/// The server's own folders are left out by their first character, whatever they are; of the
/// others a directory always gets a placeholder, and a file gets one with the size and the time of
/// the server unless one is there of which something is known. Then a difference has it made anew,
/// and agreement is noted.
pub proof fn law_entries_are_listed_as_they_are(
    name: Seq<char>,
    stat: NasStat,
    occupied: bool,
    drift: Option<bool>,
)
    ensures
        name.len() > 0 && (name[0] == '#' || name[0] == '@') ==> list_action(
            name,
            Some(stat),
            occupied,
            drift,
        ) is Filtered,
        name.len() == 0 || (name[0] != '#' && name[0] != '@') ==> {
            let a = list_action(name, Some(stat), occupied, drift);
            &&& list_action(name, None, occupied, drift) is Unreadable
            &&& stat.is_dir <==> a is PushDir
            &&& !stat.is_dir && !occupied ==> a == (ListStep::PushFile {
                size: stat.size,
                mtime: stat.mtime,
            })
            &&& !stat.is_dir && occupied ==> match drift {
                Some(d) => if d {
                    a is Refresh
                } else {
                    a is Verified
                },
                None => a == (ListStep::PushFile { size: stat.size, mtime: stat.mtime }),
            }
        },
{
}

/// What was recorded of a file differs from the server where its size or its time does; nothing is
/// told of a file of which nothing is recorded.
pub proof fn law_drift_is_any_difference(
    m: Map<Seq<char>, Row>,
    path: Seq<char>,
    f: NasStat,
)
    ensures
        m.contains_key(path) && m[path].nas_size != f.size ==> entry_drift(m, path, Some(f))
            == Some(true),
        m.contains_key(path) && m[path].nas_mtime != f.mtime ==> entry_drift(m, path, Some(f))
            == Some(true),
        m.contains_key(path) && m[path].nas_mtime == f.mtime && m[path].nas_size == f.size
            ==> entry_drift(m, path, Some(f)) == Some(false),
        !m.contains_key(path) ==> entry_drift(m, path, Some(f)) is None,
        entry_drift(m, path, None) is None,
{
}

/// Every placeholder that is handed out stands for an entry of the folder: it has the name of the
/// entry, is a directory where that is one, has the server's size where it is a file, and names
/// the entry's own place on the server.
pub proof fn law_placeholders_stand_for_entries(
    m: Map<Seq<char>, Row>,
    client_dir: Seq<char>,
    nas_dir: Seq<char>,
    entries: Seq<ListedEntry>,
    now: i64,
    k: int,
)
    requires
        0 <= k < listed(m, client_dir, nas_dir, entries, now).push.len(),
    ensures
        ({
            let p = listed(m, client_dir, nas_dir, entries, now).push[k];
            &&& p.source == joined(Platform::Windows, nas_dir, p.name)
            &&& exists|i: int|
                0 <= i < entries.len() && (#[trigger] entries[i]).name@ == p.name
                    && entries[i].stat is Some && entries[i].stat->0.is_dir == p.is_dir && (p.is_dir
                    || entries[i].stat->0.size == p.size)
        }),
    decreases entries.len(),
{
    if entries.len() > 0 {
        let front = entries.drop_last();
        let a = listed(m, client_dir, nas_dir, front, now);
        let l = listed(m, client_dir, nas_dir, entries, now);
        if k < a.push.len() {
            law_placeholders_stand_for_entries(m, client_dir, nas_dir, front, now, k);
            assert(l.push[k] == a.push[k]);
            let p = a.push[k];
            let i = choose|i: int|
                0 <= i < front.len() && (#[trigger] front[i]).name@ == p.name
                    && front[i].stat is Some && front[i].stat->0.is_dir == p.is_dir && (p.is_dir
                    || front[i].stat->0.size == p.size);
            assert(entries[i] == front[i]);
        } else {
            assert(entries[entries.len() - 1] == entries.last());
        }
    }
}

/// An entry at whose place nothing is gets a placeholder, with the size of the server where it is
/// a file.
pub proof fn law_free_places_are_filled(
    m: Map<Seq<char>, Row>,
    client_dir: Seq<char>,
    nas_dir: Seq<char>,
    entries: Seq<ListedEntry>,
    now: i64,
    i: int,
)
    requires
        0 <= i < entries.len(),
        !entries[i].occupied,
        entries[i].stat is Some,
        entries[i].name@.len() > 0 ==> entries[i].name@[0] != '#' && entries[i].name@[0] != '@',
    ensures
        ({
            let l = listed(m, client_dir, nas_dir, entries, now);
            let e = entries[i];
            exists|k: int|
                0 <= k < l.push.len() && (#[trigger] l.push[k]).name == e.name@ && l.push[k].is_dir
                    == e.stat->0.is_dir && (e.stat->0.is_dir || l.push[k].size == e.stat->0.size)
        }),
    decreases entries.len(),
{
    let front = entries.drop_last();
    let a = listed(m, client_dir, nas_dir, front, now);
    let l = listed(m, client_dir, nas_dir, entries, now);
    let e = entries[i];
    if i < front.len() {
        assert(front[i] == e);
        law_free_places_are_filled(m, client_dir, nas_dir, front, now, i);
        let k = choose|k: int|
            0 <= k < a.push.len() && (#[trigger] a.push[k]).name == e.name@ && a.push[k].is_dir
                == e.stat->0.is_dir && (e.stat->0.is_dir || a.push[k].size == e.stat->0.size);
        assert(l.push[k] == a.push[k]);
    } else {
        assert(e == entries.last());
        assert(l.push[a.push.len() as int].name == e.name@);
    }
}

/// The last entry of a listing is recorded with the size and the time of the server where it gets
/// a placeholder, and noted as checked where it has one that fits; other files keep what is known
/// of them.
pub proof fn law_listing_records_what_it_shows(
    a: Listing,
    client_dir: Seq<char>,
    nas_dir: Seq<char>,
    e: ListedEntry,
    f: NasStat,
    now: i64,
    other: Seq<char>,
)
    requires
        e.stat == Some(f),
        !f.is_dir,
        e.name@.len() > 0 ==> e.name@[0] != '#' && e.name@[0] != '@',
    ensures
        ({
            let path = joined(Platform::Windows, client_dir, e.name@);
            let l = listed_one(a, client_dir, nas_dir, e, now);
            &&& other != path ==> l.files.contains_key(other) == a.files.contains_key(other) && (
            a.files.contains_key(other) ==> l.files[other] == a.files[other])
            &&& !e.occupied || !a.files.contains_key(path) ==> l.files.contains_key(path)
                && l.files[path].nas_size == f.size && l.files[path].nas_mtime == f.mtime
                && l.push.len() == a.push.len() + 1 && l.refresh == a.refresh
            &&& e.occupied && a.files.contains_key(path) && a.files[path].nas_size == f.size
                && a.files[path].nas_mtime == f.mtime ==> l.files[path].last_verified_at == now
                && l.push == a.push && l.refresh == a.refresh
            &&& e.occupied && a.files.contains_key(path) && (a.files[path].nas_size != f.size
                || a.files[path].nas_mtime != f.mtime) ==> l.files == a.files && l.push == a.push
                && l.refresh == a.refresh.push(e.name@)
        }),
{
}

/// A path of the sync root has its place on the server at the same path below the share.
pub proof fn law_requests_lead_to_the_same_path(f: NasSyncFilter, rel: Seq<char>)
    requires
        f.client().len() > 0,
        f.nas().len() > 0,
        crate::paths::can_be_base(Platform::Windows, f.client()),
        crate::paths::can_be_base(Platform::Windows, f.nas()),
        crate::paths::joins_below(Platform::Windows, rel),
        crate::paths::trimmed_path(Platform::Windows, rel) == rel,
    ensures
        f.relative(joined(Platform::Windows, f.client(), rel)) == rel,
        f.target(joined(Platform::Windows, f.client(), rel)) == joined(
            Platform::Windows,
            f.nas(),
            rel,
        ),
        below(Platform::Windows, f.nas(), f.target(joined(Platform::Windows, f.client(), rel)))
            == Some(rel),
{
    crate::paths::law_joined_path_lies_below(Platform::Windows, f.client(), rel);
    crate::paths::law_joined_path_lies_below(Platform::Windows, f.nas(), rel);
}

/// Opening and closing count one file up and down and no other, and a file that is closed as often
/// as it was opened is no longer open.
pub proof fn law_handles_are_counted(m: Map<Seq<char>, u32>, path: Seq<char>, other: Seq<char>)
    requires
        open_count(m, path) < u32::MAX,
        other != path,
    ensures
        open_count(after_open(m, path), path) == open_count(m, path) + 1,
        open_count(after_open(m, path), other) == open_count(m, other),
        open_count(m, path) > 0 ==> open_count(after_close(m, path), path) == open_count(m, path)
            - 1,
        open_count(m, path) == 0 ==> open_count(after_close(m, path), path) == 0,
        open_count(after_close(m, path), other) == open_count(m, other),
        open_count(m, path) <= 1 ==> !after_close(m, path).contains_key(path),
{
}

/// What is read next starts where the last read ended and stays inside the range; nothing is read
/// once the range is complete, and at most four mebibytes at a time.
pub proof fn law_reads_cover_the_range(h: Hydration, r: Option<(u64, u64)>)
    requires
        h.wf(),
        call_ensures(Hydration::next_read, (&h,), r),
    ensures
        r is None <==> h.at() >= h.to(),
        r matches Some(v) ==> v.0 == h.at() && 0 < v.1 <= 4_194_304 && v.0 + v.1 <= h.to() && (v.1
            < 4_194_304 ==> v.0 + v.1 == h.to()),
{
}

/// Only errors of the network are tried again, and only within fifty seconds; what is given up is
/// reported exactly where it was such an error.
pub proof fn law_only_the_network_is_retried(network: bool, elapsed: u64, s: OpenStep)
    requires
        call_ensures(open_failed, (network, elapsed), s),
    ensures
        s is Retry <==> network && elapsed < 50,
        s matches OpenStep::GiveUp { report } ==> report == network,
{
}

/// A rename is carried out between the places of the two paths, in that order.
pub proof fn law_renames_keep_their_direction(
    f: NasSyncFilter,
    from: &str,
    to: &str,
    r: (String, String),
)
    requires
        call_ensures(NasSyncFilter::rename, (&f, from, to), r),
    ensures
        r.0@ == f.target(from@),
        r.1@ == f.target(to@),
{
}

/// What is removed on the server is what was removed in the sync root, and its change there is
/// expected as an echo.
pub proof fn law_removals_are_carried_out(
    f: NasSyncFilter,
    echo: &mut EchoSuppressor,
    path: &str,
    is_dir: bool,
    occupied: bool,
    now: u64,
    s: DeleteStep,
)
    requires
        old(echo).wf(),
        call_ensures(NasSyncFilter::delete, (&f, echo, path, is_dir, occupied, now), s),
    ensures
        s is RemoveTree <==> is_dir,
        s is RemoveFile <==> !is_dir && occupied,
        s is AlreadyGone <==> !is_dir && !occupied,
        final(echo)@.contains_key(f.target(path@)),
        final(echo)@[f.target(path@)] == now,
{
}

/// A file that is opened is compared with the server only by its first opener; its access is noted
/// either way.
pub proof fn law_first_opener_compares(
    h: &mut OpenHandles,
    c: &mut CacheIndex,
    path: &str,
    now: i64,
    check: bool,
)
    requires
        old(h).wf(),
        old(c).wf(),
        open_count(old(h)@, path@) < u32::MAX,
        call_ensures(NasSyncFilter::opened, (h, c, path, now), check),
    ensures
        check <==> open_count(old(h)@, path@) == 0,
        open_count(final(h)@, path@) == open_count(old(h)@, path@) + 1,
        old(c).files().contains_key(path@) ==> final(c).files()[path@].last_accessed == now
            && final(c).files()[path@].nas_size == old(c).files()[path@].nas_size,
        final(c).files().dom() == old(c).files().dom(),
{
    assert(final(c).files().dom() =~= old(c).files().dom());
}

/// A file whose version on the server is another one is made anew when it is opened, and its new
/// version is known from then on; within thirty seconds of a comparison nothing is compared.
pub proof fn law_outdated_files_are_made_anew(
    c: &mut CacheIndex,
    path: &str,
    size: u64,
    mtime: i64,
    now: i64,
    r: OpenCheck,
)
    requires
        old(c).wf(),
        old(c).files().contains_key(path@),
        call_ensures(NasSyncFilter::checked_on_open, (c, path, Ok((size, mtime)), now), r),
    ensures
        ({
            let k = old(c).files()[path@];
            let due = now - k.last_verified_at >= 30;
            &&& r is Refresh <==> due && (size != k.nas_size || mtime != k.nas_mtime)
            &&& !(r is Refresh) ==> r is Nothing
            &&& due ==> final(c).files()[path@].nas_size == size
                && final(c).files()[path@].nas_mtime == mtime
                && final(c).files()[path@].last_verified_at == now
            &&& !due ==> final(c).files() == old(c).files()
        }),
{
}

/// An error while a file is compared is reported only where it is one of the network.
pub proof fn law_only_network_errors_are_reported(
    c: &mut CacheIndex,
    path: &str,
    network: bool,
    now: i64,
    r: OpenCheck,
)
    requires
        old(c).wf(),
        call_ensures(NasSyncFilter::checked_on_open, (c, path, Err(network), now), r),
    ensures
        r is ReportNetwork ==> network,
        !(r is Refresh),
        network && !old(c).files().contains_key(path@) ==> r is ReportNetwork,
        final(c).files() == old(c).files(),
{
}

/// What was handed out moves the position on, and the progress of a range of more than a mebibyte
/// is told as what was handed out of its whole.
pub proof fn law_progress_is_what_was_handed_out(
    h: &mut Hydration,
    n: u64,
    p: Option<(u64, u64)>,
)
    requires
        old(h).wf(),
        old(h).at() + n <= old(h).to(),
        call_ensures(Hydration::on_written, (h, n), p),
    ensures
        final(h).at() == old(h).at() + n,
        final(h).from() == old(h).from() && final(h).to() == old(h).to(),
        p is Some <==> old(h).to() - old(h).from() > 1_048_576,
        p matches Some(v) ==> v.0 == old(h).to() - old(h).from() && v.1 == final(h).at()
            - final(h).from() && v.1 <= v.0,
{
}

} // verus!
