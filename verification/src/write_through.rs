//! Local saves in the sync root are uploaded to the storage server: when to upload, how an upload
//! proceeds, and which changes are echoes of what the agent did itself.
use crate::path_map::{
    entries_map, has_key, keep_later, key_index, lemma_entry, PathMap,
};
use crate::paths::{
    below, can_be_base, file_name, has_drive, is_sep, joined, join, joins_below, last_part,
    lemma_with_name, strip_prefix, with_file_name, with_name, Platform,
};
use crate::text::{
    contains, decimal, decimal_of, ends_with, occurs, starts_with, starts_with_char,
};
use vstd::prelude::*;

verus! {

/// Milliseconds for which changes of an uploaded file count as echoes.
pub const ECHO_TTL_MS: u64 = 5_000;

/// Milliseconds without a change after which a file is uploaded.
pub const DEBOUNCE_MS: u64 = 3_000;

/// Milliseconds between two looks at the deadlines.
pub const TICK_MS: u64 = 500;

/// Milliseconds for which the change that follows a conversion is ignored.
pub const CONVERSION_SUPPRESS_MS: u64 = 2_000;

/// Number of uploads that run at a time.
pub const WORKER_COUNT: usize = 3;

/// Bytes that are copied at a time.
pub const UPLOAD_CHUNK: usize = 4_194_304;

/// Whether less than `ttl` milliseconds have passed since `t`.
pub open spec fn recent(t: int, now: int, ttl: int) -> bool {
    now - t < ttl
}

/// The entries of a map of times from which less than `ttl` milliseconds have passed.
pub open spec fn recent_entries(m: Map<Seq<char>, u64>, now: int, ttl: int) -> Map<
    Seq<char>,
    u64,
> {
    Map::new(|k: Seq<char>| m.contains_key(k) && recent(m[k] as int, now, ttl), |k: Seq<char>| m[k])
}

fn prune(m: &mut PathMap<u64>, now: u64, ttl: u64)
    requires
        old(m).wf(),
        ttl > 0,
    ensures
        final(m).wf(),
        final(m)@ == recent_entries(old(m)@, now as int, ttl as int),
{
    let ghost before = m@;
    if now >= ttl {
        keep_later(m, now - ttl);
    }
    assert(m@ =~= recent_entries(before, now as int, ttl as int));
}

/// Keeps the watcher of the server from answering to uploads of the agent itself.
pub struct EchoSuppressor {
    entries: PathMap<u64>,
}

impl View for EchoSuppressor {
    type V = Map<Seq<char>, u64>;

    closed spec fn view(&self) -> Map<Seq<char>, u64> {
        self.entries@
    }
}

impl EchoSuppressor {
    pub closed spec fn wf(&self) -> bool {
        self.entries.wf()
    }

    /// Nothing is suppressed at first.
    pub fn new() -> (e: EchoSuppressor)
        ensures
            e.wf(),
            e@ == Map::<Seq<char>, u64>::empty(),
    {
        EchoSuppressor { entries: PathMap::new() }
    }

    /// Marks a path of the server as just uploaded.
    pub fn suppress(&mut self, nas_path: &str, now: u64)
        requires
            old(self).wf(),
        ensures
            final(self).wf(),
            final(self)@ == old(self)@.insert(nas_path@, now),
    {
        self.entries.put(nas_path, now);
    }

    /// Whether changes of a path are to be ignored. Marks that have run out are dropped.
    pub fn is_suppressed(&mut self, nas_path: &str, now: u64) -> (r: bool)
        requires
            old(self).wf(),
        ensures
            final(self).wf(),
            final(self)@ == recent_entries(old(self)@, now as int, ECHO_TTL_MS as int),
            r == (old(self)@.contains_key(nas_path@) && recent(
                old(self)@[nas_path@] as int,
                now as int,
                ECHO_TTL_MS as int,
            )),
    {
        prune(&mut self.entries, now, ECHO_TTL_MS);
        self.entries.get(nas_path).is_some()
    }
}

/// What becomes of a changed file.
#[derive(Clone, Copy, Debug, PartialEq, Eq, Structural)]
pub enum FileState {
    /// Waits until nothing has changed for a while.
    Debouncing { deadline: u64 },
    /// Is being uploaded.
    Uploading,
}

/// A change in the sync root.
#[derive(Debug, Clone, PartialEq, Eq)]
pub enum ClientFsEvent {
    Modified(String),
    Removed(String),
}

/// A file to be uploaded.
#[derive(Debug, Clone, PartialEq, Eq)]
pub struct UploadJob {
    pub local_path: String,
    pub nas_path: String,
}

/// How an upload ended.
#[derive(Debug, Clone, PartialEq, Eq)]
pub enum UploadResult {
    Success { local_path: String, nas_path: String },
    Cancelled { local_path: String },
    Failed { local_path: String, error: String },
}

pub enum ResultView {
    Success { local_path: Seq<char>, nas_path: Seq<char> },
    Cancelled { local_path: Seq<char> },
    Failed { local_path: Seq<char>, error: Seq<char> },
}

impl View for UploadResult {
    type V = ResultView;

    open spec fn view(&self) -> ResultView {
        match self {
            UploadResult::Success { local_path, nas_path } => ResultView::Success {
                local_path: local_path@,
                nas_path: nas_path@,
            },
            UploadResult::Cancelled { local_path } => ResultView::Cancelled {
                local_path: local_path@,
            },
            UploadResult::Failed { local_path, error } => ResultView::Failed {
                local_path: local_path@,
                error: error@,
            },
        }
    }
}

/// The place of a local file on the server.
pub open spec fn nas_path_of(
    local: Seq<char>,
    client_root: Seq<char>,
    nas_root: Seq<char>,
) -> Seq<char> {
    joined(
        Platform::Windows,
        nas_root,
        match below(Platform::Windows, client_root, local) {
            Some(r) => r,
            None => Seq::<char>::empty(),
        },
    )
}

/// The place of a local file on the server.
pub fn to_nas_path(local: &str, client_root: &str, nas_root: &str) -> (out: String)
    ensures
        out@ == nas_path_of(local@, client_root@, nas_root@),
{
    match strip_prefix(Platform::Windows, client_root, local) {
        Some(r) => join(Platform::Windows, nas_root, r.as_str()),
        None => {
            proof {
                reveal_strlit("");
            }
            assert(""@ =~= Seq::<char>::empty());
            join(Platform::Windows, nas_root, "")
        },
    }
}

/// A change cancels the upload that it interrupts.
pub open spec fn interrupts(states: Map<Seq<char>, FileState>, path: Seq<char>) -> bool {
    states.contains_key(path) && states[path] == FileState::Uploading
}

/// Whether the wait of a file is over.
pub open spec fn due(s: FileState, now: int) -> bool {
    s matches FileState::Debouncing { deadline } && deadline <= now
}

/// The states after all files whose wait is over have been handed to the workers.
pub open spec fn dispatched(states: Map<Seq<char>, FileState>, now: int) -> Map<
    Seq<char>,
    FileState,
> {
    Map::new(
        |k: Seq<char>| states.contains_key(k),
        |k: Seq<char>|
            if due(states[k], now) {
                FileState::Uploading
            } else {
                states[k]
            },
    )
}

/// Decides which files are uploaded and when.
pub struct Coordinator {
    client_root: String,
    nas_root: String,
    states: PathMap<FileState>,
    recently_converted: PathMap<u64>,
}

impl Coordinator {
    pub closed spec fn wf(&self) -> bool {
        self.states.wf() && self.recently_converted.wf()
    }

    /// What becomes of each file.
    pub closed spec fn files(&self) -> Map<Seq<char>, FileState> {
        self.states@
    }

    /// When each file was converted.
    pub closed spec fn converted(&self) -> Map<Seq<char>, u64> {
        self.recently_converted@
    }

    pub closed spec fn client(&self) -> Seq<char> {
        self.client_root@
    }

    pub closed spec fn nas(&self) -> Seq<char> {
        self.nas_root@
    }

    /// A coordinator without files.
    pub fn new(client_root: String, nas_root: String) -> (c: Coordinator)
        ensures
            c.wf(),
            c.client() == client_root@,
            c.nas() == nas_root@,
            c.files() == Map::<Seq<char>, FileState>::empty(),
            c.converted() == Map::<Seq<char>, u64>::empty(),
    {
        Coordinator {
            client_root,
            nas_root,
            states: PathMap::new(),
            recently_converted: PathMap::new(),
        }
    }

    /// A file was written: its wait starts anew. Returned is whether an upload of it is to be
    /// cancelled.
    fn on_modified(&mut self, path: &str, now: u64) -> (cancel: bool)
        requires
            old(self).wf(),
            now + DEBOUNCE_MS <= u64::MAX,
        ensures
            final(self).wf(),
            final(self).client() == old(self).client(),
            final(self).nas() == old(self).nas(),
            final(self).converted() == old(self).converted(),
            cancel == interrupts(old(self).files(), path@),
            final(self).files() == old(self).files().insert(
                path@,
                (FileState::Debouncing { deadline: (now + DEBOUNCE_MS) as u64 }),
            ),
    {
        let deadline: u64 = now + DEBOUNCE_MS;
        let cancel = match self.states.get(path) {
            Some(FileState::Uploading) => true,
            _ => false,
        };
        self.states.put(path, FileState::Debouncing { deadline });
        cancel
    }

    /// Takes note of a change in the sync root. Returned is whether an upload of the file is to be
    /// cancelled. The first write after a conversion is the conversion itself and is ignored.
    pub fn on_event(&mut self, event: &ClientFsEvent, now: u64) -> (cancel: bool)
        requires
            old(self).wf(),
            now + DEBOUNCE_MS <= u64::MAX,
        ensures
            final(self).wf(),
            final(self).client() == old(self).client(),
            final(self).nas() == old(self).nas(),
            match event {
                ClientFsEvent::Modified(path) => {
                    let kept = recent_entries(
                        old(self).converted(),
                        now as int,
                        CONVERSION_SUPPRESS_MS as int,
                    );
                    &&& final(self).converted() == kept.remove(path@)
                    &&& if kept.contains_key(path@) {
                        &&& !cancel
                        &&& final(self).files() == old(self).files()
                    } else {
                        &&& cancel == interrupts(old(self).files(), path@)
                        &&& final(self).files() == old(self).files().insert(
                            path@,
                            (FileState::Debouncing { deadline: (now + DEBOUNCE_MS) as u64 }),
                        )
                    }
                },
                ClientFsEvent::Removed(path) => {
                    &&& cancel == interrupts(old(self).files(), path@)
                    &&& final(self).files() == old(self).files().remove(path@)
                    &&& final(self).converted() == old(self).converted()
                },
            },
    {
        match event {
            ClientFsEvent::Modified(path) => {
                prune(&mut self.recently_converted, now, CONVERSION_SUPPRESS_MS);
                if self.recently_converted.remove(path.as_str()).is_some() {
                    false
                } else {
                    self.on_modified(path.as_str(), now)
                }
            },
            ClientFsEvent::Removed(path) => {
                match self.states.remove(path.as_str()) {
                    Some(FileState::Uploading) => true,
                    _ => false,
                }
            },
        }
    }

    /// The uploads of the files whose wait is over.
    pub fn check_deadlines(&mut self, now: u64) -> (jobs: Vec<UploadJob>)
        requires
            old(self).wf(),
        ensures
            final(self).wf(),
            final(self).client() == old(self).client(),
            final(self).nas() == old(self).nas(),
            final(self).converted() == old(self).converted(),
            final(self).files() == dispatched(old(self).files(), now as int),
            forall|i: int|
                0 <= i < jobs@.len() ==> {
                    let l = (#[trigger] jobs@[i]).local_path@;
                    &&& old(self).files().contains_key(l)
                    &&& due(old(self).files()[l], now as int)
                    &&& jobs@[i].nas_path@ == nas_path_of(l, old(self).client(), old(self).nas())
                },
            forall|i: int, j: int|
                0 <= i < j < jobs@.len() ==> (#[trigger] jobs@[i]).local_path@ != (
                #[trigger] jobs@[j]).local_path@,
            forall|k: Seq<char>| #[trigger]
                old(self).files().contains_key(k) && due(old(self).files()[k], now as int)
                    ==> exists|i: int| 0 <= i < jobs@.len() && (#[trigger] jobs@[i]).local_path@
                    == k,
    {
        let mut jobs: Vec<UploadJob> = Vec::new();
        let mut i: usize = 0;
        let ghost s0 = self.states.items();
        let ghost m0 = self.states@;
        while i < self.states.len()
            invariant
                i <= self.states.items().len(),
                self.states.wf(),
                self.states.items().len() == s0.len(),
                self.recently_converted == old(self).recently_converted,
                self.client_root == old(self).client_root,
                self.nas_root == old(self).nas_root,
                s0 == old(self).states.items(),
                crate::path_map::unique_keys(s0),
                m0 == entries_map(s0),
                forall|j: int|
                    0 <= j < s0.len() ==> (#[trigger] self.states.items()[j]).0@ == s0[j].0@,
                forall|j: int|
                    0 <= j < s0.len() ==> (#[trigger] self.states.items()[j]).1 == if j < i && due(
                        s0[j].1,
                        now as int,
                    ) {
                        FileState::Uploading
                    } else {
                        s0[j].1
                    },
                forall|a: int|
                    0 <= a < jobs@.len() ==> (#[trigger] jobs@[a]).nas_path@ == nas_path_of(
                        jobs@[a].local_path@,
                        self.client_root@,
                        self.nas_root@,
                    ),
                forall|a: int|
                    0 <= a < jobs@.len() ==> exists|j: int|
                        0 <= j < i && (#[trigger] s0[j]).0@ == (#[trigger] jobs@[a]).local_path@
                            && due(s0[j].1, now as int),
                forall|a: int, b: int|
                    0 <= a < b < jobs@.len() ==> (#[trigger] jobs@[a]).local_path@ != (
                    #[trigger] jobs@[b]).local_path@,
                forall|j: int|
                    0 <= j < i && due(#[trigger] s0[j].1, now as int) ==> exists|a: int|
                        0 <= a < jobs@.len() && (#[trigger] jobs@[a]).local_path@ == s0[j].0@,
            decreases s0.len() - i,
        {
            let ghost jobs0 = jobs@;
            let is_due = match self.states.value_at(i) {
                FileState::Debouncing { deadline } => now >= deadline,
                FileState::Uploading => false,
            };
            assert(self.states.items()[i as int].1 == s0[i as int].1);
            assert(self.states.items()[i as int].0@ == s0[i as int].0@);
            if is_due {
                let path = self.states.key_at(i);
                let job = UploadJob {
                    local_path: path.clone(),
                    nas_path: to_nas_path(
                        path.as_str(),
                        self.client_root.as_str(),
                        self.nas_root.as_str(),
                    ),
                };
                jobs.push(job);
                self.states.set_at(i, FileState::Uploading);
                proof {
                    assert(jobs@[jobs0.len() as int].local_path@ == s0[i as int].0@);
                    assert forall|a: int| 0 <= a < jobs@.len() implies exists|j: int|
                        0 <= j < i + 1 && (#[trigger] s0[j]).0@ == (
                        #[trigger] jobs@[a]).local_path@ && due(s0[j].1, now as int) by {
                        if a < jobs0.len() {
                            assert(jobs@[a] == jobs0[a]);
                            let j = choose|j: int|
                                0 <= j < i && (#[trigger] s0[j]).0@ == jobs0[a].local_path@ && due(
                                    s0[j].1,
                                    now as int,
                                );
                            assert(0 <= j < i + 1 && s0[j].0@ == jobs@[a].local_path@);
                        } else {
                            assert(s0[i as int].0@ == jobs@[a].local_path@);
                        }
                    }
                    assert forall|a: int, b: int| 0 <= a < b < jobs@.len() implies (
                    #[trigger] jobs@[a]).local_path@ != (#[trigger] jobs@[b]).local_path@ by {
                        assert(jobs@[a] == jobs0[a]);
                        if b < jobs0.len() {
                            assert(jobs@[b] == jobs0[b]);
                        } else {
                            let j = choose|j: int|
                                0 <= j < i && (#[trigger] s0[j]).0@ == jobs0[a].local_path@ && due(
                                    s0[j].1,
                                    now as int,
                                );
                            assert(s0[j].0@ != s0[i as int].0@);
                        }
                    }
                    assert forall|j: int|
                        0 <= j < i + 1 && due(#[trigger] s0[j].1, now as int) implies exists|a: int|
                        0 <= a < jobs@.len() && (#[trigger] jobs@[a]).local_path@ == s0[j].0@ by {
                        if j < i {
                            let a = choose|a: int|
                                0 <= a < jobs0.len() && (#[trigger] jobs0[a]).local_path@
                                    == s0[j].0@;
                            assert(jobs@[a] == jobs0[a]);
                        } else {
                            assert(jobs@[jobs0.len() as int].local_path@ == s0[j].0@);
                        }
                    }
                }
            }
            i += 1;
        }
        proof {
            let s1 = self.states.items();
            assert forall|k: Seq<char>| has_key(s1, k) == has_key(s0, k) by {
                if has_key(s1, k) {
                    let j = key_index(s1, k);
                    assert(s1[j].0@ == k);
                    assert(s0[j].0@ == k);
                }
                if has_key(s0, k) {
                    let j = key_index(s0, k);
                    assert(s0[j].0@ == k);
                    assert(s1[j].0@ == k);
                }
            }
            assert forall|k: Seq<char>| has_key(s0, k) implies self.states@[k] == dispatched(
                m0,
                now as int,
            )[k] by {
                let j = key_index(s0, k);
                assert(s0[j].0@ == k);
                lemma_entry(s0, j);
                assert(s1[j].0@ == k);
                lemma_entry(s1, j);
            }
            assert(self.states@ =~= dispatched(m0, now as int));
            assert forall|a: int| 0 <= a < jobs@.len() implies {
                let l = (#[trigger] jobs@[a]).local_path@;
                &&& m0.contains_key(l)
                &&& due(m0[l], now as int)
            } by {
                let j = choose|j: int|
                    0 <= j < s0.len() && (#[trigger] s0[j]).0@ == jobs@[a].local_path@ && due(
                        s0[j].1,
                        now as int,
                    );
                lemma_entry(s0, j);
            }
            assert forall|k: Seq<char>| #[trigger]
                m0.contains_key(k) && due(m0[k], now as int) implies exists|a: int|
                0 <= a < jobs@.len() && (#[trigger] jobs@[a]).local_path@ == k by {
                let j = key_index(s0, k);
                assert(s0[j].0@ == k);
                lemma_entry(s0, j);
                assert(due(s0[j].1, now as int));
            }
        }
        jobs
    }

    /// The workers no longer take uploads: the file is forgotten.
    pub fn on_refused(&mut self, path: &str)
        requires
            old(self).wf(),
        ensures
            final(self).wf(),
            final(self).client() == old(self).client(),
            final(self).nas() == old(self).nas(),
            final(self).converted() == old(self).converted(),
            final(self).files() == old(self).files().remove(path@),
    {
        let _state = self.states.remove(path);
    }

    /// Takes note of the end of an upload. Returned is whether the local file is to be converted
    /// to a placeholder.
    pub fn on_upload_result(&mut self, result: &UploadResult, now: u64) -> (convert: bool)
        requires
            old(self).wf(),
        ensures
            final(self).wf(),
            final(self).client() == old(self).client(),
            final(self).nas() == old(self).nas(),
            match result@ {
                ResultView::Success { local_path, nas_path } => {
                    &&& convert
                    &&& final(self).files() == old(self).files().remove(local_path)
                    &&& final(self).converted() == old(self).converted().insert(local_path, now)
                },
                ResultView::Cancelled { local_path } => {
                    &&& !convert
                    &&& final(self).files() == old(self).files()
                    &&& final(self).converted() == old(self).converted()
                },
                ResultView::Failed { local_path, error } => {
                    &&& !convert
                    &&& final(self).files() == old(self).files().remove(local_path)
                    &&& final(self).converted() == old(self).converted()
                },
            },
    {
        match result {
            UploadResult::Success { local_path, .. } => {
                let _state = self.states.remove(local_path.as_str());
                self.recently_converted.put(local_path.as_str(), now);
                true
            },
            UploadResult::Cancelled { .. } => false,
            UploadResult::Failed { local_path, .. } => {
                let _state = self.states.remove(local_path.as_str());
                false
            },
        }
    }
}

/// A file is handed to the workers once nothing has changed it for the whole wait, and not before.
pub proof fn law_upload_waits_for_quiet(
    files: Map<Seq<char>, FileState>,
    path: Seq<char>,
    changed: u64,
    now: int,
)
    requires
        changed + DEBOUNCE_MS <= u64::MAX,
    ensures
        ({
            let waiting = files.insert(
                path,
                FileState::Debouncing { deadline: (changed + DEBOUNCE_MS) as u64 },
            );
            dispatched(waiting, now)[path] == FileState::Uploading <==> now >= changed + DEBOUNCE_MS
        }),
{
}

/// The change that a conversion makes itself is recognised for as long as conversions are
/// remembered.
pub proof fn law_own_conversion_is_recognised(
    converted: Map<Seq<char>, u64>,
    path: Seq<char>,
    done: u64,
    now: int,
)
    ensures
        recent_entries(
            converted.insert(path, done),
            now,
            CONVERSION_SUPPRESS_MS as int,
        ).contains_key(path) <==> now - done < CONVERSION_SUPPRESS_MS,
{
}

/// A path counts as an echo for the time to live after its upload, and other paths are not
/// affected.
pub proof fn law_echo_lasts(
    entries: Map<Seq<char>, u64>,
    path: Seq<char>,
    other: Seq<char>,
    uploaded: u64,
    now: int,
)
    ensures
        ({
            let marked = recent_entries(entries.insert(path, uploaded), now, ECHO_TTL_MS as int);
            &&& marked.contains_key(path) <==> now - uploaded < ECHO_TTL_MS
            &&& other != path ==> marked.contains_key(other) == recent_entries(
                entries,
                now,
                ECHO_TTL_MS as int,
            ).contains_key(other)
        }),
{
}

/// Size and time of a file; the time in nanoseconds since 1970, where it is known.
#[derive(Clone, Copy, Debug, PartialEq, Eq, Structural)]
pub struct FileStamp {
    pub size: u64,
    pub modified: Option<i64>,
}

/// Whether two times are more than two whole seconds apart.
pub open spec fn times_differ(a: int, b: int) -> bool {
    a - b >= 3_000_000_000 || b - a >= 3_000_000_000
}

/// Whether a file is another one than before: its size differs, or its time by more than servers
/// round it.
pub open spec fn differs(pre: FileStamp, post: FileStamp) -> bool {
    pre.size != post.size || (match (pre.modified, post.modified) {
        (Some(a), Some(b)) => times_differ(a as int, b as int),
        _ => false,
    })
}

/// Whether a file is another one than before.
pub fn stamp_differs(pre: FileStamp, post: FileStamp) -> (r: bool)
    ensures
        r == differs(pre, post),
        pre.size < post.size ==> r,
        pre.size > post.size ==> r,
        pre.size == post.size ==> (r <==> (pre.modified matches Some(a)
            && post.modified matches Some(b) && (a - b >= 3_000_000_000 || b - a
            >= 3_000_000_000))),
{
    let by_time = match (pre.modified, post.modified) {
        (Some(a), Some(b)) => {
            let a: i128 = a as i128;
            let b: i128 = b as i128;
            a - b >= 3_000_000_000 || b - a >= 3_000_000_000
        },
        _ => false,
    };
    pre.size != post.size || by_time
}

/// The path beside `path` to which an upload is written first.
pub open spec fn temp_path_of(path: Seq<char>, host: Seq<char>) -> Seq<char> {
    with_name(
        Platform::Windows,
        path,
        "."@ + last_part(Platform::Windows, path) + ".~sync."@ + host,
    )
}

/// The path beside `path` under which an upload that met a conflict is kept.
pub open spec fn upload_conflict_path(path: Seq<char>, host: Seq<char>, secs: nat) -> Seq<char> {
    with_name(
        Platform::Windows,
        path,
        last_part(Platform::Windows, path) + ".conflict."@ + host + "."@ + decimal(secs),
    )
}

/// What an upload does next.
pub enum UploadStep {
    /// Create the directory of the target where it is missing.
    CreateParent,
    OpenSource,
    /// Look at size and time of the target.
    StatTarget,
    CreateTemp,
    /// Copy the next piece of the source.
    CopyChunk,
    /// Look at the target once more.
    StatAgain,
    /// Rename the written file to this path, whether that succeeds or not.
    KeepAsConflict(String),
    /// Mark the target as just uploaded and rename the written file to it.
    Publish,
    /// The upload is over; remove the written file if so told.
    Finish { result: UploadResult, remove_temp: bool },
}

/// How a step went.
pub enum UploadEvent {
    Done,
    Failed(String),
    Stamp(Option<FileStamp>),
    CancelRequested,
    EndOfSource,
    Copied(u64),
    ReadFailed(String),
    WriteFailed(String),
}

pub enum StepView {
    CreateParent,
    OpenSource,
    StatTarget,
    CreateTemp,
    CopyChunk,
    StatAgain,
    KeepAsConflict(Seq<char>),
    Publish,
    Finish { result: ResultView, remove_temp: bool },
}

pub enum EventView {
    Done,
    Failed(Seq<char>),
    Stamp(Option<FileStamp>),
    CancelRequested,
    EndOfSource,
    Copied(u64),
    ReadFailed(Seq<char>),
    WriteFailed(Seq<char>),
}

impl View for UploadStep {
    type V = StepView;

    open spec fn view(&self) -> StepView {
        match self {
            UploadStep::CreateParent => StepView::CreateParent,
            UploadStep::OpenSource => StepView::OpenSource,
            UploadStep::StatTarget => StepView::StatTarget,
            UploadStep::CreateTemp => StepView::CreateTemp,
            UploadStep::CopyChunk => StepView::CopyChunk,
            UploadStep::StatAgain => StepView::StatAgain,
            UploadStep::KeepAsConflict(p) => StepView::KeepAsConflict(p@),
            UploadStep::Publish => StepView::Publish,
            UploadStep::Finish { result, remove_temp } => StepView::Finish {
                result: result@,
                remove_temp: *remove_temp,
            },
        }
    }
}

impl View for UploadEvent {
    type V = EventView;

    open spec fn view(&self) -> EventView {
        match self {
            UploadEvent::Done => EventView::Done,
            UploadEvent::Failed(e) => EventView::Failed(e@),
            UploadEvent::Stamp(s) => EventView::Stamp(*s),
            UploadEvent::CancelRequested => EventView::CancelRequested,
            UploadEvent::EndOfSource => EventView::EndOfSource,
            UploadEvent::Copied(n) => EventView::Copied(*n),
            UploadEvent::ReadFailed(e) => EventView::ReadFailed(e@),
            UploadEvent::WriteFailed(e) => EventView::WriteFailed(e@),
        }
    }
}

/// An upload in progress.
pub struct Upload {
    pub job: UploadJob,
    pub host: String,
    /// What the target was before.
    pub before: Option<FileStamp>,
    /// Bytes copied so far.
    pub total: u64,
}

pub struct UploadView {
    pub local: Seq<char>,
    pub nas: Seq<char>,
    pub host: Seq<char>,
    pub before: Option<FileStamp>,
    pub total: u64,
}

impl View for Upload {
    type V = UploadView;

    open spec fn view(&self) -> UploadView {
        UploadView {
            local: self.job.local_path@,
            nas: self.job.nas_path@,
            host: self.host@,
            before: self.before,
            total: self.total,
        }
    }
}

/// The end of an upload that failed.
pub open spec fn failure(u: UploadView, error: Seq<char>, remove_temp: bool) -> StepView {
    StepView::Finish {
        result: ResultView::Failed { local_path: u.local, error },
        remove_temp,
    }
}

/// The end of an upload whose file now lies at `nas`.
pub open spec fn success(u: UploadView, nas: Seq<char>) -> StepView {
    StepView::Finish {
        result: ResultView::Success { local_path: u.local, nas_path: nas },
        remove_temp: false,
    }
}

/// What comes after a step, from how the step went.
pub open spec fn upload_next(u: UploadView, step: StepView, event: EventView, now: u64) -> StepView {
    match (step, event) {
        (StepView::CreateParent, EventView::Done) => StepView::OpenSource,
        (StepView::CreateParent, EventView::Failed(e)) => failure(
            u,
            "Failed to create NAS directory: "@ + e,
            false,
        ),
        (StepView::OpenSource, EventView::Done) => StepView::StatTarget,
        (StepView::OpenSource, EventView::Failed(e)) => failure(
            u,
            "Failed to open local file: "@ + e,
            false,
        ),
        (StepView::StatTarget, EventView::Stamp(_)) => StepView::CreateTemp,
        (StepView::CreateTemp, EventView::Done) => StepView::CopyChunk,
        (StepView::CreateTemp, EventView::Failed(e)) => failure(
            u,
            "Failed to create NAS temp file: "@ + e,
            false,
        ),
        (StepView::CopyChunk, EventView::Copied(_)) => StepView::CopyChunk,
        (StepView::CopyChunk, EventView::EndOfSource) => StepView::StatAgain,
        (StepView::CopyChunk, EventView::CancelRequested) => StepView::Finish {
            result: ResultView::Cancelled { local_path: u.local },
            remove_temp: true,
        },
        (StepView::CopyChunk, EventView::ReadFailed(e)) => failure(
            u,
            "Read error at "@ + decimal(u.total as nat) + " bytes: "@ + e,
            true,
        ),
        (StepView::CopyChunk, EventView::WriteFailed(e)) => failure(
            u,
            "Write error at "@ + decimal(u.total as nat) + " bytes: "@ + e,
            true,
        ),
        (StepView::StatAgain, EventView::Stamp(after)) => match (u.before, after) {
            (Some(a), Some(b)) => if differs(a, b) {
                StepView::KeepAsConflict(upload_conflict_path(u.nas, u.host, now as nat))
            } else {
                StepView::Publish
            },
            _ => StepView::Publish,
        },
        (StepView::KeepAsConflict(p), EventView::Done) => success(u, p),
        (StepView::KeepAsConflict(p), EventView::Failed(_)) => success(u, p),
        (StepView::Publish, EventView::Done) => success(u, u.nas),
        (StepView::Publish, EventView::Failed(e)) => failure(
            u,
            "Rename to final failed: "@ + e,
            true,
        ),
        (s, _) => s,
    }
}

/// What an upload remembers after a step.
pub open spec fn upload_after(u: UploadView, step: StepView, event: EventView) -> UploadView {
    match (step, event) {
        (StepView::StatTarget, EventView::Stamp(s)) => UploadView { before: s, ..u },
        (StepView::CopyChunk, EventView::Copied(n)) => UploadView {
            total: (u.total + n) as u64,
            ..u
        },
        _ => u,
    }
}

impl Upload {
    /// An upload that has not begun.
    pub fn new(job: UploadJob, host: String) -> (u: Upload)
        ensures
            u@ == (UploadView {
                local: job.local_path@,
                nas: job.nas_path@,
                host: host@,
                before: None,
                total: 0,
            }),
    {
        Upload { job, host, before: None, total: 0 }
    }

    /// Where the upload is written first.
    pub fn temp_path(&self) -> (out: String)
        ensures
            out@ == temp_path_of(self@.nas, self@.host),
    {
        let file = file_name(Platform::Windows, self.job.nas_path.as_str());
        let mut name = ".".to_owned();
        name.append(file.as_str());
        name.append(".~sync.");
        name.append(self.host.as_str());
        with_file_name(Platform::Windows, self.job.nas_path.as_str(), name.as_str())
    }

    /// Where an upload that met a conflict at `now` (in seconds since 1970) is kept.
    pub fn conflict_path(&self, now: u64) -> (out: String)
        ensures
            out@ == upload_conflict_path(self@.nas, self@.host, now as nat),
    {
        let mut name = file_name(Platform::Windows, self.job.nas_path.as_str());
        let digits = decimal_of(now);
        name.append(".conflict.");
        name.append(self.host.as_str());
        name.append(".");
        name.append(digits.as_str());
        with_file_name(Platform::Windows, self.job.nas_path.as_str(), name.as_str())
    }

    fn failed(&self, error: String, remove_temp: bool) -> (s: UploadStep)
        ensures
            s@ == failure(self@, error@, remove_temp),
    {
        UploadStep::Finish {
            result: UploadResult::Failed { local_path: self.job.local_path.clone(), error },
            remove_temp,
        }
    }

    fn failed_because(&self, what: &str, why: &str, remove_temp: bool) -> (s: UploadStep)
        ensures
            s@ == failure(self@, what@ + why@, remove_temp),
    {
        let mut error = what.to_owned();
        error.append(why);
        self.failed(error, remove_temp)
    }

    fn failed_at(&self, what: &str, why: &str) -> (s: UploadStep)
        ensures
            s@ == failure(
                self@,
                what@ + decimal(self@.total as nat) + " bytes: "@ + why@,
                true,
            ),
    {
        let mut error = what.to_owned();
        let digits = decimal_of(self.total);
        error.append(digits.as_str());
        error.append(" bytes: ");
        error.append(why);
        self.failed(error, true)
    }

    fn succeeded(&self, nas: &str) -> (s: UploadStep)
        ensures
            s@ == success(self@, nas@),
    {
        UploadStep::Finish {
            result: UploadResult::Success {
                local_path: self.job.local_path.clone(),
                nas_path: nas.to_owned(),
            },
            remove_temp: false,
        }
    }

    /// The step after `step`, from how it went; `now` is the time in seconds since 1970. An event
    /// that does not belong to the step leaves everything as it is.
    pub fn next(&mut self, step: UploadStep, event: UploadEvent, now: u64) -> (after: UploadStep)
        requires
            event@ matches EventView::Copied(n) ==> old(self)@.total + n <= u64::MAX,
        ensures
            after@ == upload_next(old(self)@, step@, event@, now),
            final(self)@ == upload_after(old(self)@, step@, event@),
    {
        match (step, event) {
            (UploadStep::CreateParent, UploadEvent::Done) => UploadStep::OpenSource,
            (UploadStep::CreateParent, UploadEvent::Failed(e)) => self.failed_because(
                "Failed to create NAS directory: ",
                e.as_str(),
                false,
            ),
            (UploadStep::OpenSource, UploadEvent::Done) => UploadStep::StatTarget,
            (UploadStep::OpenSource, UploadEvent::Failed(e)) => self.failed_because(
                "Failed to open local file: ",
                e.as_str(),
                false,
            ),
            (UploadStep::StatTarget, UploadEvent::Stamp(s)) => {
                self.before = s;
                UploadStep::CreateTemp
            },
            (UploadStep::CreateTemp, UploadEvent::Done) => UploadStep::CopyChunk,
            (UploadStep::CreateTemp, UploadEvent::Failed(e)) => self.failed_because(
                "Failed to create NAS temp file: ",
                e.as_str(),
                false,
            ),
            (UploadStep::CopyChunk, UploadEvent::Copied(n)) => {
                self.total = self.total + n;
                UploadStep::CopyChunk
            },
            (UploadStep::CopyChunk, UploadEvent::EndOfSource) => UploadStep::StatAgain,
            (UploadStep::CopyChunk, UploadEvent::CancelRequested) => UploadStep::Finish {
                result: UploadResult::Cancelled { local_path: self.job.local_path.clone() },
                remove_temp: true,
            },
            (UploadStep::CopyChunk, UploadEvent::ReadFailed(e)) => self.failed_at(
                "Read error at ",
                e.as_str(),
            ),
            (UploadStep::CopyChunk, UploadEvent::WriteFailed(e)) => self.failed_at(
                "Write error at ",
                e.as_str(),
            ),
            (UploadStep::StatAgain, UploadEvent::Stamp(s)) => match (self.before, s) {
                (Some(a), Some(b)) => if stamp_differs(a, b) {
                    UploadStep::KeepAsConflict(self.conflict_path(now))
                } else {
                    UploadStep::Publish
                },
                _ => UploadStep::Publish,
            },
            (UploadStep::KeepAsConflict(p), UploadEvent::Done) => self.succeeded(p.as_str()),
            (UploadStep::KeepAsConflict(p), UploadEvent::Failed(_)) => self.succeeded(p.as_str()),
            (UploadStep::Publish, UploadEvent::Done) => self.succeeded(self.job.nas_path.as_str()),
            (UploadStep::Publish, UploadEvent::Failed(e)) => self.failed_because(
                "Rename to final failed: ",
                e.as_str(),
                true,
            ),
            (s, _) => s,
        }
    }
}

/// A target that changed while it was being uploaded is not overwritten: the upload is kept beside
/// it under a longer name, and that is the path that is reported.
pub proof fn law_changed_target_is_kept(
    u: UploadView,
    before: FileStamp,
    after: FileStamp,
    now: u64,
    outcome: EventView,
)
    requires
        u.before == Some(before),
        before.size != after.size || (before.modified matches Some(a)
            && after.modified matches Some(b) && (a - b >= 3_000_000_000 || b - a
            >= 3_000_000_000)),
        outcome is Done || outcome is Failed,
        can_be_base(Platform::Windows, u.nas),
        last_part(Platform::Windows, u.nas).len() > 0,
        !has_drive(last_part(Platform::Windows, u.nas)),
        forall|i: int| 0 <= i < u.host.len() ==> !is_sep(#[trigger] u.host[i]),
    ensures
        ({
            let step = upload_next(
                u,
                StepView::StatAgain,
                EventView::Stamp(Some(after)),
                now,
            );
            let kept = upload_conflict_path(u.nas, u.host, now as nat);
            let name = last_part(Platform::Windows, u.nas);
            &&& step == StepView::KeepAsConflict(kept)
            &&& kept != u.nas
            &&& kept == with_name(Platform::Windows, u.nas, last_part(Platform::Windows, kept))
            &&& name.is_prefix_of(last_part(Platform::Windows, kept))
            &&& name.len() < last_part(Platform::Windows, kept).len()
            &&& last_part(Platform::Windows, kept) == name + ".conflict."@ + u.host + "."@ + decimal(
                now as nat,
            )
            &&& upload_next(u, step, outcome, now) == success(u, kept)
        }),
{
    let name = last_part(Platform::Windows, u.nas);
    crate::paths::lemma_name_start(Platform::Windows, u.nas);
    crate::paths::lemma_last_start(
        Platform::Windows,
        u.nas,
        crate::paths::front_len(Platform::Windows, u.nas),
        crate::paths::names_end(Platform::Windows, u.nas),
    );
    reveal_strlit(".conflict.");
    reveal_strlit(".");
    let digits = decimal(now as nat);
    let long = name + ".conflict."@ + u.host + "."@ + digits;
    crate::text::lemma_decimal_digits(now as nat);
    assert(name =~= long.subrange(0, name.len() as int));
    assert forall|i: int| 0 <= i < long.len() implies !is_sep(#[trigger] long[i]) by {
        let n = name.len();
        if i < n {
            assert(long[i] == name[i]);
            assert(!crate::paths::sep_of(Platform::Windows, name[i]));
        } else if i < n + 10 {
            assert(long[i] == ".conflict."@[i - n]);
        } else if i < n + 10 + u.host.len() {
            assert(long[i] == u.host[i - n - 10]);
        } else if i < n + 11 + u.host.len() {
            assert(long[i] == '.');
        } else {
            assert(long[i] == digits[i - n - 11 - u.host.len()]);
        }
    }
    assert(joins_below(Platform::Windows, long)) by {
        if has_drive(long) {
            assert(long[0] == name[0]);
            if name.len() >= 2 {
                assert(long[1] == name[1]);
            } else {
                assert(long[1] == '.');
            }
        }
    }
    assert forall|i: int| 0 <= i < long.len() implies !crate::paths::sep_of(
        Platform::Windows,
        #[trigger] long[i],
    ) by {
        assert(!is_sep(long[i]));
    }
    lemma_with_name(Platform::Windows, u.nas, long);
}

/// An upload whose target did not change in the meantime replaces it.
pub proof fn law_unchanged_target_is_replaced(
    u: UploadView,
    before: FileStamp,
    after: FileStamp,
    now: u64,
)
    requires
        u.before == Some(before),
        before.size == after.size,
        before.modified matches Some(a) && after.modified matches Some(b) ==> -3_000_000_000 < a - b
            < 3_000_000_000,
    ensures
        ({
            let step = upload_next(
                u,
                StepView::StatAgain,
                EventView::Stamp(Some(after)),
                now,
            );
            &&& step == StepView::Publish
            &&& upload_next(u, step, EventView::Done, now) == success(u, u.nas)
        }),
{
}

/// No partly written file stays behind: an upload that ends while it writes, or that cannot be
/// published, removes what it wrote.
pub proof fn law_no_partial_file_stays(u: UploadView, step: StepView, event: EventView, now: u64)
    requires
        step is CopyChunk || step is Publish,
    ensures
        upload_next(u, step, event, now) matches StepView::Finish { result, remove_temp } ==> (
        remove_temp <==> !(result is Success)),
{
}

/// Only a request ends an upload as cancelled, and only while it copies.
pub proof fn law_only_requests_cancel(u: UploadView, step: StepView, event: EventView, now: u64)
    requires
        !(step is Finish),
    ensures
        upload_next(u, step, event, now) matches StepView::Finish { result, remove_temp } ==> (
        result is Cancelled <==> step is CopyChunk && event is CancelRequested),
{
}

/// The name of the written file shows where it comes from.
pub open spec fn sync_mark() -> Seq<char> {
    ".~sync."@
}

/// Names of files that are never uploaded: files the agent or an office program is still writing.
pub open spec fn never_uploaded(name: Seq<char>) -> bool {
    occurs(name, sync_mark()) || "~$"@.is_prefix_of(name) || ".tmp"@.is_suffix_of(name)
}

fn is_never_uploaded(name: &str) -> (r: bool)
    ensures
        r == never_uploaded(name@),
{
    contains(name, ".~sync.") || starts_with(name, "~$") || ends_with(name, ".tmp")
}

/// What the recovery at startup does with an entry of the sync root.
#[derive(Clone, Copy, Debug, PartialEq, Eq, Structural)]
pub enum RecoveryStep {
    Skip,
    Descend,
    Upload,
}

/// Whether attributes are those of a file that exists and is no directory.
pub open spec fn file_attributes(attrs: u32) -> bool {
    attrs != u32::MAX && attrs & 0x10 == 0
}

/// Whether attributes are those of a file that exists and is no directory.
pub fn is_file(attrs: u32) -> (r: bool)
    ensures
        r == file_attributes(attrs),
{
    attrs != u32::MAX && attrs & 0x10 == 0
}

/// What the recovery at startup does with an entry of the sync root.
pub fn recovery_step(name: &str, is_dir: bool, attrs: u32) -> (s: RecoveryStep)
    ensures
        s == if never_uploaded(name@) {
            RecoveryStep::Skip
        } else if is_dir {
            RecoveryStep::Descend
        } else if file_attributes(attrs) {
            RecoveryStep::Upload
        } else {
            RecoveryStep::Skip
        },
{
    if is_never_uploaded(name) {
        RecoveryStep::Skip
    } else if is_dir {
        RecoveryStep::Descend
    } else if is_file(attrs) {
        RecoveryStep::Upload
    } else {
        RecoveryStep::Skip
    }
}

/// What the cleaning at startup does with an entry of the server: whether to remove it as a file
/// that an upload of this machine left behind, and whether to look below it.
pub fn cleaning_step(name: &str, host: &str, is_dir: bool) -> (r: (bool, bool))
    ensures
        r.0 == occurs(name@, sync_mark() + host@),
        r.1 == (is_dir && !(name@.len() > 0 && (name@[0] == '#' || name@[0] == '@'))),
{
    let mut pattern = ".~sync.".to_owned();
    pattern.append(host);
    let orphan = contains(name, pattern.as_str());
    let descend = is_dir && !starts_with_char(name, '#') && !starts_with_char(name, '@');
    (orphan, descend)
}

/// What an upload writes is never uploaded itself, and the cleaning of its machine finds it.
pub proof fn law_temp_file_is_recognised(path: Seq<char>, host: Seq<char>)
    ensures
        ({
            let name = "."@ + last_part(Platform::Windows, path) + ".~sync."@ + host;
            &&& never_uploaded(name)
            &&& occurs(name, sync_mark() + host)
        }),
{
    let file = last_part(Platform::Windows, path);
    let name = "."@ + file + ".~sync."@ + host;
    let i = ("."@ + file).len() as int;
    assert(name.subrange(i, i + sync_mark().len()) =~= sync_mark());
    assert(crate::text::occurs_at(name, sync_mark(), i));
    assert(name.subrange(i, i + (sync_mark() + host).len()) =~= sync_mark() + host);
    assert(crate::text::occurs_at(name, sync_mark() + host, i));
}

/// A file counts as another one whenever its size changed, whether it grew or shrank, and
/// whenever its time moved by three seconds or more in either direction; a file of which neither
/// is known to have happened counts as the same.
pub proof fn law_any_change_of_a_file_is_seen(pre: FileStamp, post: FileStamp)
    ensures
        pre.size < post.size ==> differs(pre, post),
        pre.size > post.size ==> differs(pre, post),
        pre.modified matches Some(a) && post.modified matches Some(b) && a - b >= 3_000_000_000
            ==> differs(pre, post),
        pre.modified matches Some(a) && post.modified matches Some(b) && b - a >= 3_000_000_000
            ==> differs(pre, post),
        pre.size == post.size ==> (pre.modified matches Some(a) && post.modified matches Some(b)
            && -3_000_000_000 < a - b < 3_000_000_000 ==> !differs(pre, post)),
        pre.size == post.size && (pre.modified is None || post.modified is None) ==> !differs(
            pre,
            post,
        ),
        differs(pre, post) == differs(post, pre),
        !differs(pre, pre),
{
}

/// A target that was not there before the upload, or is gone after it, cannot be overwritten
/// unseen, so the upload takes its place.
pub proof fn law_missing_target_is_filled(u: UploadView, after: Option<FileStamp>, now: u64)
    requires
        u.before is None || after is None,
    ensures
        upload_next(u, StepView::StatAgain, EventView::Stamp(after), now) is Publish,
{
}

/// The steps of an upload follow each other in one order: the directory, the source, a look at the
/// target, the temporary file, the copy until the source ends, and a second look at the target.
pub proof fn law_upload_takes_its_steps_in_order(u: UploadView, stamp: Option<FileStamp>, n: u64, now: u64)
    ensures
        upload_next(u, StepView::CreateParent, EventView::Done, now) is OpenSource,
        upload_next(u, StepView::OpenSource, EventView::Done, now) is StatTarget,
        upload_next(u, StepView::StatTarget, EventView::Stamp(stamp), now) is CreateTemp,
        upload_next(u, StepView::CreateTemp, EventView::Done, now) is CopyChunk,
        upload_next(u, StepView::CopyChunk, EventView::Copied(n), now) is CopyChunk,
        upload_next(u, StepView::CopyChunk, EventView::EndOfSource, now) is StatAgain,
{
}

/// An upload remembers the stamp that its first look at the target found and how much it copied,
/// and forgets neither what it uploads nor where to.
pub proof fn law_upload_remembers(
    u: UploadView,
    step: StepView,
    event: EventView,
    stamp: Option<FileStamp>,
    n: u64,
)
    requires
        u.total + n <= u64::MAX,
    ensures
        upload_after(u, StepView::StatTarget, EventView::Stamp(stamp)).before == stamp,
        upload_after(u, StepView::CopyChunk, EventView::Copied(n)).total == u.total + n,
        upload_after(u, step, event).local == u.local,
        upload_after(u, step, event).nas == u.nas,
        upload_after(u, step, event).host == u.host,
        !(step is StatTarget) ==> upload_after(u, step, event).before == u.before,
        !(step is CopyChunk) ==> upload_after(u, step, event).total == u.total,
{
}

/// Whatever ends an upload names the local file that was uploaded. A failure ends with the reason
/// that was met, and comes only where some step failed.
pub proof fn law_upload_reports_what_happened(u: UploadView, step: StepView, event: EventView, now: u64)
    requires
        !(step is Finish),
    ensures
        upload_next(u, step, event, now) matches StepView::Finish { result, remove_temp } ==> {
            &&& result matches ResultView::Success { local_path, nas_path } ==> local_path == u.local
                && (step is Publish ==> nas_path == u.nas && event is Done) && (
            step is Publish || step is KeepAsConflict)
            &&& result matches ResultView::Cancelled { local_path } ==> local_path == u.local
            &&& result matches ResultView::Failed { local_path, error } ==> local_path == u.local
                && match event {
                EventView::Failed(e) => e.is_suffix_of(error),
                EventView::ReadFailed(e) => e.is_suffix_of(error) && step is CopyChunk,
                EventView::WriteFailed(e) => e.is_suffix_of(error) && step is CopyChunk,
                _ => false,
            }
        },
        step is CreateParent && event is Failed || step is OpenSource && event is Failed
            || step is CreateTemp && event is Failed || step is Publish && event is Failed
            || step is CopyChunk && (event is ReadFailed || event is WriteFailed) ==> (upload_next(
            u,
            step,
            event,
            now,
        ) matches StepView::Finish { result, remove_temp } && result is Failed),
        event matches EventView::CancelRequested ==> (step is CopyChunk ==> (upload_next(
            u,
            step,
            event,
            now,
        ) matches StepView::Finish { result, remove_temp } && result is Cancelled)),
{
    if let StepView::Finish { result, remove_temp } = upload_next(u, step, event, now) {
        if let ResultView::Failed { local_path, error } = result {
            let e = match event {
                EventView::Failed(e) => e,
                EventView::ReadFailed(e) => e,
                EventView::WriteFailed(e) => e,
                _ => Seq::empty(),
            };
            assert(error.subrange(error.len() - e.len(), error.len() as int) =~= e);
        }
    }
}

/// A file of the sync root has its place on the server at the same path below the share.
pub proof fn law_place_on_the_server_mirrors_the_sync_root(
    client_root: Seq<char>,
    nas_root: Seq<char>,
    rel: Seq<char>,
)
    requires
        client_root.len() > 0,
        nas_root.len() > 0,
        can_be_base(Platform::Windows, client_root),
        can_be_base(Platform::Windows, nas_root),
        joins_below(Platform::Windows, rel),
        crate::paths::trimmed_path(Platform::Windows, rel) == rel,
    ensures
        ({
            let local = joined(Platform::Windows, client_root, rel);
            let place = nas_path_of(local, client_root, nas_root);
            &&& place == joined(Platform::Windows, nas_root, rel)
            &&& below(Platform::Windows, nas_root, place) == Some(rel)
        }),
{
    crate::paths::law_joined_path_lies_below(Platform::Windows, client_root, rel);
    crate::paths::law_joined_path_lies_below(Platform::Windows, nas_root, rel);
}

/// Handing files to the workers forgets and adds none, takes every file that waited long enough
/// and leaves all others as they were.
pub proof fn law_only_waiting_files_are_handed_out(
    files: Map<Seq<char>, FileState>,
    path: Seq<char>,
    now: int,
)
    ensures
        dispatched(files, now).dom() == files.dom(),
        files.contains_key(path) ==> match files[path] {
            FileState::Uploading => dispatched(files, now)[path] is Uploading,
            FileState::Debouncing { deadline } => if deadline <= now {
                dispatched(files, now)[path] is Uploading
            } else {
                dispatched(files, now)[path] == files[path]
            },
        },
        forall|later: int| now <= later ==> #[trigger] dispatched(dispatched(files, now), later)
            == dispatched(files, later),
{
    assert(dispatched(files, now).dom() =~= files.dom());
    assert forall|later: int| now <= later implies #[trigger] dispatched(
        dispatched(files, now),
        later,
    ) == dispatched(files, later) by {
        assert(dispatched(dispatched(files, now), later) =~= dispatched(files, later));
    }
}

/// A change cancels the upload of its own file, where there is one, and no wait.
pub proof fn law_only_running_uploads_are_interrupted(
    files: Map<Seq<char>, FileState>,
    path: Seq<char>,
    deadline: u64,
)
    ensures
        interrupts(files.insert(path, FileState::Uploading), path),
        !interrupts(files.insert(path, FileState::Debouncing { deadline }), path),
        !interrupts(files.remove(path), path),
        forall|other: Seq<char>| other != path ==> #[trigger] interrupts(
            files.insert(path, FileState::Uploading),
            other,
        ) == interrupts(files, other),
{
}

/// Marks keep their times, and one that ran out never comes back.
pub proof fn law_marks_run_out_for_good(m: Map<Seq<char>, u64>, now: int, later: int, ttl: int)
    requires
        now <= later,
    ensures
        recent_entries(recent_entries(m, now, ttl), later, ttl) == recent_entries(m, later, ttl),
        forall|k: Seq<char>| #[trigger]
            recent_entries(m, now, ttl).contains_key(k) ==> m.contains_key(k) && recent_entries(
                m,
                now,
                ttl,
            )[k] == m[k] && now < m[k] + ttl,
        forall|k: Seq<char>| #[trigger]
            m.contains_key(k) && now < m[k] + ttl ==> recent_entries(m, now, ttl).contains_key(k),
{
    assert(recent_entries(recent_entries(m, now, ttl), later, ttl) =~= recent_entries(
        m,
        later,
        ttl,
    ));
}

/// A file whose writing is not finished is not uploaded, whatever else its name holds; a name
/// without a tilde that does not end like a temporary file is.
pub proof fn law_unfinished_files_stay_local(a: Seq<char>, b: Seq<char>)
    ensures
        never_uploaded(a + ".~sync."@ + b),
        never_uploaded("~$"@ + a),
        never_uploaded(a + ".tmp"@),
        (forall|i: int| 0 <= i < a.len() ==> a[i] != '~') && (a.len() == 0 || a.last() != 'p')
            ==> !never_uploaded(a),
{
    reveal_strlit(".~sync.");
    reveal_strlit("~$");
    reveal_strlit(".tmp");
    let s = a + ".~sync."@ + b;
    assert(s.subrange(a.len() as int, a.len() as int + 7) =~= ".~sync."@);
    assert(crate::text::occurs_at(s, sync_mark(), a.len() as int));
    let t = "~$"@ + a;
    assert(t.subrange(0, 2) =~= "~$"@);
    let v = a + ".tmp"@;
    assert(v.subrange(v.len() - 4, v.len() as int) =~= ".tmp"@);
    if (forall|i: int| 0 <= i < a.len() ==> a[i] != '~') && (a.len() == 0 || a.last() != 'p') {
        if occurs(a, sync_mark()) {
            let i = choose|i: int| #[trigger] crate::text::occurs_at(a, sync_mark(), i);
            assert(a.subrange(i, i + 7)[1] == '~');
            assert(a[i + 1] == '~');
        }
        if "~$"@.is_prefix_of(a) {
            assert(a.subrange(0, 2)[0] == '~');
        }
        if ".tmp"@.is_suffix_of(a) {
            assert(a.subrange(a.len() - 4, a.len() as int)[3] == 'p');
        }
    }
}

/// Attributes are those of a file unless they say that nothing is there or that it is a directory.
pub proof fn law_directories_are_no_files(attrs: u32)
    ensures
        !file_attributes(0xffff_ffff),
        !file_attributes(attrs | 0x10),
        attrs & 0x10 == 0 ==> file_attributes(attrs),
{
    assert((attrs | 0x10) & 0x10 != 0) by (bit_vector);
    assert(attrs & 0x10 == 0 ==> attrs != 0xffff_ffff) by (bit_vector);
}

/// A changed file waits for three seconds from its last change, and an upload of it that runs is
/// cancelled; a removed one is forgotten. Other files are not touched.
pub proof fn law_changes_start_the_wait_anew(
    c: &mut Coordinator,
    path: String,
    event: ClientFsEvent,
    now: u64,
    cancel: bool,
    other: Seq<char>,
)
    requires
        old(c).wf(),
        now + 3_000 <= u64::MAX,
        event == ClientFsEvent::Modified(path) || event == ClientFsEvent::Removed(path),
        other != path@,
        !old(c).converted().contains_key(path@),
        call_ensures(Coordinator::on_event, (c, &event, now), cancel),
    ensures
        event is Modified ==> final(c).files().contains_key(path@) && final(c).files()[path@] == (
        FileState::Debouncing { deadline: (now + 3_000) as u64 }),
        event is Removed ==> !final(c).files().contains_key(path@),
        cancel <==> old(c).files().contains_key(path@) && old(c).files()[path@] is Uploading,
        final(c).files().contains_key(other) == old(c).files().contains_key(other),
        old(c).files().contains_key(other) ==> final(c).files()[other] == old(c).files()[other],
        final(c).client() == old(c).client(),
        final(c).nas() == old(c).nas(),
{
}

/// The first change within two seconds of a conversion is the conversion itself: it starts no
/// upload and is remembered no longer.
pub proof fn law_conversions_start_no_upload(
    c: &mut Coordinator,
    path: String,
    now: u64,
    cancel: bool,
)
    requires
        old(c).wf(),
        now + 3_000 <= u64::MAX,
        old(c).converted().contains_key(path@),
        now - old(c).converted()[path@] < 2_000,
        call_ensures(
            Coordinator::on_event,
            (c, &ClientFsEvent::Modified(path), now),
            cancel,
        ),
    ensures
        !cancel,
        final(c).files() == old(c).files(),
        !final(c).converted().contains_key(path@),
{
    let kept = recent_entries(old(c).converted(), now as int, CONVERSION_SUPPRESS_MS as int);
    assert(kept.contains_key(path@));
}

/// Every file whose wait is over is handed out exactly once, with its own place on the server, and
/// counts as being uploaded; no other file is handed out.
pub proof fn law_due_files_are_handed_out(
    c: &mut Coordinator,
    now: u64,
    jobs: Vec<UploadJob>,
    path: Seq<char>,
    deadline: u64,
)
    requires
        old(c).wf(),
        old(c).files().contains_key(path),
        old(c).files()[path] == (FileState::Debouncing { deadline }),
        call_ensures(Coordinator::check_deadlines, (c, now), jobs),
    ensures
        deadline <= now ==> final(c).files()[path] is Uploading && exists|i: int|
            0 <= i < jobs@.len() && (#[trigger] jobs@[i]).local_path@ == path && jobs@[i].nas_path@
                == nas_path_of(path, old(c).client(), old(c).nas()),
        deadline > now ==> final(c).files()[path] == old(c).files()[path] && forall|i: int|
            0 <= i < jobs@.len() ==> (#[trigger] jobs@[i]).local_path@ != path,
        forall|i: int, j: int|
            0 <= i < j < jobs@.len() ==> (#[trigger] jobs@[i]).local_path@ != (
            #[trigger] jobs@[j]).local_path@,
{
    if deadline <= now {
        assert(old(c).files().contains_key(path) && due(old(c).files()[path], now as int));
        let i = choose|i: int| 0 <= i < jobs@.len() && (#[trigger] jobs@[i]).local_path@ == path;
        assert(jobs@[i].local_path@ == path);
    } else {
        assert forall|i: int| 0 <= i < jobs@.len() implies (#[trigger] jobs@[i]).local_path@
            != path by {
            if jobs@[i].local_path@ == path {
                assert(due(old(c).files()[path], now as int));
            }
        }
    }
}

/// A file that was uploaded is converted and remembered as such, one that failed is forgotten, and
/// one whose upload was cancelled keeps waiting.
pub proof fn law_results_settle_their_file(
    c: &mut Coordinator,
    result: UploadResult,
    now: u64,
    convert: bool,
    path: Seq<char>,
)
    requires
        old(c).wf(),
        match result@ {
            ResultView::Success { local_path, .. } => local_path == path,
            ResultView::Cancelled { local_path } => local_path == path,
            ResultView::Failed { local_path, .. } => local_path == path,
        },
        call_ensures(Coordinator::on_upload_result, (c, &result, now), convert),
    ensures
        convert <==> result is Success,
        result is Success ==> final(c).converted().contains_key(path) && final(c).converted()[path]
            == now,
        !(result is Success) ==> final(c).converted() == old(c).converted(),
        result is Cancelled ==> final(c).files() == old(c).files(),
        !(result is Cancelled) ==> final(c).files() == old(c).files().remove(path),
{
}

/// A path is suppressed for five seconds after it was marked, and asking does not mark or unmark
/// it.
pub proof fn law_marked_paths_are_suppressed(
    e: &mut EchoSuppressor,
    path: &str,
    now: u64,
    r: bool,
)
    requires
        old(e).wf(),
        call_ensures(EchoSuppressor::is_suppressed, (e, path, now), r),
    ensures
        r <==> old(e)@.contains_key(path@) && now - old(e)@[path@] < 5_000,
        r ==> final(e)@.contains_key(path@) && final(e)@[path@] == old(e)@[path@],
{
}

/// The file to which an upload is written first lies beside the target, is named after it and after
/// the machine, and is itself never uploaded.
pub proof fn law_unfinished_files_are_not_uploaded(path: Seq<char>, host: Seq<char>)
    requires
        can_be_base(Platform::Windows, path),
        last_part(Platform::Windows, path).len() > 0,
        forall|i: int| 0 <= i < host.len() ==> !is_sep(#[trigger] host[i]),
    ensures
        ({
            let t = temp_path_of(path, host);
            let name = last_part(Platform::Windows, t);
            &&& name == "."@ + last_part(Platform::Windows, path) + ".~sync."@ + host
            &&& t == with_name(Platform::Windows, path, name)
            &&& never_uploaded(name)
        }),
{
    let name = last_part(Platform::Windows, path);
    crate::paths::lemma_name_start(Platform::Windows, path);
    crate::paths::lemma_last_start(
        Platform::Windows,
        path,
        crate::paths::front_len(Platform::Windows, path),
        crate::paths::names_end(Platform::Windows, path),
    );
    reveal_strlit(".");
    reveal_strlit(".~sync.");
    let long = "."@ + name + ".~sync."@ + host;
    assert forall|i: int| 0 <= i < long.len() implies !crate::paths::sep_of(
        Platform::Windows,
        #[trigger] long[i],
    ) by {
        let n = name.len() + 1;
        if i == 0 {
            assert(long[i] == '.');
        } else if i < n {
            assert(long[i] == name[i - 1]);
            assert(!crate::paths::sep_of(Platform::Windows, name[i - 1]));
        } else if i < n + 7 {
            assert(long[i] == ".~sync."@[i - n]);
        } else {
            assert(long[i] == host[i - n - 7]);
            assert(!is_sep(host[i - n - 7]));
        }
    }
    assert(long[0] == '.');
    assert(joins_below(Platform::Windows, long));
    lemma_with_name(Platform::Windows, path, long);
    let at: int = 1int + name.len();
    assert(long.subrange(at, at + 7) =~= ".~sync."@);
    assert(crate::text::occurs_at(long, sync_mark(), at));
}

/// An upload that fails before its file is there leaves nothing to remove; one that ends while it
/// is copied removes what it wrote.
pub proof fn law_only_written_files_are_removed(
    u: UploadView,
    step: StepView,
    event: EventView,
    now: u64,
)
    requires
        step is CreateParent || step is OpenSource || step is CreateTemp || step is CopyChunk,
    ensures
        !(step is CopyChunk) && event is Failed ==> upload_next(u, step, event, now) is Finish,
        step is CopyChunk && (event is CancelRequested || event is ReadFailed
            || event is WriteFailed) ==> upload_next(u, step, event, now) is Finish,
        !(step is CopyChunk) && event is Failed ==> (upload_next(u, step, event, now) matches StepView::Finish {
            result,
            remove_temp,
        } ==> !remove_temp && !(result is Success)),
        step is CopyChunk && (event is CancelRequested || event is ReadFailed
            || event is WriteFailed) ==> (upload_next(u, step, event, now) matches StepView::Finish {
            result,
            remove_temp,
        } ==> remove_temp && !(result is Success)),
{
}

} // verus!
