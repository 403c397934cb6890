//! Cache state of one share: what its folders held when they were last seen,
//! what is held locally, and what has to be dropped. Times are microseconds.
use crate::cache_core::{
    apart, child_path, join_rel, law_child_path_is_unique, law_parent_of_child, parent_of,
    parent_path, plain_name, times_apart, EVICTION_TARGET_PERCENT,
};
use crate::file_table::{
    as_map, dropped, evictable, fresh_row, has_path, held_bytes, held_count, held_total, is_oldest,
    lemma_held_total_bounds, lemma_map_update, lemma_row_at, none_evictable, row_index,
    unique_paths, without_orphans, FileTable, KnownFile, Row,
};
use crate::folder_table::{with_folder, Folder, FolderTable};
use crate::messages::DirEntry;
use crate::paths::{below_home, home_dir, join, joined, Environment};
use crate::text::{join2, list_has, same, starts_with_char, texts};
use vstd::prelude::*;

verus! {

/// Times closer than this (1 ms) are taken as equal.
pub const SAME_TIME_MICROS: i64 = 1_000;

/// A change of time up to this (1 s) is not reported.
pub const REPORTED_CHANGE_MICROS: i64 = 1_000_000;

/// The number of bytes that an eviction under the budget `limit` brings the cache down to.
pub open spec fn eviction_target(limit: int) -> int {
    limit * EVICTION_TARGET_PERCENT as int / 100
}

/// The number of bytes that an eviction under the budget `limit` brings the cache down to.
pub fn target_of(limit: u64) -> (t: u64)
    ensures
        t == eviction_target(limit as int),
        t <= limit,
{
    let wide: u128 = limit as u128 * EVICTION_TARGET_PERCENT as u128 / 100;
    wide as u64
}

/// Names that are never shown: hidden files and the share's own folders.
pub open spec fn hidden_name(name: Seq<char>) -> bool {
    name.len() > 0 && (name[0] == '.' || name[0] == '@' || name[0] == '#')
}

/// Whether a name is never shown.
pub fn is_hidden_name(name: &str) -> (r: bool)
    ensures
        r == hidden_name(name@),
{
    starts_with_char(name, '.') || starts_with_char(name, '@') || starts_with_char(name, '#')
}

/// A folder of the share as it was read.
pub struct FolderListing {
    /// Path of the folder; the root is the empty path.
    pub folder: String,
    /// Its entries.
    pub entries: Vec<DirEntry>,
}

/// A new or changed entry.
pub struct ChangedEntry {
    pub relative_path: String,
    pub name: String,
    pub is_dir: bool,
    pub size: u64,
    pub modified: i64,
    pub created: i64,
}

/// What a `ChangedEntry` says.
pub struct Change {
    pub path: Seq<char>,
    pub name: Seq<char>,
    pub is_dir: bool,
    pub size: u64,
    pub modified: i64,
    pub created: i64,
}

impl ChangedEntry {
    pub open spec fn change(&self) -> Change {
        Change {
            path: self.relative_path@,
            name: self.name@,
            is_dir: self.is_dir,
            size: self.size,
            modified: self.modified,
            created: self.created,
        }
    }
}

/// What changed on the share.
pub struct ChangesResult {
    /// New and changed entries.
    pub updated: Vec<ChangedEntry>,
    /// Paths that are gone.
    pub deleted: Vec<String>,
}

/// Outcome of a check of one file against the share.
pub enum StatResult {
    /// Checked a short time ago: the share was not asked.
    Skipped,
    /// The share agrees.
    Fresh { size: u64, mtime: i64 },
    /// The share differs; its values were taken over.
    Drifted { size: u64, mtime: i64 },
    /// The path is not known.
    Unknown { size: u64, mtime: i64 },
    /// The share could not be asked.
    Error(String),
}

pub open spec fn changes(v: Seq<ChangedEntry>) -> Seq<Change> {
    v.map_values(|c: ChangedEntry| c.change())
}

/// The row that an enumeration of the folder `rel` makes of an entry.
pub open spec fn listed_row(rel: Seq<char>, e: DirEntry) -> Row {
    fresh_row(e.name@, e.is_dir, e.size, e.modified, e.created, rel)
}

/// The rows after the entries of the folder `rel` were put one after the other.
pub open spec fn with_entries(
    m: Map<Seq<char>, Row>,
    rel: Seq<char>,
    es: Seq<DirEntry>,
) -> Map<Seq<char>, Row>
    decreases es.len(),
{
    if es.len() == 0 {
        m
    } else {
        with_entries(m, rel, es.drop_last()).insert(
            child_path(rel, es.last().name@),
            listed_row(rel, es.last()),
        )
    }
}

/// The paths of the entries of the folder `rel`.
pub open spec fn entry_paths(rel: Seq<char>, es: Seq<DirEntry>) -> Seq<Seq<char>> {
    es.map_values(|e: DirEntry| child_path(rel, e.name@))
}

/// Whether the share's size and time for an entry differ from what its row says.
pub open spec fn drifts(r: Row, size: u64, mtime: i64) -> bool {
    size != r.nas_size || apart(mtime, r.nas_mtime, SAME_TIME_MICROS as int)
}

/// The paths, in order, whose local content an enumeration finds to be out of date.
pub open spec fn drifted_paths(
    m: Map<Seq<char>, Row>,
    rel: Seq<char>,
    es: Seq<DirEntry>,
) -> Seq<Seq<char>>
    decreases es.len(),
{
    if es.len() == 0 {
        Seq::empty()
    } else {
        let before = with_entries(m, rel, es.drop_last());
        let e = es.last();
        let p = child_path(rel, e.name@);
        let rest = drifted_paths(m, rel, es.drop_last());
        if !e.is_dir && before.contains_key(p) && before[p].is_hydrated && drifts(
            before[p],
            e.size,
            e.modified,
        ) {
            rest.push(p)
        } else {
            rest
        }
    }
}

/// Whether some known row of the folder has the given name.
pub open spec fn name_known(m: Map<Seq<char>, Row>, folder: Seq<char>, name: Seq<char>) -> bool {
    exists|p: Seq<char>| #[trigger]
        m.contains_key(p) && m[p].parent == folder && m[p].name == name
}

/// The entry at `i` is shown, and is the last one of its name.
pub open spec fn effective(f: FolderListing, i: int) -> bool {
    &&& 0 <= i < f.entries@.len()
    &&& !hidden_name(f.entries@[i].name@)
    &&& forall|j: int|
        i < j < f.entries@.len() ==> (#[trigger] f.entries@[j]).name@ != f.entries@[i].name@
}

/// Whether the folder was read with an entry of the given name that is shown.
pub open spec fn lists_name(f: FolderListing, name: Seq<char>) -> bool {
    exists|i: int| #[trigger] effective(f, i) && f.entries@[i].name@ == name
}

/// The entry at `i` is not known yet.
pub open spec fn is_new(m: Map<Seq<char>, Row>, f: FolderListing, i: int) -> bool {
    effective(f, i) && !name_known(m, f.folder@, f.entries@[i].name@)
}

/// The entry at `i` is known with another size or a clearly different time.
pub open spec fn is_changed(m: Map<Seq<char>, Row>, f: FolderListing, i: int) -> bool {
    let e = f.entries@[i];
    let p = child_path(f.folder@, e.name@);
    &&& effective(f, i)
    &&& name_known(m, f.folder@, e.name@)
    &&& m.contains_key(p)
    &&& m[p].parent == f.folder@
    &&& e.size != m[p].nas_size || apart(
        e.modified,
        m[p].nas_mtime,
        REPORTED_CHANGE_MICROS as int,
    )
}

/// The report of the entry at `i`.
pub open spec fn change_of(f: FolderListing, i: int) -> Change {
    let e = f.entries@[i];
    Change {
        path: child_path(f.folder@, e.name@),
        name: e.name@,
        is_dir: e.is_dir,
        size: e.size,
        modified: e.modified,
        created: e.created,
    }
}

/// The reports of the first `n` entries that are new.
pub open spec fn new_changes(m: Map<Seq<char>, Row>, f: FolderListing, n: nat) -> Seq<Change>
    decreases n,
{
    if n == 0 {
        Seq::empty()
    } else if is_new(m, f, n - 1) {
        new_changes(m, f, (n - 1) as nat).push(change_of(f, n - 1))
    } else {
        new_changes(m, f, (n - 1) as nat)
    }
}

/// The reports of the first `n` entries that changed.
pub open spec fn altered_changes(m: Map<Seq<char>, Row>, f: FolderListing, n: nat) -> Seq<Change>
    decreases n,
{
    if n == 0 {
        Seq::empty()
    } else if is_changed(m, f, n - 1) {
        altered_changes(m, f, (n - 1) as nat).push(change_of(f, n - 1))
    } else {
        altered_changes(m, f, (n - 1) as nat)
    }
}

/// The reports of the folders of a snapshot: of each folder what is new, and then what changed.
pub open spec fn reported(m: Map<Seq<char>, Row>, snap: Seq<FolderListing>) -> Seq<Change>
    decreases snap.len(),
{
    if snap.len() == 0 {
        Seq::empty()
    } else {
        let f = snap.last();
        reported(m, snap.drop_last()) + new_changes(m, f, f.entries@.len()) + altered_changes(
            m,
            f,
            f.entries@.len(),
        )
    }
}

/// The folder holds a known row of that name, and was read without it.
pub open spec fn is_gone(m: Map<Seq<char>, Row>, f: FolderListing, name: Seq<char>) -> bool {
    name_known(m, f.folder@, name) && !lists_name(f, name)
}

/// Whether the path is that of an entry that a folder of the snapshot no longer has.
pub open spec fn is_gone_path(
    m: Map<Seq<char>, Row>,
    snap: Seq<FolderListing>,
    p: Seq<char>,
) -> bool {
    exists|k: int, name: Seq<char>|
        0 <= k < snap.len() && #[trigger] is_gone(m, snap[k], name) && p == child_path(
            snap[k].folder@,
            name,
        )
}

/// No folder stands twice in the snapshot.
pub open spec fn distinct_folders(snap: Seq<FolderListing>) -> bool {
    forall|i: int, j: int|
        0 <= i < j < snap.len() ==> (#[trigger] snap[i]).folder@ != (#[trigger] snap[j]).folder@
}

/// No known name holds a slash.
pub open spec fn plain_names(m: Map<Seq<char>, Row>) -> bool {
    forall|p: Seq<char>| #[trigger] m.contains_key(p) ==> plain_name(m[p].name)
}

/// The paths of the entries of a folder.
pub open spec fn children(folder: Seq<char>, names: Seq<Seq<char>>) -> Seq<Seq<char>> {
    names.map_values(|n: Seq<char>| child_path(folder, n))
}

/// The row that a report is taken over as.
pub open spec fn change_row(c: Change) -> Row {
    fresh_row(c.name, c.is_dir, c.size, c.modified, c.created, parent_path(c.path))
}

/// The rows after the reports were taken over one after the other.
pub open spec fn with_changes(m: Map<Seq<char>, Row>, cs: Seq<Change>) -> Map<Seq<char>, Row>
    decreases cs.len(),
{
    if cs.len() == 0 {
        m
    } else {
        with_changes(m, cs.drop_last()).insert(cs.last().path, change_row(cs.last()))
    }
}

/// The rows without those of the given paths.
pub open spec fn without_paths(m: Map<Seq<char>, Row>, ps: Seq<Seq<char>>) -> Map<Seq<char>, Row> {
    Map::new(|p: Seq<char>| m.contains_key(p) && !ps.contains(p), |p: Seq<char>| m[p])
}

/// The row with its local content dropped.
pub open spec fn dropped_file(r: KnownFile) -> KnownFile {
    KnownFile { is_hydrated: false, hydrated_size: 0, ..r }
}

/// The rows after the local content of the given paths was dropped, one after the other.
pub open spec fn after_drops(rows: Seq<KnownFile>, ps: Seq<Seq<char>>) -> Seq<KnownFile>
    decreases ps.len(),
{
    if ps.len() == 0 {
        rows
    } else {
        let before = after_drops(rows, ps.drop_last());
        let i = row_index(before, ps.last());
        before.update(i, dropped_file(before[i]))
    }
}

/// More than `target` is held, and `p` is the least recently used file of which content is held.
pub open spec fn drops_next(now: Seq<KnownFile>, target: int, p: Seq<char>) -> bool {
    &&& held_total(now) > target
    &&& has_path(now, p)
    &&& is_oldest(now, true, Seq::empty(), row_index(now, p))
}

/// Every path of `ps` is the one to drop next when its turn comes.
pub open spec fn drops_in_order(rows: Seq<KnownFile>, target: int, ps: Seq<Seq<char>>) -> bool {
    forall|k: int|
        0 <= k < ps.len() ==> #[trigger] drops_next(
            after_drops(rows, ps.take(k)),
            target,
            ps[k],
        )
}

/// Dropping `ps` in order is an eviction down to `target`: each path is the least recently
/// used file that is still held, nothing is dropped once the target is met, and it stops
/// only there or when nothing is left to drop.
pub open spec fn is_eviction(rows: Seq<KnownFile>, target: int, ps: Seq<Seq<char>>) -> bool {
    &&& drops_in_order(rows, target, ps)
    &&& {
        let end = after_drops(rows, ps);
        held_total(end) <= target || none_evictable(end, true, Seq::empty())
    }
}

proof fn lemma_drop_one(rows: Seq<KnownFile>, target: int, ps: Seq<Seq<char>>, i: int)
    requires
        drops_in_order(rows, target, ps),
        unique_paths(after_drops(rows, ps)),
        held_total(after_drops(rows, ps)) > target,
        is_oldest(after_drops(rows, ps), true, Seq::empty(), i),
    ensures
        ({
            let now = after_drops(rows, ps);
            let more = ps.push(now[i].path@);
            &&& drops_in_order(rows, target, more)
            &&& after_drops(rows, more) == now.update(i, dropped_file(now[i]))
        }),
{
    let now = after_drops(rows, ps);
    let p = now[i].path@;
    let more = ps.push(p);
    assert(more.drop_last() =~= ps);
    assert(has_path(now, p));
    let j = row_index(now, p);
    assert(now[j].path@ == p);
    if j < i {
        assert(now[j].path@ != now[i].path@);
    }
    if i < j {
        assert(now[i].path@ != now[j].path@);
    }
    assert forall|k: int| 0 <= k < more.len() implies #[trigger] drops_next(
        after_drops(rows, more.take(k)),
        target,
        more[k],
    ) by {
        if k < ps.len() {
            assert(more.take(k) =~= ps.take(k));
            assert(drops_next(after_drops(rows, ps.take(k)), target, ps[k]));
        } else {
            assert(more.take(k) =~= ps);
        }
    }
}

/// The directory of the database of a share and the database itself.
pub fn cache_file(env: &Environment, domain: &str) -> (r: (String, String))
    ensures
        r.0@ == home_dir(*env, ".local/share/ufb/cache"@, "/tmp/ufb-cache"@),
        r.1@ == joined(env.platform, r.0@, domain@ + ".db"@),
{
    let dir = below_home(env, ".local/share/ufb/cache", "/tmp/ufb-cache");
    let name = join2(domain, ".db");
    let file = join(env.platform, dir.as_str(), name.as_str());
    (dir, file)
}

/// Cache state of one share.
pub struct MacosCache {
    files: FileTable,
    folders: FolderTable,
    cache_limit: u64,
    pending: Vec<String>,
}

impl MacosCache {
    /// The known files by path.
    pub closed spec fn files(&self) -> Map<Seq<char>, Row> {
        self.files@
    }

    /// The rows of the known files in the order in which they stand.
    pub closed spec fn rows(&self) -> Seq<KnownFile> {
        self.files.rows()
    }

    /// The visited folders.
    pub closed spec fn folders(&self) -> Seq<Folder> {
        self.folders@
    }

    /// The paths that wait to be dropped by the client.
    pub closed spec fn pending(&self) -> Seq<Seq<char>> {
        texts(self.pending@)
    }

    /// The byte budget; 0 is no budget.
    pub closed spec fn limit(&self) -> int {
        self.cache_limit as int
    }

    /// Every path has one row, and the bytes held can be counted.
    pub open spec fn wf(&self) -> bool {
        &&& unique_paths(self.rows())
        &&& self.files() == as_map(self.rows())
        &&& held_total(self.rows()) <= u64::MAX
    }

    /// An empty cache with the given budget.
    pub fn new(cache_limit: u64) -> (c: MacosCache)
        ensures
            c.wf(),
            c.rows() == Seq::<KnownFile>::empty(),
            c.files() == Map::<Seq<char>, Row>::empty(),
            c.folders() == Seq::<Folder>::empty(),
            c.pending() == Seq::<Seq<char>>::empty(),
            c.limit() == cache_limit,
    {
        let c = MacosCache {
            files: FileTable::new(),
            folders: FolderTable::new(),
            cache_limit,
            pending: Vec::new(),
        };
        assert(c.pending() =~= Seq::<Seq<char>>::empty());
        c
    }

    /// A row at a time, for storage.
    pub fn known_files(&self) -> (t: &FileTable)
        ensures
            t.rows() == self.rows(),
            t@ == self.files(),
    {
        &self.files
    }

    /// The visited folders, for storage.
    pub fn visited_folders(&self) -> (t: &FolderTable)
        ensures
            t@ == self.folders(),
    {
        &self.folders
    }

    /// Records the listing of a folder: the folder counts as visited, its entries replace what
    /// was known of them, entries that are gone are forgotten, and every file whose local
    /// content is out of date is queued to be dropped.
    pub fn record_enumeration(
        &mut self,
        relative_path: &str,
        entries: &Vec<DirEntry>,
        folder_mtime: i64,
    )
        requires
            old(self).wf(),
        ensures
            final(self).wf(),
            final(self).limit() == old(self).limit(),
            final(self).files() == without_orphans(
                with_entries(old(self).files(), relative_path@, entries@),
                relative_path@,
                entry_paths(relative_path@, entries@),
            ),
            final(self).folders() == with_folder(
                old(self).folders(),
                Folder { path: relative_path@, client: Seq::empty(), mtime: folder_mtime },
            ),
            final(self).pending() == old(self).pending() + drifted_paths(
                old(self).files(),
                relative_path@,
                entries@,
            ),
    {
        let none = String::new();
        assert(none@ =~= Seq::<char>::empty());
        self.folders.put(relative_path, none.as_str(), folder_mtime);
        let mut current: Vec<String> = Vec::new();
        let ghost m = self.files@;
        let ghost queued = self.pending();
        let mut i: usize = 0;
        assert(entries@.take(0) =~= Seq::<DirEntry>::empty());
        assert(texts(current@) =~= entry_paths(relative_path@, entries@.take(0)));
        assert(self.pending() =~= queued + drifted_paths(m, relative_path@, entries@.take(0)));
        while i < entries.len()
            invariant
                i <= entries@.len(),
                self.files.wf(),
                held_total(self.files.rows()) <= u64::MAX,
                self.cache_limit == old(self).cache_limit,
                self.folders@ == with_folder(
                    old(self).folders(),
                    Folder { path: relative_path@, client: Seq::empty(), mtime: folder_mtime },
                ),
                self.files@ == with_entries(m, relative_path@, entries@.take(i as int)),
                texts(current@) == entry_paths(relative_path@, entries@.take(i as int)),
                self.pending() == queued + drifted_paths(
                    m,
                    relative_path@,
                    entries@.take(i as int),
                ),
            decreases entries@.len() - i,
        {
            let e = &entries[i];
            let path = join_rel(relative_path, e.name.as_str());
            let ghost sofar = entries@.take(i as int);
            let ghost next = entries@.take(i + 1);
            assert(next.drop_last() =~= sofar);
            assert(next.last() == *e);
            let ghost queue_before = self.pending();
            let mut drift = false;
            if !e.is_dir {
                if let Some(k) = self.files.find(path.as_str()) {
                    let known = self.files.row_at(k);
                    drift = (e.size != known.nas_size || times_apart(
                        e.modified,
                        known.nas_mtime,
                        SAME_TIME_MICROS,
                    )) && known.is_hydrated;
                }
            }
            if drift {
                self.pending.push(path.clone());
                assert(self.pending() =~= queue_before.push(path@));
            }
            assert(self.pending() =~= queued + drifted_paths(m, relative_path@, next));
            let ghost listed_before = texts(current@);
            current.push(path.clone());
            assert(texts(current@) =~= listed_before.push(path@));
            assert(entry_paths(relative_path@, next) =~= entry_paths(relative_path@, sofar).push(
                path@,
            ));
            self.files.put(
                KnownFile {
                    path,
                    name: e.name.clone(),
                    is_dir: e.is_dir,
                    nas_size: e.size,
                    nas_mtime: e.modified,
                    nas_created: e.created,
                    parent_path: relative_path.to_owned(),
                    is_hydrated: false,
                    hydrated_size: 0,
                    last_accessed: 0,
                    last_verified_at: 0,
                },
            );
            i += 1;
        }
        assert(entries@.take(entries@.len() as int) =~= entries@);
        self.files.retain_children(relative_path, &current);
    }

    /// The folders to read for a report of changes: those visited, and the root.
    pub fn folders_to_scan(&self) -> (out: Vec<String>)
        ensures
            ({
                let seen = self.folders().map_values(|f: Folder| f.path);
                texts(out@) == if seen.contains(Seq::<char>::empty()) {
                    seen
                } else {
                    seen.push(Seq::<char>::empty())
                }
            }),
    {
        let mut out: Vec<String> = Vec::new();
        let ghost seen = self.folders().map_values(|f: Folder| f.path);
        let mut i: usize = 0;
        assert(texts(out@) =~= seen.take(0));
        while i < self.folders.len()
            invariant
                i <= self.folders@.len(),
                seen == self.folders@.map_values(|f: Folder| f.path),
                texts(out@) == seen.take(i as int),
            decreases self.folders@.len() - i,
        {
            let ghost before = texts(out@);
            out.push(self.folders.row_at(i).path.clone());
            i += 1;
            assert(texts(out@) =~= before.push(seen[i - 1]));
            assert(seen.take(i as int) =~= seen.take(i - 1).push(seen[i - 1]));
        }
        assert(seen.take(seen.len() as int) =~= seen);
        let root = String::new();
        assert(root@ =~= Seq::<char>::empty());
        if !list_has(&out, root.as_str()) {
            out.push(root);
            assert(texts(out@) =~= seen.push(Seq::<char>::empty()));
        }
        out
    }

    /// Whether some known row of the folder has the given name.
    pub fn knows_name(&self, folder: &str, name: &str) -> (r: bool)
        requires
            self.wf(),
        ensures
            r == name_known(self.files(), folder@, name@),
    {
        let mut i: usize = 0;
        let ghost rows = self.files.rows();
        while i < self.files.len()
            invariant
                i <= rows.len(),
                rows == self.files.rows(),
                unique_paths(rows),
                self.files@ == as_map(rows),
                forall|k: int|
                    0 <= k < i ==> (#[trigger] rows[k]).parent_path@ != folder@ || rows[k].name@
                        != name@,
            decreases rows.len() - i,
        {
            let r = self.files.row_at(i);
            if same(r.parent_path.as_str(), folder) && same(r.name.as_str(), name) {
                proof {
                    lemma_row_at(rows, i as int);
                    assert(self.files().contains_key(r.path@));
                }
                return true;
            }
            i += 1;
        }
        proof {
            if name_known(self.files(), folder@, name@) {
                let p = choose|p: Seq<char>| #[trigger]
                    self.files().contains_key(p) && self.files()[p].parent == folder@
                        && self.files()[p].name == name@;
                let k = row_index(rows, p);
                assert(rows[k].path@ == p);
                lemma_row_at(rows, k);
            }
        }
        false
    }

    /// The names of known rows of the folder that the listing no longer has, each one once.
    pub fn missing_names(&self, f: &FolderListing) -> (out: Vec<String>)
        requires
            self.wf(),
        ensures
            texts(out@).no_duplicates(),
            forall|n: Seq<char>| #[trigger] texts(out@).contains(n) <==> is_gone(self.files(), *f, n),
    {
        let mut out: Vec<String> = Vec::new();
        let mut i: usize = 0;
        let ghost rows = self.files.rows();
        let ghost m = self.files();
        while i < self.files.len()
            invariant
                i <= rows.len(),
                self.wf(),
                rows == self.files.rows(),
                m == self.files(),
                m == as_map(rows),
                unique_paths(rows),
                texts(out@).no_duplicates(),
                forall|n: Seq<char>| #[trigger] texts(out@).contains(n) ==> is_gone(m, *f, n),
                forall|k: int|
                    0 <= k < i && (#[trigger] rows[k]).parent_path@ == f.folder@ && !lists_name(
                        *f,
                        rows[k].name@,
                    ) ==> texts(out@).contains(rows[k].name@),
            decreases rows.len() - i,
        {
            let r = self.files.row_at(i);
            if same(r.parent_path.as_str(), f.folder.as_str()) && !has_name(f, r.name.as_str())
                && !list_has(&out, r.name.as_str()) {
                proof {
                    lemma_row_at(rows, i as int);
                    assert(m.contains_key(r.path@));
                    assert(name_known(m, f.folder@, r.name@));
                }
                let ghost before = texts(out@);
                out.push(r.name.clone());
                proof {
                    let now = texts(out@);
                    assert(now =~= before.push(r.name@));
                    assert forall|n: Seq<char>| before.contains(n) implies now.contains(n) by {
                        let k = choose|k: int| 0 <= k < before.len() && before[k] == n;
                        assert(now[k] == n);
                    }
                    assert(now[before.len() as int] == r.name@);
                    assert forall|n: Seq<char>| now.contains(n) implies is_gone(m, *f, n) by {
                        let k = choose|k: int| 0 <= k < now.len() && now[k] == n;
                        if k < before.len() {
                            assert(before[k] == n);
                            assert(before.contains(n));
                        }
                    }
                    assert forall|a: int, b: int|
                        0 <= a < now.len() && 0 <= b < now.len() && a != b implies now[a]
                        != now[b] by {
                        if a == before.len() {
                            assert(before.contains(before[b]));
                        } else if b == before.len() {
                            assert(before.contains(before[a]));
                        }
                    }
                }
            }
            i += 1;
        }
        proof {
            assert forall|n: Seq<char>| is_gone(m, *f, n) implies #[trigger] texts(out@).contains(
                n,
            ) by {
                let p = choose|p: Seq<char>| #[trigger]
                    m.contains_key(p) && m[p].parent == f.folder@ && m[p].name == n;
                let k = row_index(rows, p);
                assert(rows[k].path@ == p);
                lemma_row_at(rows, k);
            }
        }
        out
    }

    /// Whether the entry at `i` has to be reported as changed.
    fn entry_changed(&self, f: &FolderListing, i: usize) -> (r: bool)
        requires
            self.wf(),
            effective(*f, i as int),
            name_known(self.files(), f.folder@, f.entries@[i as int].name@),
        ensures
            r == is_changed(self.files(), *f, i as int),
    {
        let e = &f.entries[i];
        let path = join_rel(f.folder.as_str(), e.name.as_str());
        match self.files.find(path.as_str()) {
            Some(k) => {
                let known = self.files.row_at(k);
                same(known.parent_path.as_str(), f.folder.as_str()) && (e.size != known.nas_size
                    || times_apart(e.modified, known.nas_mtime, REPORTED_CHANGE_MICROS))
            },
            None => false,
        }
    }

    /// Compares a snapshot of the share with what is known: reports what is new, changed and
    /// gone, and takes it over.
    pub fn get_changes_since(&mut self, snapshot: &Vec<FolderListing>) -> (out: ChangesResult)
        requires
            old(self).wf(),
        ensures
            final(self).wf(),
            final(self).limit() == old(self).limit(),
            final(self).folders() == old(self).folders(),
            final(self).pending() == old(self).pending(),
            changes(out.updated@) == reported(old(self).files(), snapshot@),
            forall|p: Seq<char>| #[trigger]
                texts(out.deleted@).contains(p) <==> is_gone_path(
                    old(self).files(),
                    snapshot@,
                    p,
                ),
            distinct_folders(snapshot@) && plain_names(old(self).files()) ==> texts(
                out.deleted@,
            ).no_duplicates(),
            final(self).files() == without_paths(
                with_changes(old(self).files(), changes(out.updated@)),
                texts(out.deleted@),
            ),
    {
        let ghost m = self.files();
        let mut updated: Vec<ChangedEntry> = Vec::new();
        let mut deleted: Vec<String> = Vec::new();
        let mut k: usize = 0;
        assert(snapshot@.take(0) =~= Seq::<FolderListing>::empty());
        assert(changes(updated@) =~= reported(m, snapshot@.take(0)));
        assert(forall|p: Seq<char>| !is_gone_path(m, snapshot@.take(0), p));
        while k < snapshot.len()
            invariant
                k <= snapshot@.len(),
                self.wf(),
                *self == *old(self),
                m == self.files(),
                changes(updated@) == reported(m, snapshot@.take(k as int)),
                forall|p: Seq<char>| #[trigger]
                    texts(deleted@).contains(p) <==> is_gone_path(
                        m,
                        snapshot@.take(k as int),
                        p,
                    ),
                distinct_folders(snapshot@) && plain_names(m) ==> texts(deleted@).no_duplicates(),
            decreases snapshot@.len() - k,
        {
            let f = &snapshot[k];
            let ghost sofar = snapshot@.take(k as int);
            let ghost next = snapshot@.take(k + 1);
            assert(next.drop_last() =~= sofar && next.last() == *f);
            self.push_new(f, &mut updated);
            self.push_altered(f, &mut updated);
            let names = self.missing_names(f);
            let ghost deleted_before = texts(deleted@);
            push_children(f.folder.as_str(), &names, &mut deleted);
            proof {
                assert(changes(updated@) =~= reported(m, next));
                if distinct_folders(snapshot@) && plain_names(m) {
                    assert forall|x: int| 0 <= x < sofar.len() implies (#[trigger] sofar[x]).folder@
                        != f.folder@ by {
                        assert(sofar[x] == snapshot@[x]);
                        assert(snapshot@[k as int] == *f);
                    }
                    lemma_gone_once(m, sofar, *f, deleted_before, texts(names@));
                }
                assert forall|p: Seq<char>| #[trigger]
                    texts(deleted@).contains(p) <==> is_gone_path(m, next, p) by {
                    lemma_gone_step(m, sofar, *f, p);
                    assert(next =~= sofar.push(*f));
                    if texts(deleted@).contains(p) && !deleted_before.contains(p) {
                        let n = choose|n: Seq<char>| #[trigger]
                            texts(names@).contains(n) && p == child_path(f.folder@, n);
                        assert(is_gone(m, *f, n));
                    }
                    if exists|n: Seq<char>| #[trigger]
                        is_gone(m, *f, n) && p == child_path(f.folder@, n) {
                        let n = choose|n: Seq<char>| #[trigger]
                            is_gone(m, *f, n) && p == child_path(f.folder@, n);
                        assert(texts(names@).contains(n));
                    }
                }
            }
            k += 1;
        }
        assert(snapshot@.take(snapshot@.len() as int) =~= snapshot@);
        self.take_over(&updated);
        let ghost upserted = self.files();
        let mut j: usize = 0;
        assert(without_paths(upserted, texts(deleted@).take(0)) =~= upserted);
        while j < deleted.len()
            invariant
                j <= deleted@.len(),
                self.files.wf(),
                held_total(self.files.rows()) <= u64::MAX,
                self.folders@ == old(self).folders(),
                self.pending() == old(self).pending(),
                self.cache_limit == old(self).cache_limit,
                self.files@ == without_paths(upserted, texts(deleted@).take(j as int)),
            decreases deleted@.len() - j,
        {
            self.files.remove(deleted[j].as_str());
            proof {
                let all = texts(deleted@);
                let p = all[j as int];
                assert(all.take(j + 1) =~= all.take(j as int).push(p));
                assert forall|q: Seq<char>|
                    all.take(j + 1).contains(q) == (all.take(j as int).contains(q) || q == p) by {
                    let a = all.take(j as int);
                    let b = all.take(j + 1);
                    if a.contains(q) {
                        let x = choose|x: int| 0 <= x < a.len() && a[x] == q;
                        assert(b[x] == q);
                    }
                    assert(b[j as int] == p);
                    if b.contains(q) {
                        let x = choose|x: int| 0 <= x < b.len() && b[x] == q;
                        if x < j {
                            assert(a[x] == q);
                        }
                    }
                }
                assert(self.files@ =~= without_paths(upserted, all.take(j + 1)));
            }
            j += 1;
        }
        assert(texts(deleted@).take(deleted@.len() as int) =~= texts(deleted@));
        ChangesResult { updated, deleted }
    }

    /// Appends the reports of the entries of the folder that are new.
    fn push_new(&self, f: &FolderListing, updated: &mut Vec<ChangedEntry>)
        requires
            self.wf(),
        ensures
            changes(final(updated)@) == changes(old(updated)@) + new_changes(
                self.files(),
                *f,
                f.entries@.len(),
            ),
    {
        let ghost m = self.files();
        let ghost before = changes(updated@);
        let mut i: usize = 0;
        assert(changes(updated@) =~= before + new_changes(m, *f, 0));
        while i < f.entries.len()
            invariant
                i <= f.entries@.len(),
                self.wf(),
                m == self.files(),
                changes(updated@) == before + new_changes(m, *f, i as nat),
            decreases f.entries@.len() - i,
        {
            let ghost sofar = changes(updated@);
            if is_effective(f, i) && !self.knows_name(
                f.folder.as_str(),
                f.entries[i].name.as_str(),
            ) {
                let c = report(f, i);
                updated.push(c);
                assert(changes(updated@) =~= sofar.push(c.change()));
            }
            i += 1;
            assert(changes(updated@) =~= before + new_changes(m, *f, i as nat));
        }
    }

    /// Appends the reports of the entries of the folder that changed.
    fn push_altered(&self, f: &FolderListing, updated: &mut Vec<ChangedEntry>)
        requires
            self.wf(),
        ensures
            changes(final(updated)@) == changes(old(updated)@) + altered_changes(
                self.files(),
                *f,
                f.entries@.len(),
            ),
    {
        let ghost m = self.files();
        let ghost before = changes(updated@);
        let mut i: usize = 0;
        assert(changes(updated@) =~= before + altered_changes(m, *f, 0));
        while i < f.entries.len()
            invariant
                i <= f.entries@.len(),
                self.wf(),
                m == self.files(),
                changes(updated@) == before + altered_changes(m, *f, i as nat),
            decreases f.entries@.len() - i,
        {
            let ghost sofar = changes(updated@);
            if is_effective(f, i) && self.knows_name(
                f.folder.as_str(),
                f.entries[i].name.as_str(),
            ) && self.entry_changed(f, i) {
                let c = report(f, i);
                updated.push(c);
                assert(changes(updated@) =~= sofar.push(c.change()));
            }
            i += 1;
            assert(changes(updated@) =~= before + altered_changes(m, *f, i as nat));
        }
    }

    /// Takes reports over into the known files.
    fn take_over(&mut self, updated: &Vec<ChangedEntry>)
        requires
            old(self).wf(),
        ensures
            final(self).wf(),
            final(self).files() == with_changes(old(self).files(), changes(updated@)),
            final(self).folders() == old(self).folders(),
            final(self).pending() == old(self).pending(),
            final(self).limit() == old(self).limit(),
    {
        let mut i: usize = 0;
        let ghost m = self.files();
        let ghost cs = changes(updated@);
        assert(cs.take(0) =~= Seq::<Change>::empty());
        while i < updated.len()
            invariant
                i <= updated@.len(),
                cs == changes(updated@),
                self.files.wf(),
                held_total(self.files.rows()) <= u64::MAX,
                self.folders@ == old(self).folders(),
                self.pending() == old(self).pending(),
                self.cache_limit == old(self).cache_limit,
                self.files@ == with_changes(m, cs.take(i as int)),
            decreases updated@.len() - i,
        {
            let c = &updated[i];
            let ghost next = cs.take(i + 1);
            assert(next.drop_last() =~= cs.take(i as int));
            self.files.put(
                KnownFile {
                    path: c.relative_path.clone(),
                    name: c.name.clone(),
                    is_dir: c.is_dir,
                    nas_size: c.size,
                    nas_mtime: c.modified,
                    nas_created: c.created,
                    parent_path: parent_of(c.relative_path.as_str()).to_owned(),
                    is_hydrated: false,
                    hydrated_size: 0,
                    last_accessed: 0,
                    last_verified_at: 0,
                },
            );
            i += 1;
        }
        assert(cs.take(cs.len() as int) =~= cs);
    }

    /// Forgets a path.
    pub fn remove_known_file(&mut self, relative_path: &str)
        requires
            old(self).wf(),
        ensures
            final(self).wf(),
            final(self).files() == old(self).files().remove(relative_path@),
            final(self).folders() == old(self).folders(),
            final(self).pending() == old(self).pending(),
            final(self).limit() == old(self).limit(),
    {
        self.files.remove(relative_path);
    }

    /// Records a file as the share has it; nothing is held of it then.
    pub fn record_known_file(&mut self, relative_path: &str, entry: &DirEntry)
        requires
            old(self).wf(),
        ensures
            final(self).wf(),
            final(self).files() == old(self).files().insert(
                relative_path@,
                listed_row(parent_path(relative_path@), *entry),
            ),
            final(self).folders() == old(self).folders(),
            final(self).pending() == old(self).pending(),
            final(self).limit() == old(self).limit(),
    {
        self.files.put(
            KnownFile {
                path: relative_path.to_owned(),
                name: entry.name.clone(),
                is_dir: entry.is_dir,
                nas_size: entry.size,
                nas_mtime: entry.modified,
                nas_created: entry.created,
                parent_path: parent_of(relative_path).to_owned(),
                is_hydrated: false,
                hydrated_size: 0,
                last_accessed: 0,
                last_verified_at: 0,
            },
        );
    }

    /// Records that the content of a file was brought here, and keeps to the budget. Nothing
    /// is recorded of an empty file or of a path that is not known.
    pub fn record_hydration(&mut self, relative_path: &str, size: u64, now: i64)
        requires
            old(self).wf(),
            held_total(old(self).rows()) + size <= u64::MAX,
        ensures
            final(self).wf(),
            final(self).limit() == old(self).limit(),
            final(self).folders() == old(self).folders(),
            size == 0 ==> *final(self) == *old(self),
            size > 0 ==> exists|rows: Seq<KnownFile>, ps: Seq<Seq<char>>|
                {
                    &&& unique_paths(rows)
                    &&& as_map(rows) == hydrated(
                        old(self).files(),
                        relative_path@,
                        size,
                        now,
                    )
                    &&& #[trigger] kept_to_budget(rows, old(self).limit(), ps)
                    &&& final(self).rows() == after_drops(rows, ps)
                    &&& final(self).pending() == old(self).pending() + ps
                },
    {
        if size == 0 {
            return ;
        }
        if let Some(i) = self.files.find(relative_path) {
            let mut r = self.files.copy_at(i);
            r.is_hydrated = true;
            r.hydrated_size = size;
            r.last_accessed = now;
            self.files.set_at(i, r);
        }
        assert(self.files() =~= hydrated(old(self).files(), relative_path@, size, now));
        let ghost rows = self.rows();
        let ghost queued = self.pending();
        self.evict_if_over_budget();
        proof {
            let ps = choose|ps: Seq<Seq<char>>|
                #[trigger] kept_to_budget(rows, old(self).limit(), ps) && self.rows()
                    == after_drops(rows, ps) && self.pending() == queued + ps;
            assert(kept_to_budget(rows, old(self).limit(), ps));
        }
    }

    /// Drops the least recently used files until the target is met, where the budget is
    /// exceeded, and queues them for the client.
    fn evict_if_over_budget(&mut self)
        requires
            old(self).wf(),
        ensures
            final(self).wf(),
            final(self).limit() == old(self).limit(),
            final(self).folders() == old(self).folders(),
            exists|ps: Seq<Seq<char>>|
                #[trigger] kept_to_budget(old(self).rows(), old(self).limit(), ps)
                    && final(self).rows() == after_drops(old(self).rows(), ps)
                    && final(self).pending() == old(self).pending() + ps,
    {
        let ghost rows0 = self.rows();
        let ghost queue0 = self.pending();
        let ghost mut ps: Seq<Seq<char>> = Seq::empty();
        assert(queue0 + ps =~= queue0);
        if self.cache_limit == 0 {
            assert(kept_to_budget(rows0, old(self).limit(), ps));
            return ;
        }
        let total: u64 = self.files.total_held();
        if total <= self.cache_limit {
            assert(kept_to_budget(rows0, old(self).limit(), ps));
            return ;
        }
        let target: u64 = target_of(self.cache_limit);
        let mut remaining: u64 = total;
        let nothing: Vec<String> = Vec::new();
        assert(texts(nothing@) =~= Seq::<Seq<char>>::empty());
        let mut done = false;
        while remaining > target && !done
            invariant
                self.wf(),
                self.cache_limit == old(self).cache_limit,
                self.folders@ == old(self).folders(),
                rows0 == old(self).rows(),
                texts(nothing@) == Seq::<Seq<char>>::empty(),
                remaining == held_total(self.rows()),
                self.rows() == after_drops(rows0, ps),
                self.pending() == queue0 + ps,
                done ==> none_evictable(self.rows(), true, Seq::empty()),
                drops_in_order(rows0, target as int, ps),
            decreases held_count(self.rows()) + (if done { 0nat } else { 1nat }),
        {
            match self.files.oldest(true, &nothing) {
                Some(i) => {
                    let ghost before = self.rows();
                    let ghost queue = self.pending();
                    let mut r = self.files.copy_at(i);
                    let path = r.path.clone();
                    proof {
                        lemma_held_total_bounds(before, i as int);
                        lemma_drop_one(rows0, target as int, ps, i as int);
                    }
                    remaining = remaining - r.hydrated_size;
                    r.is_hydrated = false;
                    r.hydrated_size = 0;
                    self.files.set_at(i, r);
                    self.pending.push(path);
                    proof {
                        let more = ps.push(path@);
                        assert(r == dropped_file(before[i as int]));
                        assert(self.pending() =~= queue.push(path@));
                        assert(queue0 + more =~= queue.push(path@));
                        ps = more;
                    }
                },
                None => {
                    done = true;
                },
            }
        }
        proof {
            assert(is_eviction(rows0, target as int, ps));
            assert(kept_to_budget(rows0, old(self).limit(), ps));
        }
    }

    /// Notes an access to a file.
    pub fn touch(&mut self, relative_path: &str, now: i64)
        requires
            old(self).wf(),
        ensures
            final(self).wf(),
            final(self).folders() == old(self).folders(),
            final(self).pending() == old(self).pending(),
            final(self).limit() == old(self).limit(),
            !old(self).files().contains_key(relative_path@) ==> final(self).files() == old(
                self,
            ).files(),
            old(self).files().contains_key(relative_path@) ==> final(self).files() == old(
                self,
            ).files().insert(
                relative_path@,
                (Row { last_accessed: now, ..old(self).files()[relative_path@] }),
            ),
    {
        if let Some(i) = self.files.find(relative_path) {
            let mut r = self.files.copy_at(i);
            r.last_accessed = now;
            self.files.set_at(i, r);
        }
    }

    /// Notes that the share was found to agree.
    pub fn record_verification(&mut self, relative_path: &str, now: i64)
        requires
            old(self).wf(),
        ensures
            final(self).wf(),
            final(self).folders() == old(self).folders(),
            final(self).pending() == old(self).pending(),
            final(self).limit() == old(self).limit(),
            !old(self).files().contains_key(relative_path@) ==> final(self).files() == old(
                self,
            ).files(),
            old(self).files().contains_key(relative_path@) ==> final(self).files() == old(
                self,
            ).files().insert(
                relative_path@,
                (Row { last_verified_at: now, ..old(self).files()[relative_path@] }),
            ),
    {
        if let Some(i) = self.files.find(relative_path) {
            let mut r = self.files.copy_at(i);
            r.last_verified_at = now;
            self.files.set_at(i, r);
        }
    }

    /// Takes over the share's size and time for a file; what is held of it stays noted.
    pub fn update_nas_metadata(
        &mut self,
        relative_path: &str,
        nas_size: u64,
        nas_mtime: i64,
        now: i64,
    )
        requires
            old(self).wf(),
        ensures
            final(self).wf(),
            final(self).folders() == old(self).folders(),
            final(self).pending() == old(self).pending(),
            final(self).limit() == old(self).limit(),
            !old(self).files().contains_key(relative_path@) ==> final(self).files() == old(
                self,
            ).files(),
            old(self).files().contains_key(relative_path@) ==> final(self).files() == old(
                self,
            ).files().insert(
                relative_path@,
                (Row {
                    nas_size,
                    nas_mtime,
                    last_verified_at: now,
                    ..old(self).files()[relative_path@]
                }),
            ),
    {
        if let Some(i) = self.files.find(relative_path) {
            let mut r = self.files.copy_at(i);
            r.nas_size = nas_size;
            r.nas_mtime = nas_mtime;
            r.last_verified_at = now;
            self.files.set_at(i, r);
        }
    }

    /// What is known of the file, where it is known and was not checked within `ttl`.
    pub fn needs_verification(&self, relative_path: &str, ttl: i64, now: i64) -> (r: Option<
        (u64, i64),
    >)
        requires
            self.wf(),
        ensures
            r == if self.files().contains_key(relative_path@) && now
                - self.files()[relative_path@].last_verified_at >= ttl {
                Some(
                    (
                        self.files()[relative_path@].nas_size,
                        self.files()[relative_path@].nas_mtime,
                    ),
                )
            } else {
                None
            },
    {
        match self.files.find(relative_path) {
            Some(i) => {
                let k = self.files.row_at(i);
                let age: i128 = now as i128 - k.last_verified_at as i128;
                if age < ttl as i128 {
                    None
                } else {
                    Some((k.nas_size, k.nas_mtime))
                }
            },
            None => None,
        }
    }

    /// Whether the given size and time differ from what is known of the file, where it is known.
    pub fn compare_nas_metadata(&self, relative_path: &str, nas_size: u64, nas_mtime: i64) -> (r:
        Option<bool>)
        requires
            self.wf(),
        ensures
            r == if self.files().contains_key(relative_path@) {
                Some(drifts(self.files()[relative_path@], nas_size, nas_mtime))
            } else {
                None
            },
    {
        match self.files.find(relative_path) {
            Some(i) => {
                let k = self.files.row_at(i);
                Some(
                    nas_size != k.nas_size || times_apart(nas_mtime, k.nas_mtime, SAME_TIME_MICROS),
                )
            },
            None => None,
        }
    }

    /// Whether the path is known.
    pub fn is_known(&self, relative_path: &str) -> (r: bool)
        requires
            self.wf(),
        ensures
            r == self.files().contains_key(relative_path@),
    {
        self.files.find(relative_path).is_some()
    }

    /// Bytes held locally.
    pub fn total_cached_bytes(&self) -> (n: u64)
        requires
            self.wf(),
        ensures
            n == held_total(self.rows()),
    {
        self.files.total_held()
    }

    /// The paths of the files that are held.
    pub fn hydrated_paths(&self) -> (out: Vec<String>)
        requires
            self.wf(),
        ensures
            texts(out@) == held_paths(self.rows()),
    {
        let mut out: Vec<String> = Vec::new();
        let mut i: usize = 0;
        let ghost rows = self.files.rows();
        assert(rows.take(0) =~= Seq::<KnownFile>::empty());
        assert(texts(out@) =~= held_paths(rows.take(0)));
        while i < self.files.len()
            invariant
                i <= rows.len(),
                rows == self.files.rows(),
                texts(out@) == held_paths(rows.take(i as int)),
            decreases rows.len() - i,
        {
            let r = self.files.row_at(i);
            let ghost before = texts(out@);
            assert(rows.take(i + 1).drop_last() =~= rows.take(i as int));
            if r.is_hydrated && !r.is_dir {
                out.push(r.path.clone());
                assert(texts(out@) =~= before.push(r.path@));
            }
            i += 1;
        }
        assert(rows.take(rows.len() as int) =~= rows);
        out
    }

    /// Drops the content of every held file and queues the paths for the client. Returns how
    /// many files and bytes that were.
    pub fn clear_all_hydrated(&mut self) -> (r: (u32, u64))
        requires
            old(self).wf(),
            held_paths(old(self).rows()).len() <= u32::MAX,
        ensures
            final(self).wf(),
            final(self).folders() == old(self).folders(),
            final(self).limit() == old(self).limit(),
            final(self).pending() == old(self).pending() + held_paths(old(self).rows()),
            r.0 == held_paths(old(self).rows()).len(),
            r.1 == held_file_bytes(old(self).rows()),
            final(self).rows() == old(self).rows().map_values(
                |k: KnownFile|
                    if k.is_hydrated && !k.is_dir {
                        dropped_file(k)
                    } else {
                        k
                    },
            ),
    {
        let mut count: u32 = 0;
        let mut bytes: u64 = 0;
        let ghost rows0 = self.rows();
        let ghost queue0 = self.pending();
        let ghost swept = |k: KnownFile|
            if k.is_hydrated && !k.is_dir {
                dropped_file(k)
            } else {
                k
            };
        let mut i: usize = 0;
        assert(rows0.take(0) =~= Seq::<KnownFile>::empty());
        assert(self.pending() =~= queue0 + held_paths(rows0.take(0)));
        while i < self.files.len()
            invariant
                i <= rows0.len(),
                self.wf(),
                rows0 == old(self).rows(),
                held_paths(rows0).len() <= u32::MAX,
                self.folders@ == old(self).folders(),
                self.cache_limit == old(self).cache_limit,
                self.rows().len() == rows0.len(),
                forall|k: int|
                    0 <= k < rows0.len() ==> #[trigger] self.rows()[k] == if k < i {
                        swept(rows0[k])
                    } else {
                        rows0[k]
                    },
                swept == (|k: KnownFile|
                    if k.is_hydrated && !k.is_dir {
                        dropped_file(k)
                    } else {
                        k
                    }),
                self.pending() == queue0 + held_paths(rows0.take(i as int)),
                count == held_paths(rows0.take(i as int)).len(),
                bytes == held_file_bytes(rows0.take(i as int)),
                held_total(rows0) <= u64::MAX,
            decreases rows0.len() - i,
        {
            let mut r = self.files.copy_at(i);
            proof {
                assert(self.rows()[i as int] == rows0[i as int]);
                assert(rows0.take(i + 1).drop_last() =~= rows0.take(i as int));
                lemma_held_paths_prefix(rows0, i + 1);
                lemma_held_file_bytes(rows0.take(i + 1));
                crate::file_table::lemma_held_total_prefix(rows0, i + 1);
            }
            if r.is_hydrated && !r.is_dir {
                let ghost queue = self.pending();
                let path = r.path.clone();
                count += 1;
                bytes += r.hydrated_size;
                r.is_hydrated = false;
                r.hydrated_size = 0;
                self.files.set_at(i, r);
                self.pending.push(path);
                assert(self.pending() =~= queue.push(path@));
                assert(queue.push(path@) =~= queue0 + held_paths(rows0.take(i + 1)));
            }
            i += 1;
        }
        assert(rows0.take(rows0.len() as int) =~= rows0);
        assert(self.rows() =~= rows0.map_values(swept));
        (count, bytes)
    }

    /// Keeps the cache to its budget. Returned are the files whose content is to be dropped: those
    /// that were queued and those that had to go now.
    pub fn evict_over_budget_now(&mut self) -> (out: Vec<String>)
        requires
            old(self).wf(),
        ensures
            final(self).wf(),
            final(self).limit() == old(self).limit(),
            final(self).folders() == old(self).folders(),
            final(self).pending() == Seq::<Seq<char>>::empty(),
            exists|ps: Seq<Seq<char>>|
                #[trigger] kept_to_budget(old(self).rows(), old(self).limit(), ps)
                    && final(self).rows() == after_drops(old(self).rows(), ps) && texts(out@) == old(
                    self,
                ).pending() + ps,
    {
        let ghost rows = self.rows();
        let ghost queued = self.pending();
        self.evict_if_over_budget();
        let ghost ps = choose|ps: Seq<Seq<char>>|
            #[trigger] kept_to_budget(rows, old(self).limit(), ps) && self.rows() == after_drops(
                rows,
                ps,
            ) && self.pending() == queued + ps;
        let out = self.drain_pending_evictions();
        assert(kept_to_budget(rows, old(self).limit(), ps));
        out
    }

    /// Hands out the queue of paths to be dropped.
    pub fn drain_pending_evictions(&mut self) -> (out: Vec<String>)
        ensures
            texts(out@) == old(self).pending(),
            final(self).pending() == Seq::<Seq<char>>::empty(),
            final(self).files() == old(self).files(),
            final(self).rows() == old(self).rows(),
            final(self).folders() == old(self).folders(),
            final(self).limit() == old(self).limit(),
    {
        let mut out: Vec<String> = Vec::new();
        out.append(&mut self.pending);
        assert(texts(out@) =~= old(self).pending());
        assert(self.pending() =~= Seq::<Seq<char>>::empty());
        out
    }

    /// Queues the path to be dropped where its content is held.
    pub fn queue_eviction_if_hydrated(&mut self, relative_path: &str)
        requires
            old(self).wf(),
        ensures
            final(self).wf(),
            final(self).files() == old(self).files(),
            final(self).rows() == old(self).rows(),
            final(self).folders() == old(self).folders(),
            final(self).limit() == old(self).limit(),
            final(self).pending() == if old(self).files().contains_key(relative_path@) && old(
                self,
            ).files()[relative_path@].is_hydrated {
                old(self).pending().push(relative_path@)
            } else {
                old(self).pending()
            },
    {
        if let Some(i) = self.files.find(relative_path) {
            if self.files.row_at(i).is_hydrated {
                let ghost queue = self.pending();
                self.pending.push(relative_path.to_owned());
                assert(self.pending() =~= queue.push(relative_path@));
            }
        }
    }
}

/// The rows after a file's content was brought here: those of an unknown path stay as they are.
pub open spec fn hydrated(
    m: Map<Seq<char>, Row>,
    path: Seq<char>,
    size: u64,
    now: i64,
) -> Map<Seq<char>, Row> {
    if m.contains_key(path) {
        m.insert(
            path,
            Row { is_hydrated: true, hydrated_size: size, last_accessed: now, ..m[path] },
        )
    } else {
        m
    }
}

/// `ps` is what a cache with the given budget drops: nothing without a budget or within it.
pub open spec fn kept_to_budget(rows: Seq<KnownFile>, limit: int, ps: Seq<Seq<char>>) -> bool {
    if limit == 0 || held_total(rows) <= limit {
        ps.len() == 0
    } else {
        is_eviction(rows, eviction_target(limit), ps)
    }
}

/// The paths of the files that are held, in the order of their rows.
pub open spec fn held_paths(rows: Seq<KnownFile>) -> Seq<Seq<char>>
    decreases rows.len(),
{
    if rows.len() == 0 {
        Seq::empty()
    } else if rows.last().is_hydrated && !rows.last().is_dir {
        held_paths(rows.drop_last()).push(rows.last().path@)
    } else {
        held_paths(rows.drop_last())
    }
}

/// Bytes held of files.
pub open spec fn held_file_bytes(rows: Seq<KnownFile>) -> int
    decreases rows.len(),
{
    if rows.len() == 0 {
        0
    } else {
        held_file_bytes(rows.drop_last()) + if rows.last().is_dir {
            0
        } else {
            held_bytes(rows.last().row())
        }
    }
}

proof fn lemma_held_file_bytes(rows: Seq<KnownFile>)
    ensures
        0 <= held_file_bytes(rows) <= held_total(rows),
    decreases rows.len(),
{
    if rows.len() > 0 {
        lemma_held_file_bytes(rows.drop_last());
    }
}

proof fn lemma_held_paths_prefix(rows: Seq<KnownFile>, k: int)
    requires
        0 <= k <= rows.len(),
    ensures
        held_paths(rows.take(k)).len() <= held_paths(rows).len(),
    decreases rows.len() - k,
{
    if k < rows.len() {
        lemma_held_paths_prefix(rows, k + 1);
        assert(rows.take(k + 1).drop_last() =~= rows.take(k));
    } else {
        assert(rows.take(k) =~= rows);
    }
}

/// Whether the entry at `i` is shown and the last one of its name.
fn is_effective(f: &FolderListing, i: usize) -> (r: bool)
    requires
        i < f.entries@.len(),
    ensures
        r == effective(*f, i as int),
{
    if is_hidden_name(f.entries[i].name.as_str()) {
        return false;
    }
    let n: usize = f.entries.len();
    let mut j: usize = i + 1;
    while j < n
        invariant
            i < j <= n,
            n == f.entries@.len(),
            forall|k: int|
                i < k < j ==> (#[trigger] f.entries@[k]).name@ != f.entries@[i as int].name@,
        decreases f.entries@.len() - j,
    {
        if same(f.entries[j].name.as_str(), f.entries[i].name.as_str()) {
            assert(f.entries@[j as int].name@ == f.entries@[i as int].name@);
            return false;
        }
        j += 1;
    }
    true
}

/// Whether the folder was read with an entry of the given name that is shown.
fn has_name(f: &FolderListing, name: &str) -> (r: bool)
    ensures
        r == lists_name(*f, name@),
{
    let mut i: usize = 0;
    while i < f.entries.len()
        invariant
            i <= f.entries@.len(),
            forall|k: int|
                0 <= k < i ==> !(#[trigger] effective(*f, k) && f.entries@[k].name@ == name@),
        decreases f.entries@.len() - i,
    {
        if same(f.entries[i].name.as_str(), name) && is_effective(f, i) {
            assert(effective(*f, i as int));
            return true;
        }
        i += 1;
    }
    false
}

/// The report of the entry at `i`.
fn report(f: &FolderListing, i: usize) -> (c: ChangedEntry)
    requires
        i < f.entries@.len(),
    ensures
        c.change() == change_of(*f, i as int),
{
    let e = &f.entries[i];
    ChangedEntry {
        relative_path: join_rel(f.folder.as_str(), e.name.as_str()),
        name: e.name.clone(),
        is_dir: e.is_dir,
        size: e.size,
        modified: e.modified,
        created: e.created,
    }
}

/// Appends the paths of the named entries of a folder.
fn push_children(folder: &str, names: &Vec<String>, out: &mut Vec<String>)
    ensures
        forall|p: Seq<char>| #[trigger]
            texts(final(out)@).contains(p) <==> texts(old(out)@).contains(p) || exists|
                n: Seq<char>,
            | #[trigger]
                texts(names@).contains(n) && p == child_path(folder@, n),
        texts(final(out)@) == texts(old(out)@) + children(folder@, texts(names@)),
{
    let ghost before = texts(out@);
    let ghost all = texts(names@);
    let mut i: usize = 0;
    while i < names.len()
        invariant
            i <= names@.len(),
            all == texts(names@),
            texts(out@).len() == before.len() + i,
            forall|k: int| 0 <= k < before.len() ==> #[trigger] texts(out@)[k] == before[k],
            forall|k: int|
                0 <= k < i ==> texts(out@)[before.len() + k] == child_path(
                    folder@,
                    #[trigger] all[k],
                ),
        decreases names@.len() - i,
    {
        let ghost prev = texts(out@);
        let p = join_rel(folder, names[i].as_str());
        out.push(p);
        assert(texts(out@) =~= prev.push(p@));
        assert(all[i as int] == names@[i as int]@);
        i += 1;
    }
    proof {
        let now = texts(out@);
        assert(now =~= before + children(folder@, all));
        assert forall|p: Seq<char>| #[trigger] now.contains(p) <==> before.contains(p) || exists|
            n: Seq<char>,
        | #[trigger]
            all.contains(n) && p == child_path(folder@, n) by {
            if now.contains(p) {
                let k = choose|k: int| 0 <= k < now.len() && now[k] == p;
                if k < before.len() {
                    assert(before[k] == p);
                } else {
                    let n = all[k - before.len()];
                    assert(all.contains(n));
                    assert(p == child_path(folder@, n));
                }
            }
            if before.contains(p) {
                let k = choose|k: int| 0 <= k < before.len() && before[k] == p;
                assert(now[k] == p);
            }
            if exists|n: Seq<char>| #[trigger] all.contains(n) && p == child_path(folder@, n) {
                let n = choose|n: Seq<char>| #[trigger]
                    all.contains(n) && p == child_path(folder@, n);
                let k = choose|k: int| 0 <= k < all.len() && all[k] == n;
                assert(now[before.len() + k] == child_path(folder@, all[k]));
            }
        }
    }
}

proof fn lemma_gone_once(
    m: Map<Seq<char>, Row>,
    snap: Seq<FolderListing>,
    f: FolderListing,
    before: Seq<Seq<char>>,
    names: Seq<Seq<char>>,
)
    requires
        plain_names(m),
        before.no_duplicates(),
        names.no_duplicates(),
        forall|x: int| 0 <= x < snap.len() ==> (#[trigger] snap[x]).folder@ != f.folder@,
        forall|p: Seq<char>| #[trigger] before.contains(p) ==> is_gone_path(m, snap, p),
        forall|n: Seq<char>| #[trigger] names.contains(n) ==> is_gone(m, f, n),
    ensures
        (before + children(f.folder@, names)).no_duplicates(),
{
    let all = before + children(f.folder@, names);
    let b = before.len() as int;
    assert forall|i: int, j: int| 0 <= i < j < all.len() implies all[i] != all[j] by {
        if all[i] == all[j] && j >= b {
            let n = names[j - b];
            assert(names.contains(n));
            assert(all[j] == child_path(f.folder@, n));
            if i >= b {
                let o = names[i - b];
                assert(names.contains(o));
                assert(all[i] == child_path(f.folder@, o));
                law_child_path_is_unique(f.folder@, n, f.folder@, o);
            } else {
                assert(before.contains(all[i]));
                let (k, o) = choose|k: int, o: Seq<char>|
                    0 <= k < snap.len() && #[trigger] is_gone(m, snap[k], o) && all[i]
                        == child_path(snap[k].folder@, o);
                law_child_path_is_unique(f.folder@, n, snap[k].folder@, o);
            }
        }
    }
}

proof fn lemma_gone_step(
    m: Map<Seq<char>, Row>,
    snap: Seq<FolderListing>,
    f: FolderListing,
    p: Seq<char>,
)
    ensures
        is_gone_path(m, snap.push(f), p) <==> is_gone_path(m, snap, p) || exists|n: Seq<char>|
            #[trigger] is_gone(m, f, n) && p == child_path(f.folder@, n),
{
    let next = snap.push(f);
    if is_gone_path(m, next, p) {
        let (k, n) = choose|k: int, n: Seq<char>|
            0 <= k < next.len() && #[trigger] is_gone(m, next[k], n) && p == child_path(
                next[k].folder@,
                n,
            );
        if k < snap.len() {
            assert(is_gone(m, snap[k], n));
        }
    }
    if is_gone_path(m, snap, p) {
        let (k, n) = choose|k: int, n: Seq<char>|
            0 <= k < snap.len() && #[trigger] is_gone(m, snap[k], n) && p == child_path(
                snap[k].folder@,
                n,
            );
        assert(is_gone(m, next[k], n));
    }
    if exists|n: Seq<char>| #[trigger] is_gone(m, f, n) && p == child_path(f.folder@, n) {
        let n = choose|n: Seq<char>| #[trigger] is_gone(m, f, n) && p == child_path(f.folder@, n);
        assert(is_gone(m, next[snap.len() as int], n));
    }
}

/// Checks a file against what the share said of it, where a check is due: takes over what
/// differs, and notes the check. `stat` is the share's size and time, or why it has none.
pub fn stat_and_refresh(
    cache: &mut MacosCache,
    relative_path: &str,
    stat: Result<(u64, i64), String>,
    ttl: i64,
    now: i64,
) -> (r: StatResult)
    requires
        old(cache).wf(),
    ensures
        final(cache).wf(),
        final(cache).folders() == old(cache).folders(),
        final(cache).pending() == old(cache).pending(),
        final(cache).limit() == old(cache).limit(),
        ({
            let m = old(cache).files();
            let p = relative_path@;
            let due = m.contains_key(p) && now - m[p].last_verified_at >= ttl;
            match stat {
                _ if m.contains_key(p) && !due => r is Skipped && *final(cache) == *old(cache),
                Err(e) => r == StatResult::Error(e) && *final(cache) == *old(cache),
                Ok((size, mtime)) => if !m.contains_key(p) {
                    r == (StatResult::Unknown { size, mtime }) && *final(cache) == *old(cache)
                } else if size == m[p].nas_size && !apart(
                    mtime,
                    m[p].nas_mtime,
                    SAME_TIME_MICROS - 1,
                ) {
                    r == (StatResult::Fresh { size, mtime }) && final(cache).files() == m.insert(
                        p,
                        Row { last_verified_at: now, ..m[p] },
                    )
                } else {
                    r == (StatResult::Drifted { size, mtime }) && final(cache).files() == m.insert(
                        p,
                        Row {
                            nas_size: size,
                            nas_mtime: mtime,
                            last_verified_at: now,
                            ..m[p]
                        },
                    )
                },
            }
        }),
{
    match cache.needs_verification(relative_path, ttl, now) {
        None => {
            if cache.is_known(relative_path) {
                return StatResult::Skipped;
            }
            match stat {
                Ok((size, mtime)) => StatResult::Unknown { size, mtime },
                Err(e) => StatResult::Error(e),
            }
        },
        Some((known_size, known_mtime)) => match stat {
            Err(e) => StatResult::Error(e),
            Ok((size, mtime)) => {
                if size == known_size && !times_apart(mtime, known_mtime, SAME_TIME_MICROS - 1) {
                    cache.record_verification(relative_path, now);
                    StatResult::Fresh { size, mtime }
                } else {
                    cache.update_nas_metadata(relative_path, size, mtime, now);
                    StatResult::Drifted { size, mtime }
                }
            },
        },
    }
}

proof fn lemma_prefix_in_order(rows: Seq<KnownFile>, target: int, ps: Seq<Seq<char>>, k: int)
    requires
        drops_in_order(rows, target, ps),
        0 <= k <= ps.len(),
    ensures
        drops_in_order(rows, target, ps.take(k)),
{
    let first = ps.take(k);
    assert forall|j: int| 0 <= j < first.len() implies #[trigger] drops_next(
        after_drops(rows, first.take(j)),
        target,
        first[j],
    ) by {
        assert(first.take(j) =~= ps.take(j));
        assert(drops_next(after_drops(rows, ps.take(j)), target, ps[j]));
    }
}

/// Dropping content changes no row but for what it holds, and brings nothing back.
proof fn lemma_after_drops(rows: Seq<KnownFile>, target: int, ps: Seq<Seq<char>>)
    requires
        unique_paths(rows),
        drops_in_order(rows, target, ps),
    ensures
        after_drops(rows, ps).len() == rows.len(),
        unique_paths(after_drops(rows, ps)),
        forall|i: int|
            0 <= i < rows.len() ==> (#[trigger] after_drops(rows, ps)[i] == rows[i] || after_drops(
                rows,
                ps,
            )[i] == dropped_file(rows[i])),
    decreases ps.len(),
{
    if ps.len() > 0 {
        let n = ps.len() as int - 1;
        let fewer = ps.drop_last();
        assert(fewer =~= ps.take(n));
        lemma_prefix_in_order(rows, target, ps, n);
        lemma_after_drops(rows, target, fewer);
        let before = after_drops(rows, fewer);
        assert(ps.take(n) =~= fewer);
        assert(drops_next(after_drops(rows, ps.take(n)), target, ps[n]));
        let i = row_index(before, ps.last());
        assert(0 <= i < before.len() && before[i].path@ == ps.last());
        lemma_map_update(before, i, dropped_file(before[i]));
    }
}

/// A cache that has a budget is within it once it has dropped what it has to, unless there
/// is no file left to drop.
pub proof fn law_budget_is_kept(rows: Seq<KnownFile>, limit: int, ps: Seq<Seq<char>>)
    requires
        limit > 0,
        kept_to_budget(rows, limit, ps),
    ensures
        held_total(after_drops(rows, ps)) <= limit || none_evictable(
            after_drops(rows, ps),
            true,
            Seq::empty(),
        ),
        held_total(rows) > limit ==> held_total(after_drops(rows, ps)) <= eviction_target(limit)
            || none_evictable(after_drops(rows, ps), true, Seq::empty()),
{
    assert(eviction_target(limit) <= limit) by (nonlinear_arith)
        requires
            limit > 0,
            eviction_target(limit) == limit * 80 / 100,
    ;
}

/// What a cache drops was used no later than any file that it keeps.
pub proof fn law_eviction_is_least_recently_used(
    rows: Seq<KnownFile>,
    target: int,
    ps: Seq<Seq<char>>,
    k: int,
    kept: int,
)
    requires
        unique_paths(rows),
        is_eviction(rows, target, ps),
        0 <= k < ps.len(),
        0 <= kept < rows.len(),
        evictable(after_drops(rows, ps)[kept], true, Seq::empty()),
    ensures
        as_map(rows).contains_key(ps[k]),
        as_map(rows)[ps[k]].last_accessed <= rows[kept].last_accessed,
{
    let first = ps.take(k);
    lemma_prefix_in_order(rows, target, ps, k);
    lemma_after_drops(rows, target, first);
    lemma_after_drops(rows, target, ps);
    let now = after_drops(rows, first);
    assert(drops_next(now, target, ps[k]));
    let i = row_index(now, ps[k]);
    assert(now[i].path@ == ps[k]);
    assert(now[i] == rows[i] || now[i] == dropped_file(rows[i]));
    assert(rows[i].path@ == ps[k]);
    lemma_row_at(rows, i);
    let end = after_drops(rows, ps);
    assert(end[kept] == rows[kept]);
    assert(now[kept] == rows[kept] || now[kept] == dropped_file(rows[kept]));
    lemma_kept_was_held(rows, target, ps, k, kept);
}

/// What is held in the end was held all along.
proof fn lemma_kept_was_held(
    rows: Seq<KnownFile>,
    target: int,
    ps: Seq<Seq<char>>,
    k: int,
    kept: int,
)
    requires
        unique_paths(rows),
        drops_in_order(rows, target, ps),
        0 <= k <= ps.len(),
        0 <= kept < rows.len(),
        after_drops(rows, ps)[kept].is_hydrated,
    ensures
        after_drops(rows, ps.take(k))[kept].is_hydrated,
    decreases ps.len() - k,
{
    if k == ps.len() {
        assert(ps.take(k) =~= ps);
    } else {
        lemma_kept_was_held(rows, target, ps, k + 1, kept);
        let more = ps.take(k + 1);
        assert(more.drop_last() =~= ps.take(k));
        let before = after_drops(rows, ps.take(k));
        lemma_prefix_in_order(rows, target, ps, k);
        lemma_after_drops(rows, target, ps.take(k));
        assert(drops_next(before, target, ps[k]));
        let i = row_index(before, more.last());
        assert(0 <= i < before.len() && before[i].path@ == more.last());
        let after = before.update(i, dropped_file(before[i]));
        assert(after_drops(rows, more) == after);
        if kept == i {
            assert(!after[kept].is_hydrated);
        } else {
            assert(after[kept] == before[kept]);
        }
    }
}

proof fn lemma_with_entries(
    m: Map<Seq<char>, Row>,
    rel: Seq<char>,
    es: Seq<DirEntry>,
    p: Seq<char>,
)
    ensures
        with_entries(m, rel, es).contains_key(p) <==> m.contains_key(p) || entry_paths(
            rel,
            es,
        ).contains(p),
        !entry_paths(rel, es).contains(p) ==> with_entries(m, rel, es)[p] == m[p],
        entry_paths(rel, es).contains(p) ==> with_entries(m, rel, es)[p].parent == rel
            && !with_entries(m, rel, es)[p].is_hydrated,
    decreases es.len(),
{
    if es.len() > 0 {
        let fewer = es.drop_last();
        let q = child_path(rel, es.last().name@);
        lemma_with_entries(m, rel, fewer, p);
        let a = entry_paths(rel, fewer);
        let b = entry_paths(rel, es);
        assert(b =~= a.push(q));
        if a.contains(p) {
            let k = choose|k: int| 0 <= k < a.len() && a[k] == p;
            assert(b[k] == p);
        }
        assert(b[a.len() as int] == q);
        if b.contains(p) {
            let k = choose|k: int| 0 <= k < b.len() && b[k] == p;
            if k < a.len() {
                assert(a[k] == p);
            }
        }
    } else {
        assert(entry_paths(rel, es) =~= Seq::<Seq<char>>::empty());
    }
}

/// Once a folder was enumerated, what is known to lie in it is what the listing has, and
/// nothing is known otherwise of what lies elsewhere and is not listed.
pub proof fn law_enumeration_mirrors_listing(
    m: Map<Seq<char>, Row>,
    rel: Seq<char>,
    es: Seq<DirEntry>,
    p: Seq<char>,
)
    ensures
        ({
            let after = without_orphans(with_entries(m, rel, es), rel, entry_paths(rel, es));
            &&& (after.contains_key(p) && after[p].parent == rel) <==> entry_paths(
                rel,
                es,
            ).contains(p)
            &&& !entry_paths(rel, es).contains(p) && m.contains_key(p) && m[p].parent != rel
                ==> after.contains_key(p) && after[p] == m[p]
        }),
{
    lemma_with_entries(m, rel, es, p);
}

/// Every path is that of its row's name in its row's folder, and names hold no separator.
pub open spec fn consistent(m: Map<Seq<char>, Row>) -> bool {
    forall|p: Seq<char>| #[trigger]
        m.contains_key(p) ==> plain_name(m[p].name) && p == child_path(m[p].parent, m[p].name)
}

/// A snapshot as a file system gives it: no folder twice, and no separator in a name.
pub open spec fn proper_snapshot(snap: Seq<FolderListing>) -> bool {
    &&& forall|i: int, j: int|
        0 <= i < j < snap.len() ==> (#[trigger] snap[i]).folder@ != (#[trigger] snap[j]).folder@
    &&& forall|i: int, k: int|
        0 <= i < snap.len() && 0 <= k < snap[i].entries@.len() ==> plain_name(
            (#[trigger] snap[i].entries@[k]).name@,
        )
}

/// A report in the list is that of an entry that is new or changed.
proof fn lemma_parts(m: Map<Seq<char>, Row>, f: FolderListing, n: nat, c: Change)
    requires
        n <= f.entries@.len(),
    ensures
        new_changes(m, f, n).contains(c) <==> exists|i: int|
            0 <= i < n && #[trigger] is_new(m, f, i) && c == change_of(f, i),
        altered_changes(m, f, n).contains(c) <==> exists|i: int|
            0 <= i < n && #[trigger] is_changed(m, f, i) && c == change_of(f, i),
    decreases n,
{
    if n > 0 {
        let k = (n - 1) as nat;
        lemma_parts(m, f, k, c);
        let a = new_changes(m, f, k);
        let b = altered_changes(m, f, k);
        let d = change_of(f, k as int);
        lemma_push_contains(a, d, c);
        lemma_push_contains(b, d, c);
    }
}

proof fn lemma_push_contains(s: Seq<Change>, d: Change, c: Change)
    ensures
        s.push(d).contains(c) <==> s.contains(c) || c == d,
{
    let t = s.push(d);
    if s.contains(c) {
        let i = choose|i: int| 0 <= i < s.len() && s[i] == c;
        assert(t[i] == c);
    }
    assert(t[s.len() as int] == d);
    if t.contains(c) {
        let i = choose|i: int| 0 <= i < t.len() && t[i] == c;
        if i < s.len() {
            assert(s[i] == c);
        }
    }
}

proof fn lemma_add_contains(s: Seq<Change>, t: Seq<Change>, c: Change)
    ensures
        (s + t).contains(c) <==> s.contains(c) || t.contains(c),
{
    let u = s + t;
    if s.contains(c) {
        let i = choose|i: int| 0 <= i < s.len() && s[i] == c;
        assert(u[i] == c);
    }
    if t.contains(c) {
        let i = choose|i: int| 0 <= i < t.len() && t[i] == c;
        assert(u[s.len() + i] == c);
    }
    if u.contains(c) {
        let i = choose|i: int| 0 <= i < u.len() && u[i] == c;
        if i < s.len() {
            assert(s[i] == c);
        } else {
            assert(t[i - s.len()] == c);
        }
    }
}

/// Whether the entry at `i` of the folder at `k` has to be reported.
pub open spec fn to_report(m: Map<Seq<char>, Row>, snap: Seq<FolderListing>, k: int, i: int) -> bool {
    0 <= k < snap.len() && (is_new(m, snap[k], i) || is_changed(m, snap[k], i))
}

/// What is reported is what is new or changed, and nothing else.
pub proof fn law_reports_are_exact(m: Map<Seq<char>, Row>, snap: Seq<FolderListing>, c: Change)
    ensures
        reported(m, snap).contains(c) <==> exists|k: int, i: int|
            #[trigger] to_report(m, snap, k, i) && c == change_of(snap[k], i),
    decreases snap.len(),
{
    if snap.len() > 0 {
        let fewer = snap.drop_last();
        let f = snap.last();
        let last = snap.len() as int - 1;
        law_reports_are_exact(m, fewer, c);
        lemma_parts(m, f, f.entries@.len(), c);
        let a = reported(m, fewer);
        let b = new_changes(m, f, f.entries@.len());
        let d = altered_changes(m, f, f.entries@.len());
        lemma_add_contains(a, b, c);
        lemma_add_contains(a + b, d, c);
        if a.contains(c) {
            let (k, i) = choose|k: int, i: int| #[trigger]
                to_report(m, fewer, k, i) && c == change_of(fewer[k], i);
            assert(to_report(m, snap, k, i));
        }
        if b.contains(c) {
            let i = choose|i: int|
                0 <= i < f.entries@.len() && #[trigger] is_new(m, f, i) && c == change_of(f, i);
            assert(to_report(m, snap, last, i));
        }
        if d.contains(c) {
            let i = choose|i: int|
                0 <= i < f.entries@.len() && #[trigger] is_changed(m, f, i) && c == change_of(f, i);
            assert(to_report(m, snap, last, i));
        }
        if exists|k: int, i: int| #[trigger]
            to_report(m, snap, k, i) && c == change_of(snap[k], i) {
            let (k, i) = choose|k: int, i: int| #[trigger]
                to_report(m, snap, k, i) && c == change_of(snap[k], i);
            if k < last {
                assert(to_report(m, fewer, k, i));
            } else if is_new(m, f, i) {
                assert(b.contains(c));
            } else {
                assert(is_changed(m, f, i));
                assert(d.contains(c));
            }
        }
    }
}

/// A path of the new rows is an old one or a reported one; a reported row is that of a report.
proof fn lemma_with_changes(m: Map<Seq<char>, Row>, cs: Seq<Change>, p: Seq<char>)
    ensures
        with_changes(m, cs).contains_key(p) <==> m.contains_key(p) || exists|i: int|
            0 <= i < cs.len() && (#[trigger] cs[i]).path == p,
        (exists|i: int| 0 <= i < cs.len() && (#[trigger] cs[i]).path == p) ==> exists|i: int|
            0 <= i < cs.len() && (#[trigger] cs[i]).path == p && with_changes(m, cs)[p]
                == change_row(cs[i]),
        (forall|i: int| 0 <= i < cs.len() ==> (#[trigger] cs[i]).path != p) && m.contains_key(p)
            ==> with_changes(m, cs)[p] == m[p],
    decreases cs.len(),
{
    if cs.len() > 0 {
        let fewer = cs.drop_last();
        let last = cs.len() as int - 1;
        lemma_with_changes(m, fewer, p);
        assert(forall|i: int| 0 <= i < last ==> fewer[i] == #[trigger] cs[i]);
        if cs[last].path == p {
            assert(with_changes(m, cs)[p] == change_row(cs[last]));
        } else {
            assert(with_changes(m, cs).contains_key(p) == with_changes(m, fewer).contains_key(p));
            if exists|i: int| 0 <= i < cs.len() && (#[trigger] cs[i]).path == p {
                let i = choose|i: int| 0 <= i < cs.len() && (#[trigger] cs[i]).path == p;
                assert(fewer[i].path == p);
                let j = choose|j: int|
                    0 <= j < fewer.len() && (#[trigger] fewer[j]).path == p && with_changes(
                        m,
                        fewer,
                    )[p] == change_row(fewer[j]);
                assert(cs[j].path == p);
            }
            if exists|i: int| 0 <= i < fewer.len() && (#[trigger] fewer[i]).path == p {
                let i = choose|i: int| 0 <= i < fewer.len() && (#[trigger] fewer[i]).path == p;
                assert(cs[i].path == p);
            }
            if forall|i: int| 0 <= i < cs.len() ==> (#[trigger] cs[i]).path != p {
                assert forall|i: int| 0 <= i < fewer.len() implies (#[trigger] fewer[i]).path
                    != p by {
                    assert(cs[i].path != p);
                }
            }
        }
    }
}

/// The path of an effective entry of a folder of the snapshot leads, in the rows that a report
/// leaves behind, to a row of that folder with the entry's name and with a size and time that
/// need no further report.
proof fn lemma_entry_settled(
    m: Map<Seq<char>, Row>,
    snap: Seq<FolderListing>,
    after: Map<Seq<char>, Row>,
    gone: Seq<Seq<char>>,
    k: int,
    i: int,
)
    requires
        consistent(m),
        proper_snapshot(snap),
        forall|p: Seq<char>| #[trigger] gone.contains(p) <==> is_gone_path(m, snap, p),
        after == without_paths(with_changes(m, reported(m, snap)), gone),
        0 <= k < snap.len(),
        effective(snap[k], i),
    ensures
        ({
            let e = snap[k].entries@[i];
            let p = child_path(snap[k].folder@, e.name@);
            &&& after.contains_key(p)
            &&& after[p].parent == snap[k].folder@
            &&& after[p].name == e.name@
            &&& after[p].nas_size == e.size
            &&& !apart(e.modified, after[p].nas_mtime, REPORTED_CHANGE_MICROS as int)
        }),
{
    let f = snap[k];
    let e = f.entries@[i];
    let p = child_path(f.folder@, e.name@);
    let cs = reported(m, snap);
    lemma_with_changes(m, cs, p);
    law_parent_of_child(f.folder@, e.name@);
    // The path is not gone.
    if is_gone_path(m, snap, p) {
        let (g, n) = choose|g: int, n: Seq<char>|
            0 <= g < snap.len() && #[trigger] is_gone(m, snap[g], n) && p == child_path(
                snap[g].folder@,
                n,
            );
        let q = choose|q: Seq<char>| #[trigger]
            m.contains_key(q) && m[q].parent == snap[g].folder@ && m[q].name == n;
        assert(plain_name(n));
        law_child_path_is_unique(f.folder@, e.name@, snap[g].folder@, n);
        if g < k {
            assert(snap[g].folder@ != snap[k].folder@);
        }
        if k < g {
            assert(snap[k].folder@ != snap[g].folder@);
        }
        assert(effective(snap[g], i));
        assert(lists_name(snap[g], n));
        assert(false);
    }
    // Every report of this path is that of this entry.
    assert forall|x: int| 0 <= x < cs.len() && (#[trigger] cs[x]).path == p implies cs[x]
        == change_of(f, i) by {
        assert(cs.contains(cs[x]));
        law_reports_are_exact(m, snap, cs[x]);
        let (g, j) = choose|g: int, j: int| #[trigger]
            to_report(m, snap, g, j) && cs[x] == change_of(snap[g], j);
        assert(effective(snap[g], j));
        let d = snap[g].entries@[j];
        law_child_path_is_unique(f.folder@, e.name@, snap[g].folder@, d.name@);
        if g < k {
            assert(snap[g].folder@ != snap[k].folder@);
        }
        if k < g {
            assert(snap[k].folder@ != snap[g].folder@);
        }
        if j < i {
            assert(snap[g].entries@[i].name@ != snap[g].entries@[j].name@);
        }
        if i < j {
            assert(snap[g].entries@[j].name@ != snap[g].entries@[i].name@);
        }
    }
    if to_report(m, snap, k, i) {
        let c = change_of(f, i);
        law_reports_are_exact(m, snap, c);
        assert(cs.contains(c));
        let x = choose|x: int| 0 <= x < cs.len() && cs[x] == c;
        assert(cs[x].path == p);
        let y = choose|y: int|
            0 <= y < cs.len() && (#[trigger] cs[y]).path == p && with_changes(m, cs)[p]
                == change_row(cs[y]);
        assert(cs[y] == c);
    } else {
        // Known, and neither size nor time differ enough.
        assert(name_known(m, f.folder@, e.name@));
        let q = choose|q: Seq<char>| #[trigger]
            m.contains_key(q) && m[q].parent == f.folder@ && m[q].name == e.name@;
        assert(q == p);
        assert forall|x: int| 0 <= x < cs.len() implies (#[trigger] cs[x]).path != p by {
            if cs[x].path == p {
                assert(cs[x] == change_of(f, i));
                assert(cs.contains(cs[x]));
                law_reports_are_exact(m, snap, cs[x]);
                let (g, j) = choose|g: int, j: int| #[trigger]
                    to_report(m, snap, g, j) && cs[x] == change_of(snap[g], j);
                assert(effective(snap[g], j));
                let d = snap[g].entries@[j];
                law_child_path_is_unique(f.folder@, e.name@, snap[g].folder@, d.name@);
                if g < k {
                    assert(snap[g].folder@ != snap[k].folder@);
                }
                if k < g {
                    assert(snap[k].folder@ != snap[g].folder@);
                }
                if j < i {
                    assert(snap[g].entries@[i].name@ != snap[g].entries@[j].name@);
                }
                if i < j {
                    assert(snap[g].entries@[j].name@ != snap[g].entries@[i].name@);
                }
                assert(false);
            }
        }
    }
}

/// A change is reported once: read again with nothing changed on the share, the folders of
/// the same snapshot give no report, and no path of theirs is reported as gone.
pub proof fn law_changes_are_reported_once(
    m: Map<Seq<char>, Row>,
    snap: Seq<FolderListing>,
    gone: Seq<Seq<char>>,
)
    requires
        consistent(m),
        proper_snapshot(snap),
        forall|p: Seq<char>| #[trigger] gone.contains(p) <==> is_gone_path(m, snap, p),
    ensures
        ({
            let after = without_paths(with_changes(m, reported(m, snap)), gone);
            &&& reported(after, snap).len() == 0
            &&& forall|p: Seq<char>| !is_gone_path(after, snap, p)
        }),
{
    let after = without_paths(with_changes(m, reported(m, snap)), gone);
    if reported(after, snap).len() > 0 {
        let c = reported(after, snap)[0];
        assert(reported(after, snap).contains(c));
        law_reports_are_exact(after, snap, c);
        let (k, i) = choose|k: int, i: int| #[trigger]
            to_report(after, snap, k, i) && c == change_of(snap[k], i);
        assert(effective(snap[k], i));
        lemma_entry_settled(m, snap, after, gone, k, i);
        let p = child_path(snap[k].folder@, snap[k].entries@[i].name@);
        assert(after.contains_key(p));
        assert(name_known(after, snap[k].folder@, snap[k].entries@[i].name@));
        assert(false);
    }
    assert forall|p: Seq<char>| !is_gone_path(after, snap, p) by {
        if is_gone_path(after, snap, p) {
            let (k, n) = choose|k: int, n: Seq<char>|
                0 <= k < snap.len() && #[trigger] is_gone(after, snap[k], n) && p == child_path(
                    snap[k].folder@,
                    n,
                );
            let q = choose|q: Seq<char>| #[trigger]
                after.contains_key(q) && after[q].parent == snap[k].folder@ && after[q].name == n;
            let cs = reported(m, snap);
            lemma_with_changes(m, cs, q);
            if exists|x: int| 0 <= x < cs.len() && (#[trigger] cs[x]).path == q {
                let x = choose|x: int|
                    0 <= x < cs.len() && (#[trigger] cs[x]).path == q && with_changes(m, cs)[q]
                        == change_row(cs[x]);
                assert(cs.contains(cs[x]));
                law_reports_are_exact(m, snap, cs[x]);
                let (g, j) = choose|g: int, j: int| #[trigger]
                    to_report(m, snap, g, j) && cs[x] == change_of(snap[g], j);
                assert(effective(snap[g], j));
                law_parent_of_child(snap[g].folder@, snap[g].entries@[j].name@);
                if g < k {
                    assert(snap[g].folder@ != snap[k].folder@);
                }
                if k < g {
                    assert(snap[k].folder@ != snap[g].folder@);
                }
                assert(lists_name(snap[k], n));
            } else {
                assert(m.contains_key(q) && m[q] == after[q]);
                assert(name_known(m, snap[k].folder@, n));
                assert(is_gone(m, snap[k], n));
                assert(is_gone_path(m, snap, q));
                assert(gone.contains(q));
            }
            assert(false);
        }
    }
}

proof fn lemma_effective_is(f: FolderListing, i: int)
    ensures
        effective(f, i) <==> {
            &&& 0 <= i < f.entries@.len()
            &&& !(f.entries@[i].name@.len() > 0 && (f.entries@[i].name@[0] == '.'
                || f.entries@[i].name@[0] == '@' || f.entries@[i].name@[0] == '#'))
            &&& forall|j: int|
                i < j < f.entries@.len() ==> (#[trigger] f.entries@[j]).name@ != f.entries@[i].name@
        },
{
}

/// A report says of an entry what the listing of its folder says: its name and path, whether it is
/// a directory, its size and its times.
pub proof fn law_reports_carry_their_entries(
    m: Map<Seq<char>, Row>,
    snap: Seq<FolderListing>,
    c: Change,
)
    requires
        reported(m, snap).contains(c),
    ensures
        exists|k: int, i: int|
            {
                &&& 0 <= k < snap.len()
                &&& 0 <= i < snap[k].entries@.len()
                &&& c.path == child_path(snap[k].folder@, (#[trigger] snap[k].entries@[i]).name@)
                &&& c.name == snap[k].entries@[i].name@
                &&& c.is_dir == snap[k].entries@[i].is_dir
                &&& c.size == snap[k].entries@[i].size
                &&& c.modified == snap[k].entries@[i].modified
                &&& c.created == snap[k].entries@[i].created
            },
{
    law_reports_are_exact(m, snap, c);
    let (k, i) = choose|k: int, i: int| #[trigger]
        to_report(m, snap, k, i) && c == change_of(snap[k], i);
    assert(snap[k].entries@[i].name@ == c.name);
}

/// Whether the listing of a folder shows the entry at `i` under a name that no later entry has.
pub open spec fn shows(f: FolderListing, i: int) -> bool {
    let name = f.entries@[i].name@;
    &&& 0 <= i < f.entries@.len()
    &&& name.len() == 0 || (name[0] != '.' && name[0] != '@' && name[0] != '#')
    &&& forall|j: int| i < j < f.entries@.len() ==> (#[trigger] f.entries@[j]).name@ != name
}

/// An entry that is shown and of which nothing was known in its folder is reported, and so is one
/// that is known with another size, or with a time that lies more than a second off. An entry that
/// is known with that size and about that time is not.
pub proof fn law_what_differs_is_reported(
    m: Map<Seq<char>, Row>,
    snap: Seq<FolderListing>,
    k: int,
    i: int,
)
    requires
        consistent(m),
        proper_snapshot(snap),
        0 <= k < snap.len(),
        shows(snap[k], i),
    ensures
        ({
            let e = snap[k].entries@[i];
            let p = child_path(snap[k].folder@, e.name@);
            let told = exists|c: Change| #[trigger] reported(m, snap).contains(c) && c.path == p;
            &&& !m.contains_key(p) ==> told
            &&& m.contains_key(p) ==> (told <==> e.size != m[p].nas_size || e.modified
                - m[p].nas_mtime > 1_000_000 || m[p].nas_mtime - e.modified > 1_000_000)
        }),
{
    let f = snap[k];
    let e = f.entries@[i];
    let p = child_path(f.folder@, e.name@);
    lemma_effective_is(f, i);
    if m.contains_key(p) {
        law_child_path_is_unique(f.folder@, e.name@, m[p].parent, m[p].name);
        assert(name_known(m, f.folder@, e.name@));
    } else if name_known(m, f.folder@, e.name@) {
        let q = choose|q: Seq<char>| #[trigger]
            m.contains_key(q) && m[q].parent == f.folder@ && m[q].name == e.name@;
        assert(q == p);
    }
    if to_report(m, snap, k, i) {
        law_reports_are_exact(m, snap, change_of(f, i));
        assert(reported(m, snap).contains(change_of(f, i)));
    }
    if exists|c: Change| #[trigger] reported(m, snap).contains(c) && c.path == p {
        let c = choose|c: Change| #[trigger] reported(m, snap).contains(c) && c.path == p;
        law_reports_are_exact(m, snap, c);
        let (g, j) = choose|g: int, j: int| #[trigger]
            to_report(m, snap, g, j) && c == change_of(snap[g], j);
        lemma_effective_is(snap[g], j);
        let d = snap[g].entries@[j];
        law_child_path_is_unique(f.folder@, e.name@, snap[g].folder@, d.name@);
        if g < k {
            assert(snap[g].folder@ != snap[k].folder@);
        }
        if k < g {
            assert(snap[k].folder@ != snap[g].folder@);
        }
        if j < i {
            assert(snap[g].entries@[i].name@ != snap[g].entries@[j].name@);
        }
        if i < j {
            assert(snap[g].entries@[j].name@ != snap[g].entries@[i].name@);
        }
        assert(to_report(m, snap, k, i));
    }
}

/// Hidden entries are not reported, and what they were known as counts as gone; a known entry is
/// gone exactly where its folder was read and shows no entry of its name.
pub proof fn law_what_is_missing_is_gone(m: Map<Seq<char>, Row>, snap: Seq<FolderListing>, p: Seq<char>)
    requires
        consistent(m),
        proper_snapshot(snap),
    ensures
        is_gone_path(m, snap, p) <==> {
            &&& m.contains_key(p)
            &&& exists|k: int|
                {
                    &&& 0 <= k < snap.len()
                    &&& (#[trigger] snap[k]).folder@ == m[p].parent
                    &&& forall|i: int|
                        0 <= i < snap[k].entries@.len() && (#[trigger] snap[k].entries@[i]).name@
                            == m[p].name ==> !shows(snap[k], i)
                }
        },
        forall|c: Change| #[trigger]
            reported(m, snap).contains(c) ==> c.name.len() == 0 || (c.name[0] != '.' && c.name[0]
                != '@' && c.name[0] != '#'),
{
    if is_gone_path(m, snap, p) {
        let (k, n) = choose|k: int, n: Seq<char>|
            0 <= k < snap.len() && #[trigger] is_gone(m, snap[k], n) && p == child_path(
                snap[k].folder@,
                n,
            );
        let q = choose|q: Seq<char>| #[trigger]
            m.contains_key(q) && m[q].parent == snap[k].folder@ && m[q].name == n;
        assert(q == p);
        assert forall|i: int|
            0 <= i < snap[k].entries@.len() && (#[trigger] snap[k].entries@[i]).name@
                == m[p].name implies !shows(snap[k], i) by {
            lemma_effective_is(snap[k], i);
            if shows(snap[k], i) {
                assert(effective(snap[k], i));
                assert(lists_name(snap[k], n));
            }
        }
        assert(snap[k].folder@ == m[p].parent);
    }
    if m.contains_key(p) && exists|k: int|
        {
            &&& 0 <= k < snap.len()
            &&& (#[trigger] snap[k]).folder@ == m[p].parent
            &&& forall|i: int|
                0 <= i < snap[k].entries@.len() && (#[trigger] snap[k].entries@[i]).name@
                    == m[p].name ==> !shows(snap[k], i)
        } {
        let k = choose|k: int|
            {
                &&& 0 <= k < snap.len()
                &&& (#[trigger] snap[k]).folder@ == m[p].parent
                &&& forall|i: int|
                    0 <= i < snap[k].entries@.len() && (#[trigger] snap[k].entries@[i]).name@
                        == m[p].name ==> !shows(snap[k], i)
            };
        assert(name_known(m, snap[k].folder@, m[p].name));
        if lists_name(snap[k], m[p].name) {
            let i = choose|i: int| #[trigger]
                effective(snap[k], i) && snap[k].entries@[i].name@ == m[p].name;
            lemma_effective_is(snap[k], i);
            assert(shows(snap[k], i));
        }
        assert(is_gone(m, snap[k], m[p].name));
        assert(is_gone_path(m, snap, p));
    }
    assert forall|c: Change| #[trigger] reported(m, snap).contains(c) implies c.name.len() == 0 || (
    c.name[0] != '.' && c.name[0] != '@' && c.name[0] != '#') by {
        law_reports_are_exact(m, snap, c);
        let (k, i) = choose|k: int, i: int| #[trigger]
            to_report(m, snap, k, i) && c == change_of(snap[k], i);
        lemma_effective_is(snap[k], i);
    }
}

/// What a report leaves behind is what the share has: each entry that is shown is known in its folder
/// under its name with its size, and what is reported is known with all that the listing says of it,
/// whether it is a directory included. What is not reported stays known as it was.
pub proof fn law_reports_are_taken_over(
    m: Map<Seq<char>, Row>,
    snap: Seq<FolderListing>,
    gone: Seq<Seq<char>>,
    k: int,
    i: int,
)
    requires
        consistent(m),
        proper_snapshot(snap),
        forall|p: Seq<char>| #[trigger] gone.contains(p) <==> is_gone_path(m, snap, p),
        0 <= k < snap.len(),
        shows(snap[k], i),
    ensures
        ({
            let after = without_paths(with_changes(m, reported(m, snap)), gone);
            let e = snap[k].entries@[i];
            let p = child_path(snap[k].folder@, e.name@);
            let told = exists|c: Change| #[trigger] reported(m, snap).contains(c) && c.path == p;
            &&& after.contains_key(p)
            &&& after[p].name == e.name@
            &&& after[p].parent == snap[k].folder@
            &&& after[p].nas_size == e.size
            &&& told ==> after[p].is_dir == e.is_dir && after[p].nas_mtime == e.modified
                && after[p].nas_created == e.created && !after[p].is_hydrated
            &&& !told ==> m.contains_key(p) && after[p] == m[p]
        }),
{
    let cs = reported(m, snap);
    let after = without_paths(with_changes(m, cs), gone);
    let f = snap[k];
    let e = f.entries@[i];
    let p = child_path(f.folder@, e.name@);
    lemma_effective_is(f, i);
    lemma_entry_settled(m, snap, after, gone, k, i);
    lemma_with_changes(m, cs, p);
    if exists|c: Change| #[trigger] cs.contains(c) && c.path == p {
        let c = choose|c: Change| #[trigger] cs.contains(c) && c.path == p;
        let x = choose|x: int| 0 <= x < cs.len() && cs[x] == c;
        assert(cs[x].path == p);
        let y = choose|y: int|
            0 <= y < cs.len() && (#[trigger] cs[y]).path == p && with_changes(m, cs)[p]
                == change_row(cs[y]);
        assert(cs.contains(cs[y]));
        law_reports_are_exact(m, snap, cs[y]);
        let (g, j) = choose|g: int, j: int| #[trigger]
            to_report(m, snap, g, j) && cs[y] == change_of(snap[g], j);
        lemma_effective_is(snap[g], j);
        law_child_path_is_unique(f.folder@, e.name@, snap[g].folder@, snap[g].entries@[j].name@);
        if g < k {
            assert(snap[g].folder@ != snap[k].folder@);
        }
        if k < g {
            assert(snap[k].folder@ != snap[g].folder@);
        }
        if j < i {
            assert(snap[g].entries@[i].name@ != snap[g].entries@[j].name@);
        }
        if i < j {
            assert(snap[g].entries@[j].name@ != snap[g].entries@[i].name@);
        }
    } else {
        assert forall|x: int| 0 <= x < cs.len() implies (#[trigger] cs[x]).path != p by {
            assert(cs.contains(cs[x]));
        }
    }
}

/// Once a folder was enumerated, each entry is known as the listing has it, in full; of two entries
/// with one name the last counts. Nothing is held of it then.
pub proof fn law_enumeration_keeps_what_was_listed(
    m: Map<Seq<char>, Row>,
    rel: Seq<char>,
    es: Seq<DirEntry>,
    i: int,
)
    requires
        0 <= i < es.len(),
        forall|j: int| i < j < es.len() ==> (#[trigger] es[j]).name@ != es[i].name@,
        forall|j: int| 0 <= j < es.len() ==> plain_name((#[trigger] es[j]).name@),
    ensures
        ({
            let after = without_orphans(with_entries(m, rel, es), rel, entry_paths(rel, es));
            let p = child_path(rel, es[i].name@);
            &&& after.contains_key(p)
            &&& after[p].name == es[i].name@
            &&& after[p].parent == rel
            &&& after[p].is_dir == es[i].is_dir
            &&& after[p].nas_size == es[i].size
            &&& after[p].nas_mtime == es[i].modified
            &&& after[p].nas_created == es[i].created
            &&& !after[p].is_hydrated
            &&& after[p].hydrated_size == 0
        }),
    decreases es.len(),
{
    let p = child_path(rel, es[i].name@);
    lemma_last_entry(m, rel, es, i);
    assert(entry_paths(rel, es)[i] == p);
    law_enumeration_mirrors_listing(m, rel, es, p);
}

proof fn lemma_last_entry(m: Map<Seq<char>, Row>, rel: Seq<char>, es: Seq<DirEntry>, i: int)
    requires
        0 <= i < es.len(),
        forall|j: int| i < j < es.len() ==> (#[trigger] es[j]).name@ != es[i].name@,
        forall|j: int| 0 <= j < es.len() ==> plain_name((#[trigger] es[j]).name@),
    ensures
        ({
            let row = with_entries(m, rel, es)[child_path(rel, es[i].name@)];
            &&& row.name == es[i].name@
            &&& row.parent == rel
            &&& row.is_dir == es[i].is_dir
            &&& row.nas_size == es[i].size
            &&& row.nas_mtime == es[i].modified
            &&& row.nas_created == es[i].created
            &&& !row.is_hydrated
            &&& row.hydrated_size == 0
        }),
    decreases es.len(),
{
    let last = es.len() - 1;
    if i < last {
        let fewer = es.drop_last();
        assert(fewer[i] == es[i]);
        assert forall|j: int| i < j < fewer.len() implies (#[trigger] fewer[j]).name@
            != fewer[i].name@ by {
            assert(es[j].name@ != es[i].name@);
        }
        assert forall|j: int| 0 <= j < fewer.len() implies plain_name(
            (#[trigger] fewer[j]).name@,
        ) by {
            assert(es[j] == fewer[j]);
        }
        lemma_last_entry(m, rel, fewer, i);
        assert(plain_name(es[last].name@));
        if child_path(rel, es[last].name@) == child_path(rel, es[i].name@) {
            law_child_path_is_unique(rel, es[last].name@, rel, es[i].name@);
        }
    }
}

/// An enumeration queues the path of a file to be dropped exactly where content of it was held and
/// the share now has another size of it, smaller or larger, or a time more than a millisecond off.
pub proof fn law_outdated_content_is_dropped(
    m: Map<Seq<char>, Row>,
    rel: Seq<char>,
    es: Seq<DirEntry>,
    i: int,
)
    requires
        0 <= i < es.len(),
        forall|a: int, b: int|
            0 <= a < b < es.len() ==> (#[trigger] es[a]).name@ != (#[trigger] es[b]).name@,
        forall|j: int| 0 <= j < es.len() ==> plain_name((#[trigger] es[j]).name@),
    ensures
        ({
            let p = child_path(rel, es[i].name@);
            drifted_paths(m, rel, es).contains(p) <==> {
                &&& !es[i].is_dir
                &&& m.contains_key(p)
                &&& m[p].is_hydrated
                &&& es[i].size < m[p].nas_size || es[i].size > m[p].nas_size || es[i].modified
                    - m[p].nas_mtime > 1_000 || m[p].nas_mtime - es[i].modified > 1_000
            }
        }),
    decreases es.len(),
{
    let p = child_path(rel, es[i].name@);
    let last = es.len() - 1;
    let fewer = es.drop_last();
    let rest = drifted_paths(m, rel, fewer);
    let q = child_path(rel, es[last].name@);
    assert forall|a: int, b: int| 0 <= a < b < fewer.len() implies (#[trigger] fewer[a]).name@ != (
    #[trigger] fewer[b]).name@ by {
        assert(es[a].name@ != es[b].name@);
    }
    assert forall|j: int| 0 <= j < fewer.len() implies plain_name((#[trigger] fewer[j]).name@) by {
        assert(es[j] == fewer[j]);
    }
    lemma_text_push(rest, q, p);
    assert(plain_name(es[last].name@));
    assert(plain_name(es[i].name@));
    if i < last {
        law_outdated_content_is_dropped(m, rel, fewer, i);
        if p == q {
            law_child_path_is_unique(rel, es[last].name@, rel, es[i].name@);
            assert(es[i].name@ != es[last].name@);
        }
    } else {
        lemma_not_drifted(m, rel, fewer, p);
        lemma_with_entries(m, rel, fewer, p);
        let ps = entry_paths(rel, fewer);
        if ps.contains(p) {
            let j = choose|j: int| 0 <= j < ps.len() && ps[j] == p;
            assert(plain_name(es[j].name@));
            assert(fewer[j] == es[j]);
            law_child_path_is_unique(rel, es[j].name@, rel, es[i].name@);
            assert(es[j].name@ != es[i].name@);
        }
        if rest.contains(p) {
            assert(ps.contains(p));
        }
    }
}

proof fn lemma_not_drifted(m: Map<Seq<char>, Row>, rel: Seq<char>, es: Seq<DirEntry>, p: Seq<char>)
    ensures
        drifted_paths(m, rel, es).contains(p) ==> entry_paths(rel, es).contains(p),
    decreases es.len(),
{
    if es.len() > 0 {
        let fewer = es.drop_last();
        let q = child_path(rel, es.last().name@);
        lemma_not_drifted(m, rel, fewer, p);
        lemma_text_push(drifted_paths(m, rel, fewer), q, p);
        let a = entry_paths(rel, fewer);
        let b = entry_paths(rel, es);
        assert(b =~= a.push(q));
        lemma_text_push(a, q, p);
    }
}

proof fn lemma_text_push(s: Seq<Seq<char>>, d: Seq<char>, c: Seq<char>)
    ensures
        s.push(d).contains(c) <==> s.contains(c) || c == d,
{
    let t = s.push(d);
    if s.contains(c) {
        let i = choose|i: int| 0 <= i < s.len() && s[i] == c;
        assert(t[i] == c);
    }
    assert(t[s.len() as int] == d);
    if t.contains(c) {
        let i = choose|i: int| 0 <= i < t.len() && t[i] == c;
        if i < s.len() {
            assert(s[i] == c);
        }
    }
}

/// The share's version of a file counts as another one whenever its size differs, whichever is
/// larger, or its time by more than a millisecond, whichever is later; and in no other case.
pub proof fn law_drift_is_any_difference(r: Row, size: u64, mtime: i64)
    ensures
        size < r.nas_size ==> drifts(r, size, mtime),
        size > r.nas_size ==> drifts(r, size, mtime),
        mtime - r.nas_mtime > 1_000 ==> drifts(r, size, mtime),
        r.nas_mtime - mtime > 1_000 ==> drifts(r, size, mtime),
        size == r.nas_size && -1_000 <= mtime - r.nas_mtime <= 1_000 ==> !drifts(r, size, mtime),
{
}

/// Content that was brought here is noted at its file, with its bytes and the time, and nothing else
/// changes: neither what the share says of the file nor what is known of others.
pub proof fn law_hydration_is_noted(
    m: Map<Seq<char>, Row>,
    path: Seq<char>,
    size: u64,
    now: i64,
    other: Seq<char>,
)
    ensures
        ({
            let after = hydrated(m, path, size, now);
            &&& after.dom() == m.dom()
            &&& m.contains_key(path) ==> {
                &&& after[path].is_hydrated
                &&& after[path].hydrated_size == size
                &&& after[path].last_accessed == now
                &&& after[path].nas_size == m[path].nas_size
                &&& after[path].nas_mtime == m[path].nas_mtime
                &&& after[path].nas_created == m[path].nas_created
                &&& after[path].name == m[path].name
                &&& after[path].parent == m[path].parent
                &&& after[path].is_dir == m[path].is_dir
                &&& after[path].last_verified_at == m[path].last_verified_at
            }
            &&& other != path && m.contains_key(other) ==> after[other] == m[other]
        }),
{
    assert(hydrated(m, path, size, now).dom() =~= m.dom());
}

/// Dropping content changes nothing of what the share says of a file.
pub proof fn law_dropping_keeps_the_rest(k: KnownFile)
    ensures
        ({
            let d = dropped_file(k);
            &&& !d.is_hydrated
            &&& d.hydrated_size == 0
            &&& d.path == k.path
            &&& d.name == k.name
            &&& d.parent_path == k.parent_path
            &&& d.is_dir == k.is_dir
            &&& d.nas_size == k.nas_size
            &&& d.nas_mtime == k.nas_mtime
            &&& d.nas_created == k.nas_created
            &&& d.last_accessed == k.last_accessed
            &&& d.last_verified_at == k.last_verified_at
        }),
{
}

/// An eviction brings the cache down to four fifths of its budget, cut to whole bytes.
pub proof fn law_eviction_leaves_room(limit: int)
    requires
        limit >= 0,
    ensures
        5 * eviction_target(limit) <= 4 * limit < 5 * eviction_target(limit) + 5,
{
}

/// Nothing is dropped of a cache without a budget, nor of one within it.
pub proof fn law_nothing_is_dropped_within_budget(
    rows: Seq<KnownFile>,
    limit: int,
    ps: Seq<Seq<char>>,
)
    requires
        kept_to_budget(rows, limit, ps),
        limit == 0 || held_total(rows) <= limit,
    ensures
        ps.len() == 0,
        after_drops(rows, ps) == rows,
{
}

/// The files that are held are those with content, no directory among them, and each only once.
pub proof fn law_held_files_are_listed(rows: Seq<KnownFile>, p: Seq<char>)
    ensures
        held_paths(rows).contains(p) <==> exists|i: int|
            0 <= i < rows.len() && (#[trigger] rows[i]).path@ == p && rows[i].is_hydrated
                && !rows[i].is_dir,
        held_paths(rows).len() <= rows.len(),
    decreases rows.len(),
{
    if rows.len() > 0 {
        let d = rows.drop_last();
        law_held_files_are_listed(d, p);
        lemma_text_push(held_paths(d), rows.last().path@, p);
        if exists|i: int|
            0 <= i < d.len() && (#[trigger] d[i]).path@ == p && d[i].is_hydrated && !d[i].is_dir {
            let i = choose|i: int|
                0 <= i < d.len() && (#[trigger] d[i]).path@ == p && d[i].is_hydrated
                    && !d[i].is_dir;
            assert(rows[i].path@ == p && rows[i].is_hydrated && !rows[i].is_dir);
        }
        if exists|i: int|
            0 <= i < rows.len() && (#[trigger] rows[i]).path@ == p && rows[i].is_hydrated
                && !rows[i].is_dir {
            let i = choose|i: int|
                0 <= i < rows.len() && (#[trigger] rows[i]).path@ == p && rows[i].is_hydrated
                    && !rows[i].is_dir;
            if i < d.len() {
                assert(d[i].path@ == p && d[i].is_hydrated && !d[i].is_dir);
            }
        }
        assert(rows[rows.len() - 1] == rows.last());
    }
}

/// Notes about a file change what they are about and nothing else: an access its time, a
/// comparison the time of that, and a new version the size, the time and the comparison.
pub proof fn law_notes_change_what_they_are_about(
    a: &mut MacosCache,
    b: &mut MacosCache,
    c: &mut MacosCache,
    path: &str,
    size: u64,
    mtime: i64,
    now: i64,
)
    requires
        old(a).wf(),
        old(b).wf(),
        old(c).wf(),
        old(a).files().contains_key(path@),
        old(b).files().contains_key(path@),
        old(c).files().contains_key(path@),
        call_ensures(MacosCache::touch, (a, path, now), ()),
        call_ensures(MacosCache::record_verification, (b, path, now), ()),
        call_ensures(MacosCache::update_nas_metadata, (c, path, size, mtime, now), ()),
    ensures
        final(a).files()[path@] == (Row { last_accessed: now, ..old(a).files()[path@] }),
        final(b).files()[path@] == (Row { last_verified_at: now, ..old(b).files()[path@] }),
        final(c).files()[path@].nas_size == size,
        final(c).files()[path@].nas_mtime == mtime,
        final(c).files()[path@].last_verified_at == now,
        final(c).files()[path@].is_hydrated == old(c).files()[path@].is_hydrated,
        final(c).files()[path@].hydrated_size == old(c).files()[path@].hydrated_size,
        final(c).files()[path@].is_dir == old(c).files()[path@].is_dir,
        final(a).pending() == old(a).pending() && final(b).pending() == old(b).pending()
            && final(c).pending() == old(c).pending(),
{
}

/// A file has to be compared with the share where it is known and the last comparison is not
/// recent; what is known of it is then told.
pub proof fn law_old_comparisons_are_repeated(
    c: MacosCache,
    path: &str,
    ttl: i64,
    now: i64,
    r: Option<(u64, i64)>,
)
    requires
        c.wf(),
        call_ensures(MacosCache::needs_verification, (&c, path, ttl, now), r),
    ensures
        !c.files().contains_key(path@) ==> r is None,
        c.files().contains_key(path@) ==> (r is Some <==> now
            - c.files()[path@].last_verified_at >= ttl),
        r matches Some(v) ==> v.0 == c.files()[path@].nas_size && v.1
            == c.files()[path@].nas_mtime,
{
}

/// A file is known as the share has it: with its name, what it is, its size and both times, in the
/// folder of its path, and nothing of it is held.
pub proof fn law_files_are_known_as_the_share_has_them(
    c: &mut MacosCache,
    path: &str,
    e: DirEntry,
    other: Seq<char>,
)
    requires
        old(c).wf(),
        other != path@,
        call_ensures(MacosCache::record_known_file, (c, path, &e), ()),
    ensures
        ({
            let r = final(c).files()[path@];
            &&& final(c).files().contains_key(path@)
            &&& r.name == e.name@ && r.is_dir == e.is_dir && r.nas_size == e.size
            &&& r.nas_mtime == e.modified && r.nas_created == e.created
            &&& r.parent == parent_path(path@)
            &&& !r.is_hydrated && r.hydrated_size == 0
            &&& final(c).files().contains_key(other) == old(c).files().contains_key(other)
            &&& old(c).files().contains_key(other) ==> final(c).files()[other]
                == old(c).files()[other]
        }),
{
}

/// Clearing the cache leaves no file with content and every row known; what was held is handed to
/// the client to be dropped.
pub proof fn law_cleared_caches_hold_nothing(c: &mut MacosCache, r: (u32, u64), k: int)
    requires
        old(c).wf(),
        held_paths(old(c).rows()).len() <= u32::MAX,
        0 <= k < old(c).rows().len(),
        call_ensures(MacosCache::clear_all_hydrated, (c,), r),
    ensures
        final(c).rows().len() == old(c).rows().len(),
        final(c).rows()[k].path == old(c).rows()[k].path,
        !old(c).rows()[k].is_dir ==> !final(c).rows()[k].is_hydrated,
        final(c).rows()[k].nas_size == old(c).rows()[k].nas_size,
        r.0 == held_paths(old(c).rows()).len(),
        final(c).pending() == old(c).pending() + held_paths(old(c).rows()),
{
    let row = final(c).rows()[k];
    assert(row.path == old(c).rows()[k].path);
}

/// The queue of contents to be dropped is handed out once and whole.
pub proof fn law_queue_is_handed_out_once(c: &mut MacosCache, out: Vec<String>)
    requires
        call_ensures(MacosCache::drain_pending_evictions, (c,), out),
    ensures
        texts(out@) == old(c).pending(),
        final(c).pending().len() == 0,
        final(c).files() == old(c).files(),
{
}

/// A report is taken as it is written: nothing of it is changed or left out.
pub proof fn law_reports_say_what_is_written(c: ChangedEntry)
    ensures
        c.change().path == c.relative_path@,
        c.change().name == c.name@,
        c.change().is_dir == c.is_dir,
        c.change().size == c.size,
        c.change().modified == c.modified,
        c.change().created == c.created,
{
}

/// A name is hidden by its first character alone.
pub proof fn law_first_character_hides(c: char, rest: Seq<char>)
    ensures
        hidden_name(seq![c] + rest) <==> c == '.' || c == '@' || c == '#',
        !hidden_name(Seq::<char>::empty()),
{
}

} // verus!
