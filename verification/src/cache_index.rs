//! Index of the files of one mount that are mirrored as placeholders: what the share
//! last said of them, what is held locally, and which folders were visited.
use crate::file_table::{
    as_map, fresh_row, held_total, is_oldest, lemma_held_total_bounds, lemma_row_at, none_evictable,
    unique_paths, FileTable, KnownFile, Row,
};
use crate::folder_table::{folder_pos, visited, with_folder, Folder, FolderTable};
use crate::macos_cache::{eviction_target, target_of, StatResult};
use crate::paths::{join, joined, Environment, Platform};
use crate::text::{
    chars_of, eq_ignore_ascii_case, join2, same, same_ignoring_case, string_range, texts,
};
use vstd::prelude::*;

verus! {

/// The attribute of a reparse point, which every placeholder is.
pub const ATTR_REPARSE_POINT: u32 = 0x400;

/// The attribute of a file whose content is fetched when it is read.
pub const ATTR_RECALL_ON_DATA_ACCESS: u32 = 0x0040_0000;

/// The value that stands for attributes that could not be read.
pub const INVALID_ATTRIBUTES: u32 = 0xFFFF_FFFF;

/// Whether the attributes are those of a placeholder.
pub fn is_cf_placeholder(attrs: u32) -> (r: bool)
    ensures
        r == (attrs != INVALID_ATTRIBUTES && attrs & ATTR_REPARSE_POINT != 0),
{
    attrs != INVALID_ATTRIBUTES && (attrs & ATTR_REPARSE_POINT) != 0
}

/// Whether the attributes are those of a placeholder whose content is here.
pub fn is_hydrated(attrs: u32) -> (r: bool)
    ensures
        r == (attrs != INVALID_ATTRIBUTES && attrs & ATTR_REPARSE_POINT != 0 && attrs
            & ATTR_RECALL_ON_DATA_ACCESS == 0),
{
    if attrs == INVALID_ATTRIBUTES {
        return false;
    }
    let is_placeholder: bool = (attrs & ATTR_REPARSE_POINT) != 0;
    let needs_recall: bool = (attrs & ATTR_RECALL_ON_DATA_ACCESS) != 0;
    is_placeholder && !needs_recall
}

/// Whether `path` is that of a direct entry of `folder`; the case of letters in the folder's
/// part does not count.
pub open spec fn in_folder(path: Seq<char>, folder: Seq<char>) -> bool {
    let n = folder.len() + 1;
    &&& path.len() >= n
    &&& same_ignoring_case(path.take(n as int), folder.push('\\'))
    &&& forall|i: int| n <= i < path.len() ==> path[i] != '\\'
}

fn is_in_folder(path: &str, folder: &str) -> (r: bool)
    ensures
        r == in_folder(path@, folder@),
{
    let v = chars_of(path);
    let mut prefix = folder.to_owned();
    prefix.push('\\');
    let n: usize = chars_of(prefix.as_str()).len();
    if v.len() < n {
        return false;
    }
    let head = string_range(&v, 0, n);
    assert(v@.subrange(0, n as int) =~= v@.take(n as int));
    if !eq_ignore_ascii_case(head.as_str(), prefix.as_str()) {
        return false;
    }
    let mut i: usize = n;
    while i < v.len()
        invariant
            n <= i <= v@.len(),
            v@ == path@,
            n == folder@.len() + 1,
            forall|k: int| n <= k < i ==> v@[k] != '\\',
        decreases v@.len() - i,
    {
        if v[i] == '\\' {
            return false;
        }
        i += 1;
    }
    true
}

/// What is known of an entry of a folder: path, size and time.
pub open spec fn known_entry(k: KnownFile) -> (Seq<char>, u64, i64) {
    (k.path@, k.nas_size, k.nas_mtime)
}

/// The rows of direct entries of the folder, in order.
pub open spec fn entries_of(rows: Seq<KnownFile>, folder: Seq<char>) -> Seq<(Seq<char>, u64, i64)>
    decreases rows.len(),
{
    if rows.len() == 0 {
        Seq::empty()
    } else if in_folder(rows.last().path@, folder) {
        entries_of(rows.drop_last(), folder).push(known_entry(rows.last()))
    } else {
        entries_of(rows.drop_last(), folder)
    }
}

pub open spec fn entry_views(v: Seq<(String, u64, i64)>) -> Seq<(Seq<char>, u64, i64)> {
    v.map_values(|t: (String, u64, i64)| (t.0@, t.1, t.2))
}

/// A row for a file of which only its local content is known.
pub open spec fn found_row(size: u64, now: i64) -> Row {
    Row {
        is_hydrated: true,
        hydrated_size: size,
        last_accessed: now,
        ..fresh_row(Seq::empty(), false, size, 0, 0, Seq::empty())
    }
}

/// The rows after a file's content was found here.
pub open spec fn with_content(
    m: Map<Seq<char>, Row>,
    path: Seq<char>,
    size: u64,
    now: i64,
) -> Map<Seq<char>, Row> {
    m.insert(
        path,
        if m.contains_key(path) {
            Row { is_hydrated: true, hydrated_size: size, last_accessed: now, ..m[path] }
        } else {
            found_row(size, now)
        },
    )
}

/// The bytes of the contents that an older index lists.
pub open spec fn listed_total(v: Seq<(Seq<char>, u64, i64)>) -> int
    decreases v.len(),
{
    if v.len() == 0 {
        0
    } else {
        listed_total(v.drop_last()) + v.last().1
    }
}

/// The rows after those of an older index were taken over: path, bytes and last access of each
/// content. What is known already stays as it is.
pub open spec fn with_older(m: Map<Seq<char>, Row>, v: Seq<(Seq<char>, u64, i64)>) -> Map<
    Seq<char>,
    Row,
>
    decreases v.len(),
{
    if v.len() == 0 {
        m
    } else {
        let before = with_older(m, v.drop_last());
        if before.contains_key(v.last().0) {
            before
        } else {
            before.insert(v.last().0, found_row(v.last().1, v.last().2))
        }
    }
}

proof fn lemma_listed_total(v: Seq<(Seq<char>, u64, i64)>, k: int)
    requires
        0 <= k < v.len(),
    ensures
        0 <= listed_total(v.take(k)),
        listed_total(v.take(k + 1)) == listed_total(v.take(k)) + v[k].1,
        listed_total(v.take(k + 1)) <= listed_total(v),
    decreases v.len() - k,
{
    assert(v.take(k + 1).drop_last() =~= v.take(k));
    lemma_listed_nonneg(v.take(k));
    if k + 1 < v.len() {
        lemma_listed_total(v, k + 1);
    } else {
        assert(v.take(k + 1) =~= v);
    }
}

proof fn lemma_listed_nonneg(v: Seq<(Seq<char>, u64, i64)>)
    ensures
        0 <= listed_total(v),
    decreases v.len(),
{
    if v.len() > 0 {
        lemma_listed_nonneg(v.drop_last());
    }
}

/// The rows of held files as path and bytes, in order.
pub open spec fn held_entries(rows: Seq<KnownFile>) -> Seq<(Seq<char>, u64)>
    decreases rows.len(),
{
    if rows.len() == 0 {
        Seq::empty()
    } else if rows.last().is_hydrated {
        held_entries(rows.drop_last()).push((rows.last().path@, rows.last().hydrated_size))
    } else {
        held_entries(rows.drop_last())
    }
}

pub open spec fn held_views(v: Seq<(String, u64)>) -> Seq<(Seq<char>, u64)> {
    v.map_values(|t: (String, u64)| (t.0@, t.1))
}

/// How many of the first entries were dropped, and how many bytes those are.
pub open spec fn dropped_sums(v: Seq<(Seq<char>, u64)>, ok: Seq<bool>) -> (int, int)
    decreases v.len(),
{
    if v.len() == 0 || ok.len() < v.len() {
        (0, 0)
    } else {
        let rest = dropped_sums(v.drop_last(), ok.take(v.len() - 1));
        if ok[v.len() - 1] {
            (rest.0 + 1, rest.1 + v.last().1)
        } else {
            rest
        }
    }
}

/// Whether the share has another version of a file than is known; nothing for an unknown file.
pub open spec fn differs(
    m: Map<Seq<char>, Row>,
    path: Seq<char>,
    nas_size: u64,
    nas_mtime: i64,
) -> Option<bool> {
    if m.contains_key(path) {
        Some(m[path].nas_size != nas_size || m[path].nas_mtime != nas_mtime)
    } else {
        None
    }
}

/// The known files after the share was found to agree about one of them.
pub open spec fn verified(m: Map<Seq<char>, Row>, path: Seq<char>, now: i64) -> Map<
    Seq<char>,
    Row,
> {
    if m.contains_key(path) {
        m.insert(path, Row { last_verified_at: now, ..m[path] })
    } else {
        m
    }
}

/// The known files after the share's values were recorded for one of them.
pub open spec fn with_version(
    m: Map<Seq<char>, Row>,
    path: Seq<char>,
    nas_size: u64,
    nas_mtime: i64,
) -> Map<Seq<char>, Row> {
    m.insert(
        path,
        if m.contains_key(path) {
            Row { nas_size, nas_mtime, ..m[path] }
        } else {
            fresh_row(Seq::empty(), false, nas_size, nas_mtime, 0, Seq::empty())
        },
    )
}

/// The directory of the databases of all sync roots.
pub open spec fn index_dir(env: Environment) -> Seq<char> {
    match env.local_app_data {
        Some(local) => joined(
            Platform::Windows,
            joined(Platform::Windows, local@, "ufb"@),
            "cache"@,
        ),
        None => "C:\\ufb\\cache"@,
    }
}

/// The directory of the database of a mount and the database itself. It is outside the sync root,
/// where the system would take part in each access.
pub fn index_file(env: &Environment, mount_id: &str) -> (r: (String, String))
    ensures
        r.0@ == index_dir(*env),
        r.1@ == joined(Platform::Windows, index_dir(*env), mount_id@ + ".db"@),
{
    let dir = match &env.local_app_data {
        Some(local) => {
            let ufb = join(Platform::Windows, local.as_str(), "ufb");
            join(Platform::Windows, ufb.as_str(), "cache")
        },
        None => "C:\\ufb\\cache".to_owned(),
    };
    let name = join2(mount_id, ".db");
    let file = join(Platform::Windows, dir.as_str(), name.as_str());
    (dir, file)
}

/// Whether a database has to be made anew: it cannot be opened, its tables cannot be made, or its
/// integrity check does not say `ok`.
pub fn needs_repair(opened: bool, has_tables: bool, integrity: Option<&str>) -> (r: bool)
    ensures
        r == !(opened && has_tables && (integrity matches Some(t) && t@ == "ok"@)),
{
    match integrity {
        Some(t) => !(opened && has_tables && same(t, "ok")),
        None => true,
    }
}

/// Index of one mount.
pub struct CacheIndex {
    files: FileTable,
    folders: FolderTable,
    last_connected: Option<i64>,
    cache_limit: u64,
}

impl CacheIndex {
    /// The known files by path.
    pub closed spec fn files(&self) -> Map<Seq<char>, Row> {
        self.files@
    }

    /// The rows in the order in which they stand.
    pub closed spec fn rows(&self) -> Seq<KnownFile> {
        self.files.rows()
    }

    /// The visited folders.
    pub closed spec fn folders(&self) -> Seq<Folder> {
        self.folders@
    }

    /// When the share was last reached.
    pub closed spec fn connected(&self) -> Option<i64> {
        self.last_connected
    }

    /// The byte budget; 0 is no budget.
    pub closed spec fn limit(&self) -> int {
        self.cache_limit as int
    }

    /// Every path has one row, and the bytes held can be counted.
    pub open spec fn wf(&self) -> bool {
        &&& unique_paths(self.rows())
        &&& self.files() == as_map(self.rows())
        &&& held_total(self.rows()) <= u64::MAX
    }

    /// All but the known files is as before.
    pub open spec fn same_but_files(&self, before: CacheIndex) -> bool {
        self.folders() == before.folders() && self.connected() == before.connected()
            && self.limit() == before.limit()
    }

    /// An empty index with the given budget.
    pub fn new(cache_limit: u64) -> (c: CacheIndex)
        ensures
            c.wf(),
            c.rows() == Seq::<KnownFile>::empty(),
            c.files() == Map::<Seq<char>, Row>::empty(),
            c.folders() == Seq::<Folder>::empty(),
            c.connected() is None,
            c.limit() == cache_limit,
    {
        CacheIndex {
            files: FileTable::new(),
            folders: FolderTable::new(),
            last_connected: None,
            cache_limit,
        }
    }

    /// The known files, for storage.
    pub fn known_files(&self) -> (t: &FileTable)
        ensures
            t.rows() == self.rows(),
            t@ == self.files(),
    {
        &self.files
    }

    /// Notes that the content of a file is here.
    pub fn index_content(&mut self, path: &str, size: u64, now: i64)
        requires
            old(self).wf(),
            held_total(old(self).rows()) + size <= u64::MAX,
        ensures
            final(self).wf(),
            final(self).same_but_files(*old(self)),
            final(self).files() == with_content(old(self).files(), path@, size, now),
    {
        match self.files.find(path) {
            Some(i) => {
                let mut r = self.files.copy_at(i);
                r.is_hydrated = true;
                r.hydrated_size = size;
                r.last_accessed = now;
                self.files.set_at(i, r);
            },
            None => {
                let r = KnownFile {
                    path: path.to_owned(),
                    name: String::new(),
                    is_dir: false,
                    nas_size: size,
                    nas_mtime: 0,
                    nas_created: 0,
                    parent_path: String::new(),
                    is_hydrated: true,
                    hydrated_size: size,
                    last_accessed: now,
                    last_verified_at: 0,
                };
                assert(r.name@ =~= Seq::<char>::empty());
                self.files.put(r);
            },
        }
    }

    /// Takes over the rows of an older index, which lists path, bytes and last access of each
    /// content. What is known already stays as it is.
    pub fn take_over_older(&mut self, rows: &Vec<(String, u64, i64)>)
        requires
            old(self).wf(),
            held_total(old(self).rows()) + listed_total(entry_views(rows@)) <= u64::MAX,
        ensures
            final(self).wf(),
            final(self).same_but_files(*old(self)),
            final(self).files() == with_older(old(self).files(), entry_views(rows@)),
    {
        let ghost v = entry_views(rows@);
        let ghost m = self.files();
        let ghost held = held_total(self.rows());
        let mut i: usize = 0;
        assert(v.take(0) =~= Seq::empty());
        while i < rows.len()
            invariant
                i <= rows@.len(),
                v == entry_views(rows@),
                self.wf(),
                self.same_but_files(*old(self)),
                self.files() == with_older(m, v.take(i as int)),
                held + listed_total(v) <= u64::MAX,
                held_total(self.rows()) <= held + listed_total(v.take(i as int)),
            decreases rows@.len() - i,
        {
            let (path, size, accessed) = (&rows[i].0, rows[i].1, rows[i].2);
            assert(v[i as int] == (path@, size, accessed));
            assert(v.take(i + 1).drop_last() =~= v.take(i as int));
            assert(v.take(i + 1).last() == v[i as int]);
            proof {
                lemma_listed_total(v, i as int);
            }
            if self.files.find(path.as_str()).is_none() {
                let r = KnownFile {
                    path: path.as_str().to_owned(),
                    name: String::new(),
                    is_dir: false,
                    nas_size: size,
                    nas_mtime: 0,
                    nas_created: 0,
                    parent_path: String::new(),
                    is_hydrated: true,
                    hydrated_size: size,
                    last_accessed: accessed,
                    last_verified_at: 0,
                };
                assert(r.name@ =~= Seq::<char>::empty());
                self.files.put(r);
            }
            i += 1;
        }
        assert(v.take(v.len() as int) =~= v);
    }

    /// Records that the content of a file was brought here; an empty file is not recorded.
    pub fn record_hydration(&mut self, path: &str, size: u64, now: i64)
        requires
            old(self).wf(),
            held_total(old(self).rows()) + size <= u64::MAX,
        ensures
            final(self).wf(),
            final(self).same_but_files(*old(self)),
            size == 0 ==> final(self).files() == old(self).files(),
            size > 0 ==> final(self).files() == with_content(old(self).files(), path@, size, now),
    {
        if size == 0 {
            return ;
        }
        self.index_content(path, size, now);
    }

    /// Records that the content of a file was dropped.
    pub fn record_dehydration(&mut self, path: &str)
        requires
            old(self).wf(),
        ensures
            final(self).wf(),
            final(self).same_but_files(*old(self)),
            !old(self).files().contains_key(path@) ==> final(self).files() == old(self).files(),
            old(self).files().contains_key(path@) ==> final(self).files() == old(
                self,
            ).files().insert(path@, crate::file_table::dropped(old(self).files()[path@])),
    {
        if let Some(i) = self.files.find(path) {
            let mut r = self.files.copy_at(i);
            r.is_hydrated = false;
            r.hydrated_size = 0;
            self.files.set_at(i, r);
        }
    }

    /// Notes an access to a file.
    pub fn touch(&mut self, path: &str, now: i64)
        requires
            old(self).wf(),
        ensures
            final(self).wf(),
            final(self).same_but_files(*old(self)),
            !old(self).files().contains_key(path@) ==> final(self).files() == old(self).files(),
            old(self).files().contains_key(path@) ==> final(self).files() == old(
                self,
            ).files().insert(path@, (Row { last_accessed: now, ..old(self).files()[path@] })),
    {
        if let Some(i) = self.files.find(path) {
            let mut r = self.files.copy_at(i);
            r.last_accessed = now;
            self.files.set_at(i, r);
        }
    }

    /// Moves what is known of a path to another one. A path that is already known is not
    /// overwritten.
    pub fn rename_entry(&mut self, old_path: &str, new_path: &str)
        requires
            old(self).wf(),
        ensures
            final(self).wf(),
            final(self).same_but_files(*old(self)),
            final(self).files() == if old(self).files().contains_key(old_path@) && !old(
                self,
            ).files().contains_key(new_path@) {
                old(self).files().remove(old_path@).insert(
                    new_path@,
                    old(self).files()[old_path@],
                )
            } else {
                old(self).files()
            },
    {
        if self.files.find(new_path).is_some() {
            return ;
        }
        if let Some(i) = self.files.find(old_path) {
            proof {
                lemma_held_total_bounds(self.files.rows(), i as int);
                lemma_row_at(self.files.rows(), i as int);
            }
            let mut r = self.files.copy_at(i);
            r.path = new_path.to_owned();
            self.files.remove(old_path);
            self.files.put(r);
        }
    }

    /// Bytes held locally.
    pub fn total_cached_bytes(&self) -> (n: u64)
        requires
            self.wf(),
        ensures
            n == held_total(self.rows()),
    {
        self.files.total_held()
    }

    /// Records the share's size and time for a file; what is held of it stays noted.
    pub fn record_known_file(&mut self, path: &str, nas_size: u64, nas_mtime: i64)
        requires
            old(self).wf(),
        ensures
            final(self).wf(),
            final(self).same_but_files(*old(self)),
            final(self).files() == with_version(old(self).files(), path@, nas_size, nas_mtime),
    {
        match self.files.find(path) {
            Some(i) => {
                let mut r = self.files.copy_at(i);
                r.nas_size = nas_size;
                r.nas_mtime = nas_mtime;
                self.files.set_at(i, r);
            },
            None => {
                let r = KnownFile {
                    path: path.to_owned(),
                    name: String::new(),
                    is_dir: false,
                    nas_size,
                    nas_mtime,
                    nas_created: 0,
                    parent_path: String::new(),
                    is_hydrated: false,
                    hydrated_size: 0,
                    last_accessed: 0,
                    last_verified_at: 0,
                };
                assert(r.name@ =~= Seq::<char>::empty());
                self.files.put(r);
            },
        }
    }

    /// Whether the share has another version of a file than the index knows; nothing for a file
    /// that the index does not know.
    pub fn compare_nas_metadata(&self, path: &str, nas_size: u64, nas_mtime: i64) -> (r: Option<
        bool,
    >)
        requires
            self.wf(),
        ensures
            r == differs(self.files(), path@, nas_size, nas_mtime),
    {
        match self.files.find(path) {
            Some(i) => {
                let k = self.files.row_at(i);
                Some(k.nas_size != nas_size || k.nas_mtime != nas_mtime)
            },
            None => None,
        }
    }

    /// Notes that the share was found to agree.
    pub fn record_verification(&mut self, path: &str, now: i64)
        requires
            old(self).wf(),
        ensures
            final(self).wf(),
            final(self).same_but_files(*old(self)),
            final(self).files() == verified(old(self).files(), path@, now),
    {
        if let Some(i) = self.files.find(path) {
            let mut r = self.files.copy_at(i);
            r.last_verified_at = now;
            self.files.set_at(i, r);
        }
    }

    /// Compares a file with the share, unless that was done less than `ttl` seconds ago, and takes
    /// the values of the share over.
    pub fn stat_and_refresh(
        &mut self,
        path: &str,
        stat: Result<(u64, i64), String>,
        ttl: i64,
        now: i64,
    ) -> (r: StatResult)
        requires
            old(self).wf(),
        ensures
            final(self).wf(),
            final(self).same_but_files(*old(self)),
            ({
                let m = old(self).files();
                let p = path@;
                let due = m.contains_key(p) && now - m[p].last_verified_at >= ttl;
                match stat {
                    _ if m.contains_key(p) && !due => r is Skipped && final(self).files() == m,
                    Err(e) => r == StatResult::Error(e) && final(self).files() == m,
                    Ok((size, mtime)) => if !m.contains_key(p) {
                        r == (StatResult::Unknown { size, mtime }) && final(self).files() == m
                    } else if size == m[p].nas_size && mtime == m[p].nas_mtime {
                        r == (StatResult::Fresh { size, mtime }) && final(self).files() == verified(
                            m,
                            p,
                            now,
                        )
                    } else {
                        r == (StatResult::Drifted { size, mtime }) && final(self).files()
                            == m.insert(
                            p,
                            Row {
                                nas_size: size,
                                nas_mtime: mtime,
                                last_verified_at: now,
                                ..m[p]
                            },
                        )
                    },
                }
            }),
    {
        match self.files.find(path) {
            None => match stat {
                Ok((size, mtime)) => StatResult::Unknown { size, mtime },
                Err(e) => StatResult::Error(e),
            },
            Some(i) => {
                let mut k = self.files.copy_at(i);
                if (now as i128) - (k.last_verified_at as i128) < ttl as i128 {
                    return StatResult::Skipped;
                }
                match stat {
                    Err(e) => StatResult::Error(e),
                    Ok((size, mtime)) => {
                        let same_version = size == k.nas_size && mtime == k.nas_mtime;
                        k.nas_size = size;
                        k.nas_mtime = mtime;
                        k.last_verified_at = now;
                        self.files.set_at(i, k);
                        if same_version {
                            StatResult::Fresh { size, mtime }
                        } else {
                            StatResult::Drifted { size, mtime }
                        }
                    },
                }
            },
        }
    }

    /// Forgets a path.
    pub fn remove_known_file(&mut self, path: &str)
        requires
            old(self).wf(),
        ensures
            final(self).wf(),
            final(self).same_but_files(*old(self)),
            final(self).files() == old(self).files().remove(path@),
    {
        self.files.remove(path);
    }

    /// What is known of the direct entries of a folder: path, size and time.
    pub fn known_files_in_folder(&self, folder: &str) -> (out: Vec<(String, u64, i64)>)
        ensures
            entry_views(out@) == entries_of(self.rows(), folder@),
    {
        let mut out: Vec<(String, u64, i64)> = Vec::new();
        let ghost rows = self.files.rows();
        let mut i: usize = 0;
        assert(rows.take(0) =~= Seq::<KnownFile>::empty());
        assert(entry_views(out@) =~= entries_of(rows.take(0), folder@));
        while i < self.files.len()
            invariant
                i <= rows.len(),
                rows == self.files.rows(),
                entry_views(out@) == entries_of(rows.take(i as int), folder@),
            decreases rows.len() - i,
        {
            let r = self.files.row_at(i);
            let ghost before = entry_views(out@);
            assert(rows.take(i + 1).drop_last() =~= rows.take(i as int));
            if is_in_folder(r.path.as_str(), folder) {
                out.push((r.path.clone(), r.nas_size, r.nas_mtime));
                assert(entry_views(out@) =~= before.push(known_entry(*r)));
            }
            i += 1;
        }
        assert(rows.take(rows.len() as int) =~= rows);
        out
    }

    /// Records a visited folder.
    pub fn record_visited_folder(&mut self, nas_path: &str, client_path: &str, folder_mtime: i64)
        ensures
            final(self).files() == old(self).files(),
            final(self).rows() == old(self).rows(),
            final(self).connected() == old(self).connected(),
            final(self).limit() == old(self).limit(),
            final(self).folders() == with_folder(
                old(self).folders(),
                Folder { path: nas_path@, client: client_path@, mtime: folder_mtime },
            ),
    {
        self.folders.put(nas_path, client_path, folder_mtime);
    }

    /// Makes sure that a folder counts as visited; one that already does stays as it is, and a
    /// new one is due to be brought up to date.
    pub fn ensure_visited_folder(&mut self, nas_path: &str, client_path: &str)
        ensures
            final(self).files() == old(self).files(),
            final(self).rows() == old(self).rows(),
            final(self).connected() == old(self).connected(),
            final(self).limit() == old(self).limit(),
            final(self).folders() == if visited(old(self).folders(), nas_path@) {
                old(self).folders()
            } else {
                old(self).folders().push(
                    Folder { path: nas_path@, client: client_path@, mtime: 0 },
                )
            },
    {
        if self.folders.find(nas_path) == self.folders.len() {
            self.folders.put(nas_path, client_path, 0);
        }
    }

    /// The visited folders.
    pub fn visited_folders(&self) -> (t: &FolderTable)
        ensures
            t@ == self.folders(),
    {
        &self.folders
    }

    /// Notes the time up to which a visited folder was brought up to date.
    pub fn update_folder_mtime(&mut self, nas_path: &str, folder_mtime: i64)
        ensures
            final(self).files() == old(self).files(),
            final(self).rows() == old(self).rows(),
            final(self).connected() == old(self).connected(),
            final(self).limit() == old(self).limit(),
            final(self).folders() == if visited(old(self).folders(), nas_path@) {
                let i = folder_pos(old(self).folders(), nas_path@);
                old(self).folders().update(
                    i,
                    Folder { mtime: folder_mtime, ..old(self).folders()[i] },
                )
            } else {
                old(self).folders()
            },
    {
        let i: usize = self.folders.find(nas_path);
        if i < self.folders.len() {
            proof {
                crate::folder_table::lemma_folder_pos(self.folders@, nas_path@);
            }
            let client = self.folders.row_at(i).client_path.clone();
            self.folders.put(nas_path, client.as_str(), folder_mtime);
        }
    }

    /// When the share was last reached.
    pub fn last_connected_at(&self) -> (r: Option<i64>)
        ensures
            r == self.connected(),
    {
        self.last_connected
    }

    /// Notes that the share was reached.
    pub fn update_last_connected(&mut self, now: i64)
        ensures
            final(self).files() == old(self).files(),
            final(self).rows() == old(self).rows(),
            final(self).folders() == old(self).folders(),
            final(self).limit() == old(self).limit(),
            final(self).connected() == Some(now),
    {
        self.last_connected = Some(now);
    }

    /// The files that are held, with their bytes.
    pub fn held_files(&self) -> (out: Vec<(String, u64)>)
        ensures
            held_views(out@) == held_entries(self.rows()),
    {
        let mut out: Vec<(String, u64)> = Vec::new();
        let ghost rows = self.files.rows();
        let mut i: usize = 0;
        assert(rows.take(0) =~= Seq::<KnownFile>::empty());
        assert(held_views(out@) =~= held_entries(rows.take(0)));
        while i < self.files.len()
            invariant
                i <= rows.len(),
                rows == self.files.rows(),
                held_views(out@) == held_entries(rows.take(i as int)),
            decreases rows.len() - i,
        {
            let r = self.files.row_at(i);
            let ghost before = held_views(out@);
            assert(rows.take(i + 1).drop_last() =~= rows.take(i as int));
            if r.is_hydrated {
                out.push((r.path.clone(), r.hydrated_size));
                assert(held_views(out@) =~= before.push((r.path@, r.hydrated_size)));
            }
            i += 1;
        }
        assert(rows.take(rows.len() as int) =~= rows);
        out
    }

    /// Ends a clearing of the cache: `ok` says which of the held files could be dropped. All
    /// files count as dropped then; returned is how many files and bytes really were.
    pub fn clear_all(&mut self, ok: &Vec<bool>) -> (r: (u32, u64))
        requires
            old(self).wf(),
            ok@.len() == held_entries(old(self).rows()).len(),
            ok@.len() <= u32::MAX,
        ensures
            final(self).wf(),
            final(self).same_but_files(*old(self)),
            r.0 == dropped_sums(held_entries(old(self).rows()), ok@).0,
            r.1 == dropped_sums(held_entries(old(self).rows()), ok@).1,
            final(self).rows() == old(self).rows().map_values(
                |k: KnownFile| crate::macos_cache::dropped_file(k),
            ),
    {
        let held = self.held_files();
        let ghost all = held_entries(self.rows());
        proof {
            lemma_held_entries_sum(self.rows());
        }
        let mut count: u32 = 0;
        let mut bytes: u64 = 0;
        let mut i: usize = 0;
        while i < held.len()
            invariant
                i <= held@.len(),
                all == held_views(held@),
                ok@.len() == held@.len(),
                ok@.len() <= u32::MAX,
                sum_of(all) <= u64::MAX,
                count == dropped_sums(all.take(i as int), ok@.take(i as int)).0,
                count <= i,
                bytes == dropped_sums(all.take(i as int), ok@.take(i as int)).1,
            decreases held@.len() - i,
        {
            proof {
                assert(all.take(i + 1).drop_last() =~= all.take(i as int));
                assert(ok@.take(i + 1).take(i as int) =~= ok@.take(i as int));
                lemma_dropped_sums(all, ok@, i + 1);
            }
            if ok[i] {
                count += 1;
                bytes += held[i].1;
            }
            i += 1;
        }
        assert(all.take(all.len() as int) =~= all);
        assert(ok@.take(ok@.len() as int) =~= ok@);
        self.drop_all();
        (count, bytes)
    }

    /// Marks every file as dropped.
    fn drop_all(&mut self)
        requires
            old(self).wf(),
        ensures
            final(self).wf(),
            final(self).same_but_files(*old(self)),
            final(self).rows() == old(self).rows().map_values(
                |k: KnownFile| crate::macos_cache::dropped_file(k),
            ),
    {
        let ghost rows0 = self.files.rows();
        let ghost f = |k: KnownFile| crate::macos_cache::dropped_file(k);
        let mut i: usize = 0;
        while i < self.files.len()
            invariant
                i <= rows0.len(),
                self.wf(),
                self.same_but_files(*old(self)),
                self.rows().len() == rows0.len(),
                f == (|k: KnownFile| crate::macos_cache::dropped_file(k)),
                forall|k: int|
                    0 <= k < rows0.len() ==> #[trigger] self.rows()[k] == if k < i {
                        f(rows0[k])
                    } else {
                        rows0[k]
                    },
            decreases rows0.len() - i,
        {
            let mut r = self.files.copy_at(i);
            r.is_hydrated = false;
            r.hydrated_size = 0;
            assert(self.rows()[i as int] == rows0[i as int]);
            self.files.set_at(i, r);
            i += 1;
        }
        assert(self.rows() =~= rows0.map_values(f));
    }

    /// Forgets everything, for a fresh start.
    pub fn reset(&mut self)
        ensures
            final(self).wf(),
            final(self).rows() == Seq::<KnownFile>::empty(),
            final(self).folders() == Seq::<Folder>::empty(),
            final(self).connected() is None,
            final(self).limit() == old(self).limit(),
    {
        self.files = FileTable::new();
        self.folders.clear();
        self.last_connected = None;
    }
}

/// Sum of the bytes of entries.
pub open spec fn sum_of(v: Seq<(Seq<char>, u64)>) -> int
    decreases v.len(),
{
    if v.len() == 0 {
        0
    } else {
        sum_of(v.drop_last()) + v.last().1
    }
}

proof fn lemma_dropped_sums(v: Seq<(Seq<char>, u64)>, ok: Seq<bool>, k: int)
    requires
        0 <= k <= v.len(),
        ok.len() == v.len(),
    ensures
        0 <= dropped_sums(v.take(k), ok.take(k)).0 <= k,
        0 <= dropped_sums(v.take(k), ok.take(k)).1 <= sum_of(v),
{
    lemma_sums(v.take(k), ok.take(k));
    lemma_sum_prefix(v, k);
}

proof fn lemma_sums(v: Seq<(Seq<char>, u64)>, ok: Seq<bool>)
    requires
        ok.len() == v.len(),
    ensures
        0 <= dropped_sums(v, ok).0 <= v.len(),
        0 <= dropped_sums(v, ok).1 <= sum_of(v),
    decreases v.len(),
{
    if v.len() > 0 {
        lemma_sums(v.drop_last(), ok.take(v.len() - 1));
    }
}

proof fn lemma_sum_prefix(v: Seq<(Seq<char>, u64)>, k: int)
    requires
        0 <= k <= v.len(),
    ensures
        sum_of(v.take(k)) <= sum_of(v),
    decreases v.len() - k,
{
    if k < v.len() {
        lemma_sum_prefix(v, k + 1);
        assert(v.take(k + 1).drop_last() =~= v.take(k));
    } else {
        assert(v.take(k) =~= v);
    }
}

proof fn lemma_held_entries_sum(rows: Seq<KnownFile>)
    ensures
        sum_of(held_entries(rows)) == held_total(rows),
    decreases rows.len(),
{
    if rows.len() > 0 {
        lemma_held_entries_sum(rows.drop_last());
        let fewer = held_entries(rows.drop_last());
        if rows.last().is_hydrated {
            let all = held_entries(rows);
            assert(all.drop_last() =~= fewer);
        }
    }
}

/// An eviction in progress: the files that were tried, and the bytes that are left.
pub struct Eviction {
    remaining: u64,
    target: u64,
    tried: Vec<String>,
    evicted_count: u32,
    evicted_bytes: u64,
}

impl Eviction {
    pub closed spec fn left(&self) -> int {
        self.remaining as int
    }

    pub closed spec fn goal(&self) -> int {
        self.target as int
    }

    pub closed spec fn seen(&self) -> Seq<Seq<char>> {
        texts(self.tried@)
    }

    /// Files and bytes dropped so far.
    pub closed spec fn done(&self) -> (int, int) {
        (self.evicted_count as int, self.evicted_bytes as int)
    }

    /// The count of bytes left is that of the index.
    pub open spec fn fits(&self, index: CacheIndex) -> bool {
        index.wf() && self.left() == held_total(index.rows())
    }

    /// Begins an eviction where the budget of the index is exceeded.
    pub fn start(index: &CacheIndex) -> (r: Option<Eviction>)
        requires
            index.wf(),
        ensures
            r is None <==> index.limit() == 0 || held_total(index.rows()) <= index.limit(),
            r matches Some(e) ==> e.fits(*index) && e.goal() == eviction_target(index.limit())
                && e.seen() == Seq::<Seq<char>>::empty() && e.done() == (0int, 0int),
    {
        if index.cache_limit == 0 {
            return None;
        }
        let total: u64 = index.files.total_held();
        if total <= index.cache_limit {
            return None;
        }
        let e = Eviction {
            remaining: total,
            target: target_of(index.cache_limit),
            tried: Vec::new(),
            evicted_count: 0,
            evicted_bytes: 0,
        };
        assert(e.seen() =~= Seq::<Seq<char>>::empty());
        Some(e)
    }

    /// The next file to drop: the least recently used one that was not tried yet and is not
    /// open, while more is held than the target.
    pub fn next(&self, index: &CacheIndex, open: &Vec<String>) -> (r: Option<String>)
        requires
            self.fits(*index),
        ensures
            ({
                let skip = self.seen() + texts(open@);
                match r {
                    Some(p) => self.left() > self.goal() && exists|i: int|
                        is_oldest(index.rows(), false, skip, i) && #[trigger] index.rows()[i].path@
                            == p@,
                    None => self.left() <= self.goal() || none_evictable(
                        index.rows(),
                        false,
                        skip,
                    ),
                }
            }),
    {
        if self.remaining <= self.target {
            return None;
        }
        let mut skip: Vec<String> = Vec::new();
        push_all(&mut skip, &self.tried);
        push_all(&mut skip, open);
        assert(texts(skip@) =~= self.seen() + texts(open@));
        match index.files.oldest(false, &skip) {
            Some(i) => {
                let p = index.files.row_at(i).path.clone();
                assert(index.rows()[i as int].path@ == p@);
                Some(p)
            },
            None => None,
        }
    }

    /// The file was tried: where its content could be dropped, the index says so.
    pub fn on_tried(&mut self, index: &mut CacheIndex, path: &str, dropped: bool)
        requires
            old(self).fits(*old(index)),
            old(index).files().contains_key(path@),
            old(index).files()[path@].is_hydrated,
            old(self).done().0 < u32::MAX,
            old(self).done().1 + old(self).left() <= u64::MAX,
        ensures
            final(self).fits(*final(index)),
            final(index).same_but_files(*old(index)),
            final(self).goal() == old(self).goal(),
            final(self).seen() == old(self).seen().push(path@),
            !dropped ==> final(index).files() == old(index).files() && final(self).left() == old(
                self,
            ).left() && final(self).done() == old(self).done(),
            dropped ==> final(index).files() == old(index).files().insert(
                path@,
                crate::file_table::dropped(old(index).files()[path@]),
            ) && final(self).left() == old(self).left() - old(
                index,
            ).files()[path@].hydrated_size && final(self).done() == (
                old(self).done().0 + 1,
                old(self).done().1 + old(index).files()[path@].hydrated_size,
            ),
            final(self).done().1 + final(self).left() == old(self).done().1 + old(self).left(),
    {
        let ghost before = self.seen();
        self.tried.push(path.to_owned());
        assert(self.seen() =~= before.push(path@));
        if dropped {
            if let Some(i) = index.files.find(path) {
                proof {
                    lemma_held_total_bounds(index.files.rows(), i as int);
                }
                let mut r = index.files.copy_at(i);
                let size: u64 = r.hydrated_size;
                r.is_hydrated = false;
                r.hydrated_size = 0;
                index.files.set_at(i, r);
                self.remaining = self.remaining - size;
                self.evicted_count = self.evicted_count + 1;
                self.evicted_bytes = self.evicted_bytes + size;
            }
        }
    }
}

/// Appends copies of texts.
fn push_all(out: &mut Vec<String>, more: &Vec<String>)
    ensures
        texts(final(out)@) == texts(old(out)@) + texts(more@),
{
    let ghost before = texts(out@);
    let ghost all = texts(more@);
    let mut i: usize = 0;
    assert(texts(out@) =~= before + all.take(0));
    while i < more.len()
        invariant
            i <= more@.len(),
            all == texts(more@),
            texts(out@) == before + all.take(i as int),
        decreases more@.len() - i,
    {
        let ghost sofar = texts(out@);
        out.push(more[i].clone());
        assert(texts(out@) =~= sofar.push(all[i as int]));
        assert(all.take(i + 1) =~= all.take(i as int).push(all[i as int]));
        i += 1;
    }
    assert(all.take(all.len() as int) =~= all);
}

/// A visited folder is not due again until its time changes: the time that was noted is read back.
pub proof fn law_folder_time_is_read_back(v: Seq<Folder>, p: Seq<char>, mtime: i64)
    requires
        visited(v, p),
    ensures
        ({
            let i = folder_pos(v, p);
            let w = v.update(i, Folder { mtime, ..v[i] });
            visited(w, p) && w[folder_pos(w, p)].mtime == mtime && w[folder_pos(w, p)].client
                == v[i].client
        }),
{
    let i = folder_pos(v, p);
    crate::folder_table::lemma_folder_pos(v, p);
    let f = Folder { mtime, ..v[i] };
    crate::folder_table::law_put_folder(v, f, p);
}

/// Content that was found is noted with its bytes and the time; what the share said of the file
/// stays, and a file that was not known counts as as large as its content. Other files stay as
/// they are.
pub proof fn law_content_is_noted(
    m: Map<Seq<char>, Row>,
    path: Seq<char>,
    size: u64,
    now: i64,
    other: Seq<char>,
)
    ensures
        ({
            let w = with_content(m, path, size, now);
            &&& w.contains_key(path)
            &&& w[path].is_hydrated && w[path].hydrated_size == size && w[path].last_accessed
                == now
            &&& m.contains_key(path) ==> w[path].nas_size == m[path].nas_size && w[path].nas_mtime
                == m[path].nas_mtime && w[path].last_verified_at == m[path].last_verified_at
                && w[path].name == m[path].name && w[path].parent == m[path].parent
                && w[path].is_dir == m[path].is_dir
            &&& !m.contains_key(path) ==> w[path].nas_size == size && !w[path].is_dir
                && w[path].last_verified_at == 0
            &&& other != path ==> w.contains_key(other) == m.contains_key(other) && (
            m.contains_key(other) ==> w[other] == m[other])
        }),
{
}

/// The share's size and time are recorded as they were given, and then agree with the share; what
/// is held of the file stays noted, and other files stay as they are.
pub proof fn law_versions_are_recorded(
    m: Map<Seq<char>, Row>,
    path: Seq<char>,
    size: u64,
    mtime: i64,
    other: Seq<char>,
)
    ensures
        ({
            let w = with_version(m, path, size, mtime);
            &&& w.contains_key(path)
            &&& w[path].nas_size == size && w[path].nas_mtime == mtime
            &&& differs(w, path, size, mtime) == Some(false)
            &&& m.contains_key(path) ==> w[path].is_hydrated == m[path].is_hydrated
                && w[path].hydrated_size == m[path].hydrated_size && w[path].last_accessed
                == m[path].last_accessed && w[path].last_verified_at == m[path].last_verified_at
            &&& !m.contains_key(path) ==> !w[path].is_hydrated && w[path].hydrated_size == 0
            &&& other != path ==> w.contains_key(other) == m.contains_key(other) && (
            m.contains_key(other) ==> w[other] == m[other])
        }),
{
}

/// A known file differs from the share in its size or in its time, and an unknown one not at all.
pub proof fn law_any_other_version_differs(
    m: Map<Seq<char>, Row>,
    path: Seq<char>,
    size: u64,
    mtime: i64,
)
    ensures
        !m.contains_key(path) ==> differs(m, path, size, mtime) is None,
        m.contains_key(path) && m[path].nas_size != size ==> differs(m, path, size, mtime) == Some(
            true,
        ),
        m.contains_key(path) && m[path].nas_mtime != mtime ==> differs(m, path, size, mtime)
            == Some(true),
        m.contains_key(path) && m[path].nas_size == size && m[path].nas_mtime == mtime ==> differs(
            m,
            path,
            size,
            mtime,
        ) == Some(false),
{
}

/// Noting that the share agrees changes nothing but the time of the comparison.
pub proof fn law_verification_notes_the_time(
    m: Map<Seq<char>, Row>,
    path: Seq<char>,
    now: i64,
    other: Seq<char>,
)
    ensures
        verified(m, path, now).dom() == m.dom(),
        m.contains_key(path) ==> verified(m, path, now)[path].last_verified_at == now
            && verified(m, path, now)[path] == (Row { last_verified_at: now, ..m[path] }),
        other != path && m.contains_key(other) ==> verified(m, path, now)[other] == m[other],
{
    assert(verified(m, path, now).dom() =~= m.dom());
}

/// What is known already is not touched by an older index, and what only that lists is taken over
/// as content with the bytes and the access that it was listed with.
pub proof fn law_older_rows_fill_the_gaps(
    m: Map<Seq<char>, Row>,
    v: Seq<(Seq<char>, u64, i64)>,
    p: Seq<char>,
)
    ensures
        with_older(m, v).contains_key(p) <==> m.contains_key(p) || exists|i: int|
            0 <= i < v.len() && (#[trigger] v[i]).0 == p,
        m.contains_key(p) ==> with_older(m, v)[p] == m[p],
        !m.contains_key(p) && with_older(m, v).contains_key(p) ==> exists|i: int|
            0 <= i < v.len() && (#[trigger] v[i]).0 == p && with_older(m, v)[p].is_hydrated
                && with_older(m, v)[p].hydrated_size == v[i].1 && with_older(m, v)[p].last_accessed
                == v[i].2 && with_older(m, v)[p].nas_size == v[i].1,
    decreases v.len(),
{
    if v.len() > 0 {
        let d = v.drop_last();
        let before = with_older(m, d);
        let after = with_older(m, v);
        law_older_rows_fill_the_gaps(m, d, p);
        law_older_rows_fill_the_gaps(m, d, v.last().0);
        assert(v[v.len() - 1] == v.last());
        if exists|i: int| 0 <= i < d.len() && (#[trigger] d[i]).0 == p {
            let i = choose|i: int| 0 <= i < d.len() && (#[trigger] d[i]).0 == p;
            assert(v[i] == d[i]);
        }
        if exists|i: int| 0 <= i < v.len() && (#[trigger] v[i]).0 == p {
            let i = choose|i: int| 0 <= i < v.len() && (#[trigger] v[i]).0 == p;
            if i < d.len() {
                assert(d[i].0 == p);
            }
        }
        if !m.contains_key(p) && after.contains_key(p) {
            if before.contains_key(p) {
                let i = choose|i: int|
                    0 <= i < d.len() && (#[trigger] d[i]).0 == p && before[p].is_hydrated
                        && before[p].hydrated_size == d[i].1 && before[p].last_accessed == d[i].2
                        && before[p].nas_size == d[i].1;
                assert(v[i] == d[i]);
                assert(after[p] == before[p]);
            } else {
                assert(v[v.len() - 1].0 == p);
            }
        }
    }
}

/// A file right below a folder is in it, whatever it is called and however the folder's letters
/// are cased; one in a folder of that folder is not.
pub proof fn law_only_direct_entries_are_in_a_folder(
    folder: Seq<char>,
    name: Seq<char>,
    sub: Seq<char>,
)
    requires
        forall|i: int| 0 <= i < name.len() ==> name[i] != '\\',
    ensures
        in_folder(folder.push('\\') + name, folder),
        !in_folder(folder.push('\\') + sub + seq!['\\'] + name, folder),
        !in_folder(folder, folder),
{
    let a = folder.push('\\') + name;
    let n = (folder.len() + 1) as int;
    assert(a.take(n) =~= folder.push('\\'));
    assert forall|i: int| n <= i < a.len() implies a[i] != '\\' by {
        assert(a[i] == name[i - n]);
    }
    let b = folder.push('\\') + sub + seq!['\\'] + name;
    assert(b[n + sub.len()] == '\\');
}

/// What is known of a folder is what is known of the files in it, each with its size and time.
pub proof fn law_folder_shows_its_files(
    rows: Seq<KnownFile>,
    folder: Seq<char>,
    e: (Seq<char>, u64, i64),
)
    ensures
        entries_of(rows, folder).contains(e) <==> exists|k: int|
            0 <= k < rows.len() && in_folder((#[trigger] rows[k]).path@, folder) && rows[k].path@
                == e.0 && rows[k].nas_size == e.1 && rows[k].nas_mtime == e.2,
    decreases rows.len(),
{
    if rows.len() > 0 {
        let d = rows.drop_last();
        let front = entries_of(d, folder);
        let all = entries_of(rows, folder);
        law_folder_shows_its_files(d, folder, e);
        assert(rows[rows.len() - 1] == rows.last());
        if front.contains(e) {
            let k = choose|k: int| 0 <= k < front.len() && front[k] == e;
            assert(all[k] == e);
            let i = choose|i: int|
                0 <= i < d.len() && in_folder((#[trigger] d[i]).path@, folder) && d[i].path@ == e.0
                    && d[i].nas_size == e.1 && d[i].nas_mtime == e.2;
            assert(rows[i] == d[i]);
        }
        if all.contains(e) && !front.contains(e) {
            let k = choose|k: int| 0 <= k < all.len() && all[k] == e;
            if k < front.len() {
                assert(front[k] == e);
            }
        }
        if exists|k: int|
            0 <= k < rows.len() && in_folder((#[trigger] rows[k]).path@, folder) && rows[k].path@
                == e.0 && rows[k].nas_size == e.1 && rows[k].nas_mtime == e.2 {
            let k = choose|k: int|
                0 <= k < rows.len() && in_folder((#[trigger] rows[k]).path@, folder)
                    && rows[k].path@ == e.0 && rows[k].nas_size == e.1 && rows[k].nas_mtime == e.2;
            if k < d.len() {
                assert(d[k] == rows[k]);
            } else {
                assert(all[front.len() as int] == e);
            }
        }
    }
}

/// The files that hold content are listed with their bytes, and those sum up to what is held.
pub proof fn law_held_files_are_listed_with_their_bytes(
    rows: Seq<KnownFile>,
    e: (Seq<char>, u64),
)
    ensures
        sum_of(held_entries(rows)) == held_total(rows),
        held_entries(rows).contains(e) <==> exists|k: int|
            0 <= k < rows.len() && (#[trigger] rows[k]).is_hydrated && rows[k].path@ == e.0
                && rows[k].hydrated_size == e.1,
    decreases rows.len(),
{
    lemma_held_entries_sum(rows);
    if rows.len() > 0 {
        let d = rows.drop_last();
        let front = held_entries(d);
        let all = held_entries(rows);
        law_held_files_are_listed_with_their_bytes(d, e);
        assert(rows[rows.len() - 1] == rows.last());
        if front.contains(e) {
            let k = choose|k: int| 0 <= k < front.len() && front[k] == e;
            assert(all[k] == e);
            let i = choose|i: int|
                0 <= i < d.len() && (#[trigger] d[i]).is_hydrated && d[i].path@ == e.0
                    && d[i].hydrated_size == e.1;
            assert(rows[i] == d[i]);
        }
        if all.contains(e) && !front.contains(e) {
            let k = choose|k: int| 0 <= k < all.len() && all[k] == e;
            if k < front.len() {
                assert(front[k] == e);
            }
        }
        if exists|k: int|
            0 <= k < rows.len() && (#[trigger] rows[k]).is_hydrated && rows[k].path@ == e.0
                && rows[k].hydrated_size == e.1 {
            let k = choose|k: int|
                0 <= k < rows.len() && (#[trigger] rows[k]).is_hydrated && rows[k].path@ == e.0
                    && rows[k].hydrated_size == e.1;
            if k < d.len() {
                assert(d[k] == rows[k]);
            } else {
                assert(all[front.len() as int] == e);
            }
        }
    }
}

/// A file that was dropped counts once and with its bytes, and one that was not counts not at all.
pub proof fn law_drops_are_summed_up(v: Seq<(Seq<char>, u64)>, ok: Seq<bool>, e: (Seq<char>, u64))
    requires
        ok.len() == v.len(),
    ensures
        dropped_sums(v.push(e), ok.push(true)) == (
            dropped_sums(v, ok).0 + 1,
            dropped_sums(v, ok).1 + e.1,
        ),
        dropped_sums(v.push(e), ok.push(false)) == dropped_sums(v, ok),
        dropped_sums(Seq::empty(), Seq::empty()) == (0int, 0int),
{
    assert(v.push(e).drop_last() =~= v);
    assert(ok.push(true).take(v.len() as int) =~= ok);
    assert(ok.push(false).take(v.len() as int) =~= ok);
}

/// Attributes are those of a placeholder by one bit, and its content is here unless another bit
/// says that it has to be fetched; unreadable attributes say neither.
pub proof fn law_attributes_tell_placeholders(attrs: u32, p: bool, h: bool)
    requires
        call_ensures(is_cf_placeholder, (attrs,), p),
        call_ensures(is_hydrated, (attrs,), h),
    ensures
        attrs == 0xffff_ffff ==> !p && !h,
        attrs != 0xffff_ffff ==> (p <==> attrs & 0x400 != 0),
        h <==> p && attrs & 0x40_0000 == 0,
{
}

/// A database is kept only where it opens, has its tables and passes its check.
pub proof fn law_damaged_databases_are_made_anew(
    opened: bool,
    has_tables: bool,
    integrity: Option<&str>,
    r: bool,
)
    requires
        call_ensures(needs_repair, (opened, has_tables, integrity), r),
    ensures
        !opened || !has_tables || integrity is None ==> r,
        integrity matches Some(t) ==> opened && has_tables ==> (r <==> t@ != "ok"@),
{
}

/// An eviction begins exactly where a budget is set and more is held than it allows.
pub proof fn law_evictions_begin_above_the_budget(index: CacheIndex, r: Option<Eviction>)
    requires
        index.wf(),
        call_ensures(Eviction::start, (&index,), r),
    ensures
        r is Some <==> index.limit() != 0 && held_total(index.rows()) > index.limit(),
        r matches Some(e) ==> e.left() == held_total(index.rows()) && e.goal() <= index.limit()
            && e.seen().len() == 0 && e.done() == (0int, 0int),
{
    crate::macos_cache::law_eviction_leaves_room(index.limit());
}

/// A file is compared with the share unless that was done recently: what differs is taken over and
/// told, what agrees is noted as checked, and an error changes nothing.
pub proof fn law_comparisons_take_the_shares_values_over(
    c: &mut CacheIndex,
    path: &str,
    size: u64,
    mtime: i64,
    ttl: i64,
    now: i64,
    r: StatResult,
)
    requires
        old(c).wf(),
        call_ensures(CacheIndex::stat_and_refresh, (c, path, Ok((size, mtime)), ttl, now), r),
    ensures
        ({
            let m = old(c).files();
            let known = m.contains_key(path@);
            &&& !known ==> r == (StatResult::Unknown { size, mtime }) && final(c).files() == m
            &&& known && now - m[path@].last_verified_at < ttl ==> r is Skipped && final(c).files()
                == m
            &&& known && now - m[path@].last_verified_at >= ttl ==> {
                &&& final(c).files()[path@].nas_size == size
                &&& final(c).files()[path@].nas_mtime == mtime
                &&& final(c).files()[path@].last_verified_at == now
                &&& final(c).files()[path@].is_hydrated == m[path@].is_hydrated
                &&& final(c).files()[path@].hydrated_size == m[path@].hydrated_size
                &&& m[path@].nas_size != size || m[path@].nas_mtime != mtime ==> r == (
                StatResult::Drifted { size, mtime })
                &&& m[path@].nas_size == size && m[path@].nas_mtime == mtime ==> r == (
                StatResult::Fresh { size, mtime })
            }
        }),
{
}

/// What is known of a path moves with it to its new name, but never over what is known of that.
pub proof fn law_renamed_files_stay_known(
    c: &mut CacheIndex,
    from: &str,
    to: &str,
    other: Seq<char>,
)
    requires
        old(c).wf(),
        other != from@,
        other != to@,
        from@ != to@,
        call_ensures(CacheIndex::rename_entry, (c, from, to), ()),
    ensures
        ({
            let m = old(c).files();
            let w = final(c).files();
            &&& m.contains_key(from@) && !m.contains_key(to@) ==> !w.contains_key(from@)
                && w.contains_key(to@) && w[to@] == m[from@]
            &&& m.contains_key(to@) || !m.contains_key(from@) ==> w == m
            &&& w.contains_key(other) == m.contains_key(other)
            &&& m.contains_key(other) ==> w[other] == m[other]
        }),
{
}

/// Content that is brought here is noted and content that is dropped is no longer, in each case of
/// the one file; an empty file is not noted.
pub proof fn law_contents_come_and_go(
    c: &mut CacheIndex,
    d: &mut CacheIndex,
    path: &str,
    size: u64,
    now: i64,
)
    requires
        old(c).wf(),
        old(d).wf(),
        held_total(old(c).rows()) + size <= u64::MAX,
        call_ensures(CacheIndex::record_hydration, (c, path, size, now), ()),
        call_ensures(CacheIndex::record_dehydration, (d, path), ()),
    ensures
        size > 0 ==> final(c).files().contains_key(path@) && final(c).files()[path@].is_hydrated
            && final(c).files()[path@].hydrated_size == size
            && final(c).files()[path@].last_accessed == now,
        size == 0 ==> final(c).files() == old(c).files(),
        old(d).files().contains_key(path@) ==> final(d).files().contains_key(path@)
            && !final(d).files()[path@].is_hydrated && final(d).files()[path@].hydrated_size == 0
            && final(d).files()[path@].nas_size == old(d).files()[path@].nas_size,
        !old(d).files().contains_key(path@) ==> final(d).files() == old(d).files(),
{
}

/// A folder that was visited keeps its time when it is made sure of, and a new one is due; the time
/// up to which one was brought up to date is noted with it alone.
pub proof fn law_visited_folders_keep_their_time(
    c: &mut CacheIndex,
    d: &mut CacheIndex,
    nas: &str,
    client: &str,
    mtime: i64,
)
    requires
        call_ensures(CacheIndex::ensure_visited_folder, (c, nas, client), ()),
        call_ensures(CacheIndex::update_folder_mtime, (d, nas, mtime), ()),
    ensures
        visited(old(c).folders(), nas@) ==> final(c).folders() == old(c).folders(),
        !visited(old(c).folders(), nas@) ==> final(c).folders().last().path == nas@
            && final(c).folders().last().client == client@ && final(c).folders().last().mtime == 0
            && final(c).folders().len() == old(c).folders().len() + 1,
        visited(old(d).folders(), nas@) ==> final(d).folders()[folder_pos(
            old(d).folders(),
            nas@,
        )].mtime == mtime && final(d).folders().len() == old(d).folders().len(),
        !visited(old(d).folders(), nas@) ==> final(d).folders() == old(d).folders(),
{
    crate::folder_table::lemma_folder_pos(old(d).folders(), nas@);
}

/// A file that could be dropped is noted as dropped and counted with its bytes, and one that could
/// not be stays; either is not tried again.
pub proof fn law_tried_files_are_not_tried_again(
    e: &mut Eviction,
    c: &mut CacheIndex,
    path: &str,
    gone: bool,
)
    requires
        old(e).fits(*old(c)),
        old(c).files().contains_key(path@),
        old(c).files()[path@].is_hydrated,
        old(e).done().0 < u32::MAX,
        old(e).done().1 + old(e).left() <= u64::MAX,
        call_ensures(Eviction::on_tried, (e, c, path, gone), ()),
    ensures
        final(e).seen().contains(path@),
        gone ==> !final(c).files()[path@].is_hydrated && final(e).done().0 == old(e).done().0 + 1
            && final(e).done().1 == old(e).done().1 + old(c).files()[path@].hydrated_size
            && final(e).left() == old(e).left() - old(c).files()[path@].hydrated_size,
        !gone ==> final(c).files() == old(c).files() && final(e).done() == old(e).done(),
        final(e).goal() == old(e).goal(),
{
    let s = final(e).seen();
    assert(s[s.len() - 1] == path@);
}

/// The next file to drop holds content, was neither tried nor is open, and was used no later than
/// any other such file; nothing is dropped once the goal is reached.
pub proof fn law_oldest_unopened_file_goes_next(
    e: Eviction,
    c: CacheIndex,
    open: Vec<String>,
    r: Option<String>,
    j: int,
)
    requires
        e.fits(c),
        0 <= j < c.rows().len(),
        call_ensures(Eviction::next, (&e, &c, &open), r),
    ensures
        e.left() <= e.goal() ==> r is None,
        r matches Some(p) ==> !texts(open@).contains(p@) && !e.seen().contains(p@) && exists|i: int|
            0 <= i < c.rows().len() && (#[trigger] c.rows()[i]).path@ == p@ && c.rows()[i].is_hydrated
                && (c.rows()[j].is_hydrated && !texts(open@).contains(c.rows()[j].path@)
                && !e.seen().contains(c.rows()[j].path@) ==> c.rows()[i].last_accessed
                <= c.rows()[j].last_accessed),
        r is None && e.left() > e.goal() ==> !(c.rows()[j].is_hydrated && !texts(open@).contains(
            c.rows()[j].path@,
        ) && !e.seen().contains(c.rows()[j].path@)),
{
    let skip = e.seen() + texts(open@);
    lemma_in_either(e.seen(), texts(open@), c.rows()[j].path@);
    if let Some(p) = r {
        let i = choose|i: int|
            is_oldest(c.rows(), false, skip, i) && #[trigger] c.rows()[i].path@ == p@;
        lemma_in_either(e.seen(), texts(open@), p@);
        crate::file_table::law_least_recently_used_comes_first(c.rows(), false, skip, i, j);
        assert(c.rows()[i].path@ == p@);
    } else if e.left() > e.goal() {
        crate::file_table::law_least_recently_used_comes_first(c.rows(), false, skip, j, j);
    }
}

proof fn lemma_in_either(a: Seq<Seq<char>>, b: Seq<Seq<char>>, p: Seq<char>)
    ensures
        (a + b).contains(p) <==> a.contains(p) || b.contains(p),
{
    let z = a + b;
    if a.contains(p) {
        let i = choose|i: int| 0 <= i < a.len() && a[i] == p;
        assert(z[i] == p);
    }
    if b.contains(p) {
        let i = choose|i: int| 0 <= i < b.len() && b[i] == p;
        assert(z[a.len() + i] == p);
    }
    if z.contains(p) {
        let i = choose|i: int| 0 <= i < z.len() && z[i] == p;
        if i < a.len() {
            assert(a[i] == p);
        } else {
            assert(b[i - a.len()] == p);
        }
    }
}

/// A file of which only the content is known counts as held whole, with the size of its content,
/// and its time on the share is not known.
pub proof fn law_found_files_are_held_whole(size: u64, now: i64)
    ensures
        ({
            let r = found_row(size, now);
            &&& r.is_hydrated && !r.is_dir
            &&& r.hydrated_size == size && r.nas_size == size
            &&& r.last_accessed == now
            &&& r.nas_mtime == 0 && r.nas_created == 0
        }),
{
}

} // verus!
