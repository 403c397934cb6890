//! The table of known files: one row per path, with what the share last said of
//! the file and what is held of it locally.
use crate::text::{list_has, same, texts};
use vstd::prelude::*;

verus! {

/// One known file or folder.
pub struct KnownFile {
    /// Path, unique in the table.
    pub path: String,
    /// Name within its folder.
    pub name: String,
    /// Whether it is a folder.
    pub is_dir: bool,
    /// Size on the share.
    pub nas_size: u64,
    /// Modification time on the share.
    pub nas_mtime: i64,
    /// Creation time on the share.
    pub nas_created: i64,
    /// Path of the folder that holds it.
    pub parent_path: String,
    /// Whether its content is held locally.
    pub is_hydrated: bool,
    /// Bytes held locally.
    pub hydrated_size: u64,
    /// Time of the last access.
    pub last_accessed: i64,
    /// Time at which the share was last found to agree.
    pub last_verified_at: i64,
}

/// What a row says, apart from its path.
pub struct Row {
    pub name: Seq<char>,
    pub is_dir: bool,
    pub nas_size: u64,
    pub nas_mtime: i64,
    pub nas_created: i64,
    pub parent: Seq<char>,
    pub is_hydrated: bool,
    pub hydrated_size: u64,
    pub last_accessed: i64,
    pub last_verified_at: i64,
}

impl KnownFile {
    /// What the row says, apart from its path.
    pub open spec fn row(&self) -> Row {
        Row {
            name: self.name@,
            is_dir: self.is_dir,
            nas_size: self.nas_size,
            nas_mtime: self.nas_mtime,
            nas_created: self.nas_created,
            parent: self.parent_path@,
            is_hydrated: self.is_hydrated,
            hydrated_size: self.hydrated_size,
            last_accessed: self.last_accessed,
            last_verified_at: self.last_verified_at,
        }
    }
}

/// A row for a file of which nothing is held.
pub open spec fn fresh_row(
    name: Seq<char>,
    is_dir: bool,
    size: u64,
    mtime: i64,
    created: i64,
    parent: Seq<char>,
) -> Row {
    Row {
        name,
        is_dir,
        nas_size: size,
        nas_mtime: mtime,
        nas_created: created,
        parent,
        is_hydrated: false,
        hydrated_size: 0,
        last_accessed: 0,
        last_verified_at: 0,
    }
}

/// The row with its local content dropped.
pub open spec fn dropped(r: Row) -> Row {
    Row { is_hydrated: false, hydrated_size: 0, ..r }
}

/// No path occurs twice.
pub open spec fn unique_paths(rows: Seq<KnownFile>) -> bool {
    forall|i: int, j: int|
        0 <= i < j < rows.len() ==> (#[trigger] rows[i]).path@ != (#[trigger] rows[j]).path@
}

pub open spec fn has_path(rows: Seq<KnownFile>, p: Seq<char>) -> bool {
    exists|i: int| 0 <= i < rows.len() && (#[trigger] rows[i]).path@ == p
}

pub open spec fn row_index(rows: Seq<KnownFile>, p: Seq<char>) -> int {
    choose|i: int| 0 <= i < rows.len() && (#[trigger] rows[i]).path@ == p
}

/// The rows as a map from path to what the row says.
pub open spec fn as_map(rows: Seq<KnownFile>) -> Map<Seq<char>, Row> {
    Map::new(|p: Seq<char>| has_path(rows, p), |p: Seq<char>| rows[row_index(rows, p)].row())
}

/// Bytes that a row holds locally.
pub open spec fn held_bytes(r: Row) -> int {
    if r.is_hydrated {
        r.hydrated_size as int
    } else {
        0
    }
}

/// Bytes held locally, over all rows.
pub open spec fn held_total(rows: Seq<KnownFile>) -> int
    decreases rows.len(),
{
    if rows.len() == 0 {
        0
    } else {
        held_total(rows.drop_last()) + held_bytes(rows.last().row())
    }
}

/// Number of rows with local content.
pub open spec fn held_count(rows: Seq<KnownFile>) -> nat
    decreases rows.len(),
{
    if rows.len() == 0 {
        0
    } else {
        held_count(rows.drop_last()) + if rows.last().is_hydrated {
            1nat
        } else {
            0nat
        }
    }
}

pub proof fn lemma_held_total_nonneg(rows: Seq<KnownFile>)
    ensures
        held_total(rows) >= 0,
    decreases rows.len(),
{
    if rows.len() > 0 {
        lemma_held_total_nonneg(rows.drop_last());
    }
}

/// Every row's bytes are part of the total.
pub proof fn lemma_held_total_bounds(rows: Seq<KnownFile>, i: int)
    requires
        0 <= i < rows.len(),
    ensures
        held_bytes(rows[i].row()) <= held_total(rows),
    decreases rows.len(),
{
    if i < rows.len() - 1 {
        lemma_held_total_bounds(rows.drop_last(), i);
    } else {
        lemma_held_total_nonneg(rows.drop_last());
    }
}

/// Changing one row changes the totals by the difference that it makes.
pub proof fn lemma_held_update(rows: Seq<KnownFile>, i: int, r: KnownFile)
    requires
        0 <= i < rows.len(),
    ensures
        held_total(rows.update(i, r)) == held_total(rows) - held_bytes(rows[i].row()) + held_bytes(
            r.row(),
        ),
        held_count(rows.update(i, r)) == held_count(rows) - (if rows[i].is_hydrated {
            1int
        } else {
            0int
        }) + (if r.is_hydrated {
            1int
        } else {
            0int
        }),
    decreases rows.len(),
{
    let u = rows.update(i, r);
    if i == rows.len() - 1 {
        assert(u.drop_last() =~= rows.drop_last());
    } else {
        lemma_held_update(rows.drop_last(), i, r);
        assert(u.drop_last() =~= rows.drop_last().update(i, r));
    }
}

pub proof fn lemma_held_push(rows: Seq<KnownFile>, r: KnownFile)
    ensures
        held_total(rows.push(r)) == held_total(rows) + held_bytes(r.row()),
{
    assert(rows.push(r).drop_last() =~= rows);
}

/// Leaving one row out takes its bytes out of the total.
pub proof fn lemma_held_remove(rows: Seq<KnownFile>, i: int)
    requires
        0 <= i < rows.len(),
    ensures
        held_total(rows.remove(i)) == held_total(rows) - held_bytes(rows[i].row()),
    decreases rows.len(),
{
    let u = rows.remove(i);
    if i == rows.len() - 1 {
        assert(u =~= rows.drop_last());
    } else {
        lemma_held_remove(rows.drop_last(), i);
        assert(u.drop_last() =~= rows.drop_last().remove(i));
        assert(u.last() == rows.last());
    }
}

/// The row at `i` is the one that its path leads to.
pub proof fn lemma_row_at(rows: Seq<KnownFile>, i: int)
    requires
        unique_paths(rows),
        0 <= i < rows.len(),
    ensures
        as_map(rows).contains_key(rows[i].path@),
        as_map(rows)[rows[i].path@] == rows[i].row(),
{
    let p = rows[i].path@;
    assert(has_path(rows, p));
    let j = row_index(rows, p);
    assert(0 <= j < rows.len() && rows[j].path@ == p);
    if i < j {
        assert(rows[i].path@ != rows[j].path@);
    }
    if j < i {
        assert(rows[j].path@ != rows[i].path@);
    }
}

/// Changing what one row says, and not its path, is an update of the map.
pub proof fn lemma_map_update(rows: Seq<KnownFile>, i: int, r: KnownFile)
    requires
        unique_paths(rows),
        0 <= i < rows.len(),
        r.path@ == rows[i].path@,
    ensures
        unique_paths(rows.update(i, r)),
        as_map(rows.update(i, r)) == as_map(rows).insert(r.path@, r.row()),
{
    let u = rows.update(i, r);
    assert forall|a: int, b: int| 0 <= a < b < u.len() implies (#[trigger] u[a]).path@ != (
    #[trigger] u[b]).path@ by {
        assert(u[a].path@ == rows[a].path@ && u[b].path@ == rows[b].path@);
    }
    assert forall|p: Seq<char>| has_path(u, p) == (has_path(rows, p) || p == r.path@) by {
        if has_path(u, p) {
            let k = row_index(u, p);
            assert(u[k].path@ == p);
            assert(rows[k].path@ == p);
        }
        if has_path(rows, p) {
            let k = row_index(rows, p);
            assert(rows[k].path@ == p);
            assert(u[k].path@ == p);
        }
        assert(u[i].path@ == r.path@);
    }
    assert forall|p: Seq<char>| has_path(u, p) implies as_map(u)[p] == as_map(rows).insert(
        r.path@,
        r.row(),
    )[p] by {
        let k = row_index(u, p);
        assert(u[k].path@ == p);
        lemma_row_at(u, k);
        lemma_row_at(rows, k);
        if k == i {
        } else {
            lemma_row_at(u, i);
        }
    }
    assert(as_map(u) =~= as_map(rows).insert(r.path@, r.row()));
}

/// Adding a row with a new path is an insertion into the map.
pub proof fn lemma_map_push(rows: Seq<KnownFile>, r: KnownFile)
    requires
        unique_paths(rows),
        !has_path(rows, r.path@),
    ensures
        unique_paths(rows.push(r)),
        as_map(rows.push(r)) == as_map(rows).insert(r.path@, r.row()),
{
    let u = rows.push(r);
    assert forall|a: int, b: int| 0 <= a < b < u.len() implies (#[trigger] u[a]).path@ != (
    #[trigger] u[b]).path@ by {
        assert(u[a] == rows[a]);
        if b < rows.len() {
            assert(u[b] == rows[b]);
        }
    }
    assert forall|p: Seq<char>| has_path(u, p) == (has_path(rows, p) || p == r.path@) by {
        if has_path(u, p) {
            let k = row_index(u, p);
            assert(u[k].path@ == p);
            if k < rows.len() {
                assert(rows[k].path@ == p);
            }
        }
        if has_path(rows, p) {
            let k = row_index(rows, p);
            assert(rows[k].path@ == p);
            assert(u[k].path@ == p);
        }
        assert(u[rows.len() as int].path@ == r.path@);
    }
    assert forall|p: Seq<char>| has_path(u, p) implies as_map(u)[p] == as_map(rows).insert(
        r.path@,
        r.row(),
    )[p] by {
        let k = row_index(u, p);
        assert(u[k].path@ == p);
        lemma_row_at(u, k);
        if k < rows.len() {
            lemma_row_at(rows, k);
            assert(rows[k].path@ == p);
        }
    }
    assert(as_map(u) =~= as_map(rows).insert(r.path@, r.row()));
}

/// Leaving one row out is a removal from the map.
pub proof fn lemma_map_remove(rows: Seq<KnownFile>, i: int)
    requires
        unique_paths(rows),
        0 <= i < rows.len(),
    ensures
        unique_paths(rows.remove(i)),
        as_map(rows.remove(i)) == as_map(rows).remove(rows[i].path@),
{
    let u = rows.remove(i);
    assert forall|a: int| 0 <= a < u.len() implies #[trigger] u[a] == rows[if a < i {
        a
    } else {
        a + 1
    }] by {}
    assert forall|a: int, b: int| 0 <= a < b < u.len() implies (#[trigger] u[a]).path@ != (
    #[trigger] u[b]).path@ by {
        let x = if a < i { a } else { a + 1 };
        let y = if b < i { b } else { b + 1 };
        assert(rows[x].path@ != rows[y].path@);
    }
    assert forall|p: Seq<char>| has_path(u, p) == (has_path(rows, p) && p != rows[i].path@) by {
        if has_path(u, p) {
            let k = row_index(u, p);
            let x = if k < i { k } else { k + 1 };
            assert(u[k].path@ == p && u[k] == rows[x]);
            if x < i {
                assert(rows[x].path@ != rows[i].path@);
            } else {
                assert(rows[i].path@ != rows[x].path@);
            }
        }
        if has_path(rows, p) && p != rows[i].path@ {
            let k = row_index(rows, p);
            assert(rows[k].path@ == p);
            let x = if k < i { k } else { k - 1 };
            assert(u[x] == rows[k]);
        }
    }
    assert forall|p: Seq<char>| has_path(u, p) implies as_map(u)[p] == as_map(rows)[p] by {
        let k = row_index(u, p);
        let x = if k < i { k } else { k + 1 };
        assert(u[k].path@ == p && u[k] == rows[x]);
        lemma_row_at(u, k);
        lemma_row_at(rows, x);
    }
    assert(as_map(u) =~= as_map(rows).remove(rows[i].path@));
}

/// A row whose local content may be dropped: it has some, it is a file where only files
/// count, and it is not among the paths to be passed over.
pub open spec fn evictable(r: KnownFile, files_only: bool, skip: Seq<Seq<char>>) -> bool {
    r.is_hydrated && !(files_only && r.is_dir) && !skip.contains(r.path@)
}

/// `i` is the least recently used evictable row, the first such one.
pub open spec fn is_oldest(
    rows: Seq<KnownFile>,
    files_only: bool,
    skip: Seq<Seq<char>>,
    i: int,
) -> bool {
    &&& 0 <= i < rows.len()
    &&& evictable(rows[i], files_only, skip)
    &&& forall|j: int|
        0 <= j < rows.len() && evictable(#[trigger] rows[j], files_only, skip) ==> {
            &&& rows[i].last_accessed <= rows[j].last_accessed
            &&& j < i ==> rows[i].last_accessed < rows[j].last_accessed
        }
}

pub open spec fn none_evictable(
    rows: Seq<KnownFile>,
    files_only: bool,
    skip: Seq<Seq<char>>,
) -> bool {
    forall|j: int| 0 <= j < rows.len() ==> !evictable(#[trigger] rows[j], files_only, skip)
}

/// The rows without those of the folder `parent` whose path is not among those to keep.
pub open spec fn without_orphans(
    m: Map<Seq<char>, Row>,
    parent: Seq<char>,
    keep: Seq<Seq<char>>,
) -> Map<Seq<char>, Row> {
    Map::new(
        |p: Seq<char>| m.contains_key(p) && (m[p].parent != parent || keep.contains(p)),
        |p: Seq<char>| m[p],
    )
}

/// The table of known files.
pub struct FileTable {
    rows: Vec<KnownFile>,
}

impl View for FileTable {
    type V = Map<Seq<char>, Row>;

    open spec fn view(&self) -> Map<Seq<char>, Row> {
        as_map(self.rows())
    }
}

impl FileTable {
    /// The rows in the order in which they stand.
    pub closed spec fn rows(&self) -> Seq<KnownFile> {
        self.rows@
    }

    /// No path occurs twice.
    pub open spec fn wf(&self) -> bool {
        unique_paths(self.rows())
    }

    /// An empty table.
    pub fn new() -> (t: FileTable)
        ensures
            t.wf(),
            t.rows() == Seq::<KnownFile>::empty(),
            t@ == Map::<Seq<char>, Row>::empty(),
    {
        let t = FileTable { rows: Vec::new() };
        assert(t@ =~= Map::<Seq<char>, Row>::empty());
        t
    }

    /// Number of rows.
    pub fn len(&self) -> (n: usize)
        ensures
            n == self.rows().len(),
    {
        self.rows.len()
    }

    /// The row at position `i`.
    pub fn row_at(&self, i: usize) -> (r: &KnownFile)
        requires
            i < self.rows().len(),
        ensures
            *r == self.rows()[i as int],
    {
        &self.rows[i]
    }

    /// The position of the row with the given path.
    pub fn find(&self, path: &str) -> (r: Option<usize>)
        requires
            self.wf(),
        ensures
            r is None <==> !self@.contains_key(path@),
            r matches Some(i) ==> i < self.rows().len() && self.rows()[i as int].path@ == path@
                && self@[path@] == self.rows()[i as int].row(),
    {
        let mut i: usize = 0;
        while i < self.rows.len()
            invariant
                i <= self.rows@.len(),
                unique_paths(self.rows@),
                forall|k: int| 0 <= k < i ==> (#[trigger] self.rows@[k]).path@ != path@,
            decreases self.rows@.len() - i,
        {
            if same(self.rows[i].path.as_str(), path) {
                proof {
                    lemma_row_at(self.rows@, i as int);
                }
                return Some(i);
            }
            i += 1;
        }
        None
    }

    /// Puts a row, in place of the one with the same path where there is one.
    pub fn put(&mut self, r: KnownFile)
        requires
            old(self).wf(),
        ensures
            final(self).wf(),
            final(self)@ == old(self)@.insert(r.path@, r.row()),
            held_total(final(self).rows()) == held_total(old(self).rows()) + held_bytes(r.row())
                - (if old(self)@.contains_key(r.path@) {
                held_bytes(old(self)@[r.path@])
            } else {
                0
            }),
    {
        match self.find(r.path.as_str()) {
            Some(i) => {
                proof {
                    lemma_map_update(self.rows@, i as int, r);
                    lemma_held_update(self.rows@, i as int, r);
                }
                self.rows.set(i, r);
            },
            None => {
                proof {
                    lemma_map_push(self.rows@, r);
                    lemma_held_push(self.rows@, r);
                }
                self.rows.push(r);
            },
        }
    }

    /// Replaces the row at position `i` by one with the same path.
    pub fn set_at(&mut self, i: usize, r: KnownFile)
        requires
            old(self).wf(),
            i < old(self).rows().len(),
            r.path@ == old(self).rows()[i as int].path@,
        ensures
            final(self).wf(),
            final(self).rows() == old(self).rows().update(i as int, r),
            final(self)@ == old(self)@.insert(r.path@, r.row()),
            held_total(final(self).rows()) == held_total(old(self).rows()) + held_bytes(r.row())
                - held_bytes(old(self).rows()[i as int].row()),
            held_count(final(self).rows()) == held_count(old(self).rows()) + (if r.is_hydrated {
                1int
            } else {
                0int
            }) - (if old(self).rows()[i as int].is_hydrated {
                1int
            } else {
                0int
            }),
    {
        proof {
            lemma_map_update(self.rows@, i as int, r);
            lemma_held_update(self.rows@, i as int, r);
        }
        self.rows.set(i, r);
    }

    /// Removes the row with the given path, if there is one.
    pub fn remove(&mut self, path: &str)
        requires
            old(self).wf(),
        ensures
            final(self).wf(),
            final(self)@ == old(self)@.remove(path@),
            held_total(final(self).rows()) == held_total(old(self).rows()) - (if old(
                self,
            )@.contains_key(path@) {
                held_bytes(old(self)@[path@])
            } else {
                0
            }),
    {
        match self.find(path) {
            Some(i) => {
                proof {
                    lemma_map_remove(self.rows@, i as int);
                    lemma_held_remove(self.rows@, i as int);
                }
                let _gone = self.rows.remove(i);
            },
            None => {
                assert(self@ =~= self@.remove(path@));
            },
        }
    }

    /// A copy of the row at position `i`.
    pub fn copy_at(&self, i: usize) -> (r: KnownFile)
        requires
            i < self.rows().len(),
        ensures
            r == self.rows()[i as int],
    {
        let k = &self.rows[i];
        KnownFile {
            path: k.path.clone(),
            name: k.name.clone(),
            is_dir: k.is_dir,
            nas_size: k.nas_size,
            nas_mtime: k.nas_mtime,
            nas_created: k.nas_created,
            parent_path: k.parent_path.clone(),
            is_hydrated: k.is_hydrated,
            hydrated_size: k.hydrated_size,
            last_accessed: k.last_accessed,
            last_verified_at: k.last_verified_at,
        }
    }

    /// Removes the rows of the folder `parent` whose path is not among those to keep.
    pub fn retain_children(&mut self, parent: &str, keep: &Vec<String>)
        requires
            old(self).wf(),
        ensures
            final(self).wf(),
            final(self)@ == without_orphans(old(self)@, parent@, texts(keep@)),
            held_total(final(self).rows()) <= held_total(old(self).rows()),
    {
        let ghost m = self@;
        let ghost kept = texts(keep@);
        let mut i: usize = 0;
        while i < self.rows.len()
            invariant
                i <= self.rows@.len(),
                unique_paths(self.rows@),
                kept == texts(keep@),
                held_total(self.rows@) <= held_total(old(self).rows()),
                forall|p: Seq<char>| #[trigger]
                    as_map(self.rows@).contains_key(p) ==> m.contains_key(p) && as_map(
                        self.rows@,
                    )[p] == m[p],
                forall|p: Seq<char>| #[trigger]
                    m.contains_key(p) && !as_map(self.rows@).contains_key(p) ==> m[p].parent
                        == parent@ && !kept.contains(p),
                forall|k: int|
                    0 <= k < i ==> (#[trigger] self.rows@[k]).parent_path@ != parent@
                        || kept.contains(self.rows@[k].path@),
            decreases self.rows@.len() - i,
        {
            proof {
                lemma_row_at(self.rows@, i as int);
            }
            if same(self.rows[i].parent_path.as_str(), parent) && !list_has(
                keep,
                self.rows[i].path.as_str(),
            ) {
                proof {
                    lemma_map_remove(self.rows@, i as int);
                    lemma_held_remove(self.rows@, i as int);
                }
                let _gone = self.rows.remove(i);
            } else {
                i += 1;
            }
        }
        proof {
            let now = as_map(self.rows@);
            assert forall|p: Seq<char>| now.contains_key(p) implies now[p].parent != parent@
                || kept.contains(p) by {
                let k = row_index(self.rows@, p);
                assert(self.rows@[k].path@ == p);
                lemma_row_at(self.rows@, k);
            }
            assert(now =~= without_orphans(m, parent@, kept));
        }
    }

    /// Bytes held locally, over all rows.
    pub fn total_held(&self) -> (n: u64)
        requires
            held_total(self.rows()) <= u64::MAX,
        ensures
            n == held_total(self.rows()),
    {
        let mut n: u64 = 0;
        let mut i: usize = 0;
        assert(self.rows@.take(0) =~= Seq::<KnownFile>::empty());
        while i < self.rows.len()
            invariant
                i <= self.rows@.len(),
                n == held_total(self.rows@.take(i as int)),
                held_total(self.rows@) <= u64::MAX,
            decreases self.rows@.len() - i,
        {
            proof {
                let next = self.rows@.take(i + 1);
                assert(next.drop_last() =~= self.rows@.take(i as int));
                lemma_held_total_prefix(self.rows@, i + 1);
            }
            if self.rows[i].is_hydrated {
                n += self.rows[i].hydrated_size;
            }
            i += 1;
        }
        assert(self.rows@.take(self.rows@.len() as int) =~= self.rows@);
        n
    }

    /// The least recently used row whose local content may be dropped.
    pub fn oldest(&self, files_only: bool, skip: &Vec<String>) -> (r: Option<usize>)
        ensures
            r matches Some(i) ==> is_oldest(self.rows(), files_only, texts(skip@), i as int),
            r is None ==> none_evictable(self.rows(), files_only, texts(skip@)),
    {
        let mut best: Option<usize> = None;
        let mut i: usize = 0;
        let ghost rows = self.rows@;
        let ghost sk = texts(skip@);
        while i < self.rows.len()
            invariant
                i <= rows.len(),
                rows == self.rows@,
                sk == texts(skip@),
                best is None ==> forall|j: int|
                    0 <= j < i ==> !evictable(#[trigger] rows[j], files_only, sk),
                best matches Some(b) ==> b < i && evictable(rows[b as int], files_only, sk)
                    && forall|j: int|
                    0 <= j < i && evictable(#[trigger] rows[j], files_only, sk)
                        ==> rows[b as int].last_accessed <= rows[j].last_accessed && (j < b
                        ==> rows[b as int].last_accessed < rows[j].last_accessed),
            decreases rows.len() - i,
        {
            let k = &self.rows[i];
            if k.is_hydrated && !(files_only && k.is_dir) && !list_has(skip, k.path.as_str()) {
                match best {
                    Some(b) => {
                        if k.last_accessed < self.rows[b].last_accessed {
                            best = Some(i);
                        }
                    },
                    None => {
                        best = Some(i);
                    },
                }
            }
            i += 1;
        }
        best
    }
}

pub proof fn lemma_held_total_prefix(rows: Seq<KnownFile>, k: int)
    requires
        0 <= k <= rows.len(),
    ensures
        held_total(rows.take(k)) <= held_total(rows),
    decreases rows.len() - k,
{
    if k < rows.len() {
        lemma_held_total_prefix(rows, k + 1);
        assert(rows.take(k + 1).drop_last() =~= rows.take(k));
        assert(held_bytes(rows[k].row()) >= 0);
    } else {
        assert(rows.take(k) =~= rows);
    }
}

/// A file adds what it holds to the total, and counts, exactly where its content is here.
pub proof fn law_held_files_are_summed_up(rows: Seq<KnownFile>, r: KnownFile)
    ensures
        r.is_hydrated ==> held_total(rows.push(r)) == held_total(rows) + r.hydrated_size
            && held_count(rows.push(r)) == held_count(rows) + 1,
        !r.is_hydrated ==> held_total(rows.push(r)) == held_total(rows) && held_count(rows.push(r))
            == held_count(rows),
        held_total(Seq::empty()) == 0,
        held_count(Seq::empty()) == 0,
{
    assert(rows.push(r).drop_last() =~= rows);
}

/// What is dropped next has content, was not passed over, and was used no later than any other
/// file of that kind; where nothing may be dropped, no file is of that kind.
pub proof fn law_least_recently_used_comes_first(
    rows: Seq<KnownFile>,
    files_only: bool,
    skip: Seq<Seq<char>>,
    i: int,
    j: int,
)
    requires
        0 <= i < rows.len(),
        0 <= j < rows.len(),
    ensures
        is_oldest(rows, files_only, skip, i) ==> rows[i].is_hydrated && !skip.contains(
            rows[i].path@,
        ) && (files_only ==> !rows[i].is_dir),
        is_oldest(rows, files_only, skip, i) && rows[j].is_hydrated && !skip.contains(rows[j].path@)
            && (files_only ==> !rows[j].is_dir) ==> rows[i].last_accessed <= rows[j].last_accessed,
        is_oldest(rows, files_only, skip, i) && is_oldest(rows, files_only, skip, j) ==> i == j,
        none_evictable(rows, files_only, skip) ==> !(rows[j].is_hydrated && !skip.contains(
            rows[j].path@,
        ) && (files_only ==> !rows[j].is_dir)),
        is_oldest(rows, files_only, skip, i) ==> !none_evictable(rows, files_only, skip),
{
}

/// Dropping the content of a file leaves all that the share said of it.
pub proof fn law_dropping_keeps_what_the_share_said(r: Row)
    ensures
        ({
            let d = dropped(r);
            &&& !d.is_hydrated
            &&& d.hydrated_size == 0
            &&& held_bytes(d) == 0
            &&& d.name == r.name && d.is_dir == r.is_dir && d.parent == r.parent
            &&& d.nas_size == r.nas_size && d.nas_mtime == r.nas_mtime && d.nas_created
                == r.nas_created
            &&& d.last_accessed == r.last_accessed && d.last_verified_at == r.last_verified_at
        }),
{
}

/// A new row holds the values that it was made with and no content.
pub proof fn law_new_rows_hold_nothing(
    name: Seq<char>,
    is_dir: bool,
    size: u64,
    mtime: i64,
    created: i64,
    parent: Seq<char>,
)
    ensures
        ({
            let r = fresh_row(name, is_dir, size, mtime, created, parent);
            &&& r.name == name && r.is_dir == is_dir && r.parent == parent
            &&& r.nas_size == size && r.nas_mtime == mtime && r.nas_created == created
            &&& !r.is_hydrated && r.hydrated_size == 0
            &&& r.last_accessed == 0 && r.last_verified_at == 0
            &&& held_bytes(r) == 0
        }),
{
}

/// Entries of a folder that are not to be kept are forgotten, and nothing else is.
pub proof fn law_only_orphans_are_forgotten(
    m: Map<Seq<char>, Row>,
    parent: Seq<char>,
    keep: Seq<Seq<char>>,
    p: Seq<char>,
)
    ensures
        without_orphans(m, parent, keep).contains_key(p) <==> m.contains_key(p) && !(m[p].parent
            == parent && !keep.contains(p)),
        without_orphans(m, parent, keep).contains_key(p) ==> without_orphans(m, parent, keep)[p]
            == m[p],
{
}

} // verus!
