//! A share as the loopback file server of macOS shows it: file handles, attributes and listings
//! from what the cache knows.
use crate::cache_core::{attr_of, child_path, join_rel, parent_of, parent_path, CachedAttr};
use crate::file_table::KnownFile;
use crate::macos_cache::{hidden_name, is_hidden_name, MacosCache};
use crate::messages::DirEntry;
use crate::paths::{join, joined, Platform};
use crate::text::{
    decimal, decimal_of, join2, lemma_precedes_asymmetric, lemma_precedes_less, precedes, same,
    text_less, texts,
};
use vstd::prelude::*;

verus! {

/// Port of the first server; each further one takes the next.
pub const BASE_PORT: u16 = 12_345;

/// The handle of the root; 0 is no handle.
pub const ROOT_HANDLE: u64 = 1;

/// The address that a server listens on.
pub fn bind_address(port: u16) -> (out: String)
    ensures
        out@ == "127.0.0.1:"@ + decimal(port as nat),
{
    let digits = decimal_of(port as u64);
    join2("127.0.0.1:", digits.as_str())
}

/// Handles of paths: a path keeps its handle, and no two paths share one.
pub struct IdTable {
    paths: Vec<String>,
}

/// No path has two handles.
pub open spec fn no_repeats(v: Seq<Seq<char>>) -> bool {
    forall|i: int, j: int| 0 <= i < j < v.len() ==> #[trigger] v[i] != #[trigger] v[j]
}

impl View for IdTable {
    type V = Seq<Seq<char>>;

    /// The paths by handle; the first has the handle 1.
    closed spec fn view(&self) -> Seq<Seq<char>> {
        texts(self.paths@)
    }
}

impl IdTable {
    pub open spec fn wf(&self) -> bool {
        self@.len() > 0 && no_repeats(self@)
    }

    /// A table that knows the root alone.
    pub fn new(root: String) -> (t: IdTable)
        ensures
            t.wf(),
            t@ == seq![root@],
    {
        let mut paths: Vec<String> = Vec::new();
        paths.push(root);
        let t = IdTable { paths };
        assert(t@ =~= seq![root@]);
        t
    }

    /// The handle of a path that has one.
    pub fn find(&self, path: &str) -> (r: Option<u64>)
        requires
            self.wf(),
            self@.len() < u64::MAX,
        ensures
            r matches Some(id) ==> 1 <= id <= self@.len() && self@[id - 1] == path@,
            r is None ==> !self@.contains(path@),
    {
        let mut i: usize = 0;
        while i < self.paths.len()
            invariant
                i <= self.paths@.len(),
                self@.len() < u64::MAX,
                forall|k: int| 0 <= k < i ==> (#[trigger] self@[k]) != path@,
            decreases self.paths@.len() - i,
        {
            assert(self@[i as int] == self.paths@[i as int]@);
            if same(self.paths[i].as_str(), path) {
                return Some(i as u64 + 1);
            }
            i += 1;
        }
        None
    }

    /// The handle of a path; one that has none gets the next.
    pub fn get_or_insert(&mut self, path: &str) -> (id: u64)
        requires
            old(self).wf(),
            old(self)@.len() < u64::MAX - 1,
        ensures
            final(self).wf(),
            1 <= id <= final(self)@.len(),
            final(self)@[id - 1] == path@,
            final(self)@ == if old(self)@.contains(path@) {
                old(self)@
            } else {
                old(self)@.push(path@)
            },
    {
        match self.find(path) {
            Some(id) => {
                assert(self@.contains(self@[id - 1]));
                id
            },
            None => {
                let ghost before = self@;
                self.paths.push(path.to_owned());
                assert(self@ =~= before.push(path@));
                assert forall|i: int, j: int| 0 <= i < j < self@.len() implies #[trigger] self@[i]
                    != #[trigger] self@[j] by {
                    assert(self@[i] == before[i]);
                    if j < before.len() {
                        assert(self@[j] == before[j]);
                    } else {
                        assert(before.contains(before[i]));
                    }
                }
                self.paths.len() as u64
            },
        }
    }

    /// How many paths have a handle.
    pub fn len(&self) -> (n: usize)
        ensures
            n == self@.len(),
    {
        self.paths.len()
    }

    /// The path of a handle.
    pub fn path(&self, id: u64) -> (r: Option<&String>)
        requires
            self@.len() <= u64::MAX,
        ensures
            r matches Some(p) ==> 1 <= id <= self@.len() && p@ == self@[id - 1],
            r is None ==> id == 0 || id > self@.len(),
    {
        if id == 0 || id > self.paths.len() as u64 {
            None
        } else {
            Some(&self.paths[(id - 1) as usize])
        }
    }
}

/// What asking for the paths in order makes of a table.
pub open spec fn after_asking(handles: Seq<Seq<char>>, paths: Seq<Seq<char>>) -> Seq<Seq<char>>
    decreases paths.len(),
{
    if paths.len() == 0 {
        handles
    } else {
        let before = after_asking(handles, paths.drop_last());
        if before.contains(paths.last()) {
            before
        } else {
            before.push(paths.last())
        }
    }
}

/// A handle stays with its path, whatever paths are asked for later.
pub proof fn law_handles_are_stable(before: Seq<Seq<char>>, paths: Seq<Seq<char>>)
    ensures
        before.is_prefix_of(after_asking(before, paths)),
    decreases paths.len(),
{
    if paths.len() > 0 {
        law_handles_are_stable(before, paths.drop_last());
    }
}

proof fn lemma_asking_one(handles: Seq<Seq<char>>, path: Seq<char>)
    ensures
        after_asking(handles, seq![path]) == if handles.contains(path) {
            handles
        } else {
            handles.push(path)
        },
{
    reveal_with_fuel(after_asking, 2);
    assert(seq![path].drop_last() =~= Seq::empty());
}

proof fn lemma_asking_more(handles: Seq<Seq<char>>, paths: Seq<Seq<char>>, path: Seq<char>)
    ensures
        after_asking(handles, paths.push(path)) == after_asking(
            after_asking(handles, paths),
            seq![path],
        ),
{
    lemma_asking_one(after_asking(handles, paths), path);
    assert(paths.push(path).drop_last() =~= paths);
}

/// Handles outlive their table: one that starts with the root and is asked for the paths of another
/// in the order of their handles gives each path the handle that it had.
pub proof fn law_kept_handles_come_back(kept: Seq<Seq<char>>)
    requires
        kept.len() > 0,
        no_repeats(kept),
    ensures
        after_asking(seq![kept[0]], kept) == kept,
    decreases kept.len(),
{
    if kept.len() == 1 {
        reveal_with_fuel(after_asking, 2);
        assert(seq![kept[0]].contains(kept[0])) by {
            assert(seq![kept[0]][0] == kept[0]);
        }
        assert(kept =~= seq![kept[0]]);
    } else {
        let front = kept.drop_last();
        assert forall|i: int, j: int| 0 <= i < j < front.len() implies #[trigger] front[i]
            != #[trigger] front[j] by {
            assert(kept[i] != kept[j]);
        }
        law_kept_handles_come_back(front);
        assert(!front.contains(kept.last())) by {
            if front.contains(kept.last()) {
                let i = choose|i: int| 0 <= i < front.len() && front[i] == kept.last();
                assert(kept[i] != kept[kept.len() - 1]);
            }
        }
        assert(front.push(kept.last()) =~= kept);
    }
}

/// Why a request was refused.
#[derive(Clone, Copy, Debug, PartialEq, Eq, Structural)]
pub enum NfsError {
    NoEntry,
    Access,
    Exists,
    Io,
    /// The handle is not known.
    Stale,
    /// The share is read-only.
    ReadOnly,
}

/// The kinds of errors of the file system that requests tell apart.
#[derive(Clone, Copy, Debug, PartialEq, Eq, Structural)]
pub enum FsErrorKind {
    NotFound,
    PermissionDenied,
    AlreadyExists,
    Other,
}

/// How an error of the file system is answered.
pub fn io_to_nfsstat(kind: FsErrorKind) -> (e: NfsError)
    ensures
        e == match kind {
            FsErrorKind::NotFound => NfsError::NoEntry,
            FsErrorKind::PermissionDenied => NfsError::Access,
            FsErrorKind::AlreadyExists => NfsError::Exists,
            FsErrorKind::Other => NfsError::Io,
        },
{
    match kind {
        FsErrorKind::NotFound => NfsError::NoEntry,
        FsErrorKind::PermissionDenied => NfsError::Access,
        FsErrorKind::AlreadyExists => NfsError::Exists,
        FsErrorKind::Other => NfsError::Io,
    }
}

/// A time as seconds and nanoseconds.
#[derive(Clone, Copy, Debug, PartialEq, Eq, Structural)]
pub struct NfsTime {
    pub seconds: u32,
    pub nseconds: u32,
}

/// The attributes that are answered for an entry.
#[derive(Clone, Copy, Debug, PartialEq, Eq, Structural)]
pub struct NfsAttr {
    pub is_dir: bool,
    pub mode: u32,
    pub nlink: u32,
    pub uid: u32,
    pub gid: u32,
    pub size: u64,
    pub used: u64,
    pub fileid: u64,
    pub atime: NfsTime,
    pub mtime: NfsTime,
    pub ctime: NfsTime,
}

/// Microseconds since 1970 as seconds and nanoseconds. Times before 1970 count as 1970, and seconds
/// end at the largest number that they can hold.
pub open spec fn nfs_time(micros: i64) -> NfsTime {
    if micros < 0 {
        NfsTime { seconds: 0, nseconds: 0 }
    } else {
        let secs = micros as int / 1_000_000;
        NfsTime {
            seconds: if secs > u32::MAX {
                u32::MAX
            } else {
                secs as u32
            },
            nseconds: (micros as int % 1_000_000 * 1_000) as u32,
        }
    }
}

fn to_nfs_time(micros: i64) -> (t: NfsTime)
    ensures
        t == nfs_time(micros),
{
    if micros < 0 {
        return NfsTime { seconds: 0, nseconds: 0 };
    }
    let secs: u64 = micros as u64 / 1_000_000;
    let seconds: u32 = if secs > u32::MAX as u64 {
        u32::MAX
    } else {
        secs as u32
    };
    let nseconds: u32 = (micros as u64 % 1_000_000) as u32 * 1_000;
    NfsTime { seconds, nseconds }
}

/// The attributes that are answered for an entry.
pub open spec fn attr3(fh: u64, a: CachedAttr) -> NfsAttr {
    let size = if a.is_dir {
        4_096
    } else {
        a.size
    };
    NfsAttr {
        is_dir: a.is_dir,
        mode: if a.is_dir {
            0o755
        } else {
            0o644
        },
        nlink: if a.is_dir {
            2
        } else {
            1
        },
        uid: 501,
        gid: 20,
        size,
        used: if a.is_hydrated {
            a.hydrated_size
        } else {
            size
        },
        fileid: fh,
        atime: nfs_time(a.mtime),
        mtime: nfs_time(a.mtime),
        ctime: nfs_time(a.created),
    }
}

/// The attributes that are answered for an entry.
pub fn attr_from_cache(fh: u64, a: &CachedAttr) -> (out: NfsAttr)
    ensures
        out == attr3(fh, *a),
{
    let size: u64 = if a.is_dir {
        4_096
    } else {
        a.size
    };
    let mtime = to_nfs_time(a.mtime);
    NfsAttr {
        is_dir: a.is_dir,
        mode: if a.is_dir {
            0o755
        } else {
            0o644
        },
        nlink: if a.is_dir {
            2
        } else {
            1
        },
        uid: 501,
        gid: 20,
        size,
        used: if a.is_hydrated {
            a.hydrated_size
        } else {
            size
        },
        fileid: fh,
        atime: mtime,
        mtime,
        ctime: to_nfs_time(a.created),
    }
}

/// Whether a read of `n` bytes from `offset` reached the end of a file.
pub fn at_end(offset: u64, n: usize, len: u64) -> (eof: bool)
    ensures
        eof == (offset + n >= len),
{
    offset as u128 + n as u128 >= len as u128
}

/// The entries of a listing that are shown.
pub open spec fn shown_entries(v: Seq<DirEntry>) -> Seq<DirEntry>
    decreases v.len(),
{
    if v.len() == 0 {
        Seq::empty()
    } else if hidden_name(v.last().name@) {
        shown_entries(v.drop_last())
    } else {
        shown_entries(v.drop_last()).push(v.last())
    }
}

/// Whether two lists have entries with the same values.
pub open spec fn same_entries(a: Seq<DirEntry>, b: Seq<DirEntry>) -> bool {
    &&& a.len() == b.len()
    &&& forall|i: int|
        0 <= i < a.len() ==> {
            &&& (#[trigger] a[i]).name@ == b[i].name@
            &&& a[i].is_dir == b[i].is_dir
            &&& a[i].size == b[i].size
            &&& a[i].modified == b[i].modified
            &&& a[i].created == b[i].created
        }
}

/// The entries of a listing that are shown.
pub fn visible_entries(entries: &Vec<DirEntry>) -> (out: Vec<DirEntry>)
    ensures
        same_entries(out@, shown_entries(entries@)),
{
    let mut out: Vec<DirEntry> = Vec::new();
    let mut i: usize = 0;
    assert(entries@.take(0) =~= Seq::empty());
    while i < entries.len()
        invariant
            i <= entries@.len(),
            same_entries(out@, shown_entries(entries@.take(i as int))),
        decreases entries@.len() - i,
    {
        let e = &entries[i];
        assert(entries@.take(i + 1).drop_last() =~= entries@.take(i as int));
        assert(entries@.take(i + 1).last() == *e);
        if !is_hidden_name(e.name.as_str()) {
            out.push(
                DirEntry {
                    name: e.name.clone(),
                    is_dir: e.is_dir,
                    size: e.size,
                    modified: e.modified,
                    created: e.created,
                },
            );
        }
        i += 1;
    }
    assert(entries@.take(entries@.len() as int) =~= entries@);
    out
}

/// An entry of a listing that is answered.
#[derive(Debug, Clone, PartialEq, Eq)]
pub struct NfsEntry {
    pub fileid: u64,
    pub name: String,
    pub attr: NfsAttr,
}

/// Handle, name and attributes of an entry.
pub open spec fn entry_values(v: Seq<NfsEntry>) -> Seq<(u64, Seq<char>, NfsAttr)> {
    v.map_values(|e: NfsEntry| (e.fileid, e.name@, e.attr))
}

/// No entry comes before one with a smaller name.
pub open spec fn sorted_by_name(v: Seq<NfsEntry>) -> bool {
    forall|i: int, j: int|
        0 <= i < j < v.len() ==> !precedes((#[trigger] v[j]).name@, (#[trigger] v[i]).name@)
}

/// Puts an entry in its place.
fn insert_sorted(v: &mut Vec<NfsEntry>, e: NfsEntry)
    requires
        sorted_by_name(old(v)@),
    ensures
        sorted_by_name(final(v)@),
        final(v)@.to_multiset() == old(v)@.to_multiset().insert(e),
{
    let mut k: usize = v.len();
    let ghost v0 = v@;
    while k > 0 && text_less(e.name.as_str(), v[k - 1].name.as_str())
        invariant
            k <= v@.len(),
            v@ == v0,
            sorted_by_name(v0),
            forall|i: int| k <= i < v@.len() ==> precedes(e.name@, (#[trigger] v@[i]).name@),
        decreases k,
    {
        k -= 1;
    }
    v.insert(k, e);
    proof {
        broadcast use vstd::seq_lib::group_to_multiset_ensures;

        assert(v@ == v0.insert(k as int, e));
        vstd::seq_lib::to_multiset_insert(v0, k as int, e);
        assert forall|i: int, j: int| 0 <= i < j < v@.len() implies !precedes(
            (#[trigger] v@[j]).name@,
            (#[trigger] v@[i]).name@,
        ) by {
            let vi = if i < k {
                i
            } else {
                i - 1
            };
            let vj = if j < k {
                j
            } else {
                j - 1
            };
            if i == k {
                assert(v@[j] == v0[j - 1]);
                lemma_precedes_asymmetric(e.name@, v0[j - 1].name@);
            } else if j == k {
                assert(v@[i] == v0[i]);
                if precedes(e.name@, v0[i].name@) {
                    if i < k - 1 {
                        assert(!precedes(v0[k - 1].name@, v0[i].name@));
                        lemma_precedes_less(e.name@, v0[i].name@, v0[k - 1].name@);
                    }
                }
            } else {
                assert(v@[i] == v0[vi]);
                assert(v@[j] == v0[vj]);
            }
        }
    }
}

/// Sorts entries by name.
pub fn sort_entries(entries: Vec<NfsEntry>) -> (out: Vec<NfsEntry>)
    ensures
        sorted_by_name(out@),
        out@.to_multiset() == entries@.to_multiset(),
{
    let mut entries = entries;
    let mut out: Vec<NfsEntry> = Vec::new();
    let ghost all = entries@.to_multiset();
    proof {
        broadcast use vstd::seq_lib::group_to_multiset_ensures;

        assert(out@.to_multiset() =~= vstd::multiset::Multiset::empty());
        assert(all =~= out@.to_multiset().add(entries@.to_multiset()));
    }
    while entries.len() > 0
        invariant
            sorted_by_name(out@),
            all == out@.to_multiset().add(entries@.to_multiset()),
        decreases entries@.len(),
    {
        let ghost before = entries@;
        let ghost done = out@.to_multiset();
        match entries.pop() {
            Some(e) => {
                insert_sorted(&mut out, e);
                proof {
                    broadcast use vstd::seq_lib::group_to_multiset_ensures;

                    assert(before =~= entries@.push(e));
                    assert(before.to_multiset() =~= entries@.to_multiset().insert(e));
                    assert(out@.to_multiset().add(entries@.to_multiset()) =~= done.add(
                        before.to_multiset(),
                    ));
                }
            },
            None => {},
        }
    }
    proof {
        broadcast use vstd::seq_lib::group_to_multiset_ensures;

        assert(entries@ =~= Seq::<NfsEntry>::empty());
        assert(out@.to_multiset().add(entries@.to_multiset()) =~= out@.to_multiset());
    }
    out
}

/// The position behind the first entry with this handle; the length where there is none.
pub open spec fn behind(v: Seq<NfsEntry>, fh: u64) -> int
    decreases v.len(),
{
    if v.len() == 0 {
        0
    } else if v[0].fileid == fh {
        1
    } else {
        1 + behind(v.drop_first(), fh)
    }
}

/// The entries behind the one with the handle `start_after`; all of them for 0.
pub open spec fn rest_after(v: Seq<NfsEntry>, start_after: u64) -> Seq<NfsEntry> {
    if start_after == 0 {
        v
    } else {
        v.skip(behind(v, start_after))
    }
}

proof fn lemma_behind(v: Seq<NfsEntry>, fh: u64, k: int)
    requires
        0 <= k <= v.len(),
        forall|i: int| 0 <= i < k ==> (#[trigger] v[i]).fileid != fh,
        k < v.len() ==> v[k].fileid == fh,
    ensures
        behind(v, fh) == if k < v.len() {
            k + 1
        } else {
            k
        },
    decreases v.len(),
{
    if v.len() > 0 && k > 0 {
        let w = v.drop_first();
        assert forall|i: int| 0 <= i < k - 1 implies (#[trigger] w[i]).fileid != fh by {
            assert(w[i] == v[i + 1]);
        }
        assert(v[0].fileid != fh);
        lemma_behind(w, fh, k - 1);
    }
}

/// One page of a sorted listing: at most `max_entries` entries behind the one with the handle
/// `start_after`, and whether these are the last.
pub fn read_page(entries: &Vec<NfsEntry>, start_after: u64, max_entries: usize) -> (r: (
    Vec<NfsEntry>,
    bool,
))
    ensures
        ({
            let rest = rest_after(entries@, start_after);
            let n = if rest.len() <= max_entries {
                rest.len() as int
            } else {
                max_entries as int
            };
            &&& entry_values(r.0@) == entry_values(rest.take(n))
            &&& r.1 == (rest.len() <= max_entries)
        }),
{
    let mut k: usize = 0;
    if start_after != 0 {
        while k < entries.len() && entries[k].fileid != start_after
            invariant
                k <= entries@.len(),
                forall|i: int| 0 <= i < k ==> (#[trigger] entries@[i]).fileid != start_after,
            decreases entries@.len() - k,
        {
            k += 1;
        }
        proof {
            lemma_behind(entries@, start_after, k as int);
        }
        if k < entries.len() {
            k += 1;
        }
    }
    let ghost rest = rest_after(entries@, start_after);
    assert(rest =~= entries@.skip(k as int));
    let n: usize = if entries.len() - k <= max_entries {
        entries.len() - k
    } else {
        max_entries
    };
    let mut out: Vec<NfsEntry> = Vec::new();
    let mut i: usize = 0;
    assert(entry_values(out@) =~= entry_values(rest.take(0)));
    while i < n
        invariant
            i <= n,
            k + n <= entries@.len(),
            rest == entries@.skip(k as int),
            entry_values(out@) == entry_values(rest.take(i as int)),
        decreases n - i,
    {
        assert(entries.len() <= usize::MAX);
        let e = &entries[k + i];
        assert(rest[i as int] == *e);
        let ghost before = entry_values(out@);
        out.push(NfsEntry { fileid: e.fileid, name: e.name.clone(), attr: e.attr });
        assert(entry_values(out@) =~= before.push((e.fileid, e.name@, e.attr)));
        assert(entry_values(rest.take(i + 1)) =~= entry_values(rest.take(i as int)).push(
            (e.fileid, e.name@, e.attr),
        ));
        i += 1;
    }
    (out, entries.len() - k <= max_entries)
}

/// Pages join up: what comes behind the last entry of a page is what the page left out.
pub proof fn law_pages_join_up(v: Seq<NfsEntry>, start_after: u64, max_entries: int)
    requires
        forall|i: int, j: int|
            0 <= i < j < v.len() ==> (#[trigger] v[i]).fileid != (#[trigger] v[j]).fileid,
        forall|i: int| 0 <= i < v.len() ==> (#[trigger] v[i]).fileid != 0,
        0 < max_entries < rest_after(v, start_after).len(),
    ensures
        rest_after(v, rest_after(v, start_after)[max_entries - 1].fileid) == rest_after(
            v,
            start_after,
        ).skip(max_entries),
{
    let k = if start_after == 0 {
        0
    } else {
        behind(v, start_after)
    };
    lemma_behind_bounds(v, start_after);
    let rest = rest_after(v, start_after);
    assert(rest =~= v.skip(k));
    let p = k + max_entries - 1;
    assert(rest[max_entries - 1] == v[p]);
    let fh = v[p].fileid;
    assert forall|i: int| 0 <= i < p implies (#[trigger] v[i]).fileid != fh by {}
    lemma_behind(v, fh, p);
    assert(v.skip(p + 1) =~= rest.skip(max_entries));
}

proof fn lemma_behind_bounds(v: Seq<NfsEntry>, fh: u64)
    ensures
        0 <= behind(v, fh) <= v.len(),
    decreases v.len(),
{
    if v.len() > 0 && v[0].fileid != fh {
        lemma_behind_bounds(v.drop_first(), fh);
    }
}

/// What a request needs.
pub enum Lookup {
    /// The handle of the directory is not known.
    Stale,
    /// The entry with this path is known under this handle.
    Found(u64),
    /// The folder with this path has to be listed first, to find this entry.
    List { folder: String, child: String },
}

/// What a request for attributes needs.
pub enum AttrLookup {
    Stale,
    /// The attributes of the share itself.
    Root,
    Found(NfsAttr),
    List { folder: String },
}

/// A share as the file server shows it.
pub struct PassthroughFs {
    nas_root: String,
    ids: IdTable,
}

impl PassthroughFs {
    pub closed spec fn root(&self) -> Seq<char> {
        self.nas_root@
    }

    /// The paths that have a handle, by handle.
    pub closed spec fn handles(&self) -> Seq<Seq<char>> {
        self.ids@
    }

    /// The root of the share, whose path is empty, has the first handle.
    pub open spec fn wf(&self) -> bool {
        &&& self.handles().len() > 0
        &&& no_repeats(self.handles())
        &&& self.handles()[0] == Seq::<char>::empty()
    }

    /// The path of a handle.
    pub open spec fn path_of(&self, id: u64) -> Option<Seq<char>> {
        if 1 <= id <= self.handles().len() {
            Some(self.handles()[id - 1])
        } else {
            None
        }
    }

    /// A share of which only the root is known.
    pub fn new(nas_root: String) -> (f: PassthroughFs)
        ensures
            f.wf(),
            f.root() == nas_root@,
            f.handles() == seq![Seq::<char>::empty()],
    {
        let none = String::new();
        assert(none@ =~= Seq::<char>::empty());
        PassthroughFs { nas_root, ids: IdTable::new(none) }
    }

    /// The handle of the root.
    pub fn root_dir(&self) -> (id: u64)
        requires
            self.wf(),
        ensures
            id == ROOT_HANDLE,
            self.path_of(id) == Some(Seq::<char>::empty()),
    {
        ROOT_HANDLE
    }

    /// The path of an entry in the file system.
    pub fn absolute(&self, rel: &str) -> (out: String)
        ensures
            out@ == if rel@.len() == 0 {
                self.root()
            } else {
                joined(Platform::Macos, self.root(), rel@)
            },
    {
        if rel.is_empty() {
            self.nas_root.clone()
        } else {
            join(Platform::Macos, self.nas_root.as_str(), rel)
        }
    }

    /// The path of a handle below the share.
    pub fn rel_path(&self, id: u64) -> (r: Result<String, NfsError>)
        requires
            self.wf(),
            self.handles().len() <= u64::MAX,
        ensures
            r matches Ok(p) ==> self.path_of(id) == Some(p@),
            r matches Err(e) ==> e == NfsError::Stale && self.path_of(id) is None,
    {
        match self.ids.path(id) {
            Some(p) => Ok(p.clone()),
            None => Err(NfsError::Stale),
        }
    }

    /// What a request for an entry of a directory needs: an entry that the cache knows is answered
    /// at once.
    pub fn lookup(&mut self, cache: &MacosCache, dirid: u64, name: &str) -> (r: Lookup)
        requires
            old(self).wf(),
            cache.wf(),
            old(self).handles().len() < u64::MAX - 1,
        ensures
            final(self).wf(),
            final(self).root() == old(self).root(),
            match old(self).path_of(dirid) {
                None => r is Stale && final(self).handles() == old(self).handles(),
                Some(dir) => {
                    let child = child_path(dir, name@);
                    if cache.files().contains_key(child) {
                        &&& r matches Lookup::Found(id)
                        &&& final(self).path_of(id) == Some(child)
                        &&& final(self).handles() == after_asking(old(self).handles(), seq![child])
                    } else {
                        &&& r matches Lookup::List { folder, child: c }
                        &&& folder@ == dir
                        &&& c@ == child
                        &&& final(self).handles() == old(self).handles()
                    }
                },
            },
    {
        let dir = match self.rel_path(dirid) {
            Ok(p) => p,
            Err(_) => {
                return Lookup::Stale;
            },
        };
        let child = join_rel(dir.as_str(), name);
        if cache.is_known(child.as_str()) {
            let id: u64 = self.handle_of(child.as_str());
            Lookup::Found(id)
        } else {
            Lookup::List { folder: dir, child }
        }
    }

    /// The handle of a path; one that has none gets the next. Handles that were kept are had again
    /// by asking for their paths in order.
    pub fn handle_of(&mut self, path: &str) -> (id: u64)
        requires
            old(self).wf(),
            old(self).handles().len() < u64::MAX - 1,
        ensures
            final(self).wf(),
            final(self).root() == old(self).root(),
            final(self).path_of(id) == Some(path@),
            final(self).handles() == after_asking(old(self).handles(), seq![path@]),
    {
        proof {
            lemma_asking_one(self.handles(), path@);
        }
        self.ids.get_or_insert(path)
    }

    /// How many paths have a handle.
    pub fn handle_count(&self) -> (n: usize)
        ensures
            n == self.handles().len(),
    {
        self.ids.len()
    }

    /// The handle of an entry once its folder has been listed.
    pub fn lookup_listed(&mut self, cache: &MacosCache, child: &str) -> (r: Result<u64, NfsError>)
        requires
            old(self).wf(),
            cache.wf(),
            old(self).handles().len() < u64::MAX - 1,
        ensures
            final(self).wf(),
            final(self).root() == old(self).root(),
            match r {
                Ok(id) => {
                    &&& cache.files().contains_key(child@)
                    &&& final(self).path_of(id) == Some(child@)
                    &&& final(self).handles() == after_asking(old(self).handles(), seq![child@])
                },
                Err(e) => {
                    &&& e == NfsError::NoEntry
                    &&& !cache.files().contains_key(child@)
                    &&& final(self).handles() == old(self).handles()
                },
            },
    {
        if cache.is_known(child) {
            Ok(self.handle_of(child))
        } else {
            Err(NfsError::NoEntry)
        }
    }

    /// What a request for attributes needs.
    pub fn getattr(&self, cache: &MacosCache, id: u64) -> (r: AttrLookup)
        requires
            self.wf(),
            cache.wf(),
            self.handles().len() <= u64::MAX,
        ensures
            match self.path_of(id) {
                None => r is Stale,
                Some(rel) => if rel.len() == 0 {
                    r is Root
                } else if cache.files().contains_key(rel) {
                    r matches AttrLookup::Found(a) && a == attr3(id, attr_of(cache.files()[rel]))
                } else {
                    r matches AttrLookup::List { folder } && folder@ == parent_path(rel)
                },
            },
    {
        let rel = match self.rel_path(id) {
            Ok(p) => p,
            Err(_) => {
                return AttrLookup::Stale;
            },
        };
        if rel.as_str().is_empty() {
            return AttrLookup::Root;
        }
        match cached_attr(cache, rel.as_str()) {
            Some(a) => AttrLookup::Found(attr_from_cache(id, &a)),
            None => AttrLookup::List { folder: parent_of(rel.as_str()).to_owned() },
        }
    }

    /// The entries of a folder that the cache knows, sorted by name.
    pub fn list_children(&mut self, cache: &MacosCache, folder: &str) -> (out: Vec<NfsEntry>)
        requires
            old(self).wf(),
            cache.wf(),
            old(self).handles().len() + cache.rows().len() < u64::MAX - 1,
        ensures
            final(self).wf(),
            final(self).root() == old(self).root(),
            final(self).handles() == after_asking(
                old(self).handles(),
                child_paths(cache.rows(), folder@),
            ),
            sorted_by_name(out@),
            out@.len() == child_count(cache.rows(), folder@),
            forall|i: int|
                0 <= i < out@.len() ==> exists|k: int|
                    0 <= k < cache.rows().len() && is_listed(
                        #[trigger] cache.rows()[k],
                        folder@,
                        #[trigger] out@[i],
                        final(self).handles(),
                    ),
            forall|k: int|
                0 <= k < cache.rows().len() && (#[trigger] cache.rows()[k]).parent_path@ == folder@
                    ==> exists|i: int|
                    0 <= i < out@.len() && is_listed(
                        cache.rows()[k],
                        folder@,
                        #[trigger] out@[i],
                        final(self).handles(),
                    ),
    {
        let t = cache.known_files();
        let mut found: Vec<NfsEntry> = Vec::new();
        let ghost rows = cache.rows();
        let ghost h0 = self.handles();
        let mut i: usize = 0;
        assert(rows.take(0) =~= Seq::empty());
        while i < t.len()
            invariant
                i <= rows.len(),
                rows == t.rows(),
                rows == cache.rows(),
                self.wf(),
                self.root() == old(self).root(),
                h0 == old(self).handles(),
                self.handles() == after_asking(h0, child_paths(rows.take(i as int), folder@)),
                self.handles().len() <= h0.len() + i,
                h0.len() + rows.len() < u64::MAX - 1,
                found@.len() == child_count(rows.take(i as int), folder@),
                forall|j: int|
                    0 <= j < found@.len() ==> exists|k: int|
                        0 <= k < rows.len() && is_listed(
                            #[trigger] rows[k],
                            folder@,
                            #[trigger] found@[j],
                            self.handles(),
                        ),
                forall|k: int|
                    0 <= k < i && (#[trigger] rows[k]).parent_path@ == folder@ ==> exists|j: int|
                        0 <= j < found@.len() && is_listed(
                            rows[k],
                            folder@,
                            #[trigger] found@[j],
                            self.handles(),
                        ),
            decreases rows.len() - i,
        {
            let r = t.row_at(i);
            assert(rows.take(i + 1).drop_last() =~= rows.take(i as int));
            assert(rows.take(i + 1).last() == *r);
            if same(r.parent_path.as_str(), folder) {
                let ghost h1 = self.handles();
                let ghost found0 = found@;
                let id: u64 = self.handle_of(r.path.as_str());
                proof {
                    lemma_asking_more(h0, child_paths(rows.take(i as int), folder@), r.path@);
                    lemma_asking_one(h1, r.path@);
                }
                let a = attr_of_row(r);
                let e = NfsEntry {
                    fileid: id,
                    name: r.name.clone(),
                    attr: attr_from_cache(id, &a),
                };
                found.push(e);
                proof {
                    assert(is_listed(rows[i as int], folder@, e, self.handles()));
                    assert forall|j: int| 0 <= j < found@.len() implies exists|k: int|
                        0 <= k < rows.len() && is_listed(
                            #[trigger] rows[k],
                            folder@,
                            #[trigger] found@[j],
                            self.handles(),
                        ) by {
                        if j < found0.len() {
                            assert(found@[j] == found0[j]);
                            let k = choose|k: int|
                                0 <= k < rows.len() && is_listed(
                                    #[trigger] rows[k],
                                    folder@,
                                    found0[j],
                                    h1,
                                );
                            assert(h1[found0[j].fileid - 1] == self.handles()[found0[j].fileid
                                - 1]);
                            assert(is_listed(rows[k], folder@, found@[j], self.handles()));
                        } else {
                            assert(found@[j] == e);
                        }
                    }
                    assert forall|k: int|
                        0 <= k < i + 1 && (#[trigger] rows[k]).parent_path@
                            == folder@ implies exists|j: int|
                        0 <= j < found@.len() && is_listed(
                            rows[k],
                            folder@,
                            #[trigger] found@[j],
                            self.handles(),
                        ) by {
                        if k < i {
                            let j = choose|j: int|
                                0 <= j < found0.len() && is_listed(
                                    rows[k],
                                    folder@,
                                    #[trigger] found0[j],
                                    h1,
                                );
                            assert(found@[j] == found0[j]);
                            assert(h1[found0[j].fileid - 1] == self.handles()[found0[j].fileid
                                - 1]);
                            assert(is_listed(rows[k], folder@, found@[j], self.handles()));
                        } else {
                            assert(found@[found0.len() as int] == e);
                        }
                    }
                }
            }
            i += 1;
        }
        assert(rows.take(rows.len() as int) =~= rows);
        let ghost listed = found@;
        let ghost handles = self.handles();
        let out = sort_entries(found);
        proof {
            lemma_same_entries(listed, out@);
            assert forall|j: int| 0 <= j < out@.len() implies exists|k: int|
                0 <= k < rows.len() && is_listed(
                    #[trigger] rows[k],
                    folder@,
                    #[trigger] out@[j],
                    handles,
                ) by {
                let q = place_of(listed, out@[j]);
                assert(listed[q] == out@[j]);
            }
            assert forall|k: int|
                0 <= k < rows.len() && (#[trigger] rows[k]).parent_path@ == folder@ implies exists|
                j: int,
            | 0 <= j < out@.len() && is_listed(rows[k], folder@, #[trigger] out@[j], handles) by {
                let q = choose|q: int|
                    0 <= q < listed.len() && is_listed(
                        rows[k],
                        folder@,
                        #[trigger] listed[q],
                        handles,
                    );
                let j = place_of(out@, listed[q]);
                assert(out@[j] == listed[q]);
            }
        }
        out
    }
}

/// Where an entry stands among others.
spec fn place_of(entries: Seq<NfsEntry>, e: NfsEntry) -> int {
    choose|q: int| 0 <= q < entries.len() && entries[q] == e
}

proof fn lemma_same_entries(a: Seq<NfsEntry>, b: Seq<NfsEntry>)
    requires
        a.to_multiset() == b.to_multiset(),
    ensures
        a.len() == b.len(),
        forall|j: int|
            0 <= j < b.len() ==> 0 <= place_of(a, #[trigger] b[j]) < a.len() && a[place_of(a, b[j])]
                == b[j],
        forall|q: int|
            0 <= q < a.len() ==> 0 <= place_of(b, #[trigger] a[q]) < b.len() && b[place_of(b, a[q])]
                == a[q],
{
    broadcast use vstd::seq_lib::group_to_multiset_ensures;

    assert(a.len() == a.to_multiset().len() && b.len() == b.to_multiset().len());
    assert forall|j: int| 0 <= j < b.len() implies 0 <= place_of(a, #[trigger] b[j]) < a.len()
        && a[place_of(a, b[j])] == b[j] by {
        assert(b.contains(b[j]));
        assert(a.to_multiset().count(b[j]) > 0);
        assert(a.contains(b[j]));
    }
    assert forall|q: int| 0 <= q < a.len() implies 0 <= place_of(b, #[trigger] a[q]) < b.len()
        && b[place_of(b, a[q])] == a[q] by {
        assert(a.contains(a[q]));
        assert(b.to_multiset().count(a[q]) > 0);
        assert(b.contains(a[q]));
    }
}

/// Number of entries of a folder.
pub open spec fn child_count(rows: Seq<KnownFile>, folder: Seq<char>) -> nat
    decreases rows.len(),
{
    if rows.len() == 0 {
        0
    } else {
        child_count(rows.drop_last(), folder) + if rows.last().parent_path@ == folder {
            1nat
        } else {
            0nat
        }
    }
}

/// The paths of the entries of a folder, in order.
pub open spec fn child_paths(rows: Seq<KnownFile>, folder: Seq<char>) -> Seq<Seq<char>>
    decreases rows.len(),
{
    if rows.len() == 0 {
        Seq::empty()
    } else if rows.last().parent_path@ == folder {
        child_paths(rows.drop_last(), folder).push(rows.last().path@)
    } else {
        child_paths(rows.drop_last(), folder)
    }
}

/// Whether an answered entry is the one of this row.
pub open spec fn is_listed(
    r: KnownFile,
    folder: Seq<char>,
    e: NfsEntry,
    handles: Seq<Seq<char>>,
) -> bool {
    &&& r.parent_path@ == folder
    &&& e.name@ == r.name@
    &&& 1 <= e.fileid <= handles.len()
    &&& handles[e.fileid - 1] == r.path@
    &&& e.attr == attr3(e.fileid, attr_of(r.row()))
}

fn attr_of_row(r: &KnownFile) -> (a: CachedAttr)
    ensures
        a == attr_of(r.row()),
{
    CachedAttr {
        is_dir: r.is_dir,
        size: r.nas_size,
        mtime: r.nas_mtime,
        created: r.nas_created,
        is_hydrated: r.is_hydrated,
        hydrated_size: r.hydrated_size,
    }
}

/// What the cache knows of an entry.
pub fn cached_attr(cache: &MacosCache, rel: &str) -> (r: Option<CachedAttr>)
    requires
        cache.wf(),
    ensures
        r == if cache.files().contains_key(rel@) {
            Some(attr_of(cache.files()[rel@]))
        } else {
            None
        },
{
    let t = cache.known_files();
    match t.find(rel) {
        Some(i) => Some(attr_of_row(t.row_at(i))),
        None => None,
    }
}

/// An entry is shown exactly where it is listed and its name starts with neither a dot nor `@` or
/// `#`.
pub proof fn law_visible_entries_are_shown(v: Seq<DirEntry>, e: DirEntry)
    ensures
        shown_entries(v).contains(e) <==> v.contains(e) && (e.name@.len() == 0 || (e.name@[0] != '.'
            && e.name@[0] != '@' && e.name@[0] != '#')),
        shown_entries(v).len() <= v.len(),
    decreases v.len(),
{
    if v.len() > 0 {
        let d = v.drop_last();
        let front = shown_entries(d);
        let all = shown_entries(v);
        law_visible_entries_are_shown(d, e);
        if d.contains(e) {
            let k = choose|k: int| 0 <= k < d.len() && d[k] == e;
            assert(v[k] == e);
        }
        assert(v[v.len() - 1] == v.last());
        if v.contains(e) && e != v.last() {
            let k = choose|k: int| 0 <= k < v.len() && v[k] == e;
            assert(d[k] == e);
        }
        if front.contains(e) {
            let k = choose|k: int| 0 <= k < front.len() && front[k] == e;
            assert(all[k] == e);
        }
        if all.contains(e) && !front.contains(e) {
            let k = choose|k: int| 0 <= k < all.len() && all[k] == e;
            if k < front.len() {
                assert(front[k] == e);
            }
        }
        if !hidden_name(v.last().name@) {
            assert(all[front.len() as int] == v.last());
        }
    }
}

/// A time is answered to the microsecond as long as its seconds fit, and times before 1970 as 1970.
pub proof fn law_times_are_answered_exactly(micros: i64)
    ensures
        0 <= micros < 4_294_967_296_000_000 ==> nfs_time(micros).seconds * 1_000_000 + nfs_time(
            micros,
        ).nseconds / 1_000 == micros && nfs_time(micros).nseconds < 1_000_000_000 && nfs_time(
            micros,
        ).nseconds % 1_000 == 0,
        micros < 0 ==> nfs_time(micros).seconds == 0 && nfs_time(micros).nseconds == 0,
        micros >= 4_294_967_296_000_000 ==> nfs_time(micros).seconds == 4_294_967_295,
{
}

/// The attributes of an entry are those that are known of it: a file has the size that the server
/// gave, a directory a fixed one, and both the times of the server and their own handle; what is
/// used on disk is what is held, once that is everything.
pub proof fn law_attributes_are_the_known_ones(fh: u64, a: CachedAttr)
    ensures
        ({
            let n = attr3(fh, a);
            &&& n.is_dir == a.is_dir
            &&& n.fileid == fh
            &&& !a.is_dir ==> n.size == a.size && n.mode == 0o644 && n.nlink == 1
            &&& a.is_dir ==> n.size == 4_096 && n.mode == 0o755 && n.nlink == 2
            &&& a.is_hydrated ==> n.used == a.hydrated_size
            &&& !a.is_hydrated ==> n.used == n.size
            &&& n.mtime == nfs_time(a.mtime)
            &&& n.atime == nfs_time(a.mtime)
            &&& n.ctime == nfs_time(a.created)
            &&& n.uid == 501 && n.gid == 20
        }),
{
}

/// What the cache knows of an entry is what its row says.
pub proof fn law_rows_are_shown_as_they_are(
    r: KnownFile,
    folder: Seq<char>,
    e: NfsEntry,
    handles: Seq<Seq<char>>,
)
    requires
        is_listed(r, folder, e, handles),
    ensures
        r.parent_path@ == folder,
        e.name@ == r.name@,
        1 <= e.fileid <= handles.len(),
        handles[e.fileid - 1] == r.path@,
        e.attr.fileid == e.fileid,
        e.attr.is_dir == r.is_dir,
        !r.is_dir ==> e.attr.size == r.nas_size,
        e.attr.mtime == nfs_time(r.nas_mtime),
        e.attr.ctime == nfs_time(r.nas_created),
        r.is_hydrated ==> e.attr.used == r.hydrated_size,
{
}

/// Errors of the file system keep their kind, and what is not told apart is an error of the device.
pub proof fn law_errors_keep_their_kind(kind: FsErrorKind, e: NfsError)
    requires
        call_ensures(io_to_nfsstat, (kind,), e),
    ensures
        e is NoEntry <==> kind is NotFound,
        e is Access <==> kind is PermissionDenied,
        e is Exists <==> kind is AlreadyExists,
        e is Io <==> kind is Other,
{
}

/// Every path that was asked for has a handle, and no path has one that was neither known nor
/// asked for.
pub proof fn law_only_asked_paths_get_handles(
    handles: Seq<Seq<char>>,
    paths: Seq<Seq<char>>,
    p: Seq<char>,
)
    ensures
        after_asking(handles, paths).contains(p) <==> handles.contains(p) || paths.contains(p),
        no_repeats(handles) ==> no_repeats(after_asking(handles, paths)),
    decreases paths.len(),
{
    if paths.len() > 0 {
        let d = paths.drop_last();
        let before = after_asking(handles, d);
        let all = after_asking(handles, paths);
        law_only_asked_paths_get_handles(handles, d, p);
        law_only_asked_paths_get_handles(handles, d, paths.last());
        assert(paths[paths.len() - 1] == paths.last());
        if d.contains(p) {
            let k = choose|k: int| 0 <= k < d.len() && d[k] == p;
            assert(paths[k] == p);
        }
        if paths.contains(p) && p != paths.last() {
            let k = choose|k: int| 0 <= k < paths.len() && paths[k] == p;
            assert(d[k] == p);
        }
        if !before.contains(paths.last()) {
            assert(all[before.len() as int] == paths.last());
            if before.contains(p) {
                let k = choose|k: int| 0 <= k < before.len() && before[k] == p;
                assert(all[k] == p);
            }
            if all.contains(p) && p != paths.last() {
                let k = choose|k: int| 0 <= k < all.len() && all[k] == p;
                assert(before[k] == p);
            }
            if no_repeats(handles) {
                assert forall|i: int, j: int| 0 <= i < j < all.len() implies #[trigger] all[i]
                    != #[trigger] all[j] by {
                    if j < before.len() {
                        assert(before[i] != before[j]);
                    } else {
                        assert(before.contains(before[i]));
                    }
                }
            }
        }
    }
}

/// The entries of a folder are the rows that name it as theirs, each with its path.
pub proof fn law_children_name_their_folder(rows: Seq<KnownFile>, folder: Seq<char>, p: Seq<char>)
    ensures
        child_paths(rows, folder).len() == child_count(rows, folder),
        child_paths(rows, folder).contains(p) <==> exists|k: int|
            0 <= k < rows.len() && (#[trigger] rows[k]).parent_path@ == folder && rows[k].path@
                == p,
    decreases rows.len(),
{
    if rows.len() > 0 {
        let d = rows.drop_last();
        let front = child_paths(d, folder);
        let all = child_paths(rows, folder);
        law_children_name_their_folder(d, folder, p);
        assert(rows[rows.len() - 1] == rows.last());
        if front.contains(p) {
            let k = choose|k: int| 0 <= k < front.len() && front[k] == p;
            assert(all[k] == p);
            let i = choose|i: int|
                0 <= i < d.len() && (#[trigger] d[i]).parent_path@ == folder && d[i].path@ == p;
            assert(rows[i] == d[i]);
        }
        if all.contains(p) && !front.contains(p) {
            let k = choose|k: int| 0 <= k < all.len() && all[k] == p;
            if k < front.len() {
                assert(front[k] == p);
            }
        }
        if exists|k: int|
            0 <= k < rows.len() && (#[trigger] rows[k]).parent_path@ == folder && rows[k].path@
                == p {
            let k = choose|k: int|
                0 <= k < rows.len() && (#[trigger] rows[k]).parent_path@ == folder
                    && rows[k].path@ == p;
            if k < d.len() {
                assert(d[k] == rows[k]);
            } else {
                assert(all[front.len() as int] == p);
            }
        }
    }
}

/// The end of a file is reached exactly where what was read leaves nothing behind it.
pub proof fn law_end_is_reached_when_all_is_read(offset: u64, n: usize, len: u64, eof: bool)
    requires
        call_ensures(at_end, (offset, n, len), eof),
    ensures
        eof <==> len - offset <= n,
{
}

/// A page starts behind the entry that it is asked to start behind, and with the first entry where
/// it is asked for none.
pub proof fn law_pages_start_behind_their_mark(v: Seq<NfsEntry>, k: int)
    requires
        0 <= k < v.len(),
        v[k].fileid != 0,
        forall|i: int| 0 <= i < k ==> (#[trigger] v[i]).fileid != v[k].fileid,
    ensures
        rest_after(v, v[k].fileid) == v.skip(k + 1),
        rest_after(v, 0) == v,
{
    lemma_behind(v, v[k].fileid, k);
}

/// A handle that was given out leads to what the cache knows of its path: the root for the first
/// one, attributes with the known size for a known entry, and a listing of its folder otherwise.
pub proof fn law_handles_lead_to_their_entry(
    f: PassthroughFs,
    cache: MacosCache,
    id: u64,
    r: AttrLookup,
)
    requires
        f.wf(),
        cache.wf(),
        f.handles().len() <= u64::MAX,
        call_ensures(PassthroughFs::getattr, (&f, &cache, id), r),
    ensures
        id == 0 || id > f.handles().len() ==> r is Stale,
        id == 1 ==> r is Root,
        1 < id <= f.handles().len() ==> {
            let p = f.handles()[id - 1];
            &&& cache.files().contains_key(p) ==> (r matches AttrLookup::Found(a) && a.fileid == id
                && a.is_dir == cache.files()[p].is_dir && (!a.is_dir ==> a.size
                == cache.files()[p].nas_size))
            &&& !cache.files().contains_key(p) ==> (r matches AttrLookup::List { folder } && folder@
                == parent_path(p))
        },
{
    if 1 < id <= f.handles().len() {
        assert(f.handles()[0] != f.handles()[id - 1]);
        if f.handles()[id - 1].len() == 0 {
            assert(f.handles()[id - 1] =~= Seq::<char>::empty());
        }
    }
}

/// An entry that the cache knows is found in its directory at once, under a handle for its own
/// path; one that it does not know is looked for in a listing of that directory.
pub proof fn law_known_entries_are_found_at_once(
    f: &mut PassthroughFs,
    cache: MacosCache,
    dirid: u64,
    name: &str,
    r: Lookup,
)
    requires
        old(f).wf(),
        cache.wf(),
        old(f).handles().len() < u64::MAX - 1,
        1 <= dirid <= old(f).handles().len(),
        call_ensures(PassthroughFs::lookup, (f, &cache, dirid, name), r),
    ensures
        ({
            let dir = old(f).handles()[dirid - 1];
            let child = child_path(dir, name@);
            &&& cache.files().contains_key(child) ==> (r matches Lookup::Found(id) && 1 <= id
                <= final(f).handles().len() && final(f).handles()[id - 1] == child)
            &&& !cache.files().contains_key(child) ==> (r matches Lookup::List { folder, child: c }
                && folder@ == dir && c@ == child)
            &&& old(f).handles().is_prefix_of(final(f).handles())
        }),
{
    let dir = old(f).handles()[dirid - 1];
    law_handles_are_stable(old(f).handles(), seq![child_path(dir, name@)]);
}

} // verus!
