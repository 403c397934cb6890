//! The table of visited folders: one row per path on the share.
use crate::text::same;
use vstd::prelude::*;

verus! {

/// A folder that was visited.
pub struct VisitedFolder {
    /// Path on the share, unique in the table.
    pub path: String,
    /// Path on this machine.
    pub client_path: String,
    /// Modification time of the folder when it was last brought up to date.
    pub mtime: i64,
}

/// What a row says.
pub struct Folder {
    pub path: Seq<char>,
    pub client: Seq<char>,
    pub mtime: i64,
}

impl VisitedFolder {
    pub open spec fn row(&self) -> Folder {
        Folder { path: self.path@, client: self.client_path@, mtime: self.mtime }
    }
}

/// The position of the folder with path `p`, or the length where there is none.
pub open spec fn folder_pos(v: Seq<Folder>, p: Seq<char>) -> int
    decreases v.len(),
{
    if v.len() == 0 || v[0].path == p {
        0
    } else {
        1 + folder_pos(v.drop_first(), p)
    }
}

/// Whether a folder with path `p` was visited.
pub open spec fn visited(v: Seq<Folder>, p: Seq<char>) -> bool {
    folder_pos(v, p) < v.len()
}

/// The table with `f` put, in place of the row with the same path where there is one.
pub open spec fn with_folder(v: Seq<Folder>, f: Folder) -> Seq<Folder> {
    if visited(v, f.path) {
        v.update(folder_pos(v, f.path), f)
    } else {
        v.push(f)
    }
}

pub open spec fn folder_rows(v: Seq<VisitedFolder>) -> Seq<Folder> {
    v.map_values(|f: VisitedFolder| f.row())
}

pub proof fn lemma_folder_pos(v: Seq<Folder>, p: Seq<char>)
    ensures
        0 <= folder_pos(v, p) <= v.len(),
        visited(v, p) ==> v[folder_pos(v, p)].path == p,
        forall|i: int| 0 <= i < folder_pos(v, p) ==> (#[trigger] v[i]).path != p,
    decreases v.len(),
{
    if v.len() > 0 && v[0].path != p {
        lemma_folder_pos(v.drop_first(), p);
        assert forall|i: int| 0 <= i < folder_pos(v, p) implies (#[trigger] v[i]).path != p by {
            if i > 0 {
                assert(v.drop_first()[i - 1].path != p);
            }
        }
    }
}

pub proof fn lemma_folder_pos_is(v: Seq<Folder>, p: Seq<char>, k: int)
    requires
        0 <= k <= v.len(),
        k < v.len() ==> v[k].path == p,
        forall|i: int| 0 <= i < k ==> (#[trigger] v[i]).path != p,
    ensures
        folder_pos(v, p) == k,
{
    lemma_folder_pos(v, p);
    let q = folder_pos(v, p);
    if q < k {
        assert(v[q].path != p);
    }
    if k < q {
        assert(v[k].path != p);
    }
}

/// A folder that was put is found again as it was put, and no other row changes.
pub proof fn law_put_folder(v: Seq<Folder>, f: Folder, other: Seq<char>)
    ensures
        visited(with_folder(v, f), f.path),
        with_folder(v, f)[folder_pos(with_folder(v, f), f.path)] == f,
        other != f.path ==> visited(with_folder(v, f), other) == visited(v, other),
        other != f.path && visited(v, other) ==> with_folder(v, f)[folder_pos(
            with_folder(v, f),
            other,
        )] == v[folder_pos(v, other)],
{
    let w = with_folder(v, f);
    lemma_folder_pos(v, f.path);
    lemma_folder_pos(v, other);
    lemma_folder_pos_is(
        w,
        f.path,
        if visited(v, f.path) {
            folder_pos(v, f.path)
        } else {
            v.len() as int
        },
    );
    if other != f.path {
        if visited(v, other) {
            lemma_folder_pos_is(w, other, folder_pos(v, other));
        } else {
            lemma_folder_pos_is(w, other, w.len() as int);
        }
    }
}

/// The table of visited folders.
pub struct FolderTable {
    rows: Vec<VisitedFolder>,
}

impl View for FolderTable {
    type V = Seq<Folder>;

    closed spec fn view(&self) -> Seq<Folder> {
        folder_rows(self.rows@)
    }
}

impl FolderTable {
    /// An empty table.
    pub fn new() -> (t: FolderTable)
        ensures
            t@ == Seq::<Folder>::empty(),
    {
        let t = FolderTable { rows: Vec::new() };
        assert(t@ =~= Seq::<Folder>::empty());
        t
    }

    /// Number of rows.
    pub fn len(&self) -> (n: usize)
        ensures
            n == self@.len(),
    {
        self.rows.len()
    }

    /// The row at position `i`.
    pub fn row_at(&self, i: usize) -> (r: &VisitedFolder)
        requires
            i < self@.len(),
        ensures
            r.row() == self@[i as int],
    {
        &self.rows[i]
    }

    /// The position of the folder with path `p`, or the length where there is none.
    pub fn find(&self, p: &str) -> (i: usize)
        ensures
            i == folder_pos(self@, p@),
            i <= self@.len(),
    {
        let mut i: usize = 0;
        while i < self.rows.len() && !same(self.rows[i].path.as_str(), p)
            invariant
                i <= self.rows@.len(),
                forall|k: int| 0 <= k < i ==> (#[trigger] self@[k]).path != p@,
            decreases self.rows@.len() - i,
        {
            assert(self@[i as int].path != p@);
            i += 1;
        }
        proof {
            lemma_folder_pos_is(self@, p@, i as int);
        }
        i
    }

    /// Puts a folder, in place of the row with the same path where there is one.
    pub fn put(&mut self, path: &str, client_path: &str, mtime: i64)
        ensures
            final(self)@ == with_folder(
                old(self)@,
                Folder { path: path@, client: client_path@, mtime },
            ),
    {
        let i: usize = self.find(path);
        let f = VisitedFolder {
            path: path.to_owned(),
            client_path: client_path.to_owned(),
            mtime,
        };
        let ghost before = self@;
        if i < self.rows.len() {
            self.rows.set(i, f);
            assert(self@ =~= before.update(i as int, f.row()));
        } else {
            self.rows.push(f);
            assert(self@ =~= before.push(f.row()));
        }
    }

    /// Forgets every folder.
    pub fn clear(&mut self)
        ensures
            final(self)@ == Seq::<Folder>::empty(),
    {
        self.rows.clear();
        assert(self@ =~= Seq::<Folder>::empty());
    }
}

} // verus!
