//! Placeholders of the sync root: which ones are made, refreshed and removed as the server
//! changes.
use crate::cache_index::{is_cf_placeholder, ATTR_REPARSE_POINT, INVALID_ATTRIBUTES};
use crate::folder_table::{with_folder, Folder, FolderTable};
use crate::macos_cache::{hidden_name, is_hidden_name};
use crate::paths::{
    join, joined, lemma_parent_is_shorter, parent_dir, parent_of_path, Platform,
};
use crate::text::{list_has, texts};
use crate::write_through::{recent, recent_entries, EchoSuppressor, ECHO_TTL_MS};
use vstd::prelude::*;

verus! {

/// What the server says of an entry; the time is in seconds since 1970.
#[derive(Clone, Copy, Debug, PartialEq, Eq, Structural)]
pub struct NasStat {
    pub is_dir: bool,
    pub size: u64,
    pub mtime: i64,
}

/// How an entry that appeared on the server gets its placeholder.
#[derive(Clone, Copy, Debug, PartialEq, Eq, Structural)]
pub enum PushPlan {
    /// Nothing is to be done.
    Keep,
    CreateDir,
    /// Create the placeholder of a file and record it; an empty file is looked at again later.
    CreateFile { size: u64, mtime: i64, look_again: bool },
}

/// How an entry that appeared on the server gets its placeholder: not at all where something is
/// there already or the server no longer has it.
pub fn push_placeholder(occupied: bool, stat: Option<NasStat>) -> (p: PushPlan)
    ensures
        p == match stat {
            Some(s) => if occupied {
                PushPlan::Keep
            } else if s.is_dir {
                PushPlan::CreateDir
            } else {
                PushPlan::CreateFile { size: s.size, mtime: s.mtime, look_again: s.size == 0 }
            },
            None => PushPlan::Keep,
        },
{
    if occupied {
        return PushPlan::Keep;
    }
    match stat {
        Some(s) => if s.is_dir {
            PushPlan::CreateDir
        } else {
            PushPlan::CreateFile { size: s.size, mtime: s.mtime, look_again: s.size == 0 }
        },
        None => PushPlan::Keep,
    }
}

/// How an entry that went away on the server is removed.
#[derive(Clone, Copy, Debug, PartialEq, Eq, Structural)]
pub enum RemovePlan {
    Keep,
    /// Remove the directory if it is empty.
    RemoveDir,
    /// Remove the placeholder and forget the file.
    RemoveFile,
}

/// How an entry that went away on the server is removed. A file that is no placeholder is the
/// user's own and stays.
pub fn remove_placeholder(occupied: bool, is_dir: bool, attrs: u32) -> (p: RemovePlan)
    ensures
        p == if !occupied {
            RemovePlan::Keep
        } else if is_dir {
            RemovePlan::RemoveDir
        } else if attrs != INVALID_ATTRIBUTES && attrs & ATTR_REPARSE_POINT != 0 {
            RemovePlan::RemoveFile
        } else {
            RemovePlan::Keep
        },
{
    if !occupied {
        return RemovePlan::Keep;
    }
    if !is_dir && !is_cf_placeholder(attrs) {
        return RemovePlan::Keep;
    }
    if is_dir {
        RemovePlan::RemoveDir
    } else {
        RemovePlan::RemoveFile
    }
}

/// Size and time with which a placeholder is removed and made anew after a change on the server.
/// Nothing is done where there is no file, and for a file that is empty on the server: servers
/// report that size before the real one.
pub fn refresh_placeholder(occupied: bool, is_dir: bool, stat: Option<NasStat>) -> (r: Option<
    (u64, i64),
>)
    ensures
        r == match stat {
            Some(s) => if occupied && !is_dir && s.size != 0 {
                Some((s.size, s.mtime))
            } else {
                None
            },
            None => None,
        },
{
    if !occupied || is_dir {
        return None;
    }
    match stat {
        Some(s) => if s.size == 0 {
            None
        } else {
            Some((s.size, s.mtime))
        },
        None => None,
    }
}

/// How long to wait before looking at an empty file for the `n`-th time, in milliseconds.
pub open spec fn delay_of(n: nat) -> Option<u64> {
    if n == 0 {
        Some(2_000)
    } else if n == 1 {
        Some(3_000)
    } else if n == 2 {
        Some(5_000)
    } else if n == 3 {
        Some(10_000)
    } else if n == 4 {
        Some(15_000)
    } else if n == 5 {
        Some(30_000)
    } else {
        None
    }
}

/// How long to wait before looking at an empty file for the `n`-th time, in milliseconds; none
/// after the last time.
pub fn deferred_delay(n: usize) -> (r: Option<u64>)
    ensures
        r == delay_of(n as nat),
{
    match n {
        0 => Some(2_000),
        1 => Some(3_000),
        2 => Some(5_000),
        3 => Some(10_000),
        4 => Some(15_000),
        5 => Some(30_000),
        _ => None,
    }
}

/// What a look at a file that was empty leads to.
#[derive(Clone, Copy, Debug, PartialEq, Eq, Structural)]
pub enum DeferredStep {
    /// The placeholder is gone.
    Stop,
    /// Look again later.
    Wait,
    /// Remove the placeholder and make it anew with this size.
    Recreate(u64),
}

/// What a look at a file that was empty leads to.
pub fn deferred_size_update(occupied: bool, nas_size: Option<u64>) -> (s: DeferredStep)
    ensures
        s == if !occupied {
            DeferredStep::Stop
        } else {
            match nas_size {
                Some(n) => if n > 0 {
                    DeferredStep::Recreate(n)
                } else {
                    DeferredStep::Wait
                },
                None => DeferredStep::Wait,
            }
        },
{
    if !occupied {
        return DeferredStep::Stop;
    }
    match nas_size {
        Some(n) => if n > 0 {
            DeferredStep::Recreate(n)
        } else {
            DeferredStep::Wait
        },
        None => DeferredStep::Wait,
    }
}

/// A directory and those above it, deepest first, without the root.
pub open spec fn chain(rel: Seq<char>) -> Seq<Seq<char>>
    decreases rel.len(),
{
    if rel.len() == 0 {
        Seq::empty()
    } else {
        match parent_dir(Platform::Windows, rel) {
            Some(up) => {
                proof {
                    lemma_parent_is_shorter(Platform::Windows, rel);
                }
                seq![rel] + chain(up)
            },
            None => seq![rel],
        }
    }
}

/// A directory of the sync root and those above it, deepest first, as paths below the root.
pub fn parent_chain(rel: &str) -> (out: Vec<String>)
    ensures
        texts(out@) == chain(rel@),
{
    let mut out: Vec<String> = Vec::new();
    let mut dir = rel.to_owned();
    assert(texts(out@) =~= Seq::empty());
    assert(chain(rel@) =~= texts(out@) + chain(dir@));
    while !dir.as_str().is_empty()
        invariant
            chain(rel@) == texts(out@) + chain(dir@),
        decreases dir@.len(),
    {
        let ghost before = texts(out@);
        let ghost this = dir@;
        let up = parent_of_path(Platform::Windows, dir.as_str());
        out.push(dir);
        assert(texts(out@) =~= before.push(this));
        proof {
            lemma_parent_is_shorter(Platform::Windows, this);
        }
        dir = match up {
            Some(d) => d,
            None => {
                let none = String::new();
                assert(none@ =~= Seq::<char>::empty());
                none
            },
        };
        assert(chain(rel@) =~= texts(out@) + chain(dir@));
    }
    assert(chain(dir@) =~= Seq::empty());
    assert(texts(out@) =~= chain(rel@));
    out
}

/// How many values at the front of a list are false.
pub open spec fn false_front(v: Seq<bool>) -> nat
    decreases v.len(),
{
    if v.len() == 0 || v[0] {
        0
    } else {
        1 + false_front(v.drop_first())
    }
}

proof fn lemma_false_front(v: Seq<bool>, k: int)
    requires
        0 <= k <= v.len(),
        forall|i: int| 0 <= i < k ==> !v[i],
        k < v.len() ==> v[k],
    ensures
        false_front(v) == k,
    decreases v.len(),
{
    if k > 0 {
        let w = v.drop_first();
        assert forall|i: int| 0 <= i < k - 1 implies !w[i] by {
            assert(w[i] == v[i + 1]);
        }
        lemma_false_front(w, k - 1);
    }
}

/// The directories that are missing, those above first: of a directory and those above it, deepest
/// first, and whether each is there, those up to the first that is.
pub fn missing_parents(dirs: &Vec<String>, occupied: &Vec<bool>) -> (out: Vec<String>)
    requires
        dirs@.len() == occupied@.len(),
    ensures
        texts(out@) == texts(dirs@).take(false_front(occupied@) as int).reverse(),
{
    let mut k: usize = 0;
    while k < occupied.len() && !occupied[k]
        invariant
            k <= occupied@.len(),
            forall|i: int| 0 <= i < k ==> !occupied@[i],
        decreases occupied@.len() - k,
    {
        k += 1;
    }
    proof {
        lemma_false_front(occupied@, k as int);
    }
    let mut out: Vec<String> = Vec::new();
    let mut i: usize = k;
    while i > 0
        invariant
            i <= k <= dirs@.len(),
            out@.len() == k - i,
            forall|j: int| 0 <= j < k - i ==> (#[trigger] out@[j])@ == dirs@[k - 1 - j]@,
        decreases i,
    {
        i -= 1;
        out.push(dirs[i].clone());
    }
    assert(texts(out@) =~= texts(dirs@).take(k as int).reverse());
    out
}

/// Folders of the server whose changes are followed, with their places in the sync root.
pub struct NasWatcher {
    watched: FolderTable,
}

impl NasWatcher {
    /// The followed folders.
    pub closed spec fn folders(&self) -> Seq<Folder> {
        self.watched@
    }

    /// No folder is followed at first.
    pub fn new() -> (w: NasWatcher)
        ensures
            w.folders() == Seq::<Folder>::empty(),
    {
        NasWatcher { watched: FolderTable::new() }
    }

    /// Follows a folder.
    pub fn register(&mut self, nas_dir: &str, client_dir: &str)
        ensures
            final(self).folders() == with_folder(
                old(self).folders(),
                Folder { path: nas_dir@, client: client_dir@, mtime: 0 },
            ),
    {
        self.watched.put(nas_dir, client_dir, 0);
    }

    /// The followed folders, for a comparison of all of them.
    pub fn watched(&self) -> (t: &FolderTable)
        ensures
            t@ == self.folders(),
    {
        &self.watched
    }
}

/// Whether a visible entry of the server has this name.
pub open spec fn shown(nas: Seq<Seq<char>>, name: Seq<char>) -> bool {
    nas.contains(name) && !hidden_name(name)
}

/// The visible names of the server that the client lacks, in order.
pub open spec fn only_on_nas(nas: Seq<Seq<char>>, client: Seq<Seq<char>>) -> Seq<Seq<char>>
    decreases nas.len(),
{
    if nas.len() == 0 {
        Seq::empty()
    } else {
        let front = only_on_nas(nas.drop_last(), client);
        if !hidden_name(nas.last()) && !client.contains(nas.last()) {
            front.push(nas.last())
        } else {
            front
        }
    }
}

/// The names of the client that are no visible names of the server, in order.
pub open spec fn only_on_client(nas: Seq<Seq<char>>, client: Seq<Seq<char>>) -> Seq<Seq<char>>
    decreases client.len(),
{
    if client.len() == 0 {
        Seq::empty()
    } else {
        let front = only_on_client(nas, client.drop_last());
        if shown(nas, client.last()) {
            front
        } else {
            front.push(client.last())
        }
    }
}

/// Compares a folder of the server with its place in the sync root: the names that get a
/// placeholder, and those whose placeholder goes.
pub fn diff_folder(nas: &Vec<String>, client: &Vec<String>) -> (r: (Vec<String>, Vec<String>))
    ensures
        texts(r.0@) == only_on_nas(texts(nas@), texts(client@)),
        texts(r.1@) == only_on_client(texts(nas@), texts(client@)),
{
    let ghost ns = texts(nas@);
    let ghost cs = texts(client@);
    let mut fresh: Vec<String> = Vec::new();
    let mut gone: Vec<String> = Vec::new();
    let mut i: usize = 0;
    assert(ns.take(0) =~= Seq::empty());
    assert(texts(fresh@) =~= Seq::empty());
    while i < nas.len()
        invariant
            i <= nas@.len(),
            ns == texts(nas@),
            cs == texts(client@),
            texts(fresh@) == only_on_nas(ns.take(i as int), cs),
        decreases nas@.len() - i,
    {
        let n = &nas[i];
        let ghost before = texts(fresh@);
        assert(ns.take(i + 1).drop_last() =~= ns.take(i as int));
        assert(ns.take(i + 1).last() == n@);
        if !is_hidden_name(n.as_str()) && !list_has(client, n.as_str()) {
            fresh.push(n.clone());
            assert(texts(fresh@) =~= before.push(n@));
        }
        i += 1;
    }
    assert(ns.take(ns.len() as int) =~= ns);
    let mut j: usize = 0;
    assert(cs.take(0) =~= Seq::empty());
    assert(texts(gone@) =~= Seq::empty());
    while j < client.len()
        invariant
            j <= client@.len(),
            ns == texts(nas@),
            cs == texts(client@),
            texts(gone@) == only_on_client(ns, cs.take(j as int)),
        decreases client@.len() - j,
    {
        let n = &client[j];
        let ghost before = texts(gone@);
        assert(cs.take(j + 1).drop_last() =~= cs.take(j as int));
        assert(cs.take(j + 1).last() == n@);
        if is_hidden_name(n.as_str()) || !list_has(nas, n.as_str()) {
            gone.push(n.clone());
            assert(texts(gone@) =~= before.push(n@));
        }
        j += 1;
    }
    assert(cs.take(cs.len() as int) =~= cs);
    (fresh, gone)
}

/// The names whose path in a folder of the server is no echo of an upload, in order.
pub open spec fn not_echoed(
    echoes: Map<Seq<char>, u64>,
    nas_dir: Seq<char>,
    names: Seq<Seq<char>>,
    now: u64,
) -> Seq<Seq<char>>
    decreases names.len(),
{
    if names.len() == 0 {
        Seq::empty()
    } else {
        let front = not_echoed(echoes, nas_dir, names.drop_last(), now);
        let path = joined(Platform::Windows, nas_dir, names.last());
        if echoes.contains_key(path) && recent(
            echoes[path] as int,
            now as int,
            ECHO_TTL_MS as int,
        ) {
            front
        } else {
            front.push(names.last())
        }
    }
}

/// Which of the names that a folder of the server has more than the sync root get a placeholder:
/// those that are no echo of an upload.
pub fn names_to_push(
    echo: &mut EchoSuppressor,
    nas_dir: &str,
    added: &Vec<String>,
    now: u64,
) -> (out: Vec<String>)
    requires
        old(echo).wf(),
    ensures
        final(echo).wf(),
        final(echo)@ == if added@.len() == 0 {
            old(echo)@
        } else {
            recent_entries(old(echo)@, now as int, ECHO_TTL_MS as int)
        },
        texts(out@) == not_echoed(old(echo)@, nas_dir@, texts(added@), now),
{
    let ghost names = texts(added@);
    let ghost marks = echo@;
    let ghost kept = recent_entries(marks, now as int, ECHO_TTL_MS as int);
    let mut out: Vec<String> = Vec::new();
    let mut i: usize = 0;
    assert(names.take(0) =~= Seq::empty());
    assert(texts(out@) =~= Seq::empty());
    while i < added.len()
        invariant
            i <= added@.len(),
            names == texts(added@),
            kept == recent_entries(marks, now as int, ECHO_TTL_MS as int),
            echo.wf(),
            echo@ == if i == 0 {
                marks
            } else {
                kept
            },
            texts(out@) == not_echoed(marks, nas_dir@, names.take(i as int), now),
        decreases added@.len() - i,
    {
        let name = &added[i];
        let ghost before = texts(out@);
        assert(names.take(i + 1).drop_last() =~= names.take(i as int));
        assert(names.take(i + 1).last() == name@);
        let path = join(Platform::Windows, nas_dir, name.as_str());
        assert(recent_entries(kept, now as int, ECHO_TTL_MS as int) =~= kept);
        if !echo.is_suppressed(path.as_str(), now) {
            out.push(name.clone());
            assert(texts(out@) =~= before.push(name@));
        }
        i += 1;
    }
    assert(names.take(names.len() as int) =~= names);
    out
}

proof fn lemma_only_on_nas(nas: Seq<Seq<char>>, client: Seq<Seq<char>>, name: Seq<char>)
    ensures
        only_on_nas(nas, client).contains(name) <==> shown(nas, name) && !client.contains(name),
    decreases nas.len(),
{
    if nas.len() > 0 {
        let front = only_on_nas(nas.drop_last(), client);
        lemma_only_on_nas(nas.drop_last(), client, name);
        assert(nas =~= nas.drop_last().push(nas.last()));
        assert(nas.contains(name) <==> nas.drop_last().contains(name) || name == nas.last()) by {
            if nas.drop_last().contains(name) {
                let k = nas.drop_last().index_of(name);
                assert(nas[k] == name);
            }
            if name == nas.last() {
                assert(nas[nas.len() - 1] == name);
            }
            if nas.contains(name) && name != nas.last() {
                let k = nas.index_of(name);
                assert(nas.drop_last()[k] == name);
            }
        }
        lemma_push_contains(front, nas.last(), name);
    }
}

proof fn lemma_only_on_client(nas: Seq<Seq<char>>, client: Seq<Seq<char>>, name: Seq<char>)
    ensures
        only_on_client(nas, client).contains(name) <==> client.contains(name) && !shown(nas, name),
    decreases client.len(),
{
    if client.len() > 0 {
        let front = only_on_client(nas, client.drop_last());
        lemma_only_on_client(nas, client.drop_last(), name);
        assert(client =~= client.drop_last().push(client.last()));
        lemma_push_contains(client.drop_last(), client.last(), name);
        lemma_push_contains(front, client.last(), name);
    }
}

proof fn lemma_push_contains(v: Seq<Seq<char>>, last: Seq<char>, name: Seq<char>)
    ensures
        v.push(last).contains(name) <==> v.contains(name) || name == last,
{
    let w = v.push(last);
    if v.contains(name) {
        let k = v.index_of(name);
        assert(w[k] == name);
    }
    if name == last {
        assert(w[v.len() as int] == name);
    }
    if w.contains(name) && name != last {
        let k = w.index_of(name);
        assert(v[k] == name);
    }
}

/// After what is new has been added and what is gone has been removed, the sync root shows exactly
/// the visible names of the server.
pub proof fn law_diff_makes_folders_equal(
    nas: Seq<Seq<char>>,
    client: Seq<Seq<char>>,
    name: Seq<char>,
)
    ensures
        ({
            let there = client.contains(name) || only_on_nas(nas, client).contains(name);
            there && !only_on_client(nas, client).contains(name) <==> shown(nas, name)
        }),
{
    lemma_only_on_nas(nas, client, name);
    lemma_only_on_client(nas, client, name);
}

/// An entry that appeared on the server gets a placeholder with the server's size and time,
/// unless something is at its place or the server no longer has it; only an empty file is looked
/// at again.
pub proof fn law_new_entries_get_placeholders(occupied: bool, stat: Option<NasStat>, p: PushPlan)
    requires
        call_ensures(push_placeholder, (occupied, stat), p),
    ensures
        p is Keep <==> occupied || stat is None,
        p is CreateDir ==> stat->0.is_dir,
        p matches PushPlan::CreateFile { size, mtime, look_again } ==> !stat->0.is_dir && size
            == stat->0.size && mtime == stat->0.mtime && (look_again <==> size == 0),
{
}

/// An entry that went away on the server is removed where it is a directory or a placeholder; a
/// file of the user's own is never removed.
pub proof fn law_own_files_are_kept(occupied: bool, is_dir: bool, attrs: u32, p: RemovePlan)
    requires
        call_ensures(remove_placeholder, (occupied, is_dir, attrs), p),
    ensures
        p is RemoveFile <==> occupied && !is_dir && attrs & 0x400 != 0 && attrs != 0xffff_ffff,
        p is RemoveDir <==> occupied && is_dir,
{
}

/// A placeholder is made anew with the size and the time that the server reports, but neither in
/// place of a directory nor for the empty size that servers report first.
pub proof fn law_refreshed_placeholders_follow_the_server(
    occupied: bool,
    is_dir: bool,
    stat: Option<NasStat>,
    r: Option<(u64, i64)>,
)
    requires
        call_ensures(refresh_placeholder, (occupied, is_dir, stat), r),
    ensures
        r is Some <==> occupied && !is_dir && stat is Some && stat->0.size > 0,
        r matches Some(v) ==> v.0 == stat->0.size && v.1 == stat->0.mtime,
{
}

/// A file that was empty is waited for until it has a size or its placeholder is gone, and its
/// placeholder then gets that size.
pub proof fn law_empty_files_are_waited_for(
    occupied: bool,
    nas_size: Option<u64>,
    s: DeferredStep,
)
    requires
        call_ensures(deferred_size_update, (occupied, nas_size), s),
    ensures
        s is Stop <==> !occupied,
        s matches DeferredStep::Recreate(n) ==> nas_size == Some(n) && n > 0,
        occupied ==> (s is Wait <==> nas_size is None || nas_size == Some(0u64)),
{
}

/// An empty file is looked at six times, the first time after two seconds and ever more rarely.
pub proof fn law_waits_grow(n: nat)
    ensures
        delay_of(n) is Some <==> n < 6,
        delay_of(0) == Some(2_000u64),
        n >= 1 && delay_of(n) is Some ==> delay_of((n - 1) as nat)->0 < delay_of(n)->0 <= 30_000,
{
}

/// A directory stands first among those above it, each is followed by the one that holds it, and
/// the root is not among them.
pub proof fn law_chain_leads_to_the_root(rel: Seq<char>, i: int)
    requires
        0 <= i < chain(rel).len(),
    ensures
        chain(rel)[0] == rel,
        chain(rel)[i].len() > 0,
        i + 1 < chain(rel).len() ==> parent_dir(Platform::Windows, chain(rel)[i]) == Some(
            chain(rel)[i + 1],
        ),
        i + 1 == chain(rel).len() ==> (parent_dir(Platform::Windows, chain(rel)[i]) matches Some(up)
            ==> up.len() == 0),
    decreases rel.len(),
{
    if rel.len() > 0 {
        lemma_parent_is_shorter(Platform::Windows, rel);
        if let Some(up) = parent_dir(Platform::Windows, rel) {
            let c = chain(up);
            assert(chain(rel) =~= seq![rel] + c);
            if i > 0 {
                law_chain_leads_to_the_root(up, i - 1);
                assert(chain(rel)[i] == c[i - 1]);
                if i + 1 < chain(rel).len() {
                    assert(chain(rel)[i + 1] == c[i]);
                }
            } else if c.len() > 0 {
                assert(c[0] == up);
                assert(chain(rel)[1] == up);
            } else if up.len() > 0 {
                assert(chain(up).len() > 0);
            }
        }
    }
}

/// The directories that are missing end at the first that is there.
pub proof fn law_missing_parents_end_at_one_that_is_there(occupied: Seq<bool>)
    ensures
        false_front(occupied) <= occupied.len(),
        forall|i: int| 0 <= i < false_front(occupied) ==> !occupied[i],
        false_front(occupied) < occupied.len() ==> occupied[false_front(occupied) as int],
    decreases occupied.len(),
{
    if occupied.len() > 0 && !occupied[0] {
        let w = occupied.drop_first();
        law_missing_parents_end_at_one_that_is_there(w);
        assert forall|i: int| 0 <= i < false_front(occupied) implies !occupied[i] by {
            if i > 0 {
                assert(!w[i - 1]);
            }
        }
    }
}

/// A name gets a placeholder unless its path was uploaded less than five seconds ago.
pub proof fn law_only_echoes_are_left_out(
    echoes: Map<Seq<char>, u64>,
    nas_dir: Seq<char>,
    names: Seq<Seq<char>>,
    now: u64,
    name: Seq<char>,
)
    ensures
        ({
            let path = joined(Platform::Windows, nas_dir, name);
            not_echoed(echoes, nas_dir, names, now).contains(name) <==> names.contains(name) && !(
            echoes.contains_key(path) && now - echoes[path] < 5_000)
        }),
    decreases names.len(),
{
    if names.len() > 0 {
        law_only_echoes_are_left_out(echoes, nas_dir, names.drop_last(), now, name);
        assert(names =~= names.drop_last().push(names.last()));
        lemma_push_contains(names.drop_last(), names.last(), name);
        lemma_push_contains(
            not_echoed(echoes, nas_dir, names.drop_last(), now),
            names.last(),
            name,
        );
    }
}

/// Placeholders are made exactly for the names of the server that the sync root lacks and that do
/// not start with a dot, `@` or `#`; those of all other names go.
pub proof fn law_only_visible_names_are_shown(
    nas: Seq<Seq<char>>,
    client: Seq<Seq<char>>,
    name: Seq<char>,
)
    ensures
        ({
            let visible = name.len() == 0 || (name[0] != '.' && name[0] != '@' && name[0] != '#');
            &&& only_on_nas(nas, client).contains(name) <==> nas.contains(name) && !client.contains(
                name,
            ) && visible
            &&& only_on_client(nas, client).contains(name) <==> client.contains(name) && !(
            nas.contains(name) && visible)
        }),
{
    lemma_only_on_nas(nas, client, name);
    lemma_only_on_client(nas, client, name);
}

} // verus!
