//! Bringing visited folders up to date after the agent was away: the server's listing is compared
//! with the sync root and with what was known of it.
use crate::cache_index::{entry_views, with_version, CacheIndex};
use crate::paths::{file_name, join, joined, last_part, strip_prefix, below, Platform};
use crate::text::{same, starts_with_char};
use vstd::prelude::*;

verus! {

/// An entry of a folder of the server; the time is in seconds since 1970.
#[derive(Debug, Clone, PartialEq, Eq)]
pub struct ShareEntry {
    pub name: String,
    pub is_dir: bool,
    pub size: u64,
    pub mtime: i64,
}

/// An entry of a folder of the sync root.
#[derive(Debug, Clone, PartialEq, Eq)]
pub struct LocalEntry {
    pub name: String,
    pub is_dir: bool,
    /// Whether it is a placeholder that holds no content.
    pub dehydrated: bool,
}

/// What is done about a file.
#[derive(Debug, Clone, PartialEq, Eq)]
pub enum ReconcileStep {
    /// Create its placeholder.
    Add { name: String, size: u64, mtime: i64 },
    /// Remove it.
    Remove { name: String },
    /// Remove it and create its placeholder anew.
    Update { name: String, size: u64, mtime: i64 },
}

pub enum StepView {
    Add { name: Seq<char>, size: u64, mtime: i64 },
    Remove { name: Seq<char> },
    Update { name: Seq<char>, size: u64, mtime: i64 },
}

impl View for ReconcileStep {
    type V = StepView;

    open spec fn view(&self) -> StepView {
        match self {
            ReconcileStep::Add { name, size, mtime } => StepView::Add {
                name: name@,
                size: *size,
                mtime: *mtime,
            },
            ReconcileStep::Remove { name } => StepView::Remove { name: name@ },
            ReconcileStep::Update { name, size, mtime } => StepView::Update {
                name: name@,
                size: *size,
                mtime: *mtime,
            },
        }
    }
}

pub open spec fn steps_of(v: Seq<ReconcileStep>) -> Seq<StepView> {
    v.map_values(|s: ReconcileStep| s@)
}

/// Whether an entry of the server is a file that the sync root shows.
pub open spec fn shown_file(e: ShareEntry) -> bool {
    !e.is_dir && !(e.name@.len() > 0 && (e.name@[0] == '#' || e.name@[0] == '@'))
}

fn is_shown_file(e: &ShareEntry) -> (r: bool)
    ensures
        r == shown_file(*e),
{
    !e.is_dir && !starts_with_char(e.name.as_str(), '#') && !starts_with_char(e.name.as_str(), '@')
}

/// Whether the server shows a file with this name.
pub open spec fn on_share(nas: Seq<ShareEntry>, name: Seq<char>) -> bool {
    exists|i: int| 0 <= i < nas.len() && shown_file(#[trigger] nas[i]) && nas[i].name@ == name
}

/// Whether the sync root has an entry with this name.
pub open spec fn on_client(local: Seq<LocalEntry>, name: Seq<char>) -> bool {
    exists|i: int| 0 <= i < local.len() && (#[trigger] local[i]).name@ == name
}

/// Whether the sync root has a directory with this name.
pub open spec fn dir_on_client(local: Seq<LocalEntry>, name: Seq<char>) -> bool {
    exists|i: int| 0 <= i < local.len() && (#[trigger] local[i]).name@ == name && local[i].is_dir
}

/// What is known of the file with this name: the last entry counts.
pub open spec fn known_stat(known: Seq<(Seq<char>, u64, i64)>, name: Seq<char>) -> Option<(u64, i64)>
    decreases known.len(),
{
    if known.len() == 0 {
        None
    } else if last_part(Platform::Windows, known.last().0) == name {
        Some((known.last().1, known.last().2))
    } else {
        known_stat(known.drop_last(), name)
    }
}

/// Placeholders for the files of the server that the sync root lacks.
pub open spec fn additions(nas: Seq<ShareEntry>, local: Seq<LocalEntry>) -> Seq<StepView>
    decreases nas.len(),
{
    if nas.len() == 0 {
        Seq::empty()
    } else {
        let front = additions(nas.drop_last(), local);
        let e = nas.last();
        if shown_file(e) && !on_client(local, e.name@) {
            front.push(StepView::Add { name: e.name@, size: e.size, mtime: e.mtime })
        } else {
            front
        }
    }
}

/// Removals of the placeholders of the sync root that the server lacks. Files that hold content are
/// kept.
pub open spec fn removals(nas: Seq<ShareEntry>, local: Seq<LocalEntry>) -> Seq<StepView>
    decreases local.len(),
{
    if local.len() == 0 {
        Seq::empty()
    } else {
        let front = removals(nas, local.drop_last());
        let e = local.last();
        if !e.is_dir && e.dehydrated && !on_share(nas, e.name@) {
            front.push(StepView::Remove { name: e.name@ })
        } else {
            front
        }
    }
}

/// Whether a file of both sides is another one than was known.
pub open spec fn outdated(
    e: ShareEntry,
    local: Seq<LocalEntry>,
    known: Seq<(Seq<char>, u64, i64)>,
) -> bool {
    &&& shown_file(e)
    &&& on_client(local, e.name@)
    &&& !dir_on_client(local, e.name@)
    &&& known_stat(known, e.name@) != Some((e.size, e.mtime))
}

/// New placeholders for the files of both sides that are not the ones that were known.
pub open spec fn updates(
    nas: Seq<ShareEntry>,
    local: Seq<LocalEntry>,
    known: Seq<(Seq<char>, u64, i64)>,
) -> Seq<StepView>
    decreases nas.len(),
{
    if nas.len() == 0 {
        Seq::empty()
    } else {
        let front = updates(nas.drop_last(), local, known);
        let e = nas.last();
        if outdated(e, local, known) {
            front.push(StepView::Update { name: e.name@, size: e.size, mtime: e.mtime })
        } else {
            front
        }
    }
}

/// All that is done about a folder.
pub open spec fn folder_plan(
    nas: Seq<ShareEntry>,
    local: Seq<LocalEntry>,
    known: Seq<(Seq<char>, u64, i64)>,
) -> Seq<StepView> {
    additions(nas, local) + removals(nas, local) + updates(nas, local, known)
}

fn find_on_share(nas: &Vec<ShareEntry>, name: &str) -> (r: bool)
    ensures
        r == on_share(nas@, name@),
{
    let mut i: usize = 0;
    while i < nas.len()
        invariant
            i <= nas@.len(),
            forall|k: int|
                0 <= k < i ==> !(shown_file(#[trigger] nas@[k]) && nas@[k].name@ == name@),
        decreases nas@.len() - i,
    {
        if is_shown_file(&nas[i]) && same(nas[i].name.as_str(), name) {
            return true;
        }
        i += 1;
    }
    false
}

/// Whether the sync root has an entry with this name, and whether it has a directory.
fn find_on_client(local: &Vec<LocalEntry>, name: &str) -> (r: (bool, bool))
    ensures
        r.0 == on_client(local@, name@),
        r.1 == dir_on_client(local@, name@),
{
    let mut found = false;
    let mut dir = false;
    let mut i: usize = 0;
    while i < local.len()
        invariant
            i <= local@.len(),
            found == exists|k: int| 0 <= k < i && (#[trigger] local@[k]).name@ == name@,
            dir == exists|k: int|
                0 <= k < i && (#[trigger] local@[k]).name@ == name@ && local@[k].is_dir,
        decreases local@.len() - i,
    {
        if same(local[i].name.as_str(), name) {
            assert(local@[i as int].name@ == name@);
            found = true;
            if local[i].is_dir {
                dir = true;
            }
        }
        i += 1;
    }
    (found, dir)
}

fn find_known(known: &Vec<(String, u64, i64)>, name: &str) -> (r: Option<(u64, i64)>)
    ensures
        r == known_stat(entry_views(known@), name@),
{
    let ghost ks = entry_views(known@);
    let mut i: usize = known.len();
    assert(ks.take(i as int) =~= ks);
    while i > 0
        invariant
            i <= known@.len(),
            ks == entry_views(known@),
            known_stat(ks, name@) == known_stat(ks.take(i as int), name@),
        decreases i,
    {
        let k = &known[i - 1];
        assert(ks.take(i as int).last() == (k.0@, k.1, k.2));
        assert(ks.take(i as int).drop_last() =~= ks.take(i - 1));
        let base = file_name(Platform::Windows, k.0.as_str());
        if same(base.as_str(), name) {
            return Some((k.1, k.2));
        }
        i -= 1;
    }
    None
}

/// What is done about a folder: `nas` and `local` are what the server and the sync root have in
/// it, `known` what was known of its files. The server is right.
pub fn reconcile_folder(
    nas: &Vec<ShareEntry>,
    local: &Vec<LocalEntry>,
    known: &Vec<(String, u64, i64)>,
) -> (out: Vec<ReconcileStep>)
    ensures
        steps_of(out@) == folder_plan(nas@, local@, entry_views(known@)),
{
    let ghost ks = entry_views(known@);
    let mut out: Vec<ReconcileStep> = Vec::new();
    assert(steps_of(out@) =~= Seq::empty());
    assert(nas@.take(0) =~= Seq::empty());
    assert(local@.take(0) =~= Seq::empty());
    let mut i: usize = 0;
    while i < nas.len()
        invariant
            i <= nas@.len(),
            steps_of(out@) == additions(nas@.take(i as int), local@),
        decreases nas@.len() - i,
    {
        let e = &nas[i];
        let ghost before = steps_of(out@);
        assert(nas@.take(i + 1).drop_last() =~= nas@.take(i as int));
        if is_shown_file(e) && !find_on_client(local, e.name.as_str()).0 {
            let s = ReconcileStep::Add { name: e.name.clone(), size: e.size, mtime: e.mtime };
            out.push(s);
            assert(steps_of(out@) =~= before.push(s@));
        }
        i += 1;
    }
    assert(nas@.take(nas@.len() as int) =~= nas@);
    let ghost added = steps_of(out@);
    assert(steps_of(out@) =~= added + removals(nas@, local@.take(0)));
    let mut j: usize = 0;
    while j < local.len()
        invariant
            j <= local@.len(),
            added == additions(nas@, local@),
            steps_of(out@) == added + removals(nas@, local@.take(j as int)),
        decreases local@.len() - j,
    {
        let e = &local[j];
        let ghost before = steps_of(out@);
        assert(local@.take(j + 1).drop_last() =~= local@.take(j as int));
        if !e.is_dir && e.dehydrated && !find_on_share(nas, e.name.as_str()) {
            let s = ReconcileStep::Remove { name: e.name.clone() };
            out.push(s);
            assert(steps_of(out@) =~= before.push(s@));
            assert(steps_of(out@) =~= added + removals(nas@, local@.take(j + 1)));
        }
        j += 1;
    }
    assert(local@.take(local@.len() as int) =~= local@);
    let ghost both = steps_of(out@);
    assert(steps_of(out@) =~= both + updates(nas@.take(0), local@, ks));
    let mut k: usize = 0;
    while k < nas.len()
        invariant
            k <= nas@.len(),
            ks == entry_views(known@),
            both == additions(nas@, local@) + removals(nas@, local@),
            steps_of(out@) == both + updates(nas@.take(k as int), local@, ks),
        decreases nas@.len() - k,
    {
        let e = &nas[k];
        let ghost before = steps_of(out@);
        assert(nas@.take(k + 1).drop_last() =~= nas@.take(k as int));
        let (found, dir) = find_on_client(local, e.name.as_str());
        if is_shown_file(e) && found && !dir {
            let fresh = match find_known(known, e.name.as_str()) {
                Some((size, mtime)) => size == e.size && mtime == e.mtime,
                None => false,
            };
            if !fresh {
                let s = ReconcileStep::Update {
                    name: e.name.clone(),
                    size: e.size,
                    mtime: e.mtime,
                };
                out.push(s);
                assert(steps_of(out@) =~= before.push(s@));
                assert(steps_of(out@) =~= both + updates(nas@.take(k + 1), local@, ks));
            }
        }
        k += 1;
    }
    assert(nas@.take(nas@.len() as int) =~= nas@);
    out
}

/// How many folders were looked at and how many files were changed.
#[derive(Clone, Copy, Debug, PartialEq, Eq, Structural)]
pub struct Tally {
    pub checked: u32,
    pub changed: u32,
    pub added: u32,
    pub removed: u32,
    pub updated: u32,
}

/// The count after a step that succeeded.
pub open spec fn counted(t: Tally, s: StepView) -> Tally {
    match s {
        StepView::Add { .. } => Tally { added: (t.added + 1) as u32, ..t },
        StepView::Remove { .. } => Tally { removed: (t.removed + 1) as u32, ..t },
        StepView::Update { .. } => Tally { updated: (t.updated + 1) as u32, ..t },
    }
}

/// The path of the file that a step is about.
pub open spec fn step_path(client_dir: Seq<char>, s: StepView) -> Seq<char> {
    joined(Platform::Windows, client_dir, about(s))
}

impl Tally {
    /// Nothing was looked at.
    pub fn new() -> (t: Tally)
        ensures
            t == (Tally { checked: 0, changed: 0, added: 0, removed: 0, updated: 0 }),
    {
        Tally { checked: 0, changed: 0, added: 0, removed: 0, updated: 0 }
    }

    /// Whether a visited folder is to be compared, and with which time: it is there on both sides
    /// and the server's time is not the one that is stored. Folders whose time was never stored
    /// are compared always.
    pub fn on_folder(
        &mut self,
        client_is_dir: bool,
        nas_mtime: Option<i64>,
        stored: i64,
    ) -> (r: Option<i64>)
        requires
            old(self).checked < u32::MAX,
            old(self).changed < u32::MAX,
        ensures
            r == match nas_mtime {
                Some(m) => if client_is_dir && !(m == stored && stored != 0) {
                    Some(m)
                } else {
                    None
                },
                None => None,
            },
            *final(self) == (Tally {
                checked: (old(self).checked + 1) as u32,
                changed: if r is Some {
                    (old(self).changed + 1) as u32
                } else {
                    old(self).changed
                },
                ..*old(self)
            }),
    {
        self.checked = self.checked + 1;
        if !client_is_dir {
            return None;
        }
        match nas_mtime {
            Some(m) => {
                if m == stored && stored != 0 {
                    None
                } else {
                    self.changed = self.changed + 1;
                    Some(m)
                }
            },
            None => None,
        }
    }

    /// Takes note of how a step went: what succeeded is counted and recorded.
    pub fn on_step(
        &mut self,
        cache: &mut CacheIndex,
        client_dir: &str,
        step: &ReconcileStep,
        ok: bool,
    )
        requires
            old(cache).wf(),
            old(self).added < u32::MAX,
            old(self).removed < u32::MAX,
            old(self).updated < u32::MAX,
        ensures
            final(cache).wf(),
            final(cache).same_but_files(*old(cache)),
            *final(self) == if ok {
                counted(*old(self), step@)
            } else {
                *old(self)
            },
            !ok ==> final(cache).files() == old(cache).files(),
            ok ==> ({
                let path = step_path(client_dir@, step@);
                match step@ {
                    StepView::Remove { .. } => final(cache).files() == old(cache).files().remove(
                        path,
                    ),
                    StepView::Add { size, mtime, .. } => final(cache).files() == with_version(
                        old(cache).files(),
                        path,
                        size,
                        mtime,
                    ),
                    StepView::Update { size, mtime, .. } => final(cache).files() == with_version(
                        old(cache).files(),
                        path,
                        size,
                        mtime,
                    ),
                }
            }),
    {
        if !ok {
            return;
        }
        match step {
            ReconcileStep::Add { name, size, mtime } => {
                let path = join(Platform::Windows, client_dir, name.as_str());
                cache.record_known_file(path.as_str(), *size, *mtime);
                self.added = self.added + 1;
            },
            ReconcileStep::Remove { name } => {
                let path = join(Platform::Windows, client_dir, name.as_str());
                cache.remove_known_file(path.as_str());
                self.removed = self.removed + 1;
            },
            ReconcileStep::Update { name, size, mtime } => {
                let path = join(Platform::Windows, client_dir, name.as_str());
                cache.record_known_file(path.as_str(), *size, *mtime);
                self.updated = self.updated + 1;
            },
        }
    }
}

/// The folder of the server for a directory of the sync root that is to be known as visited; none
/// for what is no directory, lies outside or is hidden.
pub fn seed_folder(
    name: &str,
    is_dir: bool,
    path: &str,
    client_root: &str,
    nas_root: &str,
) -> (r: Option<String>)
    ensures
        ({
            let rel = below(Platform::Windows, client_root@, path@);
            if is_dir && !crate::macos_cache::hidden_name(name@) && rel is Some {
                r matches Some(p) && p@ == joined(Platform::Windows, nas_root@, rel->0)
            } else {
                r is None
            }
        }),
{
    if !is_dir || crate::macos_cache::is_hidden_name(name) {
        return None;
    }
    match strip_prefix(Platform::Windows, client_root, path) {
        Some(rel) => Some(join(Platform::Windows, nas_root, rel.as_str())),
        None => None,
    }
}

/// The name that a step is about.
pub open spec fn about(s: StepView) -> Seq<char> {
    match s {
        StepView::Add { name, .. } => name,
        StepView::Remove { name } => name,
        StepView::Update { name, .. } => name,
    }
}

/// Whether a step adds this name.
pub open spec fn adds(steps: Seq<StepView>, name: Seq<char>) -> bool {
    exists|i: int| 0 <= i < steps.len() && (#[trigger] steps[i]) is Add && about(steps[i]) == name
}

/// Whether a step removes this name.
pub open spec fn removes(steps: Seq<StepView>, name: Seq<char>) -> bool {
    exists|i: int|
        0 <= i < steps.len() && (#[trigger] steps[i]) is Remove && about(steps[i]) == name
}

/// Whether a step renews this name.
pub open spec fn renews(steps: Seq<StepView>, name: Seq<char>) -> bool {
    exists|i: int|
        0 <= i < steps.len() && (#[trigger] steps[i]) is Update && about(steps[i]) == name
}

proof fn lemma_push(steps: Seq<StepView>, s: StepView, name: Seq<char>)
    ensures
        adds(steps.push(s), name) == (adds(steps, name) || (s is Add && about(s) == name)),
        removes(steps.push(s), name) == (removes(steps, name) || (s is Remove && about(s) == name)),
        renews(steps.push(s), name) == (renews(steps, name) || (s is Update && about(s) == name)),
{
    let w = steps.push(s);
    assert(w[steps.len() as int] == s);
    assert forall|i: int| 0 <= i < steps.len() implies #[trigger] w[i] == steps[i] by {}
    if adds(steps, name) {
        let i = choose|i: int|
            0 <= i < steps.len() && (#[trigger] steps[i]) is Add && about(steps[i]) == name;
        assert(w[i] is Add && about(w[i]) == name);
    }
    if removes(steps, name) {
        let i = choose|i: int|
            0 <= i < steps.len() && (#[trigger] steps[i]) is Remove && about(steps[i]) == name;
        assert(w[i] is Remove && about(w[i]) == name);
    }
    if renews(steps, name) {
        let i = choose|i: int|
            0 <= i < steps.len() && (#[trigger] steps[i]) is Update && about(steps[i]) == name;
        assert(w[i] is Update && about(w[i]) == name);
    }
    if adds(w, name) {
        let i = choose|i: int| 0 <= i < w.len() && (#[trigger] w[i]) is Add && about(w[i]) == name;
        if i < steps.len() {
            assert(steps[i] is Add && about(steps[i]) == name);
        }
    }
    if removes(w, name) {
        let i = choose|i: int|
            0 <= i < w.len() && (#[trigger] w[i]) is Remove && about(w[i]) == name;
        if i < steps.len() {
            assert(steps[i] is Remove && about(steps[i]) == name);
        }
    }
    if renews(w, name) {
        let i = choose|i: int|
            0 <= i < w.len() && (#[trigger] w[i]) is Update && about(w[i]) == name;
        if i < steps.len() {
            assert(steps[i] is Update && about(steps[i]) == name);
        }
    }
}

proof fn lemma_concat(a: Seq<StepView>, b: Seq<StepView>, name: Seq<char>)
    ensures
        adds(a + b, name) == (adds(a, name) || adds(b, name)),
        removes(a + b, name) == (removes(a, name) || removes(b, name)),
        renews(a + b, name) == (renews(a, name) || renews(b, name)),
    decreases b.len(),
{
    if b.len() == 0 {
        assert(a + b =~= a);
    } else {
        lemma_concat(a, b.drop_last(), name);
        assert(a + b =~= (a + b.drop_last()).push(b.last()));
        assert(b =~= b.drop_last().push(b.last()));
        lemma_push(a + b.drop_last(), b.last(), name);
        lemma_push(b.drop_last(), b.last(), name);
    }
}

proof fn lemma_on_share(nas: Seq<ShareEntry>, name: Seq<char>)
    requires
        nas.len() > 0,
    ensures
        on_share(nas, name) == (on_share(nas.drop_last(), name) || (shown_file(nas.last())
            && nas.last().name@ == name)),
{
    let d = nas.drop_last();
    if on_share(nas, name) {
        let i = choose|i: int|
            0 <= i < nas.len() && shown_file(#[trigger] nas[i]) && nas[i].name@ == name;
        if i < d.len() {
            assert(shown_file(d[i]) && d[i].name@ == name);
        }
    }
    if on_share(d, name) {
        let i = choose|i: int| 0 <= i < d.len() && shown_file(#[trigger] d[i]) && d[i].name@ == name;
        assert(shown_file(nas[i]) && nas[i].name@ == name);
    }
    assert(nas[nas.len() - 1] == nas.last());
}

proof fn lemma_additions(nas: Seq<ShareEntry>, local: Seq<LocalEntry>, name: Seq<char>)
    ensures
        adds(additions(nas, local), name) == (on_share(nas, name) && !on_client(local, name)),
        !removes(additions(nas, local), name),
        !renews(additions(nas, local), name),
    decreases nas.len(),
{
    if nas.len() > 0 {
        lemma_additions(nas.drop_last(), local, name);
        lemma_on_share(nas, name);
        let e = nas.last();
        lemma_push(
            additions(nas.drop_last(), local),
            StepView::Add { name: e.name@, size: e.size, mtime: e.mtime },
            name,
        );
    }
}

/// Whether the sync root has a placeholder without content under this name.
pub open spec fn placeholder_on_client(local: Seq<LocalEntry>, name: Seq<char>) -> bool {
    exists|i: int|
        0 <= i < local.len() && (#[trigger] local[i]).name@ == name && !local[i].is_dir
            && local[i].dehydrated
}

/// Whether the sync root has a file with content under this name.
pub open spec fn content_on_client(local: Seq<LocalEntry>, name: Seq<char>) -> bool {
    exists|i: int|
        0 <= i < local.len() && (#[trigger] local[i]).name@ == name && !local[i].is_dir
            && !local[i].dehydrated
}

proof fn lemma_removals(nas: Seq<ShareEntry>, local: Seq<LocalEntry>, name: Seq<char>)
    ensures
        removes(removals(nas, local), name) == (placeholder_on_client(local, name) && !on_share(
            nas,
            name,
        )),
        !adds(removals(nas, local), name),
        !renews(removals(nas, local), name),
    decreases local.len(),
{
    if local.len() > 0 {
        let d = local.drop_last();
        lemma_removals(nas, d, name);
        let e = local.last();
        lemma_push(removals(nas, d), StepView::Remove { name: e.name@ }, name);
        if placeholder_on_client(local, name) {
            let i = choose|i: int|
                0 <= i < local.len() && (#[trigger] local[i]).name@ == name && !local[i].is_dir
                    && local[i].dehydrated;
            if i < d.len() {
                assert(d[i].name@ == name && !d[i].is_dir && d[i].dehydrated);
            }
        }
        if placeholder_on_client(d, name) {
            let i = choose|i: int|
                0 <= i < d.len() && (#[trigger] d[i]).name@ == name && !d[i].is_dir
                    && d[i].dehydrated;
            assert(local[i].name@ == name && !local[i].is_dir && local[i].dehydrated);
        }
        assert(local[local.len() - 1] == e);
    }
}

/// Whether an entry of the server with this name is not the file that was known.
pub open spec fn outdated_name(
    nas: Seq<ShareEntry>,
    local: Seq<LocalEntry>,
    known: Seq<(Seq<char>, u64, i64)>,
    name: Seq<char>,
) -> bool {
    exists|i: int|
        0 <= i < nas.len() && outdated(#[trigger] nas[i], local, known) && nas[i].name@ == name
}

proof fn lemma_updates(
    nas: Seq<ShareEntry>,
    local: Seq<LocalEntry>,
    known: Seq<(Seq<char>, u64, i64)>,
    name: Seq<char>,
)
    ensures
        renews(updates(nas, local, known), name) == outdated_name(nas, local, known, name),
        !adds(updates(nas, local, known), name),
        !removes(updates(nas, local, known), name),
    decreases nas.len(),
{
    if nas.len() > 0 {
        let d = nas.drop_last();
        lemma_updates(d, local, known, name);
        let e = nas.last();
        lemma_push(
            updates(d, local, known),
            StepView::Update { name: e.name@, size: e.size, mtime: e.mtime },
            name,
        );
        if outdated_name(nas, local, known, name) {
            let i = choose|i: int|
                0 <= i < nas.len() && outdated(#[trigger] nas[i], local, known) && nas[i].name@
                    == name;
            if i < d.len() {
                assert(outdated(d[i], local, known) && d[i].name@ == name);
            }
        }
        if outdated_name(d, local, known, name) {
            let i = choose|i: int|
                0 <= i < d.len() && outdated(#[trigger] d[i], local, known) && d[i].name@ == name;
            assert(outdated(nas[i], local, known) && nas[i].name@ == name);
        }
        assert(nas[nas.len() - 1] == e);
    }
}

/// The server is right: once all steps are done, the sync root has a file exactly if the server
/// shows one with that name, but for files that hold content, which are not removed. Directories of
/// the sync root are left alone.
pub proof fn law_reconciled_folder_mirrors_server(
    nas: Seq<ShareEntry>,
    local: Seq<LocalEntry>,
    known: Seq<(Seq<char>, u64, i64)>,
    name: Seq<char>,
)
    ensures
        ({
            let plan = folder_plan(nas, local, known);
            &&& !dir_on_client(local, name) && !content_on_client(local, name) ==> ((on_client(
                local,
                name,
            ) || adds(plan, name)) && !removes(plan, name) <==> on_share(nas, name))
            &&& !placeholder_on_client(local, name) ==> !removes(plan, name)
            &&& dir_on_client(local, name) && !placeholder_on_client(local, name) ==> !adds(
                plan,
                name,
            ) && !removes(plan, name) && !renews(plan, name)
        }),
{
    lemma_additions(nas, local, name);
    lemma_removals(nas, local, name);
    lemma_updates(nas, local, known, name);
    lemma_concat(additions(nas, local), removals(nas, local), name);
    lemma_concat(
        additions(nas, local) + removals(nas, local),
        updates(nas, local, known),
        name,
    );
    if on_client(local, name) && !dir_on_client(local, name) {
        let i = choose|i: int| 0 <= i < local.len() && (#[trigger] local[i]).name@ == name;
        assert(!local[i].is_dir);
        assert(local[i].dehydrated || content_on_client(local, name));
    }
    if dir_on_client(local, name) {
        let i = choose|i: int|
            0 <= i < local.len() && (#[trigger] local[i]).name@ == name && local[i].is_dir;
        assert(on_client(local, name));
    }
}

/// A file that both sides have and that is the one that was known is not touched; one that is not
/// is made anew.
pub proof fn law_known_files_are_left_alone(
    nas: Seq<ShareEntry>,
    local: Seq<LocalEntry>,
    known: Seq<(Seq<char>, u64, i64)>,
    e: ShareEntry,
)
    requires
        nas.contains(e),
        shown_file(e),
        on_client(local, e.name@),
        !dir_on_client(local, e.name@),
        forall|i: int|
            0 <= i < nas.len() && (#[trigger] nas[i]).name@ == e.name@ ==> nas[i] == e,
    ensures
        ({
            let plan = folder_plan(nas, local, known);
            &&& !adds(plan, e.name@)
            &&& !removes(plan, e.name@)
            &&& renews(plan, e.name@) <==> known_stat(known, e.name@) != Some((e.size, e.mtime))
        }),
{
    let name = e.name@;
    lemma_additions(nas, local, name);
    lemma_removals(nas, local, name);
    lemma_updates(nas, local, known, name);
    lemma_concat(additions(nas, local), removals(nas, local), name);
    lemma_concat(
        additions(nas, local) + removals(nas, local),
        updates(nas, local, known),
        name,
    );
    let k = nas.index_of(e);
    assert(nas[k] == e);
    assert(on_share(nas, name));
}

proof fn lemma_added(nas: Seq<ShareEntry>, local: Seq<LocalEntry>, k: int)
    requires
        0 <= k < additions(nas, local).len(),
    ensures
        exists|i: int|
            0 <= i < nas.len() && !(#[trigger] nas[i]).is_dir && !on_client(local, nas[i].name@)
                && shown_file(nas[i]) && additions(nas, local)[k] == (StepView::Add {
                name: nas[i].name@,
                size: nas[i].size,
                mtime: nas[i].mtime,
            }),
    decreases nas.len(),
{
    let d = nas.drop_last();
    let front = additions(d, local);
    if k < front.len() {
        lemma_added(d, local, k);
        let i = choose|i: int|
            0 <= i < d.len() && !(#[trigger] d[i]).is_dir && !on_client(local, d[i].name@)
                && shown_file(d[i]) && front[k] == (StepView::Add {
                name: d[i].name@,
                size: d[i].size,
                mtime: d[i].mtime,
            });
        assert(nas[i] == d[i]);
    } else {
        assert(nas[nas.len() - 1] == nas.last());
    }
}

proof fn lemma_removed(nas: Seq<ShareEntry>, local: Seq<LocalEntry>, k: int)
    requires
        0 <= k < removals(nas, local).len(),
    ensures
        exists|i: int|
            0 <= i < local.len() && !(#[trigger] local[i]).is_dir && local[i].dehydrated
                && !on_share(nas, local[i].name@) && removals(nas, local)[k] == (StepView::Remove {
                name: local[i].name@,
            }),
    decreases local.len(),
{
    let d = local.drop_last();
    let front = removals(nas, d);
    if k < front.len() {
        lemma_removed(nas, d, k);
        let i = choose|i: int|
            0 <= i < d.len() && !(#[trigger] d[i]).is_dir && d[i].dehydrated && !on_share(
                nas,
                d[i].name@,
            ) && front[k] == (StepView::Remove { name: d[i].name@ });
        assert(local[i] == d[i]);
    } else {
        assert(local[local.len() - 1] == local.last());
    }
}

proof fn lemma_updated(
    nas: Seq<ShareEntry>,
    local: Seq<LocalEntry>,
    known: Seq<(Seq<char>, u64, i64)>,
    k: int,
)
    requires
        0 <= k < updates(nas, local, known).len(),
    ensures
        exists|i: int|
            0 <= i < nas.len() && outdated(#[trigger] nas[i], local, known) && updates(
                nas,
                local,
                known,
            )[k] == (StepView::Update {
                name: nas[i].name@,
                size: nas[i].size,
                mtime: nas[i].mtime,
            }),
    decreases nas.len(),
{
    let d = nas.drop_last();
    let front = updates(d, local, known);
    if k < front.len() {
        lemma_updated(d, local, known, k);
        let i = choose|i: int|
            0 <= i < d.len() && outdated(#[trigger] d[i], local, known) && front[k] == (
            StepView::Update { name: d[i].name@, size: d[i].size, mtime: d[i].mtime });
        assert(nas[i] == d[i]);
    } else {
        assert(nas[nas.len() - 1] == nas.last());
    }
}

/// Every step about a file has its reason in the two listings: what is added is a file of the
/// server that the sync root lacks, what is renewed is one that both have, each with the size and
/// the time of the server, and what is removed is a placeholder without content that the server
/// does not show.
pub proof fn law_steps_follow_the_listings(
    nas: Seq<ShareEntry>,
    local: Seq<LocalEntry>,
    known: Seq<(Seq<char>, u64, i64)>,
    k: int,
)
    requires
        0 <= k < folder_plan(nas, local, known).len(),
    ensures
        match folder_plan(nas, local, known)[k] {
            StepView::Add { name, size, mtime } => {
                &&& exists|i: int|
                    0 <= i < nas.len() && !(#[trigger] nas[i]).is_dir && nas[i].name@ == name
                        && nas[i].size == size && nas[i].mtime == mtime
                &&& forall|i: int| 0 <= i < local.len() ==> (#[trigger] local[i]).name@ != name
                &&& name.len() > 0 ==> name[0] != '#' && name[0] != '@'
            },
            StepView::Update { name, size, mtime } => {
                &&& exists|i: int|
                    0 <= i < nas.len() && !(#[trigger] nas[i]).is_dir && nas[i].name@ == name
                        && nas[i].size == size && nas[i].mtime == mtime
                &&& exists|i: int|
                    0 <= i < local.len() && (#[trigger] local[i]).name@ == name && !local[i].is_dir
                &&& known_stat(known, name) != Some((size, mtime))
                &&& name.len() > 0 ==> name[0] != '#' && name[0] != '@'
            },
            StepView::Remove { name } => {
                &&& exists|i: int|
                    0 <= i < local.len() && (#[trigger] local[i]).name@ == name && !local[i].is_dir
                        && local[i].dehydrated
                &&& forall|i: int|
                    0 <= i < nas.len() && (#[trigger] nas[i]).name@ == name ==> nas[i].is_dir || (
                    name.len() > 0 && (name[0] == '#' || name[0] == '@'))
            },
        },
{
    let a = additions(nas, local);
    let r = removals(nas, local);
    let plan = folder_plan(nas, local, known);
    if k < a.len() {
        lemma_added(nas, local, k);
        assert(plan[k] == a[k]);
        let i = choose|i: int|
            0 <= i < nas.len() && !(#[trigger] nas[i]).is_dir && !on_client(local, nas[i].name@)
                && shown_file(nas[i]) && a[k] == (StepView::Add {
                name: nas[i].name@,
                size: nas[i].size,
                mtime: nas[i].mtime,
            });
        let name = nas[i].name@;
        assert forall|j: int| 0 <= j < local.len() implies (#[trigger] local[j]).name@ != name by {
            if local[j].name@ == name {
                assert(on_client(local, name));
            }
        }
    } else if k < a.len() + r.len() {
        lemma_removed(nas, local, k - a.len());
        assert(plan[k] == r[k - a.len()]);
        let i = choose|i: int|
            0 <= i < local.len() && !(#[trigger] local[i]).is_dir && local[i].dehydrated
                && !on_share(nas, local[i].name@) && r[k - a.len()] == (StepView::Remove {
                name: local[i].name@,
            });
        let name = local[i].name@;
        assert forall|j: int| 0 <= j < nas.len() && (#[trigger] nas[j]).name@ == name implies nas[j].is_dir
            || (name.len() > 0 && (name[0] == '#' || name[0] == '@')) by {
            if shown_file(nas[j]) {
                assert(on_share(nas, name));
            }
        }
    } else {
        lemma_updated(nas, local, known, k - a.len() - r.len());
        assert(plan[k] == updates(nas, local, known)[k - a.len() - r.len()]);
        let u = updates(nas, local, known);
        let i = choose|i: int|
            0 <= i < nas.len() && outdated(#[trigger] nas[i], local, known) && u[k - a.len()
                - r.len()] == (StepView::Update {
                name: nas[i].name@,
                size: nas[i].size,
                mtime: nas[i].mtime,
            });
        let name = nas[i].name@;
        let j = choose|j: int| 0 <= j < local.len() && (#[trigger] local[j]).name@ == name;
        assert(!local[j].is_dir) by {
            if local[j].is_dir {
                assert(dir_on_client(local, name));
            }
        }
        assert(nas[i].size == nas[i].size);
    }
}

/// No file is passed over: a file of the server that the sync root lacks is added, and one of
/// which another size or time is known than the server has is renewed.
pub proof fn law_no_file_is_passed_over(
    nas: Seq<ShareEntry>,
    local: Seq<LocalEntry>,
    known: Seq<(Seq<char>, u64, i64)>,
    i: int,
)
    requires
        0 <= i < nas.len(),
        !nas[i].is_dir,
        nas[i].name@.len() > 0 ==> nas[i].name@[0] != '#' && nas[i].name@[0] != '@',
    ensures
        (forall|j: int| 0 <= j < local.len() ==> (#[trigger] local[j]).name@ != nas[i].name@)
            ==> adds(folder_plan(nas, local, known), nas[i].name@),
        ((exists|j: int| 0 <= j < local.len() && (#[trigger] local[j]).name@ == nas[i].name@) && (
        forall|j: int|
            0 <= j < local.len() && (#[trigger] local[j]).name@ == nas[i].name@
                ==> !local[j].is_dir) && (match known_stat(known, nas[i].name@) {
            Some(v) => v.0 != nas[i].size || v.1 != nas[i].mtime,
            None => true,
        })) ==> renews(folder_plan(nas, local, known), nas[i].name@),
{
    let name = nas[i].name@;
    lemma_additions(nas, local, name);
    lemma_removals(nas, local, name);
    lemma_updates(nas, local, known, name);
    lemma_concat(additions(nas, local), removals(nas, local), name);
    lemma_concat(
        additions(nas, local) + removals(nas, local),
        updates(nas, local, known),
        name,
    );
    assert(shown_file(nas[i]));
    assert(on_share(nas, name));
}

/// A placeholder without content that the server does not have is removed.
pub proof fn law_gone_files_are_removed(
    nas: Seq<ShareEntry>,
    local: Seq<LocalEntry>,
    known: Seq<(Seq<char>, u64, i64)>,
    j: int,
)
    requires
        0 <= j < local.len(),
        !local[j].is_dir,
        local[j].dehydrated,
        forall|i: int| 0 <= i < nas.len() ==> (#[trigger] nas[i]).name@ != local[j].name@,
    ensures
        removes(folder_plan(nas, local, known), local[j].name@),
{
    let name = local[j].name@;
    lemma_additions(nas, local, name);
    lemma_removals(nas, local, name);
    lemma_updates(nas, local, known, name);
    lemma_concat(additions(nas, local), removals(nas, local), name);
    lemma_concat(
        additions(nas, local) + removals(nas, local),
        updates(nas, local, known),
        name,
    );
}

/// What is known of a file is what was last noted under its name.
pub proof fn law_last_note_counts(
    known: Seq<(Seq<char>, u64, i64)>,
    path: Seq<char>,
    size: u64,
    mtime: i64,
    name: Seq<char>,
)
    ensures
        known_stat(known.push((path, size, mtime)), last_part(Platform::Windows, path)) == Some(
            (size, mtime),
        ),
        last_part(Platform::Windows, path) != name ==> known_stat(
            known.push((path, size, mtime)),
            name,
        ) == known_stat(known, name),
        known_stat(Seq::empty(), name) is None,
{
    assert(known.push((path, size, mtime)).drop_last() =~= known);
}

/// Every step counts once, and as what it is.
pub proof fn law_steps_are_counted(t: Tally, s: StepView)
    requires
        t.added < u32::MAX,
        t.removed < u32::MAX,
        t.updated < u32::MAX,
    ensures
        counted(t, s).added + counted(t, s).removed + counted(t, s).updated == t.added + t.removed
            + t.updated + 1,
        counted(t, s).added == t.added + if s is Add { 1int } else { 0 },
        counted(t, s).removed == t.removed + if s is Remove { 1int } else { 0 },
        counted(t, s).updated == t.updated + if s is Update { 1int } else { 0 },
        counted(t, s).checked == t.checked,
        counted(t, s).changed == t.changed,
{
}

/// A visited folder is compared where it is there on both sides and the server's time for it is
/// another one than was noted, or none was; every look is counted, and every comparison once more.
pub proof fn law_changed_folders_are_compared(
    t: &mut Tally,
    client_is_dir: bool,
    nas_mtime: Option<i64>,
    stored: i64,
    r: Option<i64>,
)
    requires
        old(t).checked < u32::MAX,
        old(t).changed < u32::MAX,
        call_ensures(Tally::on_folder, (t, client_is_dir, nas_mtime, stored), r),
    ensures
        nas_mtime is None || !client_is_dir ==> r is None,
        client_is_dir && nas_mtime is Some && nas_mtime->0 != stored ==> r == nas_mtime,
        client_is_dir && nas_mtime is Some && stored == 0 ==> r == nas_mtime,
        client_is_dir && nas_mtime == Some(stored) && stored != 0 ==> r is None,
        final(t).checked == old(t).checked + 1,
        final(t).changed == old(t).changed + if r is Some { 1int } else { 0 },
        final(t).added == old(t).added && final(t).removed == old(t).removed && final(t).updated
            == old(t).updated,
{
}

/// A step that succeeded is counted, and what it did is known of its file; one that failed changes
/// nothing.
pub proof fn law_done_steps_are_recorded(
    t: &mut Tally,
    c: &mut CacheIndex,
    dir: &str,
    step: ReconcileStep,
    ok: bool,
)
    requires
        old(c).wf(),
        old(t).added < u32::MAX,
        old(t).removed < u32::MAX,
        old(t).updated < u32::MAX,
        call_ensures(Tally::on_step, (t, c, dir, &step, ok), ()),
    ensures
        !ok ==> *final(t) == *old(t) && final(c).files() == old(c).files(),
        ok ==> match step {
            ReconcileStep::Add { name, size, mtime } => {
                let p = joined(Platform::Windows, dir@, name@);
                &&& final(t).added == old(t).added + 1
                &&& final(c).files().contains_key(p)
                &&& final(c).files()[p].nas_size == size
                &&& final(c).files()[p].nas_mtime == mtime
            },
            ReconcileStep::Remove { name } => {
                &&& final(t).removed == old(t).removed + 1
                &&& !final(c).files().contains_key(joined(Platform::Windows, dir@, name@))
            },
            ReconcileStep::Update { name, size, mtime } => {
                let p = joined(Platform::Windows, dir@, name@);
                &&& final(t).updated == old(t).updated + 1
                &&& final(c).files()[p].nas_size == size
                &&& final(c).files()[p].nas_mtime == mtime
            },
        },
{
}

/// A visible directory below the sync root is known by its place on the server, and nothing else
/// is.
pub proof fn law_visible_directories_are_known(
    name: &str,
    is_dir: bool,
    path: &str,
    client_root: &str,
    nas_root: &str,
    r: Option<String>,
)
    requires
        call_ensures(seed_folder, (name, is_dir, path, client_root, nas_root), r),
    ensures
        !is_dir ==> r is None,
        name@.len() > 0 && (name@[0] == '.' || name@[0] == '@' || name@[0] == '#') ==> r is None,
        below(Platform::Windows, client_root@, path@) is None ==> r is None,
        is_dir && (name@.len() == 0 || (name@[0] != '.' && name@[0] != '@' && name@[0] != '#'))
            ==> (below(Platform::Windows, client_root@, path@) matches Some(rel) ==> (r matches Some(p)
            && p@ == joined(Platform::Windows, nas_root@, rel))),
{
}

} // verus!
