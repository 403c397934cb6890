//! Paths of the three platforms as texts, and the directories that the agent derives
//! from the environment of its user.
use crate::text::{chars_of, same, starts_with_char, string_range};
use vstd::prelude::*;

verus! {

/// The platforms that the agent runs on.
#[derive(Clone, Copy, Debug, PartialEq, Eq, Structural)]
pub enum Platform {
    Windows,
    Macos,
    Linux,
}

/// What the agent reads from its environment.
#[derive(Clone, Debug, PartialEq, Eq)]
pub struct Environment {
    pub platform: Platform,
    /// The user's home directory (`HOME`).
    pub home: Option<String>,
    /// Where programs keep local data (`LOCALAPPDATA`).
    pub local_app_data: Option<String>,
    /// Where programs keep sockets (`XDG_RUNTIME_DIR`).
    pub runtime_dir: Option<String>,
    /// Where programs keep settings (`XDG_CONFIG_HOME`).
    pub config_home: Option<String>,
    /// The user's name (`USER`).
    pub user: Option<String>,
}

/// `child` below `base` on Unix: an absolute `child` stands for itself.
pub open spec fn unix_join(base: Seq<char>, child: Seq<char>) -> Seq<char> {
    if child.len() > 0 && child[0] == '/' {
        child
    } else if base.len() == 0 || base.last() == '/' {
        base + child
    } else {
        base.push('/') + child
    }
}

pub open spec fn is_sep(c: char) -> bool {
    c == '\\' || c == '/'
}

pub open spec fn is_letter(c: char) -> bool {
    ('a' <= c && c <= 'z') || ('A' <= c && c <= 'Z')
}

/// Whether a Windows path starts with a drive.
pub open spec fn has_drive(s: Seq<char>) -> bool {
    s.len() >= 2 && is_letter(s[0]) && s[1] == ':'
}

/// The position of the first separator at or behind `from`, or the length.
pub open spec fn next_sep(s: Seq<char>, from: int) -> int
    decreases s.len() - from,
{
    if from >= s.len() {
        s.len() as int
    } else if from < 0 || is_sep(s[from]) {
        from
    } else {
        next_sep(s, from + 1)
    }
}

/// Whether a Windows path starts with two separators.
pub open spec fn two_seps(s: Seq<char>) -> bool {
    s.len() >= 2 && is_sep(s[0]) && is_sep(s[1])
}

/// Whether a Windows path starts with a server and one of its shares.
pub open spec fn has_server(s: Seq<char>) -> bool {
    &&& two_seps(s)
    &&& 2 < next_sep(s, 2) < s.len()
    &&& next_sep(s, next_sep(s, 2) + 1) > next_sep(s, 2) + 1
}

/// How much of a Windows path names the drive, or the server and its share.
pub open spec fn prefix_len(s: Seq<char>) -> int {
    if has_drive(s) {
        2
    } else if has_server(s) {
        next_sep(s, next_sep(s, 2) + 1)
    } else {
        0
    }
}

/// `child` below `base` on Windows: one with a drive or a server stands for itself, and one
/// that starts with a separator keeps only the drive or the share of `base`.
pub open spec fn windows_join(base: Seq<char>, child: Seq<char>) -> Seq<char> {
    if has_drive(child) || has_server(child) {
        child
    } else if child.len() > 0 && is_sep(child[0]) {
        base.take(prefix_len(base)) + child
    } else if base.len() == 0 || is_sep(base.last()) || (has_drive(base) && base.len() == 2) {
        base + child
    } else {
        base.push('\\') + child
    }
}

/// `child` below `base`.
pub open spec fn joined(platform: Platform, base: Seq<char>, child: Seq<char>) -> Seq<char> {
    match platform {
        Platform::Windows => windows_join(base, child),
        _ => unix_join(base, child),
    }
}

fn sep(c: char) -> (r: bool)
    ensures
        r == is_sep(c),
{
    c == '\\' || c == '/'
}

fn find_sep(v: &Vec<char>, from: usize) -> (k: usize)
    requires
        from <= v@.len(),
    ensures
        k == next_sep(v@, from as int),
        from <= k <= v@.len(),
{
    let mut k: usize = from;
    while k < v.len() && !sep(v[k])
        invariant
            from <= k <= v@.len(),
            next_sep(v@, from as int) == next_sep(v@, k as int),
        decreases v@.len() - k,
    {
        k += 1;
    }
    k
}

fn drive(v: &Vec<char>) -> (r: bool)
    ensures
        r == has_drive(v@),
{
    v.len() >= 2 && (('a' <= v[0] && v[0] <= 'z') || ('A' <= v[0] && v[0] <= 'Z')) && v[1] == ':'
}

fn server(v: &Vec<char>) -> (r: bool)
    ensures
        r == has_server(v@),
{
    if v.len() >= 2 && sep(v[0]) && sep(v[1]) {
        let s: usize = find_sep(v, 2);
        s > 2 && s < v.len() && find_sep(v, s + 1) > s + 1
    } else {
        false
    }
}

fn prefix(v: &Vec<char>) -> (k: usize)
    ensures
        k == prefix_len(v@),
        k <= v@.len(),
{
    if drive(v) {
        2
    } else if server(v) {
        let s: usize = find_sep(v, 2);
        assert(s < v.len());
        find_sep(v, s + 1)
    } else {
        0
    }
}

/// `child` below `base`.
pub fn join(platform: Platform, base: &str, child: &str) -> (out: String)
    ensures
        out@ == joined(platform, base@, child@),
{
    let b = chars_of(base);
    let c = chars_of(child);
    match platform {
        Platform::Windows => {
            if drive(&c) || server(&c) {
                child.to_owned()
            } else if c.len() > 0 && sep(c[0]) {
                let k: usize = prefix(&b);
                let mut out = string_range(&b, 0, k);
                assert(b@.subrange(0, k as int) =~= b@.take(k as int));
                out.append(child);
                out
            } else if b.len() == 0 || sep(b[b.len() - 1]) || (drive(&b) && b.len() == 2) {
                let mut out = base.to_owned();
                out.append(child);
                out
            } else {
                let mut out = base.to_owned();
                out.push('\\');
                out.append(child);
                out
            }
        },
        _ => {
            if starts_with_char(child, '/') {
                child.to_owned()
            } else {
                let mut out = base.to_owned();
                if b.len() > 0 && b[b.len() - 1] != '/' {
                    out.push('/');
                }
                out.append(child);
                out
            }
        },
    }
}

/// A directory below the home of the user, or the fallback of a user without one.
pub open spec fn home_dir(
    env: Environment,
    below: Seq<char>,
    fallback: Seq<char>,
) -> Seq<char> {
    match env.home {
        Some(home) => joined(env.platform, home@, below),
        None => fallback,
    }
}

/// A directory below the home of the user, or the fallback of a user without one.
pub fn below_home(env: &Environment, below: &str, fallback: &str) -> (out: String)
    ensures
        out@ == home_dir(*env, below@, fallback@),
{
    match &env.home {
        Some(home) => join(env.platform, home.as_str(), below),
        None => fallback.to_owned(),
    }
}

/// A path joined from an ordinary name leads below its base.
pub proof fn law_join_extends_base(base: Seq<char>, child: Seq<char>)
    requires
        child.len() > 0,
        child[0] != '/',
        base.len() > 0,
    ensures
        base.is_prefix_of(unix_join(base, child)),
        child.is_suffix_of(unix_join(base, child)),
{
    let j = unix_join(base, child);
    assert(base =~= j.take(base.len() as int));
    assert(child =~= j.skip(j.len() - child.len()));
    assert(j.subrange(0, base.len() as int) =~= base);
    assert(j.subrange(j.len() - child.len(), j.len() as int) =~= child);
}

pub open spec fn sep_of(platform: Platform, c: char) -> bool {
    match platform {
        Platform::Windows => is_sep(c),
        _ => c == '/',
    }
}

/// A part of a path. A drive is known by its letter, whose case does not count.
pub enum PartView {
    Drive(int),
    Server(Seq<char>, Seq<char>),
    Root,
    /// The current directory, where a path starts with it.
    Here,
    /// The directory above.
    Above,
    Name(Seq<char>),
}

/// A part of a path.
pub enum Part {
    Drive(u32),
    Server(String, String),
    Root,
    Here,
    Above,
    Name(String),
}

impl View for Part {
    type V = PartView;

    open spec fn view(&self) -> PartView {
        match self {
            Part::Drive(n) => PartView::Drive(*n as int),
            Part::Server(a, b) => PartView::Server(a@, b@),
            Part::Root => PartView::Root,
            Part::Here => PartView::Here,
            Part::Above => PartView::Above,
            Part::Name(n) => PartView::Name(n@),
        }
    }
}

pub open spec fn part_views(v: Seq<Part>) -> Seq<PartView> {
    v.map_values(|p: Part| p@)
}

/// How much of a path names a drive, or a server and its share.
pub open spec fn head_len(platform: Platform, s: Seq<char>) -> int {
    match platform {
        Platform::Windows => prefix_len(s),
        _ => 0,
    }
}

/// The place of a letter in the alphabet.
pub open spec fn letter_place(c: char) -> int {
    if 'a' <= c {
        c as int - 'a' as int
    } else {
        c as int - 'A' as int
    }
}

/// The drive, or the server and its share, that a path names.
pub open spec fn head_parts(platform: Platform, s: Seq<char>) -> Seq<PartView> {
    if !(platform is Windows) {
        Seq::empty()
    } else if has_drive(s) {
        seq![PartView::Drive(letter_place(s[0]))]
    } else if has_server(s) {
        let a = next_sep(s, 2);
        seq![PartView::Server(s.subrange(2, a), s.subrange(a + 1, next_sep(s, a + 1)))]
    } else {
        Seq::empty()
    }
}

/// Whether a single dot stands at `i` as a part of its own.
pub open spec fn dot_at(platform: Platform, s: Seq<char>, i: int) -> bool {
    &&& 0 <= i < s.len()
    &&& s[i] == '.'
    &&& i + 1 == s.len() || sep_of(platform, s[i + 1])
}

/// Whether a separator follows the drive or the share, or starts the path.
pub open spec fn has_root(platform: Platform, s: Seq<char>) -> bool {
    head_len(platform, s) < s.len() && sep_of(platform, s[head_len(platform, s)])
}

/// Whether a path starts with the current directory.
pub open spec fn starts_here(platform: Platform, s: Seq<char>) -> bool {
    head_len(platform, s) == 0 && dot_at(platform, s, 0)
}

/// Where the names of a path start.
pub open spec fn front_len(platform: Platform, s: Seq<char>) -> int {
    if has_root(platform, s) || starts_here(platform, s) {
        head_len(platform, s) + 1
    } else {
        head_len(platform, s)
    }
}

/// The parts of a path before its names. A share is its own root.
pub open spec fn lead_parts(platform: Platform, s: Seq<char>) -> Seq<PartView> {
    let head = head_parts(platform, s);
    if has_root(platform, s) || (head.len() > 0 && head[0] is Server) {
        head.push(PartView::Root)
    } else if starts_here(platform, s) {
        head.push(PartView::Here)
    } else {
        head
    }
}

/// Where the next name at or behind `i` starts: separators and single dots are passed over.
pub open spec fn skip_to(platform: Platform, s: Seq<char>, i: int) -> int
    decreases s.len() - i,
{
    if i >= s.len() {
        s.len() as int
    } else if sep_of(platform, s[i]) || dot_at(platform, s, i) {
        skip_to(platform, s, i + 1)
    } else {
        i
    }
}

/// Where the part at `i` ends.
pub open spec fn part_end(platform: Platform, s: Seq<char>, i: int) -> int
    decreases s.len() - i,
{
    if i >= s.len() {
        s.len() as int
    } else if sep_of(platform, s[i]) {
        i
    } else {
        part_end(platform, s, i + 1)
    }
}

/// What a name of a path stands for.
pub open spec fn name_part(name: Seq<char>) -> PartView {
    if name == seq!['.', '.'] {
        PartView::Above
    } else {
        PartView::Name(name)
    }
}

/// The names of a path from `i` on.
pub open spec fn names_from(platform: Platform, s: Seq<char>, i: int) -> Seq<PartView>
    decreases s.len() - i,
{
    let k = skip_to(platform, s, i);
    let e = part_end(platform, s, k);
    if k >= s.len() || !(0 <= i < e <= s.len()) {
        Seq::empty()
    } else {
        seq![name_part(s.subrange(k, e))] + names_from(platform, s, e)
    }
}

/// The parts of a path. Separators in a row count once, and neither those at the end nor single
/// dots count, but for a dot that starts a path.
pub open spec fn parts(platform: Platform, s: Seq<char>) -> Seq<PartView> {
    lead_parts(platform, s) + names_from(platform, s, front_len(platform, s))
}

/// Where the names behind the first `n` from `i` on start.
pub open spec fn after_names(platform: Platform, s: Seq<char>, i: int, n: nat) -> int
    decreases n,
{
    let k = skip_to(platform, s, i);
    if n == 0 || k >= s.len() {
        k
    } else {
        after_names(platform, s, part_end(platform, s, k), (n - 1) as nat)
    }
}

/// Where the names between `from` and `to` end: separators and single dots before `to` are passed
/// over.
pub open spec fn back_to(platform: Platform, s: Seq<char>, from: int, to: int) -> int
    decreases to - from,
{
    if to <= from {
        from
    } else if sep_of(platform, s[to - 1]) || (s[to - 1] == '.' && (to - 1 == from || sep_of(
        platform,
        s[to - 2],
    ))) {
        back_to(platform, s, from, to - 1)
    } else {
        to
    }
}

/// Where the last part before `to` starts.
pub open spec fn last_start(platform: Platform, s: Seq<char>, from: int, to: int) -> int
    decreases to - from,
{
    if to <= from {
        from
    } else if sep_of(platform, s[to - 1]) {
        to
    } else {
        last_start(platform, s, from, to - 1)
    }
}

/// Where the names of a path end.
pub open spec fn names_end(platform: Platform, s: Seq<char>) -> int {
    back_to(platform, s, front_len(platform, s), s.len() as int)
}

/// Where the last name of a path starts.
pub open spec fn name_start(platform: Platform, s: Seq<char>) -> int {
    last_start(platform, s, front_len(platform, s), names_end(platform, s))
}

/// The last name of a path; empty where the path ends with none.
pub open spec fn last_part(platform: Platform, s: Seq<char>) -> Seq<char> {
    let name = s.subrange(name_start(platform, s), names_end(platform, s));
    if name == seq!['.', '.'] {
        Seq::empty()
    } else {
        name
    }
}

/// The directory that holds a path; none for a root and for an empty path.
pub open spec fn parent_dir(platform: Platform, s: Seq<char>) -> Option<Seq<char>> {
    let f = front_len(platform, s);
    if names_end(platform, s) > f {
        Some(s.take(back_to(platform, s, f, name_start(platform, s))))
    } else if starts_here(platform, s) {
        Some(Seq::empty())
    } else {
        None
    }
}

/// The path beside `s` with the given name in place of its last one; a path that ends with no name
/// gets it below.
pub open spec fn with_name(platform: Platform, s: Seq<char>, name: Seq<char>) -> Seq<char> {
    if last_part(platform, s).len() > 0 {
        joined(
            platform,
            s.take(back_to(platform, s, front_len(platform, s), name_start(platform, s))),
            name,
        )
    } else {
        joined(platform, s, name)
    }
}

/// What is left of a path behind its first `n` parts.
pub open spec fn behind(platform: Platform, s: Seq<char>, n: nat) -> Seq<char> {
    let lead = lead_parts(platform, s).len();
    let f = front_len(platform, s);
    if n >= lead {
        let start = after_names(platform, s, f, (n - lead) as nat);
        s.subrange(start, back_to(platform, s, start, s.len() as int))
    } else {
        let start = if n == 0 {
            0
        } else {
            head_len(platform, s)
        };
        s.subrange(start, back_to(platform, s, f, s.len() as int))
    }
}

/// Where `path` lies below `root`, if it does: the parts of `root` are the first ones of `path`.
pub open spec fn below(platform: Platform, root: Seq<char>, path: Seq<char>) -> Option<Seq<char>> {
    if parts(platform, root).is_prefix_of(parts(platform, path)) {
        Some(behind(platform, path, parts(platform, root).len()))
    } else {
        None
    }
}

fn sep_on(platform: Platform, c: char) -> (r: bool)
    ensures
        r == sep_of(platform, c),
{
    match platform {
        Platform::Windows => sep(c),
        _ => c == '/',
    }
}

proof fn lemma_next_sep(s: Seq<char>, from: int)
    requires
        0 <= from <= s.len(),
    ensures
        from <= next_sep(s, from) <= s.len(),
        next_sep(s, from) < s.len() ==> is_sep(s[next_sep(s, from)]),
        forall|i: int| from <= i < next_sep(s, from) ==> !is_sep(#[trigger] s[i]),
    decreases s.len() - from,
{
    if from < s.len() && !is_sep(s[from]) {
        lemma_next_sep(s, from + 1);
    }
}

/// A separator at `k` with none before it, from `from` on, is the next one.
proof fn lemma_next_sep_is(s: Seq<char>, from: int, k: int)
    requires
        0 <= from <= k <= s.len(),
        k < s.len() ==> is_sep(s[k]),
        forall|i: int| from <= i < k ==> !is_sep(#[trigger] s[i]),
    ensures
        next_sep(s, from) == k,
{
    lemma_next_sep(s, from);
    let e = next_sep(s, from);
    if e < k {
        assert(!is_sep(s[e]));
    }
    if k < e {
        assert(!is_sep(s[k]));
    }
}

pub proof fn lemma_front(platform: Platform, s: Seq<char>)
    ensures
        0 <= head_len(platform, s) <= front_len(platform, s) <= s.len(),
        head_parts(platform, s).len() <= 1,
        head_parts(platform, s).len() <= lead_parts(platform, s).len() <= 2,
{
    if platform is Windows && !has_drive(s) && has_server(s) {
        lemma_next_sep(s, 2);
        lemma_next_sep(s, next_sep(s, 2) + 1);
    }
}

pub proof fn lemma_skip_to(platform: Platform, s: Seq<char>, i: int)
    requires
        0 <= i <= s.len(),
    ensures
        i <= skip_to(platform, s, i) <= s.len(),
        skip_to(platform, s, i) < s.len() ==> !sep_of(platform, s[skip_to(platform, s, i)]),
    decreases s.len() - i,
{
    if i < s.len() && (sep_of(platform, s[i]) || dot_at(platform, s, i)) {
        lemma_skip_to(platform, s, i + 1);
    }
}

pub proof fn lemma_part_end(platform: Platform, s: Seq<char>, i: int)
    requires
        0 <= i <= s.len(),
    ensures
        i <= part_end(platform, s, i) <= s.len(),
        i < s.len() && !sep_of(platform, s[i]) ==> i < part_end(platform, s, i),
    decreases s.len() - i,
{
    if i < s.len() && !sep_of(platform, s[i]) {
        lemma_part_end(platform, s, i + 1);
    }
}

pub proof fn lemma_back_to(platform: Platform, s: Seq<char>, from: int, to: int)
    requires
        0 <= from <= to <= s.len(),
    ensures
        from <= back_to(platform, s, from, to) <= to,
        from < back_to(platform, s, from, to) ==> !sep_of(
            platform,
            s[back_to(platform, s, from, to) - 1],
        ),
    decreases to - from,
{
    if to > from && (sep_of(platform, s[to - 1]) || (s[to - 1] == '.' && (to - 1 == from || sep_of(
        platform,
        s[to - 2],
    )))) {
        lemma_back_to(platform, s, from, to - 1);
    }
}

pub proof fn lemma_last_start(platform: Platform, s: Seq<char>, from: int, to: int)
    requires
        0 <= from <= to <= s.len(),
    ensures
        from <= last_start(platform, s, from, to) <= to,
        from < to && !sep_of(platform, s[to - 1]) ==> last_start(platform, s, from, to) < to,
        forall|i: int|
            last_start(platform, s, from, to) <= i < to ==> !sep_of(platform, #[trigger] s[i]),
    decreases to - from,
{
    if to > from && !sep_of(platform, s[to - 1]) {
        lemma_last_start(platform, s, from, to - 1);
    }
}

pub proof fn lemma_name_start(platform: Platform, s: Seq<char>)
    ensures
        0 <= front_len(platform, s) <= name_start(platform, s) <= names_end(platform, s) <= s.len(),
{
    lemma_front(platform, s);
    lemma_back_to(platform, s, front_len(platform, s), s.len() as int);
    lemma_last_start(platform, s, front_len(platform, s), names_end(platform, s));
}

/// A path is longer than the one of the directory that holds it.
pub proof fn lemma_parent_is_shorter(platform: Platform, s: Seq<char>)
    ensures
        parent_dir(platform, s) matches Some(up) ==> up.len() < s.len(),
{
    let f = front_len(platform, s);
    let e = names_end(platform, s);
    lemma_front(platform, s);
    lemma_name_start(platform, s);
    lemma_back_to(platform, s, f, s.len() as int);
    lemma_last_start(platform, s, f, e);
    lemma_back_to(platform, s, f, name_start(platform, s));
}

fn head_of(platform: Platform, v: &Vec<char>) -> (k: usize)
    ensures
        k == head_len(platform, v@),
        k <= v@.len(),
{
    match platform {
        Platform::Windows => prefix(v),
        _ => 0,
    }
}

fn front_of(platform: Platform, v: &Vec<char>) -> (k: usize)
    ensures
        k == front_len(platform, v@),
        k <= v@.len(),
{
    let h: usize = head_of(platform, v);
    if h < v.len() && sep_on(platform, v[h]) {
        h + 1
    } else if h == 0 && v.len() > 0 && v[0] == '.' && (v.len() == 1 || sep_on(platform, v[1])) {
        1
    } else {
        h
    }
}

fn skip_from(platform: Platform, v: &Vec<char>, from: usize) -> (k: usize)
    requires
        from <= v@.len(),
    ensures
        k == skip_to(platform, v@, from as int),
        from <= k <= v@.len(),
        k < v@.len() ==> !sep_of(platform, v@[k as int]),
{
    let mut k: usize = from;
    while k < v.len() && (sep_on(platform, v[k]) || (v[k] == '.' && (k + 1 == v.len() || sep_on(
        platform,
        v[k + 1],
    ))))
        invariant
            from <= k <= v@.len(),
            skip_to(platform, v@, from as int) == skip_to(platform, v@, k as int),
        decreases v@.len() - k,
    {
        k += 1;
    }
    k
}

fn end_of_part(platform: Platform, v: &Vec<char>, from: usize) -> (k: usize)
    requires
        from <= v@.len(),
    ensures
        k == part_end(platform, v@, from as int),
        from <= k <= v@.len(),
        from < v@.len() && !sep_of(platform, v@[from as int]) ==> from < k,
{
    let mut k: usize = from;
    while k < v.len() && !sep_on(platform, v[k])
        invariant
            from <= k <= v@.len(),
            part_end(platform, v@, from as int) == part_end(platform, v@, k as int),
        decreases v@.len() - k,
    {
        k += 1;
    }
    proof {
        lemma_part_end(platform, v@, from as int);
    }
    k
}

fn back_from(platform: Platform, v: &Vec<char>, from: usize, to: usize) -> (k: usize)
    requires
        from <= to <= v@.len(),
    ensures
        k == back_to(platform, v@, from as int, to as int),
        from <= k <= to,
{
    let mut k: usize = to;
    while k > from && (sep_on(platform, v[k - 1]) || (v[k - 1] == '.' && (k - 1 == from || sep_on(
        platform,
        v[k - 2],
    ))))
        invariant
            from <= k <= to <= v@.len(),
            back_to(platform, v@, from as int, to as int) == back_to(
                platform,
                v@,
                from as int,
                k as int,
            ),
        decreases k,
    {
        k -= 1;
    }
    k
}

fn start_of_last(platform: Platform, v: &Vec<char>, from: usize, to: usize) -> (k: usize)
    requires
        from <= to <= v@.len(),
    ensures
        k == last_start(platform, v@, from as int, to as int),
        from <= k <= to,
{
    let mut k: usize = to;
    while k > from && !sep_on(platform, v[k - 1])
        invariant
            from <= k <= to <= v@.len(),
            last_start(platform, v@, from as int, to as int) == last_start(
                platform,
                v@,
                from as int,
                k as int,
            ),
        decreases k,
    {
        k -= 1;
    }
    k
}

/// The last name of a path; empty where the path ends with none.
pub fn file_name(platform: Platform, path: &str) -> (out: String)
    ensures
        out@ == last_part(platform, path@),
{
    let v = chars_of(path);
    let f: usize = front_of(platform, &v);
    let e: usize = back_from(platform, &v, f, v.len());
    let k: usize = start_of_last(platform, &v, f, e);
    if e - k == 2 && v[k] == '.' && v[k + 1] == '.' {
        assert(v@.subrange(k as int, e as int) =~= seq!['.', '.']);
        let out = String::new();
        assert(out@ =~= Seq::<char>::empty());
        out
    } else {
        proof {
            let name = v@.subrange(k as int, e as int);
            if name == seq!['.', '.'] {
                assert(name.len() == 2 && name[0] == '.' && name[1] == '.');
            }
        }
        string_range(&v, k, e)
    }
}

/// The directory that holds a path; none for a root and for an empty path.
pub fn parent_of_path(platform: Platform, path: &str) -> (out: Option<String>)
    ensures
        out matches Some(p) ==> parent_dir(platform, path@) == Some(p@),
        out is None ==> parent_dir(platform, path@) is None,
{
    let v = chars_of(path);
    let f: usize = front_of(platform, &v);
    let e: usize = back_from(platform, &v, f, v.len());
    if e > f {
        let k: usize = start_of_last(platform, &v, f, e);
        let b: usize = back_from(platform, &v, f, k);
        let out = string_range(&v, 0, b);
        assert(out@ =~= v@.take(b as int));
        Some(out)
    } else if head_of(platform, &v) == 0 && v.len() > 0 && v[0] == '.' && (v.len() == 1 || sep_on(
        platform,
        v[1],
    )) {
        let out = String::new();
        assert(out@ =~= Seq::<char>::empty());
        Some(out)
    } else {
        None
    }
}

/// The path beside `path` with the given name in place of its last one; a path that ends with no
/// name gets it below.
pub fn with_file_name(platform: Platform, path: &str, name: &str) -> (out: String)
    ensures
        out@ == with_name(platform, path@, name@),
{
    let last = file_name(platform, path);
    if last.as_str().is_empty() {
        join(platform, path, name)
    } else {
        let v = chars_of(path);
        let f: usize = front_of(platform, &v);
        let e: usize = back_from(platform, &v, f, v.len());
        let k: usize = start_of_last(platform, &v, f, e);
        let b: usize = back_from(platform, &v, f, k);
        let dir = string_range(&v, 0, b);
        assert(dir@ =~= v@.take(b as int));
        join(platform, dir.as_str(), name)
    }
}

fn lead_of(platform: Platform, v: &Vec<char>) -> (out: Vec<Part>)
    ensures
        part_views(out@) == lead_parts(platform, v@),
{
    let mut out: Vec<Part> = Vec::new();
    assert(part_views(out@) =~= Seq::<PartView>::empty());
    let mut share = false;
    let windows = match platform {
        Platform::Windows => true,
        _ => false,
    };
    if windows {
        if drive(v) {
            let place: u32 = if 'a' <= v[0] {
                v[0] as u32 - 97
            } else {
                v[0] as u32 - 65
            };
            out.push(Part::Drive(place));
        } else if server(v) {
            let a: usize = find_sep(v, 2);
            assert(a < v.len());
            let b: usize = find_sep(v, a + 1);
            out.push(Part::Server(string_range(v, 2, a), string_range(v, a + 1, b)));
            share = true;
        }
    }
    assert(part_views(out@) =~= head_parts(platform, v@));
    let ghost head = part_views(out@);
    let h: usize = head_of(platform, v);
    if share || (h < v.len() && sep_on(platform, v[h])) {
        out.push(Part::Root);
        assert(part_views(out@) =~= head.push(PartView::Root));
    } else if h == 0 && v.len() > 0 && v[0] == '.' && (v.len() == 1 || sep_on(platform, v[1])) {
        out.push(Part::Here);
        assert(part_views(out@) =~= head.push(PartView::Here));
    }
    out
}

/// The parts of a path.
pub fn parts_of(platform: Platform, path: &str) -> (out: Vec<Part>)
    ensures
        part_views(out@) == parts(platform, path@),
{
    let v = chars_of(path);
    let mut out = lead_of(platform, &v);
    let ghost lead = part_views(out@);
    let mut i: usize = front_of(platform, &v);
    let ghost all = names_from(platform, v@, i as int);
    assert(lead + all =~= part_views(out@) + names_from(platform, v@, i as int));
    let mut k: usize = skip_from(platform, &v, i);
    while k < v.len()
        invariant
            i <= k <= v@.len(),
            k == skip_to(platform, v@, i as int),
            k < v@.len() ==> !sep_of(platform, v@[k as int]),
            lead + all == part_views(out@) + names_from(platform, v@, i as int),
        decreases v@.len() - i,
    {
        let e: usize = end_of_part(platform, &v, k);
        let ghost before = part_views(out@);
        let ghost name = v@.subrange(k as int, e as int);
        if e - k == 2 && v[k] == '.' && v[k + 1] == '.' {
            assert(name =~= seq!['.', '.']);
            out.push(Part::Above);
        } else {
            assert(name != seq!['.', '.']) by {
                if name == seq!['.', '.'] {
                    assert(name.len() == 2 && name[0] == '.' && name[1] == '.');
                }
            }
            out.push(Part::Name(string_range(&v, k, e)));
        }
        assert(part_views(out@) =~= before.push(name_part(name)));
        assert(before + (seq![name_part(name)] + names_from(platform, v@, e as int)) =~= part_views(
            out@,
        ) + names_from(platform, v@, e as int));
        i = e;
        k = skip_from(platform, &v, i);
    }
    assert(names_from(platform, v@, i as int) =~= Seq::<PartView>::empty());
    assert(part_views(out@) =~= lead + all);
    out
}

fn same_part(a: &Part, b: &Part) -> (r: bool)
    ensures
        r == (a@ == b@),
{
    match (a, b) {
        (Part::Drive(x), Part::Drive(y)) => *x == *y,
        (Part::Server(x, s), Part::Server(y, t)) => same(x.as_str(), y.as_str()) && same(
            s.as_str(),
            t.as_str(),
        ),
        (Part::Root, Part::Root) => true,
        (Part::Here, Part::Here) => true,
        (Part::Above, Part::Above) => true,
        (Part::Name(x), Part::Name(y)) => same(x.as_str(), y.as_str()),
        _ => false,
    }
}

fn text_behind(platform: Platform, path: &str, n: usize) -> (out: String)
    ensures
        out@ == behind(platform, path@, n as nat),
{
    let v = chars_of(path);
    let lead: usize = lead_of(platform, &v).len();
    let f: usize = front_of(platform, &v);
    if n >= lead {
        let mut left: usize = n - lead;
        let mut k: usize = skip_from(platform, &v, f);
        let ghost start = after_names(platform, v@, f as int, left as nat);
        while left > 0 && k < v.len()
            invariant
                k <= v@.len(),
                k < v@.len() ==> !sep_of(platform, v@[k as int]),
                start == if left == 0 || k >= v@.len() {
                    k as int
                } else {
                    after_names(
                        platform,
                        v@,
                        part_end(platform, v@, k as int),
                        (left - 1) as nat,
                    )
                },
            decreases left,
        {
            let e: usize = end_of_part(platform, &v, k);
            k = skip_from(platform, &v, e);
            left -= 1;
        }
        let e: usize = back_from(platform, &v, k, v.len());
        string_range(&v, k, e)
    } else {
        let start: usize = if n == 0 {
            0
        } else {
            head_of(platform, &v)
        };
        let e: usize = back_from(platform, &v, f, v.len());
        proof {
            lemma_front(platform, v@);
        }
        string_range(&v, start, e)
    }
}

/// Where `path` lies below `root`, if it does.
pub fn strip_prefix(platform: Platform, root: &str, path: &str) -> (out: Option<String>)
    ensures
        out matches Some(s) ==> below(platform, root@, path@) == Some(s@),
        out is None ==> below(platform, root@, path@) is None,
{
    let r = parts_of(platform, root);
    let p = parts_of(platform, path);
    let ghost rs = part_views(r@);
    let ghost ps = part_views(p@);
    if r.len() > p.len() {
        return None;
    }
    let mut i: usize = 0;
    while i < r.len()
        invariant
            i <= r@.len() <= p@.len(),
            rs == part_views(r@),
            ps == part_views(p@),
            rs == parts(platform, root@),
            ps == parts(platform, path@),
            forall|j: int| 0 <= j < i ==> rs[j] == ps[j],
        decreases r@.len() - i,
    {
        if !same_part(&r[i], &p[i]) {
            assert(rs[i as int] != ps[i as int]);
            assert(!rs.is_prefix_of(ps));
            return None;
        }
        i += 1;
    }
    assert(rs =~= ps.subrange(0, rs.len() as int));
    Some(text_behind(platform, path, r.len()))
}

proof fn lemma_last_start_is(platform: Platform, s: Seq<char>, from: int, to: int, k: int)
    requires
        0 <= from <= k <= to <= s.len(),
        k == from || sep_of(platform, s[k - 1]),
        forall|i: int| k <= i < to ==> !sep_of(platform, #[trigger] s[i]),
    ensures
        last_start(platform, s, from, to) == k,
    decreases to - from,
{
    if k < to {
        assert(!sep_of(platform, s[to - 1]));
        lemma_last_start_is(platform, s, from, to - 1, k);
    }
}

/// What stands before `child` in the path that joins it to `base`.
spec fn join_base(platform: Platform, base: Seq<char>, child: Seq<char>) -> Seq<char> {
    let j = joined(platform, base, child);
    j.take(j.len() - child.len())
}

/// Whether a name can be joined as a part of its own: it starts with no separator and no drive.
pub open spec fn joins_below(platform: Platform, child: Seq<char>) -> bool {
    &&& child.len() > 0
    &&& !sep_of(platform, child[0])
    &&& platform is Windows ==> !has_drive(child)
}

/// Whether a path can be a base: one that starts with two separators names a server and a share.
pub open spec fn can_be_base(platform: Platform, base: Seq<char>) -> bool {
    platform is Windows && two_seps(base) ==> has_server(base)
}

proof fn lemma_join_base(platform: Platform, base: Seq<char>, child: Seq<char>)
    requires
        joins_below(platform, child),
    ensures
        ({
            let j = joined(platform, base, child);
            let d = join_base(platform, base, child);
            &&& j == d + child
            &&& d == base || (exists|c: char| #[trigger]
                sep_of(platform, c) && d == base.push(c) && base.len() > 0 && !sep_of(
                    platform,
                    base.last(),
                ))
            &&& d.len() == 0 || sep_of(platform, d.last()) || (platform is Windows && has_drive(d)
                && d.len() == 2 && d == base)
        }),
{
    let j = joined(platform, base, child);
    let d = join_base(platform, base, child);
    if platform is Windows {
        assert(!has_server(child));
        let c = '\\';
        assert(sep_of(platform, c));
        if base.len() == 0 || is_sep(base.last()) || (has_drive(base) && base.len() == 2) {
            assert(d =~= base);
        } else {
            assert(d =~= base.push(c));
        }
    } else {
        let c = '/';
        assert(sep_of(platform, c));
        if base.len() == 0 || base.last() == '/' {
            assert(d =~= base);
        } else {
            assert(d =~= base.push(c));
        }
    }
    assert(j =~= d + child);
}

/// A path that starts with a server and a share keeps them when it grows behind a separator.
proof fn lemma_server_kept(s: Seq<char>, t: Seq<char>)
    requires
        has_server(s),
        prefix_len(s) <= t.len(),
        t.take(prefix_len(s)) == s.take(prefix_len(s)),
        t.len() > prefix_len(s) ==> is_sep(t[prefix_len(s)]),
    ensures
        has_server(t),
        prefix_len(t) == prefix_len(s),
        head_parts(Platform::Windows, t) == head_parts(Platform::Windows, s),
{
    let a = next_sep(s, 2);
    let e = next_sep(s, a + 1);
    lemma_next_sep(s, 2);
    lemma_next_sep(s, a + 1);
    assert(e == prefix_len(s));
    assert forall|i: int| 0 <= i < e implies #[trigger] t[i] == s[i] by {
        assert(t[i] == t.take(e)[i]);
        assert(s[i] == s.take(e)[i]);
    }
    assert forall|i: int| 2 <= i < a implies !is_sep(#[trigger] t[i]) by {
        assert(!is_sep(s[i]));
    }
    lemma_next_sep_is(t, 2, a);
    assert forall|i: int| a + 1 <= i < e implies !is_sep(#[trigger] t[i]) by {
        assert(!is_sep(s[i]));
    }
    lemma_next_sep_is(t, a + 1, e);
    assert(t.subrange(2, a) =~= s.subrange(2, a));
    assert(t.subrange(a + 1, e) =~= s.subrange(a + 1, e));
}

/// Joining keeps what stands before the names of the base.
proof fn lemma_join_lead(platform: Platform, base: Seq<char>, child: Seq<char>)
    requires
        joins_below(platform, child),
        can_be_base(platform, base),
    ensures
        ({
            let j = joined(platform, base, child);
            let d = join_base(platform, base, child);
            &&& head_len(platform, j) <= front_len(platform, j)
            &&& base.len() > 0 ==> front_len(platform, j) <= d.len()
            &&& base.len() > 0 ==> lead_parts(platform, j) == lead_parts(platform, base)
            &&& base.len() > 0 ==> front_len(platform, j) == front_len(platform, base) || (
            front_len(platform, base) == base.len() && front_len(platform, j) == d.len())
        }),
{
    lemma_join_base(platform, base, child);
    let j = joined(platform, base, child);
    let d = join_base(platform, base, child);
    lemma_front(platform, j);
    lemma_front(platform, base);
    if base.len() > 0 {
        assert(j[0] == base[0]);
        assert(d.len() <= base.len() + 1);
        assert forall|i: int| 0 <= i < base.len() implies #[trigger] j[i] == base[i] by {
            assert(j[i] == d[i]);
        }
        if base.len() == 1 {
            if d.len() == 1 {
                assert(j[1] == child[0]);
            } else {
                assert(j[1] == d[1]);
            }
        }
        if platform is Windows {
            assert(has_drive(j) == has_drive(base));
            assert(two_seps(j) == two_seps(base));
            if !has_drive(base) && has_server(base) {
                let e = prefix_len(base);
                assert(j.take(e) =~= base.take(e));
                lemma_next_sep(base, 2);
                lemma_next_sep(base, next_sep(base, 2) + 1);
                if e == base.len() {
                    assert(!is_sep(base[e - 1]));
                    assert(d.len() == e + 1 && j[e] == d[e]);
                }
                lemma_server_kept(base, j);
            } else if !has_drive(base) {
                assert(!has_server(j));
            }
        }
        assert(head_len(platform, j) == head_len(platform, base));
        assert(head_parts(platform, j) =~= head_parts(platform, base));
        let h = head_len(platform, base);
        if h == base.len() {
            if d.len() > base.len() {
                assert(j[h] == d[h]);
            } else {
                assert(j[h] == child[0]);
            }
        } else {
            assert(j[h] == base[h]);
        }
    }
}

/// The last name of a path is the one that was joined to its directory.
pub proof fn lemma_last_part_joined(platform: Platform, dir: Seq<char>, name: Seq<char>)
    requires
        joins_below(platform, name),
        can_be_base(platform, dir),
        forall|i: int| 0 <= i < name.len() ==> !sep_of(platform, #[trigger] name[i]),
        name != seq!['.'],
        name != seq!['.', '.'],
    ensures
        last_part(platform, joined(platform, dir, name)) == name,
{
    let j = joined(platform, dir, name);
    let d = join_base(platform, dir, name);
    lemma_join_base(platform, dir, name);
    lemma_join_lead(platform, dir, name);
    lemma_front(platform, j);
    let f = front_len(platform, j);
    assert forall|i: int| d.len() <= i < j.len() implies !sep_of(platform, #[trigger] j[i]) by {
        assert(j[i] == name[i - d.len()]);
    }
    if name.len() == 1 {
        assert(name[0] != '.') by {
            if name[0] == '.' {
                assert(name =~= seq!['.']);
            }
        }
    }
    if dir.len() == 0 {
        assert(d =~= Seq::<char>::empty());
        assert(j =~= name);
        assert(f == 0);
    }
    assert(!sep_of(platform, j[j.len() - 1]));
    assert(j[j.len() - 1] == name.last());
    assert(names_end(platform, j) == j.len()) by {
        if name.len() > 1 {
            assert(j[j.len() - 2] == name[name.len() - 2]);
        }
    }
    if d.len() > 0 {
        assert(j[d.len() - 1] == d.last());
    }
    if platform is Windows && has_drive(d) && d.len() == 2 && d == dir {
        assert(f == 2);
    }
    lemma_last_start_is(platform, j, f, j.len() as int, d.len() as int);
    assert(j.subrange(d.len() as int, j.len() as int) =~= name);
}

/// A path whose last name was replaced ends with the new one.
pub proof fn lemma_with_name(platform: Platform, s: Seq<char>, name: Seq<char>)
    requires
        joins_below(platform, name),
        can_be_base(platform, s),
        forall|i: int| 0 <= i < name.len() ==> !sep_of(platform, #[trigger] name[i]),
        name != seq!['.'],
        name != seq!['.', '.'],
    ensures
        last_part(platform, with_name(platform, s, name)) == name,
{
    if last_part(platform, s).len() > 0 {
        lemma_name_start(platform, s);
        let f = front_len(platform, s);
        let k = name_start(platform, s);
        lemma_back_to(platform, s, f, k);
        let b = back_to(platform, s, f, k);
        let dir = s.take(b);
        if platform is Windows && two_seps(dir) {
            assert(dir[0] == s[0] && dir[1] == s[1]);
            assert(two_seps(s));
            assert(!has_drive(s));
            let e = prefix_len(s);
            lemma_front(platform, s);
            assert(dir.take(e) =~= s.take(e));
            lemma_next_sep(s, 2);
            lemma_next_sep(s, next_sep(s, 2) + 1);
            lemma_server_kept(s, dir);
        }
        lemma_last_part_joined(platform, dir, name);
    } else {
        lemma_last_part_joined(platform, s, name);
    }
}

proof fn lemma_shifted(platform: Platform, a: Seq<char>, b: Seq<char>, x: int)
    requires
        0 <= x <= b.len(),
    ensures
        skip_to(platform, a + b, a.len() + x) == a.len() + skip_to(platform, b, x),
        part_end(platform, a + b, a.len() + x) == a.len() + part_end(platform, b, x),
    decreases b.len() - x,
{
    let t = a + b;
    if x < b.len() {
        assert(t[a.len() + x] == b[x]);
        if x + 1 < b.len() {
            assert(t[a.len() + x + 1] == b[x + 1]);
        }
        lemma_shifted(platform, a, b, x + 1);
    }
}

proof fn lemma_names_shifted(platform: Platform, a: Seq<char>, b: Seq<char>, x: int)
    requires
        0 <= x <= b.len(),
    ensures
        names_from(platform, a + b, a.len() + x) == names_from(platform, b, x),
    decreases b.len() - x,
{
    lemma_shifted(platform, a, b, x);
    lemma_skip_to(platform, b, x);
    let k = skip_to(platform, b, x);
    lemma_part_end(platform, b, k);
    lemma_shifted(platform, a, b, k);
    let e = part_end(platform, b, k);
    if k < b.len() {
        lemma_names_shifted(platform, a, b, e);
        assert((a + b).subrange(a.len() + k, a.len() + e) =~= b.subrange(k, e));
    }
}

proof fn lemma_back_shifted(platform: Platform, a: Seq<char>, b: Seq<char>, from: int, to: int)
    requires
        0 <= from <= to <= b.len(),
    ensures
        back_to(platform, a + b, a.len() + from, a.len() + to) == a.len() + back_to(
            platform,
            b,
            from,
            to,
        ),
    decreases to - from,
{
    let t = a + b;
    if to > from {
        assert(t[a.len() + to - 1] == b[to - 1]);
        if to - 1 > from {
            assert(t[a.len() + to - 2] == b[to - 2]);
        }
        lemma_back_shifted(platform, a, b, from, to - 1);
    }
}

/// Up to a separator at its end, a text is read the same whatever follows it.
proof fn lemma_read_alike(platform: Platform, a: Seq<char>, b: Seq<char>, i: int)
    requires
        0 <= i <= a.len(),
        i < a.len() ==> sep_of(platform, a.last()),
    ensures
        ({
            let t = a + b;
            let k = skip_to(platform, a, i);
            &&& k < a.len() ==> skip_to(platform, t, i) == k
            &&& k >= a.len() ==> skip_to(platform, t, i) == a.len() + skip_to(platform, b, 0)
            &&& i < a.len() ==> part_end(platform, t, i) == part_end(platform, a, i) && part_end(
                platform,
                a,
                i,
            ) < a.len()
        }),
    decreases a.len() - i,
{
    let t = a + b;
    if i == a.len() {
        lemma_shifted(platform, a, b, 0);
    } else {
        assert(t[i] == a[i]);
        if i + 1 < a.len() {
            assert(t[i + 1] == a[i + 1]);
        } else {
            assert(a[i] == a.last());
        }
        lemma_read_alike(platform, a, b, i + 1);
    }
}

proof fn lemma_names_concat(platform: Platform, a: Seq<char>, b: Seq<char>, i: int)
    requires
        0 <= i <= a.len(),
        i < a.len() ==> sep_of(platform, a.last()),
    ensures
        names_from(platform, a + b, i) == names_from(platform, a, i) + names_from(platform, b, 0),
        after_names(platform, a + b, i, names_from(platform, a, i).len()) == a.len() + skip_to(
            platform,
            b,
            0,
        ),
    decreases a.len() - i,
{
    let t = a + b;
    lemma_read_alike(platform, a, b, i);
    lemma_skip_to(platform, a, i);
    lemma_skip_to(platform, t, i);
    let k = skip_to(platform, a, i);
    if k < a.len() {
        lemma_read_alike(platform, a, b, k);
        lemma_part_end(platform, a, k);
        let e = part_end(platform, a, k);
        assert(t.subrange(k, e) =~= a.subrange(k, e));
        lemma_names_concat(platform, a, b, e);
        let first = seq![name_part(a.subrange(k, e))];
        assert(first + (names_from(platform, a, e) + names_from(platform, b, 0)) =~= (first
            + names_from(platform, a, e)) + names_from(platform, b, 0));
        assert(names_from(platform, a, i).len() == 1 + names_from(platform, a, e).len());
    } else {
        assert(names_from(platform, a, i) =~= Seq::<PartView>::empty());
        lemma_shifted(platform, a, b, 0);
        lemma_names_shifted(platform, a, b, 0);
        let m = skip_to(platform, t, i);
        lemma_part_end(platform, t, m);
        lemma_skip_to(platform, t, a.len() as int);
        if m < t.len() {
            let e = part_end(platform, t, m);
            assert(skip_to(platform, t, a.len() as int) == m);
            assert(names_from(platform, t, i) == names_from(platform, t, a.len() as int));
        }
        assert(Seq::<PartView>::empty() + names_from(platform, b, 0) =~= names_from(
            platform,
            b,
            0,
        ));
    }
}

/// A separator at the end changes nothing of the names.
proof fn lemma_names_push_sep(platform: Platform, a: Seq<char>, c: char, i: int)
    requires
        0 <= i <= a.len(),
        sep_of(platform, c),
    ensures
        names_from(platform, a.push(c), i) == names_from(platform, a, i),
    decreases a.len() - i,
{
    let t = a.push(c);
    lemma_push_alike(platform, a, c, i);
    lemma_skip_to(platform, a, i);
    let k = skip_to(platform, a, i);
    if k < a.len() {
        lemma_push_alike(platform, a, c, k);
        lemma_part_end(platform, a, k);
        let e = part_end(platform, a, k);
        assert(t.subrange(k, e) =~= a.subrange(k, e));
        lemma_names_push_sep(platform, a, c, e);
    }
}

proof fn lemma_push_alike(platform: Platform, a: Seq<char>, c: char, i: int)
    requires
        0 <= i <= a.len(),
        sep_of(platform, c),
    ensures
        ({
            let t = a.push(c);
            let k = skip_to(platform, a, i);
            &&& k < a.len() ==> skip_to(platform, t, i) == k
            &&& k >= a.len() ==> skip_to(platform, t, i) == t.len()
            &&& part_end(platform, t, i) == part_end(platform, a, i)
        }),
    decreases a.len() - i,
{
    let t = a.push(c);
    if i < a.len() {
        assert(t[i] == a[i]);
        if i + 1 < a.len() {
            assert(t[i + 1] == a[i + 1]);
        } else {
            assert(t[i + 1] == c);
        }
        lemma_push_alike(platform, a, c, i + 1);
    } else {
        assert(t[i] == c);
        reveal_with_fuel(skip_to, 3);
    }
}

/// The names of a joined path are those of the base and those that were joined to it.
proof fn lemma_join_names(platform: Platform, base: Seq<char>, child: Seq<char>)
    requires
        base.len() > 0,
        can_be_base(platform, base),
        joins_below(platform, child),
    ensures
        ({
            let j = joined(platform, base, child);
            let names = names_from(platform, base, front_len(platform, base));
            &&& names_from(platform, j, front_len(platform, j)) == names + names_from(
                platform,
                child,
                0,
            )
            &&& after_names(platform, j, front_len(platform, j), names.len()) == join_base(
                platform,
                base,
                child,
            ).len() + skip_to(platform, child, 0)
        }),
{
    let j = joined(platform, base, child);
    let d = join_base(platform, base, child);
    lemma_join_base(platform, base, child);
    lemma_join_lead(platform, base, child);
    lemma_front(platform, base);
    let fr = front_len(platform, base);
    let fj = front_len(platform, j);
    lemma_front(platform, j);
    assert(names_from(platform, d, fj) == names_from(platform, base, fr)) by {
        if d != base {
            let c = choose|c: char| #[trigger] sep_of(platform, c) && d == base.push(c);
            lemma_names_push_sep(platform, base, c, fr);
            if fj != fr {
                assert(names_from(platform, base, fr) =~= Seq::<PartView>::empty());
                assert(names_from(platform, d, fj) =~= Seq::<PartView>::empty());
            }
        }
    }
    lemma_names_concat(platform, d, child, fj);
}

/// A path without what does not count at its ends: separators and single dots.
pub open spec fn trimmed_path(platform: Platform, s: Seq<char>) -> Seq<char> {
    let k = skip_to(platform, s, 0);
    s.subrange(k, back_to(platform, s, k, s.len() as int))
}

/// What lies below a directory is found there again.
pub proof fn law_joined_path_lies_below(platform: Platform, root: Seq<char>, child: Seq<char>)
    requires
        root.len() > 0,
        can_be_base(platform, root),
        joins_below(platform, child),
    ensures
        below(platform, root, joined(platform, root, child)) == Some(trimmed_path(platform, child)),
{
    let j = joined(platform, root, child);
    let d = join_base(platform, root, child);
    lemma_join_base(platform, root, child);
    lemma_join_lead(platform, root, child);
    lemma_join_names(platform, root, child);
    let names = names_from(platform, root, front_len(platform, root));
    let lead = lead_parts(platform, root);
    let own = parts(platform, root);
    assert(parts(platform, j) =~= own + names_from(platform, child, 0));
    assert(own =~= parts(platform, j).subrange(0, own.len() as int));
    assert(own.len() - lead.len() == names.len());
    let k = skip_to(platform, child, 0);
    lemma_skip_to(platform, child, 0);
    lemma_back_shifted(platform, d, child, k, child.len() as int);
    lemma_back_to(platform, child, k, child.len() as int);
    let e = back_to(platform, child, k, child.len() as int);
    assert(j.subrange(d.len() + k, d.len() + e) =~= child.subrange(k, e));
}

proof fn lemma_after_all_names(platform: Platform, s: Seq<char>, i: int)
    requires
        0 <= i <= s.len(),
    ensures
        after_names(platform, s, i, names_from(platform, s, i).len()) == s.len(),
    decreases s.len() - i,
{
    lemma_skip_to(platform, s, i);
    let k = skip_to(platform, s, i);
    lemma_part_end(platform, s, k);
    if k < s.len() {
        let e = part_end(platform, s, k);
        lemma_after_all_names(platform, s, e);
        assert(names_from(platform, s, i).len() == 1 + names_from(platform, s, e).len());
    }
}

/// A path lies below itself, with nothing in between.
pub proof fn law_path_lies_below_itself(platform: Platform, s: Seq<char>)
    ensures
        below(platform, s, s) == Some(Seq::<char>::empty()),
{
    let f = front_len(platform, s);
    lemma_front(platform, s);
    lemma_after_all_names(platform, s, f);
    let own = parts(platform, s);
    assert(own =~= own.subrange(0, own.len() as int));
    assert(own.len() - lead_parts(platform, s).len() == names_from(platform, s, f).len());
    assert(s.subrange(s.len() as int, s.len() as int) =~= Seq::<char>::empty());
}

/// The directory of an entry is the one that it was joined to, as long as that ends with a name.
pub proof fn law_parent_of_joined(platform: Platform, dir: Seq<char>, name: Seq<char>)
    requires
        joins_below(platform, name),
        can_be_base(platform, dir),
        front_len(platform, dir) < dir.len(),
        names_end(platform, dir) == dir.len(),
        forall|i: int| 0 <= i < name.len() ==> !sep_of(platform, #[trigger] name[i]),
        name != seq!['.'],
        name != seq!['.', '.'],
    ensures
        parent_dir(platform, joined(platform, dir, name)) == Some(dir),
        last_part(platform, joined(platform, dir, name)) == name,
{
    let j = joined(platform, dir, name);
    let d = join_base(platform, dir, name);
    lemma_last_part_joined(platform, dir, name);
    lemma_join_base(platform, dir, name);
    lemma_join_lead(platform, dir, name);
    lemma_front(platform, j);
    lemma_front(platform, dir);
    let f = front_len(platform, j);
    assert(f == front_len(platform, dir));
    assert forall|i: int| d.len() <= i < j.len() implies !sep_of(platform, #[trigger] j[i]) by {
        assert(j[i] == name[i - d.len()]);
    }
    if name.len() == 1 {
        assert(name[0] != '.') by {
            if name[0] == '.' {
                assert(name =~= seq!['.']);
            }
        }
    }
    assert(j[j.len() - 1] == name.last());
    assert(names_end(platform, j) == j.len()) by {
        if name.len() > 1 {
            assert(j[j.len() - 2] == name[name.len() - 2]);
        }
    }
    lemma_back_to(platform, dir, f, dir.len() as int);
    lemma_back_to(platform, dir, f, dir.len() - 1);
    assert(!sep_of(platform, dir.last()));
    assert(d != dir) by {
        if platform is Windows && has_drive(d) && d.len() == 2 && d == dir {
            assert(f == 2);
        }
    }
    let c = choose|c: char| #[trigger] sep_of(platform, c) && d == dir.push(c);
    assert(j[d.len() - 1] == c);
    lemma_last_start_is(platform, j, f, j.len() as int, d.len() as int);
    assert forall|i: int| 0 <= i < dir.len() implies #[trigger] j[i] == dir[i] by {
        assert(j[i] == d[i]);
    }
    assert(back_to(platform, j, f, d.len() as int) == back_to(platform, j, f, dir.len() as int));
    assert(back_to(platform, j, f, dir.len() as int) == dir.len()) by {
        assert(j[dir.len() - 1] == dir[dir.len() - 1]);
        if dir.len() - 1 > f {
            assert(j[dir.len() - 2] == dir[dir.len() - 2]);
        }
    }
    assert(j.take(dir.len() as int) =~= dir);
}

} // verus!
