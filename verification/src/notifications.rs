//! The records in which Windows reports changes below a directory, and what the agent makes of
//! them.
use crate::paths::{
    file_name, join, joined, last_part, parent_dir, parent_of_path, Platform,
};
use crate::text::{
    after_last, contains, ends_with, occurs, pieces, rest_after_last, split_char, starts_with,
    starts_with_char, texts,
};
use crate::tray::{char_units, utf16_units};
use crate::write_through::{
    file_attributes, is_file, never_uploaded, recent, recent_entries, sync_mark, ClientFsEvent,
    EchoSuppressor, ECHO_TTL_MS,
};
use vstd::prelude::*;

verus! {

/// Bytes that the fixed part of a record takes.
pub const RECORD_SIZE: usize = 16;

/// Whether a UTF-16 unit is the first of a pair.
pub open spec fn leads_pair(u: u16) -> bool {
    0xD800 <= u < 0xDC00
}

/// Whether a UTF-16 unit is the second of a pair.
pub open spec fn ends_pair(u: u16) -> bool {
    0xDC00 <= u < 0xE000
}

/// The character that a pair of UTF-16 units stands for.
pub open spec fn pair_char(high: u16, low: u16) -> char {
    let n = (0x10000 + (high - 0xD800) * 0x400 + (low - 0xDC00)) as u32;
    n as char
}

/// The text that a sequence of UTF-16 units stands for; a unit of a pair without the other one is
/// replaced.
pub open spec fn utf16_text(units: Seq<u16>) -> Seq<char>
    decreases units.len(),
{
    if units.len() == 0 {
        Seq::empty()
    } else if !leads_pair(units[0]) && !ends_pair(units[0]) {
        seq![(units[0] as u32) as char] + utf16_text(units.skip(1))
    } else if leads_pair(units[0]) && units.len() > 1 && ends_pair(units[1]) {
        seq![pair_char(units[0], units[1])] + utf16_text(units.skip(2))
    } else {
        seq!['\u{FFFD}'] + utf16_text(units.skip(1))
    }
}

/// Decodes UTF-16 with `String::from_utf16_lossy`. The contract claims that pairs of surrogates
/// stand for one character, that a surrogate without its other half is replaced by U+FFFD, and that
/// every other unit is a character of its own.
#[verifier::external_body]
fn from_utf16(units: &Vec<u16>) -> (s: String)
    ensures
        s@ == utf16_text(units@),
{
    String::from_utf16_lossy(units.as_slice())
}

proof fn lemma_units_first(s: Seq<char>)
    requires
        s.len() > 0,
    ensures
        utf16_units(s) == char_units(s[0]) + utf16_units(s.skip(1)),
    decreases s.len(),
{
    let d = s.drop_last();
    let t = s.skip(1);
    if s.len() == 1 {
        assert(d =~= Seq::empty());
        assert(t =~= Seq::empty());
        assert(utf16_units(s) =~= char_units(s[0]) + utf16_units(t));
    } else {
        lemma_units_first(d);
        assert(d.skip(1) =~= t.drop_last());
        assert(t.last() == s.last());
        assert(utf16_units(s) =~= char_units(s[0]) + utf16_units(t));
    }
}

proof fn lemma_text_first(c: char, rest: Seq<u16>)
    ensures
        utf16_text(char_units(c) + rest) == seq![c] + utf16_text(rest),
{
    vstd::utf8::char_is_scalar(c);
    let n = c as u32;
    let u = char_units(c) + rest;
    vstd::utf8::char_u32_cast(c, n);
    if n < 0x10000 {
        assert(u[0] as u32 == n);
        assert(u.skip(1) =~= rest);
    } else {
        let r = n - 0x10000;
        assert(u[0] == 0xD800 + r / 0x400);
        assert(u[1] == 0xDC00 + r % 0x400);
        assert(u.skip(2) =~= rest);
    }
}

/// A text that was encoded is read back.
pub proof fn law_encoded_texts_are_read_back(s: Seq<char>)
    ensures
        utf16_text(utf16_units(s)) == s,
    decreases s.len(),
{
    if s.len() == 0 {
        assert(s =~= Seq::empty());
    } else {
        lemma_units_first(s);
        lemma_text_first(s[0], utf16_units(s.skip(1)));
        law_encoded_texts_are_read_back(s.skip(1));
        assert(seq![s[0]] + s.skip(1) =~= s);
    }
}

/// The 16-bit number at `i`, lowest byte first.
pub open spec fn u16_at(b: Seq<u8>, i: int) -> int {
    b[i] as int + 256 * (b[i + 1] as int)
}

/// The 32-bit number at `i`, lowest byte first.
pub open spec fn u32_at(b: Seq<u8>, i: int) -> int {
    u16_at(b, i) + 65_536 * u16_at(b, i + 2)
}

/// `n` 16-bit numbers from `i` on.
pub open spec fn units_at(b: Seq<u8>, i: int, n: nat) -> Seq<u16> {
    Seq::new(n, |k: int| u16_at(b, i + 2 * k) as u16)
}

/// A reported change: what happened, and to which path below the watched directory.
#[derive(Debug, Clone, PartialEq, Eq)]
pub struct Notification {
    pub action: u32,
    pub name: String,
}

/// What the action and the name of a reported change are.
pub open spec fn notes(v: Seq<Notification>) -> Seq<(u32, Seq<char>)> {
    v.map_values(|n: Notification| (n.action, n.name@))
}

/// Number of UTF-16 units in the name of the record at `offset`.
pub open spec fn name_units(b: Seq<u8>, offset: int) -> int {
    u32_at(b, offset + 8) / 2
}

/// Whether a whole record lies at `offset`: its fixed part below `limit`, its name in the buffer.
pub open spec fn record_at(b: Seq<u8>, limit: int, offset: int) -> bool {
    &&& offset + RECORD_SIZE <= limit <= b.len()
    &&& offset + 12 + 2 * name_units(b, offset) <= b.len()
}

/// The records from `offset` on: each says how far away the next one is, and 0 ends the list.
pub open spec fn records(b: Seq<u8>, limit: int, offset: int) -> Seq<(u32, Seq<char>)>
    decreases
            if limit > offset {
                limit - offset
            } else {
                0
            },
{
    if offset < 0 || !record_at(b, limit, offset) {
        Seq::empty()
    } else {
        let r = (
            u32_at(b, offset + 4) as u32,
            utf16_text(units_at(b, offset + 12, name_units(b, offset) as nat)),
        );
        let next = u32_at(b, offset);
        if next <= 0 {
            seq![r]
        } else {
            seq![r] + records(b, limit, offset + next)
        }
    }
}

fn read_u16(b: &Vec<u8>, i: usize) -> (n: u16)
    requires
        i + 2 <= b@.len(),
    ensures
        n == u16_at(b@, i as int),
{
    assert(b.len() <= usize::MAX);
    b[i] as u16 + 256 * (b[i + 1] as u16)
}

fn read_u32(b: &Vec<u8>, i: usize) -> (n: u32)
    requires
        i + 4 <= b@.len(),
    ensures
        n == u32_at(b@, i as int),
{
    assert(b.len() <= usize::MAX);
    read_u16(b, i) as u32 + 65_536 * (read_u16(b, i + 2) as u32)
}

fn read_units(b: &Vec<u8>, i: usize, n: usize) -> (out: Vec<u16>)
    requires
        i + 2 * n <= b@.len(),
    ensures
        out@ == units_at(b@, i as int, n as nat),
{
    let mut out: Vec<u16> = Vec::new();
    let mut k: usize = 0;
    while k < n
        invariant
            k <= n,
            i + 2 * n <= b@.len(),
            out@ == units_at(b@, i as int, k as nat),
        decreases n - k,
    {
        assert(b.len() <= usize::MAX);
        let u: u16 = read_u16(b, i + 2 * k);
        out.push(u);
        assert(out@ =~= units_at(b@, i as int, (k + 1) as nat));
        k += 1;
    }
    assert(out@ =~= units_at(b@, i as int, n as nat));
    out
}

/// The smaller of the number of bytes that were reported and of those that are there.
pub open spec fn limit_of(b: Seq<u8>, returned: usize) -> int {
    if returned <= b.len() {
        returned as int
    } else {
        b.len() as int
    }
}

/// Reads the records of a buffer of which `returned` bytes were filled. A record that does not lie
/// whole in the buffer ends the list.
pub fn parse_notifications(buffer: &Vec<u8>, returned: usize) -> (out: Vec<Notification>)
    ensures
        notes(out@) == records(buffer@, limit_of(buffer@, returned), 0),
{
    let limit: usize = if returned <= buffer.len() {
        returned
    } else {
        buffer.len()
    };
    let mut out: Vec<Notification> = Vec::new();
    let mut offset: usize = 0;
    let ghost all = records(buffer@, limit as int, 0);
    assert(notes(out@) =~= Seq::empty());
    assert(all =~= notes(out@) + records(buffer@, limit as int, 0));
    loop
        invariant_except_break
            limit <= buffer@.len(),
            offset <= limit,
            all == notes(out@) + records(buffer@, limit as int, offset as int),
        ensures
            all == notes(out@),
        decreases limit - offset,
    {
        if limit - offset < RECORD_SIZE {
            assert(records(buffer@, limit as int, offset as int) =~= Seq::empty());
            assert(all =~= notes(out@));
            break;
        }
        let next: u32 = read_u32(buffer, offset);
        let action: u32 = read_u32(buffer, offset + 4);
        let units: u32 = read_u32(buffer, offset + 8) / 2;
        let room: usize = (buffer.len() - offset - 12) / 2;
        if units as u64 > room as u64 {
            assert(records(buffer@, limit as int, offset as int) =~= Seq::empty());
            assert(all =~= notes(out@));
            break;
        }
        let ghost before = notes(out@);
        let text = from_utf16(&read_units(buffer, offset + 12, units as usize));
        let ghost r = (action, text@);
        out.push(Notification { action, name: text });
        assert(notes(out@) =~= before.push(r));
        if next == 0 {
            assert(records(buffer@, limit as int, offset as int) == seq![r]);
            assert(all =~= notes(out@));
            break;
        }
        assert(records(buffer@, limit as int, offset as int) == seq![r] + records(
            buffer@,
            limit as int,
            offset + next as int,
        ));
        assert(all =~= notes(out@) + records(buffer@, limit as int, offset + next as int));
        if next as u64 > (limit - offset) as u64 {
            assert(records(buffer@, limit as int, offset + next as int) =~= Seq::empty());
            assert(all =~= notes(out@));
            break;
        }
        offset = offset + next as usize;
    }
    out
}

/// A record whose link is 0 is the last one, whatever lies behind it.
pub proof fn law_zero_link_ends_list(b: Seq<u8>, limit: int, offset: int)
    requires
        0 <= offset,
        record_at(b, limit, offset),
        u32_at(b, offset) == 0,
    ensures
        records(b, limit, offset).len() == 1,
{
}

/// Whether a change below the sync root may lead to an upload, by the last part of its path.
pub open spec fn may_upload(relative: Seq<char>) -> bool {
    let name = after_last(relative, '\\');
    !never_uploaded(name) && !(name.len() > 0 && (name[0] == '#' || name[0] == '@'))
}

/// Whether a change below the sync root may lead to an upload.
pub fn should_process(relative_path: &str) -> (r: bool)
    ensures
        r == may_upload(relative_path@),
{
    let name = rest_after_last(relative_path, '\\');
    if contains(name.as_str(), ".~sync.") {
        return false;
    }
    if starts_with(name.as_str(), "~$") {
        return false;
    }
    if ends_with(name.as_str(), ".tmp") {
        return false;
    }
    if starts_with_char(name.as_str(), '#') || starts_with_char(name.as_str(), '@') {
        return false;
    }
    true
}

/// Actions that leave a file behind: it was added, written or got its name.
pub open spec fn leaves_file(action: u32) -> bool {
    action == 1 || action == 3 || action == 5
}

/// Actions that take a file away: it was removed or lost its name.
pub open spec fn takes_file(action: u32) -> bool {
    action == 2 || action == 4
}

/// What a change below the sync root means for the uploads; `attrs` are the attributes of the file
/// after it.
pub fn client_event(note: &Notification, client_root: &str, attrs: u32) -> (r: Option<
    ClientFsEvent,
>)
    ensures
        ({
            let path = joined(Platform::Windows, client_root@, note.name@);
            if !may_upload(note.name@) {
                r is None
            } else if leaves_file(note.action) && file_attributes(attrs) {
                r matches Some(ClientFsEvent::Modified(p)) && p@ == path
            } else if takes_file(note.action) {
                r matches Some(ClientFsEvent::Removed(p)) && p@ == path
            } else {
                r is None
            }
        }),
{
    if !should_process(note.name.as_str()) {
        return None;
    }
    let path = join(Platform::Windows, client_root, note.name.as_str());
    match note.action {
        1 | 3 | 5 => if is_file(attrs) {
            Some(ClientFsEvent::Modified(path))
        } else {
            None
        },
        2 | 4 => Some(ClientFsEvent::Removed(path)),
        _ => None,
    }
}

/// Whether a part of a path belongs to the server itself or to an upload.
pub open spec fn internal_part(part: Seq<char>) -> bool {
    (part.len() > 0 && (part[0] == '@' || part[0] == '#')) || occurs(part, sync_mark())
}

/// Whether a path on the server has a part that belongs to the server itself or to an upload.
pub open spec fn internal_path(relative: Seq<char>) -> bool {
    let ps = pieces(relative, '\\');
    exists|i: int| 0 <= i < ps.len() && internal_part(#[trigger] ps[i])
}

/// Whether a path on the server has a part that belongs to the server itself or to an upload.
pub fn is_internal_path(relative: &str) -> (r: bool)
    ensures
        r == internal_path(relative@),
{
    let parts = split_char(relative, '\\');
    let ghost ps = pieces(relative@, '\\');
    let mut i: usize = 0;
    while i < parts.len()
        invariant
            i <= parts@.len(),
            ps == texts(parts@),
            ps == pieces(relative@, '\\'),
            forall|k: int| 0 <= k < i ==> !internal_part(#[trigger] ps[k]),
        decreases parts@.len() - i,
    {
        let p = parts[i].as_str();
        assert(ps[i as int] == p@);
        if starts_with_char(p, '@') || starts_with_char(p, '#') || contains(p, ".~sync.") {
            return true;
        }
        i += 1;
    }
    false
}

/// What a change on the server means for the sync root.
#[derive(Clone, Copy, Debug, PartialEq, Eq, Structural)]
pub enum NasChangeKind {
    /// Something appeared: it gets a placeholder.
    Appeared,
    /// Something went away: so does its placeholder.
    Gone,
    /// A file was written: its placeholder gets the new size.
    Written,
}

/// A change on the server and where it shows up in the sync root.
#[derive(Debug, Clone, PartialEq, Eq)]
pub struct NasChange {
    pub kind: NasChangeKind,
    pub nas_path: String,
    pub client_dir: String,
    pub file_name: String,
}

/// What an action on the server means.
pub open spec fn change_kind(action: u32) -> Option<NasChangeKind> {
    if action == 1 || action == 5 {
        Some(NasChangeKind::Appeared)
    } else if action == 2 || action == 4 {
        Some(NasChangeKind::Gone)
    } else if action == 3 {
        Some(NasChangeKind::Written)
    } else {
        None
    }
}

/// The directory of the sync root that holds the entry with this path below the root.
pub open spec fn dir_below(root: Seq<char>, relative: Seq<char>) -> Seq<char> {
    match parent_dir(Platform::Windows, joined(Platform::Windows, root, relative)) {
        Some(d) => d,
        None => root,
    }
}

fn client_dir_of(root: &str, relative: &str) -> (out: String)
    ensures
        out@ == dir_below(root@, relative@),
{
    let path = join(Platform::Windows, root, relative);
    match parent_of_path(Platform::Windows, path.as_str()) {
        Some(d) => d,
        None => root.to_owned(),
    }
}

/// Whether the echo of an upload is still to be expected at a path.
pub open spec fn echoes(entries: Map<Seq<char>, u64>, path: Seq<char>, now: u64) -> bool {
    entries.contains_key(path) && recent(entries[path] as int, now as int, ECHO_TTL_MS as int)
}

/// What a change below the watched directory of the server means for the sync root. Changes that
/// the server or an upload makes for itself, and echoes of the agent's own uploads, mean nothing.
pub fn nas_change(
    note: &Notification,
    nas_root: &str,
    client_root: &str,
    echo: &mut EchoSuppressor,
    now: u64,
) -> (r: Option<NasChange>)
    requires
        old(echo).wf(),
    ensures
        final(echo).wf(),
        ({
            let nas_path = joined(Platform::Windows, nas_root@, note.name@);
            if internal_path(note.name@) || change_kind(note.action) is None {
                &&& r is None
                &&& final(echo)@ == old(echo)@
            } else {
                &&& final(echo)@ == recent_entries(old(echo)@, now as int, ECHO_TTL_MS as int)
                &&& if echoes(old(echo)@, nas_path, now) {
                    r is None
                } else {
                    &&& r matches Some(c)
                    &&& Some(c.kind) == change_kind(note.action)
                    &&& c.nas_path@ == nas_path
                    &&& c.client_dir@ == dir_below(client_root@, note.name@)
                    &&& c.file_name@ == last_part(Platform::Windows, nas_path)
                }
            }
        }),
{
    if is_internal_path(note.name.as_str()) {
        return None;
    }
    let kind = match note.action {
        1 | 5 => NasChangeKind::Appeared,
        2 | 4 => NasChangeKind::Gone,
        3 => NasChangeKind::Written,
        _ => {
            return None;
        },
    };
    let nas_path = join(Platform::Windows, nas_root, note.name.as_str());
    if echo.is_suppressed(nas_path.as_str(), now) {
        return None;
    }
    let name = file_name(Platform::Windows, nas_path.as_str());
    Some(
        NasChange {
            kind,
            nas_path,
            client_dir: client_dir_of(client_root, note.name.as_str()),
            file_name: name,
        },
    )
}

proof fn lemma_last_piece(dir: Seq<char>, name: Seq<char>)
    requires
        forall|i: int| 0 <= i < name.len() ==> name[i] != '\\',
    ensures
        after_last(dir.push('\\') + name, '\\') == name,
        after_last(name, '\\') == name,
{
    let s = dir.push('\\') + name;
    assert forall|i: int| dir.len() < i < s.len() implies s[i] != '\\' by {
        assert(s[i] == name[i - dir.len() - 1]);
    }
    crate::text::lemma_last_pos_is(s, '\\', dir.len() as int);
    crate::text::lemma_last_pos_is(name, '\\', -1);
    assert(s.skip(dir.len() as int + 1) =~= name);
    assert(name.skip(0) =~= name);
}

/// Whether a changed file may be uploaded depends on its own name, in whatever folder it lies. A
/// name that is never uploaded or that belongs to the server keeps it from being; one without a
/// tilde, `#` or `@` that does not end like a temporary file does not.
pub proof fn law_uploads_go_by_the_name(dir: Seq<char>, name: Seq<char>)
    requires
        forall|i: int| 0 <= i < name.len() ==> name[i] != '\\',
    ensures
        may_upload(dir.push('\\') + name) == may_upload(name),
        never_uploaded(name) ==> !may_upload(name),
        name.len() > 0 && (name[0] == '#' || name[0] == '@') ==> !may_upload(name),
        (forall|i: int| 0 <= i < name.len() ==> name[i] != '~') && (name.len() == 0 || (name.last()
            != 'p' && name[0] != '#' && name[0] != '@')) ==> may_upload(name),
{
    lemma_last_piece(dir, name);
    crate::write_through::law_unfinished_files_stay_local(name, Seq::empty());
}

/// A file below the sync root that was added, written or named is uploaded where it may be, and one
/// that was removed or lost its name is told as removed; other actions, and changes of directories,
/// tell nothing.
pub proof fn law_local_changes_are_told(
    note: Notification,
    client_root: &str,
    attrs: u32,
    r: Option<ClientFsEvent>,
)
    requires
        call_ensures(client_event, (&note, client_root, attrs), r),
    ensures
        r matches Some(ClientFsEvent::Modified(p)) ==> (note.action == 1 || note.action == 3
            || note.action == 5) && attrs & 0x10 == 0 && attrs != 0xffff_ffff && p@ == joined(
            Platform::Windows,
            client_root@,
            note.name@,
        ),
        r matches Some(ClientFsEvent::Removed(p)) ==> (note.action == 2 || note.action == 4) && p@
            == joined(Platform::Windows, client_root@, note.name@),
        r is Some ==> may_upload(note.name@),
        may_upload(note.name@) && (note.action == 1 || note.action == 3 || note.action == 5)
            && attrs & 0x10 == 0 && attrs != 0xffff_ffff ==> r is Some,
        may_upload(note.name@) && (note.action == 2 || note.action == 4) ==> r is Some,
{
}

/// A path belongs to the server or to an upload exactly where one of its parts does: the first
/// one, or one behind it.
pub proof fn law_internal_paths_have_an_internal_part(first: Seq<char>, rest: Seq<char>)
    requires
        forall|i: int| 0 <= i < first.len() ==> first[i] != '\\',
    ensures
        internal_path(first) <==> internal_part(first),
        internal_path(first.push('\\') + rest) <==> internal_part(first) || internal_path(rest),
        first.len() > 0 && (first[0] == '@' || first[0] == '#') ==> internal_part(first),
        occurs(first, ".~sync."@) ==> internal_part(first),
        internal_part(first) ==> occurs(first, ".~sync."@) || (first.len() > 0 && (first[0] == '@'
            || first[0] == '#')),
{
    let s = first.push('\\') + rest;
    crate::text::lemma_first_pos_is(first, '\\', first.len() as int);
    crate::text::lemma_first_pos_is(s, '\\', first.len() as int);
    assert(s.take(first.len() as int) =~= first);
    assert(s.skip(first.len() as int + 1) =~= rest);
    let ps = pieces(s, '\\');
    let qs = pieces(rest, '\\');
    assert(ps =~= seq![first] + qs);
    assert(pieces(first, '\\') =~= seq![first]);
    assert(pieces(first, '\\')[0] == first);
    assert(ps[0] == first);
    if internal_path(s) {
        let i = choose|i: int| 0 <= i < ps.len() && internal_part(#[trigger] ps[i]);
        if i > 0 {
            assert(qs[i - 1] == ps[i]);
        }
    }
    if internal_path(rest) {
        let i = choose|i: int| 0 <= i < qs.len() && internal_part(#[trigger] qs[i]);
        assert(ps[i + 1] == qs[i]);
    }
}

/// What appears or is named on the server gets a placeholder, what goes or loses its name loses
/// it, and what is written is brought up to date; nothing else is acted on.
pub proof fn law_actions_mean_what_happened(action: u32)
    ensures
        change_kind(action) == Some(NasChangeKind::Appeared) <==> action == 1 || action == 5,
        change_kind(action) == Some(NasChangeKind::Gone) <==> action == 2 || action == 4,
        change_kind(action) == Some(NasChangeKind::Written) <==> action == 3,
        change_kind(action) is None <==> action == 0 || action > 5,
        leaves_file(action) <==> action == 1 || action == 3 || action == 5,
        takes_file(action) <==> action == 2 || action == 4,
{
}

/// A path counts as an echo for less than five seconds after its upload.
pub proof fn law_echoes_last_five_seconds(
    entries: Map<Seq<char>, u64>,
    path: Seq<char>,
    uploaded: u64,
    now: u64,
)
    ensures
        echoes(entries.insert(path, uploaded), path, now) <==> now < uploaded + 5_000,
        !entries.contains_key(path) ==> !echoes(entries, path, now),
{
}

/// The first record of a buffer starts at its first byte: the link, the action and the length of
/// the name in bytes, four bytes each and the lowest first, and then the name.
pub proof fn law_records_are_read_in_order(b: Seq<u8>, limit: int)
    requires
        record_at(b, limit, 0),
    ensures
        ({
            let all = records(b, limit, 0);
            let link = b[0] + 256 * b[1] + 65_536 * b[2] + 16_777_216 * b[3];
            let len = b[8] + 256 * b[9] + 65_536 * b[10] + 16_777_216 * b[11];
            &&& all.len() >= 1
            &&& all[0].0 == b[4] + 256 * b[5] + 65_536 * b[6] + 16_777_216 * b[7]
            &&& all[0].1 == utf16_text(units_at(b, 12, (len / 2) as nat))
            &&& link > 0 ==> all.skip(1) == records(b, limit, link)
            &&& link == 0 ==> all.len() == 1
        }),
{
    let all = records(b, limit, 0);
    let link = u32_at(b, 0);
    if link > 0 {
        assert(all.skip(1) =~= records(b, limit, link));
    }
}

/// A change on the server is told with its own path there and its own name, unless the server or
/// an upload made it for itself or it is the echo of an upload within five seconds.
pub proof fn law_server_changes_are_told(
    note: Notification,
    nas_root: &str,
    client_root: &str,
    echo: &mut EchoSuppressor,
    now: u64,
    r: Option<NasChange>,
)
    requires
        old(echo).wf(),
        call_ensures(nas_change, (&note, nas_root, client_root, echo, now), r),
    ensures
        ({
            let path = joined(Platform::Windows, nas_root@, note.name@);
            let echoed = old(echo)@.contains_key(path) && now - old(echo)@[path] < 5_000;
            &&& r is Some <==> !internal_path(note.name@) && 1 <= note.action <= 5 && !echoed
            &&& r matches Some(c) ==> c.nas_path@ == path && c.file_name@ == last_part(
                Platform::Windows,
                path,
            ) && c.client_dir@ == dir_below(client_root@, note.name@)
            &&& r matches Some(c) ==> (c.kind is Appeared <==> note.action == 1 || note.action == 5)
                && (c.kind is Gone <==> note.action == 2 || note.action == 4) && (c.kind is Written
                <==> note.action == 3)
        }),
{
}

/// A change right below the watched directory shows up in the sync root itself, under its own
/// name.
pub proof fn law_changes_show_up_in_their_folder(root: Seq<char>, name: Seq<char>)
    requires
        crate::paths::joins_below(Platform::Windows, name),
        crate::paths::can_be_base(Platform::Windows, root),
        crate::paths::front_len(Platform::Windows, root) < root.len(),
        crate::paths::names_end(Platform::Windows, root) == root.len(),
        forall|i: int| 0 <= i < name.len() ==> !crate::paths::is_sep(#[trigger] name[i]),
        name != seq!['.'],
        name != seq!['.', '.'],
    ensures
        dir_below(root, name) == root,
        last_part(Platform::Windows, joined(Platform::Windows, root, name)) == name,
{
    assert forall|i: int| 0 <= i < name.len() implies !crate::paths::sep_of(
        Platform::Windows,
        #[trigger] name[i],
    ) by {
        assert(!crate::paths::is_sep(name[i]));
    }
    crate::paths::law_parent_of_joined(Platform::Windows, root, name);
}

} // verus!
