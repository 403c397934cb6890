//! Linux: sessions to shares, by the mount table of the kernel and the mounts of the desktop.
use crate::text::{
    chars_of, contains, eq_ignore_ascii_case, first_index, first_pos, join2, lines, lines_of,
    lowercased, occurs, replace_char, replaced, same, same_ignoring_case, split_words,
    starts_with, string_range, texts, to_lowercase, trim, trim_back, trim_end_char, trim_front,
    trim_start_char, trimmed, words,
};
use vstd::prelude::*;

verus! {

/// The source of a share as the kernel writes it: `//server/share`.
pub open spec fn cifs_source(share_path: Seq<char>) -> Seq<char> {
    "//"@ + trim_front(replaced(share_path, '\\', '/'), '/')
}

/// The source of a share as the kernel writes it.
pub fn cifs_path(share_path: &str) -> (out: String)
    ensures
        out@ == cifs_source(share_path@),
{
    let slashes = replace_char(share_path, '\\', '/');
    let bare = trim_start_char(slashes.as_str(), '/');
    join2("//", bare.as_str())
}

/// The address of a share for the desktop.
pub fn smb_uri(share_path: &str) -> (out: String)
    ensures
        out@ == "smb:"@ + cifs_source(share_path@),
{
    let source = cifs_path(share_path);
    join2("smb:", source.as_str())
}

/// Whether a line of the mount table is that of the mount point.
pub open spec fn line_mounts_at(line: Seq<char>, mount_point: Seq<char>) -> bool {
    let ws = words(line);
    ws.len() >= 2 && trim_back(ws[1], '/') == trim_back(mount_point, '/')
}

/// Whether something is mounted at the mount point, by the mount table.
pub fn is_mounted_at(mounts: &str, mount_point: &str) -> (r: bool)
    ensures
        r == exists|i: int|
            0 <= i < lines_of(mounts@).len() && line_mounts_at(
                #[trigger] lines_of(mounts@)[i],
                mount_point@,
            ),
{
    let normalized = trim_end_char(mount_point, '/');
    let table = lines(mounts);
    let ghost all = lines_of(mounts@);
    let mut i: usize = 0;
    while i < table.len()
        invariant
            i <= table@.len(),
            all == texts(table@),
            all == lines_of(mounts@),
            normalized@ == trim_back(mount_point@, '/'),
            forall|k: int| 0 <= k < i ==> !line_mounts_at(#[trigger] all[k], mount_point@),
        decreases table@.len() - i,
    {
        assert(all[i as int] == table@[i as int]@);
        let ws = split_words(table[i].as_str());
        if ws.len() >= 2 {
            assert(texts(ws@)[1] == ws@[1]@);
            let at = trim_end_char(ws[1].as_str(), '/');
            if same(at.as_str(), normalized.as_str()) {
                assert(line_mounts_at(all[i as int], mount_point@));
                return true;
            }
        }
        i += 1;
    }
    false
}

/// Whether a line of the mount table is that of the source.
pub open spec fn line_has_source(line: Seq<char>, source: Seq<char>) -> bool {
    let ws = words(line);
    ws.len() >= 2 && same_ignoring_case(trim_back(ws[0], '/'), trim_back(source, '/'))
}

/// Where a source is mounted, by the first line of the mount table that has it.
pub fn find_source_mount_point(mounts: &str, source: &str) -> (r: Option<String>)
    ensures
        ({
            let all = lines_of(mounts@);
            match r {
                Some(p) => exists|i: int|
                    0 <= i < all.len() && line_has_source(#[trigger] all[i], source@) && p@
                        == words(all[i])[1] && forall|j: int|
                        0 <= j < i ==> !line_has_source(#[trigger] all[j], source@),
                None => forall|j: int|
                    0 <= j < all.len() ==> !line_has_source(#[trigger] all[j], source@),
            }
        }),
{
    let normalized = trim_end_char(source, '/');
    let table = lines(mounts);
    let ghost all = lines_of(mounts@);
    let mut i: usize = 0;
    while i < table.len()
        invariant
            i <= table@.len(),
            all == texts(table@),
            all == lines_of(mounts@),
            normalized@ == trim_back(source@, '/'),
            forall|k: int| 0 <= k < i ==> !line_has_source(#[trigger] all[k], source@),
        decreases table@.len() - i,
    {
        assert(all[i as int] == table@[i as int]@);
        let ws = split_words(table[i].as_str());
        if ws.len() >= 2 {
            assert(texts(ws@)[0] == ws@[0]@);
            assert(texts(ws@)[1] == ws@[1]@);
            let from = trim_end_char(ws[0].as_str(), '/');
            if eq_ignore_ascii_case(from.as_str(), normalized.as_str()) {
                assert(line_has_source(all[i as int], source@));
                return Some(ws[1].clone());
            }
        }
        i += 1;
    }
    None
}

/// The server and the share of a source, where it names both.
pub open spec fn source_parts(source: Seq<char>) -> Option<(Seq<char>, Seq<char>)> {
    let t = trim_front(source, '/');
    let p = first_pos(t, '/');
    if p < t.len() {
        Some((t.take(p), t.skip(p + 1)))
    } else {
        None
    }
}

/// The server and the share of a source, where it names both.
pub fn split_source(source: &str) -> (r: Option<(String, String)>)
    ensures
        r is Some <==> source_parts(source@) is Some,
        r matches Some((server, share)) ==> source_parts(source@) == Some((server@, share@)),
{
    let t = trim_start_char(source, '/');
    let v = chars_of(t.as_str());
    let p: usize = first_index(&v, '/');
    if p >= v.len() {
        return None;
    }
    assert(v@.subrange(0, p as int) =~= v@.take(p as int));
    assert(v@.subrange(p + 1, v@.len() as int) =~= v@.skip(p + 1));
    Some((string_range(&v, 0, p), string_range(&v, p + 1, v.len())))
}

/// Whether the name of a desktop mount, in lower case, is that of the share.
pub open spec fn gvfs_fits(name: Seq<char>, server: Seq<char>, share: Seq<char>) -> bool {
    &&& "smb-share:"@.is_prefix_of(name)
    &&& occurs(name, "server="@ + server)
    &&& occurs(name, "share="@ + share)
}

/// Whether the name of a desktop mount, in lower case, is that of the share.
pub fn gvfs_name_matches(name: &str, server: &str, share: &str) -> (r: bool)
    ensures
        r == gvfs_fits(name@, server@, share@),
{
    let with_server = join2("server=", server);
    let with_share = join2("share=", share);
    starts_with(name, "smb-share:") && contains(name, with_server.as_str()) && contains(
        name,
        with_share.as_str(),
    )
}

/// Whether the desktop mount of the given name is that of the source.
pub open spec fn gvfs_is(name: Seq<char>, source: Seq<char>) -> bool {
    match source_parts(source) {
        Some((server, share)) => gvfs_fits(
            lowercased(name),
            lowercased(server),
            lowercased(share),
        ),
        None => false,
    }
}

/// The first of the desktop mounts that is that of the source, by its position.
pub fn find_gvfs_mount(names: &Vec<String>, source: &str) -> (r: Option<usize>)
    ensures
        ({
            let all = texts(names@);
            match r {
                Some(i) => i < all.len() && gvfs_is(all[i as int], source@) && forall|j: int|
                    0 <= j < i ==> !gvfs_is(#[trigger] all[j], source@),
                None => forall|j: int| 0 <= j < all.len() ==> !gvfs_is(#[trigger] all[j], source@),
            }
        }),
{
    match split_source(source) {
        None => None,
        Some((server, share)) => {
            let lower_server = to_lowercase(server.as_str());
            let lower_share = to_lowercase(share.as_str());
            let ghost all = texts(names@);
            let mut i: usize = 0;
            while i < names.len()
                invariant
                    i <= names@.len(),
                    all == texts(names@),
                    source_parts(source@) == Some((server@, share@)),
                    lower_server@ == lowercased(server@),
                    lower_share@ == lowercased(share@),
                    forall|j: int| 0 <= j < i ==> !gvfs_is(#[trigger] all[j], source@),
                decreases names@.len() - i,
            {
                assert(all[i as int] == names@[i as int]@);
                let lower = to_lowercase(names[i].as_str());
                if gvfs_name_matches(
                    lower.as_str(),
                    lower_server.as_str(),
                    lower_share.as_str(),
                ) {
                    return Some(i);
                }
                i += 1;
            }
            None
        },
    }
}

/// Whether a mount by the desktop succeeded: one that was there already counts. The error is
/// what the program printed.
pub fn gio_outcome(success: bool, stdout: &str, stderr: &str) -> (r: Result<(), String>)
    ensures
        r is Ok <==> success || occurs(stderr@, "Already mounted"@) || occurs(
            stdout@,
            "Already mounted"@,
        ),
        r matches Err(e) ==> e@ == trimmed(stderr@) + trimmed(stdout@),
{
    if success {
        return Ok(());
    }
    if contains(stderr, "Already mounted") || contains(stdout, "Already mounted") {
        return Ok(());
    }
    let err = trim(stderr);
    let out = trim(stdout);
    Err(join2(err.as_str(), out.as_str()))
}

/// What to do for a share before anything is mounted.
pub enum SessionStep {
    /// The mount point works already.
    Ready,
    /// The share is mounted elsewhere: link the mount point there.
    Link(String),
    /// Have the desktop mount it.
    Mount,
}

/// What to do about a link at the mount point.
#[derive(Clone, Copy, Debug, PartialEq, Eq, Structural)]
pub enum LinkPlan {
    /// It leads to the target already.
    Keep,
    /// It leads elsewhere: replace it.
    Replace,
    /// There is none: make it.
    Create,
    /// Something else is there, which is not overwritten.
    Refuse,
}

/// Sessions to shares.
pub struct LinuxSmbSession;

impl LinuxSmbSession {
    pub fn new() -> (s: LinuxSmbSession)
        ensures
            s == LinuxSmbSession,
    {
        LinuxSmbSession
    }

    /// What to do for a share, by what was found: the mount point in use, a mount of the kernel,
    /// a mount of the desktop, in this order.
    pub fn first_step(
        &self,
        usable: bool,
        kernel_mount: Option<String>,
        desktop_mount: Option<String>,
    ) -> (r: SessionStep)
        ensures
            match (usable, kernel_mount, desktop_mount) {
                (true, _, _) => r is Ready,
                (false, Some(p), _) => r == SessionStep::Link(p),
                (false, None, Some(p)) => r == SessionStep::Link(p),
                (false, None, None) => r is Mount,
            },
    {
        if usable {
            return SessionStep::Ready;
        }
        match kernel_mount {
            Some(p) => SessionStep::Link(p),
            None => match desktop_mount {
                Some(p) => SessionStep::Link(p),
                None => SessionStep::Mount,
            },
        }
    }

    /// Where to link the mount point once the desktop has tried to mount the share, or why the
    /// share has no session. A mount of the kernel counts even if the desktop failed.
    pub fn after_mount(
        &self,
        outcome: Result<(), String>,
        desktop_mount: Option<String>,
        kernel_mount: Option<String>,
    ) -> (r: Result<String, String>)
        ensures
            match (outcome, desktop_mount, kernel_mount) {
                (Ok(_), Some(p), _) => r == Ok::<String, String>(p),
                (_, _, Some(p)) => r == Ok::<String, String>(p),
                (Ok(_), None, None) => r matches Err(e) && e@
                    == "gio mount succeeded but share not found"@,
                (Err(why), _, None) => r matches Err(e) && e@ == "gio mount failed: "@ + why@,
            },
    {
        match outcome {
            Ok(_) => match desktop_mount {
                Some(p) => Ok(p),
                None => match kernel_mount {
                    Some(p) => Ok(p),
                    None => Err("gio mount succeeded but share not found".to_owned()),
                },
            },
            Err(why) => match kernel_mount {
                Some(p) => Ok(p),
                None => Err(join2("gio mount failed: ", why.as_str())),
            },
        }
    }

    /// What to do about the link at the mount point; `current` is where a link that is there
    /// leads.
    pub fn link_plan(
        &self,
        is_link: bool,
        current: &Option<String>,
        occupied: bool,
        target: &str,
    ) -> (r: LinkPlan)
        ensures
            r == if is_link {
                if current is Some && current->0@ == target@ {
                    LinkPlan::Keep
                } else {
                    LinkPlan::Replace
                }
            } else if occupied {
                LinkPlan::Refuse
            } else {
                LinkPlan::Create
            },
    {
        if is_link {
            if let Some(c) = current {
                if same(c.as_str(), target) {
                    return LinkPlan::Keep;
                }
            }
            return LinkPlan::Replace;
        }
        if occupied {
            LinkPlan::Refuse
        } else {
            LinkPlan::Create
        }
    }
}

/// The source of a share starts with two slashes, and no backslash is left behind them.
pub proof fn law_source_of_share_is_normal(share_path: Seq<char>)
    ensures
        "//"@.is_prefix_of(cifs_source(share_path)),
        forall|i: int|
            0 <= i < trim_front(replaced(share_path, '\\', '/'), '/').len() ==> trim_front(
                replaced(share_path, '\\', '/'),
                '/',
            )[i] != '\\',
{
    let r = replaced(share_path, '\\', '/');
    let s = cifs_source(share_path);
    assert("//"@ =~= s.take("//"@.len() as int));
    assert(s.subrange(0, "//"@.len() as int) =~= "//"@);
    lemma_no_backslash(r);
}

proof fn lemma_no_backslash(r: Seq<char>)
    requires
        forall|i: int| 0 <= i < r.len() ==> r[i] != '\\',
    ensures
        forall|i: int| 0 <= i < trim_front(r, '/').len() ==> trim_front(r, '/')[i] != '\\',
    decreases r.len(),
{
    if r.len() > 0 && r[0] == '/' {
        let t = r.drop_first();
        assert forall|i: int| 0 <= i < t.len() implies t[i] != '\\' by {
            assert(t[i] == r[i + 1]);
        }
        lemma_no_backslash(t);
        assert(trim_front(r, '/') == trim_front(t, '/'));
    }
}

/// A share is written with slashes for the kernel, whichever separators it was written with, and
/// its two parts are found again in that.
pub proof fn law_source_names_server_and_share(server: Seq<char>, share: Seq<char>)
    requires
        server.len() > 0,
        forall|i: int| 0 <= i < server.len() ==> server[i] != '/' && server[i] != '\\',
        forall|i: int| 0 <= i < share.len() ==> share[i] != '\\',
    ensures
        cifs_source(seq!['\\', '\\'] + server + seq!['\\'] + share) == seq!['/', '/'] + server
            + seq!['/'] + share,
        cifs_source(seq!['/', '/'] + server + seq!['/'] + share) == seq!['/', '/'] + server + seq![
            '/',
        ] + share,
        source_parts(seq!['/', '/'] + server + seq!['/'] + share) == Some((server, share)),
        source_parts(server) is None,
{
    reveal_strlit("//");
    assert("//"@ =~= seq!['/', '/']);
    let tail = server + seq!['/'] + share;
    let s = seq!['/', '/'] + server + seq!['/'] + share;
    let a = seq!['\\', '\\'] + server + seq!['\\'] + share;
    let n = server.len() as int;
    assert(replaced(s, '\\', '/') =~= s) by {
        assert forall|i: int| 0 <= i < s.len() implies s[i] != '\\' by {
            if 2 <= i < 2 + n {
                assert(s[i] == server[i - 2]);
            } else if i > 2 + n {
                assert(s[i] == share[i - 3 - n]);
            }
        }
    }
    assert(replaced(a, '\\', '/') =~= s) by {
        assert forall|i: int| 0 <= i < s.len() implies #[trigger] replaced(a, '\\', '/')[i]
            == s[i] by {
            if 2 <= i < 2 + n {
                assert(a[i] == server[i - 2] && s[i] == server[i - 2]);
            } else if i > 2 + n {
                assert(a[i] == share[i - 3 - n] && s[i] == share[i - 3 - n]);
            }
        }
    }
    assert(s[2] == server[0]);
    crate::text::lemma_trim_front(s, '/', 2);
    assert(s.skip(2) =~= tail);
    assert("//"@ + tail =~= s);
    assert forall|i: int| 0 <= i < n implies tail[i] != '/' by {
        assert(tail[i] == server[i]);
    }
    crate::text::lemma_first_pos_is(tail, '/', n);
    assert(tail.take(n) =~= server);
    assert(tail.skip(n + 1) =~= share);
    crate::text::lemma_trim_front(server, '/', 0);
    assert(server.skip(0) =~= server);
    crate::text::lemma_first_pos_is(server, '/', n);
}

/// Slashes at the end of a mount point or of a source do not count, and neither does the case of a
/// source.
pub proof fn law_trailing_slashes_do_not_count(line: Seq<char>, place: Seq<char>)
    ensures
        line_mounts_at(line, place.push('/')) == line_mounts_at(line, place),
        line_has_source(line, place.push('/')) == line_has_source(line, place),
        words(line).len() >= 2 ==> line_mounts_at(line, words(line)[1]) && line_has_source(
            line,
            words(line)[0],
        ),
        words(line).len() < 2 ==> !line_mounts_at(line, place) && !line_has_source(line, place),
{
    assert(place.push('/').drop_last() =~= place);
}

/// The mount of the desktop for a share is known by both names, whatever stands around them.
pub proof fn law_desktop_mounts_are_known_by_both_names(
    server: Seq<char>,
    share: Seq<char>,
    mid: Seq<char>,
    rest: Seq<char>,
    name: Seq<char>,
)
    ensures
        gvfs_fits(
            "smb-share:"@ + "server="@ + server + mid + "share="@ + share + rest,
            server,
            share,
        ),
        gvfs_fits(name, server, share) ==> "smb-share:"@.is_prefix_of(name) && occurs(
            name,
            "server="@ + server,
        ) && occurs(name, "share="@ + share),
{
    let n = "smb-share:"@ + "server="@ + server + mid + "share="@ + share + rest;
    let a = "smb-share:"@.len() as int;
    let x = "server="@ + server;
    let y = "share="@ + share;
    let b = a + x.len() + mid.len();
    assert(n.subrange(0, a) =~= "smb-share:"@);
    assert(n.subrange(a, a + x.len()) =~= x);
    assert(crate::text::occurs_at(n, x, a));
    assert(n.subrange(b, b + y.len()) =~= y);
    assert(crate::text::occurs_at(n, y, b));
}

/// A share that works is left alone, one that is mounted somewhere is linked, the kernel's mount
/// before the desktop's, and only one that is mounted nowhere is mounted.
pub proof fn law_existing_sessions_are_used(
    s: LinuxSmbSession,
    usable: bool,
    kernel: Option<String>,
    desktop: Option<String>,
    r: SessionStep,
)
    requires
        call_ensures(LinuxSmbSession::first_step, (&s, usable, kernel, desktop), r),
    ensures
        r is Ready <==> usable,
        r is Mount <==> !usable && kernel is None && desktop is None,
        r matches SessionStep::Link(p) ==> !usable && (if kernel is Some {
            kernel == Some(p)
        } else {
            desktop == Some(p)
        }),
{
}

/// Only a link is ever replaced, and one that leads to the target is kept.
pub proof fn law_only_links_are_replaced(
    s: LinuxSmbSession,
    is_link: bool,
    current: Option<String>,
    occupied: bool,
    target: &str,
    r: LinkPlan,
)
    requires
        call_ensures(LinuxSmbSession::link_plan, (&s, is_link, &current, occupied, target), r),
    ensures
        r is Keep <==> is_link && current is Some && current->0@ == target@,
        r is Replace <==> is_link && !(current is Some && current->0@ == target@),
        r is Refuse <==> !is_link && occupied,
        r is Create <==> !is_link && !occupied,
{
}

/// A mount that succeeded, or that was there already, is a success, and a failure tells what was
/// printed.
pub proof fn law_mounted_already_is_a_success(
    success: bool,
    stdout: &str,
    stderr: &str,
    r: Result<(), String>,
)
    requires
        call_ensures(gio_outcome, (success, stdout, stderr), r),
    ensures
        success ==> r is Ok,
        occurs(stdout@, "Already mounted"@) || occurs(stderr@, "Already mounted"@) ==> r is Ok,
        !success && !occurs(stdout@, "Already mounted"@) && !occurs(stderr@, "Already mounted"@)
            ==> (r matches Err(e) && e@ == trimmed(stderr@) + trimmed(stdout@)),
{
}

/// Once the desktop has mounted a share its mount is linked; a mount of the kernel counts whatever
/// the desktop said, and without either the reason of the desktop is told.
pub proof fn law_mounted_share_is_linked(
    s: LinuxSmbSession,
    outcome: Result<(), String>,
    desktop: Option<String>,
    kernel: Option<String>,
    r: Result<String, String>,
)
    requires
        call_ensures(LinuxSmbSession::after_mount, (&s, outcome, desktop, kernel), r),
    ensures
        outcome is Ok && desktop is Some ==> r == Ok::<String, String>(desktop->0),
        !(outcome is Ok && desktop is Some) && kernel is Some ==> r == Ok::<String, String>(
            kernel->0,
        ),
        kernel is None && !(outcome is Ok && desktop is Some) ==> r is Err,
        kernel is None ==> (outcome matches Err(why) ==> (r matches Err(e) && why@.is_suffix_of(
            e@,
        ))),
{
    if let Err(why) = outcome {
        if let Err(e) = r {
            if kernel is None {
                assert(e@.subrange(e@.len() - why@.len(), e@.len() as int) =~= why@);
            }
        }
    }
}

/// A source without a share is that of no desktop mount.
pub proof fn law_sources_without_a_share_are_not_mounted(name: Seq<char>, server: Seq<char>)
    requires
        forall|i: int| 0 <= i < server.len() ==> server[i] != '/',
    ensures
        !gvfs_is(name, server),
        !gvfs_is(name, "//"@ + server),
{
    reveal_strlit("//");
    assert(trim_front(server, '/') == server) by {
        if server.len() > 0 {
            assert(server[0] != '/');
        }
    }
    crate::text::lemma_first_pos_is(server, '/', server.len() as int);
    let t = "//"@ + server;
    assert(t[0] == '/' && t[1] == '/');
    assert(t.drop_first()[0] == '/');
    assert(t.drop_first().drop_first() =~= server);
    assert(trim_front(t, '/') == trim_front(t.drop_first(), '/'));
    assert(trim_front(t.drop_first(), '/') == trim_front(t.drop_first().drop_first(), '/'));
}

} // verus!
