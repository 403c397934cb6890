//! macOS: addresses of shares, and volumes below `/Volumes`.
use crate::text::{
    after_last, after_last_index, chars_of, contains, eq_ignore_ascii_case, join2, join3, last_pos,
    lowercased, occurs, replace_char, replaced, rest_after_last, same_ignoring_case, texts,
    to_lowercase, trim_back, trim_end_char, trim_front, trim_start_char,
};
use vstd::prelude::*;

verus! {

/// Bytes that the user part of an address keeps as they are.
pub open spec fn kept_byte(b: u8) -> bool {
    ||| 0x41 <= b <= 0x5A
    ||| 0x61 <= b <= 0x7A
    ||| 0x30 <= b <= 0x39
    ||| b == 0x2D || b == 0x2E || b == 0x5F || b == 0x7E
    ||| b == 0x21 || b == 0x24 || b == 0x26 || b == 0x27 || b == 0x28 || b == 0x29
    ||| b == 0x2A || b == 0x2B || b == 0x2C || b == 0x3B || b == 0x3D
}

/// The upper-case hexadecimal digit for a value below 16.
pub open spec fn hex_char(d: int) -> char {
    if d < 10 {
        (48 + d) as char
    } else {
        (55 + d) as char
    }
}

/// A byte as it stands in the user part of an address.
pub open spec fn encoded_byte(b: u8) -> Seq<char> {
    if kept_byte(b) {
        seq![b as char]
    } else {
        seq!['%', hex_char(b as int / 16), hex_char(b as int % 16)]
    }
}

/// Bytes as they stand in the user part of an address.
pub open spec fn encoded(bytes: Seq<u8>) -> Seq<char>
    decreases bytes.len(),
{
    if bytes.len() == 0 {
        Seq::empty()
    } else {
        encoded_byte(bytes[0]) + encoded(bytes.drop_first())
    }
}

proof fn lemma_encoded_push(bytes: Seq<u8>, b: u8)
    ensures
        encoded(bytes.push(b)) == encoded(bytes) + encoded_byte(b),
    decreases bytes.len(),
{
    if bytes.len() == 0 {
        assert(bytes.push(b).drop_first() =~= Seq::<u8>::empty());
        assert(encoded(bytes.push(b).drop_first()) =~= Seq::<char>::empty());
        assert(encoded_byte(b) + Seq::<char>::empty() =~= Seq::<char>::empty() + encoded_byte(b));
    } else {
        assert(bytes.push(b).drop_first() =~= bytes.drop_first().push(b));
        lemma_encoded_push(bytes.drop_first(), b);
        assert(encoded_byte(bytes[0]) + (encoded(bytes.drop_first()) + encoded_byte(b))
            =~= encoded(bytes) + encoded_byte(b));
    }
}

fn hex_digit(d: u8) -> (c: char)
    requires
        d < 16,
    ensures
        c == hex_char(d as int),
{
    if d < 10 {
        (48u8 + d) as char
    } else {
        (55u8 + d) as char
    }
}

/// A text as the user part of an address: everything but letters, digits and a few marks is
/// written as `%` and two hexadecimal digits per byte.
pub fn percent_encode_userinfo(s: &str) -> (out: String)
    ensures
        out@ == encoded(vstd::utf8::encode_utf8(s@)),
{
    let bytes = s.as_bytes();
    let mut out = String::new();
    let mut i: usize = 0;
    assert(bytes@.take(0) =~= Seq::<u8>::empty());
    assert(out@ =~= encoded(bytes@.take(0)));
    while i < bytes.len()
        invariant
            i <= bytes@.len(),
            out@ == encoded(bytes@.take(i as int)),
        decreases bytes@.len() - i,
    {
        let b: u8 = bytes[i];
        let ghost before = out@;
        proof {
            assert(bytes@.take(i + 1) =~= bytes@.take(i as int).push(b));
            lemma_encoded_push(bytes@.take(i as int), b);
        }
        let keep: bool = (0x41 <= b && b <= 0x5A) || (0x61 <= b && b <= 0x7A) || (0x30 <= b && b
            <= 0x39) || b == 0x2D || b == 0x2E || b == 0x5F || b == 0x7E || b == 0x21 || b == 0x24
            || b == 0x26 || b == 0x27 || b == 0x28 || b == 0x29 || b == 0x2A || b == 0x2B || b
            == 0x2C || b == 0x3B || b == 0x3D;
        if keep {
            out.push(b as char);
        } else {
            out.push('%');
            out.push(hex_digit(b / 16));
            out.push(hex_digit(b % 16));
        }
        assert(out@ =~= before + encoded_byte(b));
        i += 1;
    }
    assert(bytes@.take(bytes@.len() as int) =~= bytes@);
    out
}

/// The address of a share.
pub open spec fn smb_url(unc_path: Seq<char>, username: Seq<char>) -> Seq<char> {
    let place = replaced(trim_front(unc_path, '\\'), '\\', '/');
    if username.len() == 0 {
        "smb://"@ + place
    } else {
        "smb://"@ + encoded(vstd::utf8::encode_utf8(username)) + "@"@ + place
    }
}

/// The address of a share: `\\server\share` is `smb://user@server/share`, or
/// `smb://server/share` without a user.
pub fn unc_to_smb_url(unc_path: &str, username: &str) -> (out: String)
    ensures
        out@ == smb_url(unc_path@, username@),
{
    let bare = trim_start_char(unc_path, '\\');
    let place = replace_char(bare.as_str(), '\\', '/');
    if username.is_empty() {
        join2("smb://", place.as_str())
    } else {
        let user = percent_encode_userinfo(username);
        let mut out = join3("smb://", user.as_str(), "@");
        out.append(place.as_str());
        out
    }
}

/// The name that macOS gives the volume of a share: the last part of its path.
pub open spec fn volume_name(nas_share_path: Seq<char>) -> Seq<char> {
    after_last(trim_back(nas_share_path, '\\'), '\\')
}

/// The name that macOS gives the volume of a share.
pub fn expected_volume_name(nas_share_path: &str) -> (out: String)
    ensures
        out@ == volume_name(nas_share_path@),
{
    let t = trim_end_char(nas_share_path, '\\');
    rest_after_last(t.as_str(), '\\')
}

/// Whether what follows the last hyphen is a number, as in the names that macOS makes unique.
pub open spec fn has_dedup_suffix(name: Seq<char>) -> bool {
    let p = last_pos(name, '-');
    &&& p >= 0
    &&& p + 1 < name.len()
    &&& forall|i: int| p < i < name.len() ==> '0' <= #[trigger] name[i] && name[i] <= '9'
}

/// The name before the last hyphen, where a number follows it.
pub fn strip_macos_dedup_suffix<'a>(name: &'a str) -> (r: Option<&'a str>)
    ensures
        r is Some <==> has_dedup_suffix(name@),
        r matches Some(base) ==> base@ == name@.take(last_pos(name@, '-')),
{
    let v = chars_of(name);
    let k: usize = after_last_index(&v, '-');
    if k == 0 || k == v.len() {
        return None;
    }
    let mut i: usize = k;
    while i < v.len()
        invariant
            0 < k <= i <= v@.len(),
            v@ == name@,
            k == last_pos(name@, '-') + 1,
            forall|j: int| k <= j < i ==> '0' <= #[trigger] v@[j] && v@[j] <= '9',
        decreases v@.len() - i,
    {
        if v[i] < '0' || v[i] > '9' {
            assert(!('0' <= name@[i as int] && name@[i as int] <= '9'));
            return None;
        }
        i += 1;
    }
    assert(name@.subrange(0, k - 1) =~= name@.take(k - 1));
    Some(name.substring_char(0, k - 1))
}

/// Whether a volume can be that of the share: its name is the expected one, or that with a
/// number that macOS added.
pub open spec fn volume_fits(name: Seq<char>, expected: Seq<char>) -> bool {
    same_ignoring_case(name, expected) || (has_dedup_suffix(name) && same_ignoring_case(
        name.take(last_pos(name, '-')),
        expected,
    ))
}

/// Whether a volume can be that of the share.
pub fn volume_matches(name: &str, expected: &str) -> (r: bool)
    ensures
        r == volume_fits(name@, expected@),
{
    if eq_ignore_ascii_case(name, expected) {
        return true;
    }
    match strip_macos_dedup_suffix(name) {
        Some(base) => eq_ignore_ascii_case(base, expected),
        None => false,
    }
}

/// The first of the names that is the expected one.
pub open spec fn first_exact(names: Seq<Seq<char>>, expected: Seq<char>, i: int) -> bool {
    &&& 0 <= i < names.len()
    &&& same_ignoring_case(names[i], expected)
    &&& forall|j: int| 0 <= j < i ==> !same_ignoring_case(#[trigger] names[j], expected)
}

/// The first of the names that can be that of the share.
pub open spec fn first_fit(names: Seq<Seq<char>>, expected: Seq<char>, i: int) -> bool {
    &&& 0 <= i < names.len()
    &&& volume_fits(names[i], expected)
    &&& forall|j: int| 0 <= j < i ==> !volume_fits(#[trigger] names[j], expected)
}

/// None of the names can be that of the share.
pub open spec fn picks_none(names: Seq<Seq<char>>, expected: Seq<char>) -> bool {
    forall|i: int| 0 <= i < names.len() ==> !volume_fits(#[trigger] names[i], expected)
}

/// Whether a path is that of the volume of the share: the first with the expected name, or where no
/// name is that one, the first whose name can be it.
pub open spec fn picks(names: Seq<Seq<char>>, expected: Seq<char>, path: Seq<char>) -> bool {
    if exists|i: int| #[trigger] first_exact(names, expected, i) {
        exists|i: int| #[trigger]
            first_exact(names, expected, i) && path == "/Volumes/"@ + names[i]
    } else {
        exists|i: int| #[trigger]
            first_fit(names, expected, i) && path == "/Volumes/"@ + names[i]
    }
}

/// The path of the volume, among those that appeared after the mount command, that is that of
/// the share: one with the expected name is preferred, and no other volume is taken.
pub fn pick_new_volume(names: &Vec<String>, expected: &str) -> (r: Option<String>)
    ensures
        r is None <==> picks_none(texts(names@), expected@),
        r matches Some(p) ==> picks(texts(names@), expected@, p@),
{
    let ghost all = texts(names@);
    let mut i: usize = 0;
    while i < names.len()
        invariant
            i <= names@.len(),
            all == texts(names@),
            forall|j: int| 0 <= j < i ==> !same_ignoring_case(#[trigger] all[j], expected@),
        decreases names@.len() - i,
    {
        assert(all[i as int] == names@[i as int]@);
        if eq_ignore_ascii_case(names[i].as_str(), expected) {
            let p = join2("/Volumes/", names[i].as_str());
            proof {
                assert(first_exact(all, expected@, i as int));
                assert(volume_fits(texts(names@)[i as int], expected@));
            }
            return Some(p);
        }
        i += 1;
    }
    assert(forall|k: int| !#[trigger] first_exact(all, expected@, k));
    let mut k: usize = 0;
    while k < names.len()
        invariant
            k <= names@.len(),
            all == texts(names@),
            forall|j: int| !#[trigger] first_exact(all, expected@, j),
            forall|j: int| 0 <= j < k ==> !volume_fits(#[trigger] all[j], expected@),
        decreases names@.len() - k,
    {
        assert(all[k as int] == names@[k as int]@);
        if volume_matches(names[k].as_str(), expected) {
            let p = join2("/Volumes/", names[k].as_str());
            proof {
                assert(first_fit(all, expected@, k as int));
                assert(volume_fits(texts(names@)[k as int], expected@));
            }
            return Some(p);
        }
        k += 1;
    }
    None
}

/// Milliseconds between two looks for the volume of a share that the user was asked to mount.
pub const VOLUME_WAIT_MS: u64 = 500;

/// How often is looked for that volume: for a minute.
pub const VOLUME_TRIES: u32 = 120;

/// What a look for the volume of a share leads to.
#[derive(Debug, Clone, PartialEq, Eq)]
pub enum VolumeStep {
    /// The share is mounted at this path.
    Found(String),
    /// Look again later.
    Wait,
    /// Give up, for this reason.
    GiveUp(String),
}

/// Why a volume is waited for no longer.
pub open spec fn timeout_text(expected: Seq<char>) -> Seq<char> {
    "Timed out after 60s waiting for SMB mount to appear in /Volumes/ (expected '"@ + expected
        + "')"@
}

/// What the look number `attempt`, counted from 0, leads to: `names` are the volumes that were not
/// there before.
pub fn poll_for_new_volume(names: &Vec<String>, expected: &str, attempt: u32) -> (r: VolumeStep)
    ensures
        match r {
            VolumeStep::Found(p) => picks(texts(names@), expected@, p@),
            VolumeStep::Wait => picks_none(texts(names@), expected@) && attempt < VOLUME_TRIES - 1,
            VolumeStep::GiveUp(why) => {
                &&& picks_none(texts(names@), expected@)
                &&& attempt >= VOLUME_TRIES - 1
                &&& why@ == timeout_text(expected@)
            },
        },
{
    match pick_new_volume(names, expected) {
        Some(p) => VolumeStep::Found(p),
        None => if attempt < VOLUME_TRIES - 1 {
            VolumeStep::Wait
        } else {
            VolumeStep::GiveUp(
                join3(
                    "Timed out after 60s waiting for SMB mount to appear in /Volumes/ (expected '",
                    expected,
                    "')",
                ),
            )
        },
    }
}

/// Whether a line of the mount table, whose lower-case form is given too, is that of the
/// volume with the given path, mounted from the given place.
pub fn mount_line_matches(line: &str, lower_line: &str, volume: &str, lower_place: &str) -> (r: bool)
    ensures
        r == (occurs(line@, volume@) && occurs(lower_line@, lower_place@)),
{
    contains(line, volume) && contains(lower_line, lower_place)
}

/// The server and share of a UNC path with slashes.
pub open spec fn share_place(nas_share_path: Seq<char>) -> Seq<char> {
    replaced(trim_front(nas_share_path, '\\'), '\\', '/')
}

/// Whether some line of the mount table is that of the volume, mounted from the share.
pub open spec fn mounted_from(
    lines: Seq<Seq<char>>,
    volume: Seq<char>,
    nas_share_path: Seq<char>,
) -> bool {
    exists|i: int|
        0 <= i < lines.len() && occurs(#[trigger] lines[i], volume) && occurs(
            lowercased(lines[i]),
            lowercased(share_place(nas_share_path)),
        )
}

/// The first of the candidate volumes that is mounted from the share, by the lines of the
/// mount table.
pub fn find_existing_volume(
    candidates: &Vec<String>,
    nas_share_path: &str,
    mount_lines: &Vec<String>,
) -> (r: Option<String>)
    ensures
        ({
            let lines = texts(mount_lines@);
            let all = texts(candidates@);
            match r {
                Some(p) => exists|i: int|
                    0 <= i < all.len() && p@ == all[i] && mounted_from(
                        lines,
                        #[trigger] all[i],
                        nas_share_path@,
                    ) && forall|j: int|
                        0 <= j < i ==> !mounted_from(lines, #[trigger] all[j], nas_share_path@),
                None => forall|j: int|
                    0 <= j < all.len() ==> !mounted_from(
                        lines,
                        #[trigger] all[j],
                        nas_share_path@,
                    ),
            }
        }),
{
    let bare = trim_start_char(nas_share_path, '\\');
    let place = replace_char(bare.as_str(), '\\', '/');
    let fragment = to_lowercase(place.as_str());
    let ghost lines = texts(mount_lines@);
    let ghost all = texts(candidates@);
    let mut i: usize = 0;
    while i < candidates.len()
        invariant
            i <= candidates@.len(),
            lines == texts(mount_lines@),
            all == texts(candidates@),
            fragment@ == lowercased(share_place(nas_share_path@)),
            forall|j: int| 0 <= j < i ==> !mounted_from(lines, #[trigger] all[j], nas_share_path@),
        decreases candidates@.len() - i,
    {
        assert(all[i as int] == candidates@[i as int]@);
        let mut k: usize = 0;
        while k < mount_lines.len()
            invariant
                i < candidates@.len(),
                k <= mount_lines@.len(),
                lines == texts(mount_lines@),
                all == texts(candidates@),
                all[i as int] == candidates@[i as int]@,
                fragment@ == lowercased(share_place(nas_share_path@)),
                forall|j: int|
                    0 <= j < i ==> !mounted_from(lines, #[trigger] all[j], nas_share_path@),
                forall|j: int|
                    0 <= j < k ==> !(occurs(#[trigger] lines[j], all[i as int]) && occurs(
                        lowercased(lines[j]),
                        fragment@,
                    )),
            decreases mount_lines@.len() - k,
        {
            let line = mount_lines[k].as_str();
            assert(lines[k as int] == line@);
            let lower = to_lowercase(line);
            if mount_line_matches(line, lower.as_str(), candidates[i].as_str(), fragment.as_str()) {
                assert(mounted_from(lines, all[i as int], nas_share_path@));
                return Some(candidates[i].clone());
            }
            k += 1;
        }
        i += 1;
    }
    None
}

/// Whether a directory is a mount point: it lies on another device than its parent. Devices
/// that could not be read do not count.
pub fn is_mountpoint(device: Option<u64>, parent_device: Option<u64>) -> (r: bool)
    ensures
        r == (device is Some && parent_device is Some && device != parent_device),
{
    match (device, parent_device) {
        (Some(d), Some(p)) => d != p,
        _ => false,
    }
}

/// What to do for a share that is to be mounted.
pub enum MountStep {
    /// It is mounted at this path already.
    Reuse(String),
    /// Try with the credentials that the system keeps, then ask the user.
    Mount,
}

/// What to do, by where the share was found mounted: a mount of the agent's own is preferred.
pub fn mount_step(user_mount: Option<String>, volume: Option<String>) -> (r: MountStep)
    ensures
        match (user_mount, volume) {
            (Some(p), _) => r == MountStep::Reuse(p),
            (None, Some(p)) => r == MountStep::Reuse(p),
            (None, None) => r is Mount,
        },
{
    match user_mount {
        Some(p) => MountStep::Reuse(p),
        None => match volume {
            Some(p) => MountStep::Reuse(p),
            None => MountStep::Mount,
        },
    }
}

/// Links that lead the user to a volume.
pub struct MacosMountMapping;

impl MacosMountMapping {
    pub fn new() -> (s: MacosMountMapping)
        ensures
            s == MacosMountMapping,
    {
        MacosMountMapping
    }

    /// Whether an old link has to be removed before the new one is made. Anything but a link is
    /// not overwritten.
    pub fn switch_plan(&self, mount_point: &str, occupied: bool, is_link: bool) -> (r: Result<
        bool,
        String,
    >)
        ensures
            r is Err <==> occupied && !is_link,
            r matches Err(e) ==> e@ == "Path "@ + mount_point@
                + " exists and is not a symlink — refusing to overwrite"@,
            r matches Ok(remove_old) ==> remove_old == is_link,
    {
        if occupied && !is_link {
            return Err(
                join3("Path ", mount_point, " exists and is not a symlink — refusing to overwrite"),
            );
        }
        Ok(is_link)
    }
}

proof fn lemma_hex_injective(a: int, b: int)
    requires
        0 <= a < 16,
        0 <= b < 16,
        hex_char(a) == hex_char(b),
    ensures
        a == b,
{
}

/// Encoding loses nothing: texts that differ have user parts that differ.
pub proof fn law_encoding_is_injective(a: Seq<u8>, b: Seq<u8>)
    requires
        encoded(a) == encoded(b),
    ensures
        a == b,
    decreases a.len(),
{
    if a.len() == 0 {
        if b.len() > 0 {
            assert(encoded(b).len() >= encoded_byte(b[0]).len());
            assert(false);
        }
        assert(a =~= b);
    } else {
        if b.len() == 0 {
            assert(encoded(a).len() >= encoded_byte(a[0]).len());
            assert(false);
        }
        let x = encoded_byte(a[0]);
        let y = encoded_byte(b[0]);
        let s = encoded(a);
        assert(s[0] == x[0]);
        assert(s[0] == y[0]);
        if kept_byte(a[0]) != kept_byte(b[0]) {
            assert(false);
        }
        if !kept_byte(a[0]) {
            assert(s[1] == x[1] && s[1] == y[1]);
            assert(s[2] == x[2] && s[2] == y[2]);
            lemma_hex_injective(a[0] as int / 16, b[0] as int / 16);
            lemma_hex_injective(a[0] as int % 16, b[0] as int % 16);
        }
        assert(a[0] == b[0]);
        assert(encoded(a.drop_first()) =~= s.skip(x.len() as int));
        assert(encoded(b.drop_first()) =~= s.skip(x.len() as int));
        law_encoding_is_injective(a.drop_first(), b.drop_first());
        assert(a =~= seq![a[0]] + a.drop_first());
        assert(b =~= seq![b[0]] + b.drop_first());
    }
}

/// The user part of an address holds none of the marks that end it, and no blank.
pub proof fn law_encoded_text_is_safe(bytes: Seq<u8>, i: int)
    requires
        0 <= i < encoded(bytes).len(),
    ensures
        encoded(bytes)[i] != '@',
        encoded(bytes)[i] != ':',
        encoded(bytes)[i] != '/',
        encoded(bytes)[i] != ' ',
    decreases bytes.len(),
{
    let x = encoded_byte(bytes[0]);
    if i < x.len() {
        assert(encoded(bytes)[i] == x[i]);
        let b = bytes[0];
        assert(0 <= b as int / 16 < 16);
        assert(0 <= b as int % 16 < 16);
    } else {
        assert(encoded(bytes)[i] == encoded(bytes.drop_first())[i - x.len()]);
        law_encoded_text_is_safe(bytes.drop_first(), i - x.len());
    }
}

/// A number that macOS adds to a name is taken off again.
pub proof fn law_dedup_suffix_is_stripped(base: Seq<char>, digits: Seq<char>)
    requires
        digits.len() > 0,
        forall|i: int| 0 <= i < digits.len() ==> '0' <= #[trigger] digits[i] && digits[i] <= '9',
    ensures
        ({
            let name = base.push('-') + digits;
            has_dedup_suffix(name) && name.take(last_pos(name, '-')) == base
        }),
{
    let name = base.push('-') + digits;
    assert forall|i: int| base.len() < i < name.len() implies name[i] != '-' by {
        assert(name[i] == digits[i - base.len() - 1]);
    }
    crate::text::lemma_last_pos_is(name, '-', base.len() as int);
    assert forall|i: int| base.len() < i < name.len() implies '0' <= #[trigger] name[i] && name[i]
        <= '9' by {
        assert(name[i] == digits[i - base.len() - 1]);
    }
    assert(name.take(base.len() as int) =~= base);
}

/// The address of a share names its server and its share, and the user where there is one.
pub proof fn law_addresses_name_the_share(
    server: Seq<char>,
    share: Seq<char>,
    user: Seq<char>,
)
    requires
        server.len() > 0,
        forall|i: int| 0 <= i < server.len() ==> server[i] != '\\',
        forall|i: int| 0 <= i < share.len() ==> share[i] != '\\',
    ensures
        ({
            let unc = seq!['\\', '\\'] + server + seq!['\\'] + share;
            let place = server + seq!['/'] + share;
            &&& share_place(unc) == place
            &&& smb_url(unc, Seq::empty()) == "smb://"@ + place
            &&& user.len() > 0 ==> smb_url(unc, user) == "smb://"@ + encoded(
                vstd::utf8::encode_utf8(user),
            ) + "@"@ + place
        }),
{
    let unc = seq!['\\', '\\'] + server + seq!['\\'] + share;
    let bare = server + seq!['\\'] + share;
    let place = server + seq!['/'] + share;
    let n = server.len() as int;
    assert(unc[2] == server[0]);
    crate::text::lemma_trim_front(unc, '\\', 2);
    assert(unc.skip(2) =~= bare);
    assert(replaced(bare, '\\', '/') =~= place) by {
        assert forall|i: int| 0 <= i < place.len() implies #[trigger] replaced(bare, '\\', '/')[i]
            == place[i] by {
            if i < n {
                assert(bare[i] == server[i] && place[i] == server[i]);
            } else if i > n {
                assert(bare[i] == share[i - n - 1] && place[i] == share[i - n - 1]);
            }
        }
    }
}

/// Letters, digits and the marks that an address allows stand for themselves; any other byte is
/// written as `%` and its two digits, the higher one first, in capital letters.
pub proof fn law_bytes_are_written_in_hexadecimal(b: u8)
    ensures
        (0x30 <= b <= 0x39) || (0x41 <= b <= 0x5A) || (0x61 <= b <= 0x7A) ==> encoded_byte(b)
            == seq![b as char],
        b == 0x20 || b == 0x25 || b == 0x2F || b == 0x3A || b == 0x40 || b >= 0x7F || b < 0x20
            ==> encoded_byte(b).len() == 3 && encoded_byte(b)[0] == '%',
        encoded_byte(b).len() == 1 || encoded_byte(b).len() == 3,
        encoded_byte(b).len() == 3 ==> ({
            let h = encoded_byte(b)[1];
            let l = encoded_byte(b)[2];
            let high = if '0' <= h && h <= '9' {
                h as int - 48
            } else {
                h as int - 55
            };
            let low = if '0' <= l && l <= '9' {
                l as int - 48
            } else {
                l as int - 55
            };
            &&& ('0' <= h && h <= '9') || ('A' <= h && h <= 'F')
            &&& ('0' <= l && l <= '9') || ('A' <= l && l <= 'F')
            &&& b == 16 * high + low
        }),
{
    let high = b as int / 16;
    let low = b as int % 16;
    assert(0 <= high < 16 && 0 <= low < 16 && b == 16 * high + low);
}

/// The volume of a share is named by the last component of its path, whether or not backslashes
/// follow it.
pub proof fn law_volumes_are_named_by_the_share(dir: Seq<char>, name: Seq<char>)
    requires
        name.len() > 0,
        forall|i: int| 0 <= i < name.len() ==> name[i] != '\\',
    ensures
        volume_name(dir.push('\\') + name) == name,
        volume_name((dir.push('\\') + name).push('\\')) == name,
        volume_name(name) == name,
{
    let s = dir.push('\\') + name;
    assert(s.last() == name.last());
    assert(name.last() == name[name.len() - 1]);
    assert forall|i: int| dir.len() < i < s.len() implies s[i] != '\\' by {
        assert(s[i] == name[i - dir.len() - 1]);
    }
    crate::text::lemma_last_pos_is(s, '\\', dir.len() as int);
    crate::text::lemma_last_pos_is(name, '\\', -1);
    assert(s.skip(dir.len() as int + 1) =~= name);
    assert(name.skip(0) =~= name);
    assert(s.push('\\').drop_last() =~= s);
}

/// A volume is taken for that of a share where it has the expected name, or that name with a
/// hyphen and a number behind it.
pub proof fn law_numbered_volumes_fit(expected: Seq<char>, digits: Seq<char>)
    requires
        digits.len() > 0,
        forall|i: int| 0 <= i < digits.len() ==> '0' <= #[trigger] digits[i] && digits[i] <= '9',
    ensures
        volume_fits(expected, expected),
        volume_fits(expected.push('-') + digits, expected),
{
    law_dedup_suffix_is_stripped(expected, digits);
}

/// A volume with the expected name is preferred, however late it comes in the list, and what is
/// picked is always one of the volumes that fit.
pub proof fn law_exact_volumes_are_preferred(
    names: Seq<Seq<char>>,
    expected: Seq<char>,
    path: Seq<char>,
    k: int,
)
    requires
        picks(names, expected, path),
        0 <= k < names.len(),
    ensures
        same_ignoring_case(names[k], expected) ==> exists|i: int|
            0 <= i < names.len() && same_ignoring_case(#[trigger] names[i], expected) && path
                == "/Volumes/"@ + names[i],
        exists|i: int|
            0 <= i < names.len() && volume_fits(#[trigger] names[i], expected) && path
                == "/Volumes/"@ + names[i],
{
    if exists|i: int| #[trigger] first_exact(names, expected, i) {
        let i = choose|i: int| #[trigger]
            first_exact(names, expected, i) && path == "/Volumes/"@ + names[i];
        assert(volume_fits(names[i], expected));
    } else {
        let i = choose|i: int| #[trigger]
            first_fit(names, expected, i) && path == "/Volumes/"@ + names[i];
        assert(volume_fits(names[i], expected));
        if same_ignoring_case(names[k], expected) {
            lemma_some_first(names, expected, k);
        }
    }
}

proof fn lemma_some_first(names: Seq<Seq<char>>, expected: Seq<char>, k: int)
    requires
        0 <= k < names.len(),
        same_ignoring_case(names[k], expected),
    ensures
        exists|i: int| #[trigger] first_exact(names, expected, i),
    decreases k,
{
    if exists|j: int| 0 <= j < k && same_ignoring_case(#[trigger] names[j], expected) {
        let j = choose|j: int| 0 <= j < k && same_ignoring_case(#[trigger] names[j], expected);
        lemma_some_first(names, expected, j);
    } else {
        assert(first_exact(names, expected, k));
    }
}

/// A volume that fits is taken at once; without one it is waited for, and given up at the hundred
/// and twentieth look with the name that was expected.
pub proof fn law_volumes_are_waited_for_a_minute(
    names: Vec<String>,
    expected: &str,
    attempt: u32,
    r: VolumeStep,
)
    requires
        call_ensures(poll_for_new_volume, (&names, expected, attempt), r),
    ensures
        r is Found <==> !picks_none(texts(names@), expected@),
        picks_none(texts(names@), expected@) ==> (r is Wait <==> attempt < 119),
        r matches VolumeStep::GiveUp(why) ==> occurs(why@, expected@),
{
    let ns = texts(names@);
    if let VolumeStep::Found(p) = r {
        if exists|i: int| #[trigger] first_exact(ns, expected@, i) {
            let i = choose|i: int| #[trigger] first_exact(ns, expected@, i);
            assert(volume_fits(ns[i], expected@));
        } else {
            let i = choose|i: int| #[trigger] first_fit(ns, expected@, i);
            assert(volume_fits(ns[i], expected@));
        }
    }
    if let VolumeStep::GiveUp(why) = r {
        let lead =
            "Timed out after 60s waiting for SMB mount to appear in /Volumes/ (expected '"@.len() as int;
        assert(why@.subrange(lead, lead + expected@.len()) =~= expected@);
        assert(crate::text::occurs_at(why@, expected@, lead));
    }
}

/// A mount of the agent's own is used before a volume of the system, either before a new mount.
pub proof fn law_existing_mounts_are_used(
    own: Option<String>,
    volume: Option<String>,
    r: MountStep,
)
    requires
        call_ensures(mount_step, (own, volume), r),
    ensures
        r is Mount <==> own is None && volume is None,
        r matches MountStep::Reuse(p) ==> (if own is Some {
            own == Some(p)
        } else {
            volume == Some(p)
        }),
{
}

/// A directory is a mount point exactly where both devices could be read and differ.
pub proof fn law_mount_points_lie_on_other_devices(a: u64, b: u64, both: bool, one: bool)
    requires
        call_ensures(is_mountpoint, (Some(a), Some(b)), both),
        call_ensures(is_mountpoint, (Some(a), None), one),
    ensures
        both <==> a != b,
        !one,
{
}

/// Anything but a link is left alone, and an old link goes before the new one is made.
pub proof fn law_only_links_are_replaced(
    s: MacosMountMapping,
    point: &str,
    occupied: bool,
    is_link: bool,
    r: Result<bool, String>,
)
    requires
        call_ensures(MacosMountMapping::switch_plan, (&s, point, occupied, is_link), r),
    ensures
        r is Err <==> occupied && !is_link,
        r matches Ok(b) ==> b == is_link,
{
}

} // verus!
