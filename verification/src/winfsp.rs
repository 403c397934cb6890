//! A share as the virtual drive of Windows shows it: names, attributes and listings, where a read
//! is served from, and what becomes of writes.
use crate::cache_core::{child_path, join_rel, parent_of, parent_path, CachedAttr};
use crate::config::{volumes_dir, MountConfig};
use crate::conflict::{
    compact, conflict_path, hostname_short, is_time, make_conflict_path,
};
use crate::messages::ConflictDetectedMsg;
use crate::paths::{
    below, can_be_base, file_name, has_drive, is_sep, join, joined, last_part,
    law_joined_path_lies_below, law_path_lies_below_itself, strip_prefix, trimmed_path, Environment, Platform,
};
use crate::text::{
    before_first, replace_char, replaced, trim_front, trim_start_char,
};
use vstd::prelude::*;

verus! {

/// Attribute of a directory.
pub const FILE_ATTRIBUTE_DIRECTORY: u32 = 0x10;

/// Attribute of a file.
pub const FILE_ATTRIBUTE_ARCHIVE: u32 = 0x20;

/// Option of a request that is about a directory.
pub const FILE_DIRECTORY_FILE: u32 = 0x1;

/// Ticks of 100 nanoseconds between 1601 and 1970.
pub const FILETIME_EPOCH_OFFSET: u64 = 116_444_736_000_000_000;

/// Size of the drive that is reported.
pub const TOTAL_SIZE: u64 = 1_099_511_627_776;

/// Free space of the drive that is reported.
pub const FREE_SIZE: u64 = 549_755_813_888;

/// Why a request was refused.
#[derive(Clone, Copy, Debug, PartialEq, Eq, Structural)]
pub enum FsStatus {
    NameNotFound,
    AccessDenied,
    BufferOverflow,
    NameCollision,
    DiskFull,
}

impl FsStatus {
    /// The status code of the system.
    pub fn ntstatus(self) -> (code: i32)
        ensures
            code as int == match self {
                FsStatus::NameNotFound => 0xC000_0034 - 0x1_0000_0000,
                FsStatus::AccessDenied => 0xC000_0022 - 0x1_0000_0000,
                FsStatus::BufferOverflow => 0x8000_0005 - 0x1_0000_0000,
                FsStatus::NameCollision => 0xC000_0035 - 0x1_0000_0000,
                FsStatus::DiskFull => 0xC000_007F - 0x1_0000_0000,
            },
    {
        match self {
            FsStatus::NameNotFound => -1_073_741_772,
            FsStatus::AccessDenied => -1_073_741_790,
            FsStatus::BufferOverflow => -2_147_483_643,
            FsStatus::NameCollision => -1_073_741_771,
            FsStatus::DiskFull => -1_073_741_697,
        }
    }
}

/// Where the drive of a share is mounted.
pub fn mount_point_for(env: &Environment, share: &str) -> (out: String)
    ensures
        out@ == joined(env.platform, volumes_dir(*env), share@),
{
    let base = MountConfig::volumes_base(env);
    join(env.platform, base.as_str(), share)
}

/// How what is left at a mount point is cleared away.
#[derive(Clone, Copy, Debug, PartialEq, Eq, Structural)]
pub enum ClearStep {
    Nothing,
    RemoveLink,
    /// Remove the directory if it is empty or a leftover mount.
    RemoveDir,
}

/// How what is left at a mount point is cleared away.
pub fn prepare_mount_point(is_symlink: bool, is_dir: bool) -> (s: ClearStep)
    ensures
        s == if is_symlink {
            ClearStep::RemoveLink
        } else if is_dir {
            ClearStep::RemoveDir
        } else {
            ClearStep::Nothing
        },
{
    if is_symlink {
        ClearStep::RemoveLink
    } else if is_dir {
        ClearStep::RemoveDir
    } else {
        ClearStep::Nothing
    }
}

/// The hash of bytes after each was mixed in: exclusive or, then a multiplication that wraps.
pub open spec fn fnv(bytes: Seq<u8>) -> u64
    decreases bytes.len(),
{
    if bytes.len() == 0 {
        0xcbf2_9ce4_8422_2325
    } else {
        (((fnv(bytes.drop_last()) ^ (bytes.last() as u64)) as nat * 0x100_0000_01b3)
            % 0x1_0000_0000_0000_0000) as u64
    }
}

/// The number that a path is known by: its hash without the highest bit, and never 0.
pub open spec fn index_number(rel: Seq<char>) -> u64 {
    let h = fnv(vstd::utf8::encode_utf8(rel)) & 0x7FFF_FFFF_FFFF_FFFF;
    if h == 0 {
        1
    } else {
        h
    }
}

/// The number that a path is known by. It is the same whenever the agent runs.
pub fn path_to_index_number(rel: &str) -> (n: u64)
    ensures
        n == index_number(rel@),
        n != 0,
{
    let bytes = rel.as_bytes();
    let mut h: u64 = 0xcbf2_9ce4_8422_2325;
    let mut i: usize = 0;
    assert(bytes@.take(0) =~= Seq::empty());
    while i < bytes.len()
        invariant
            i <= bytes@.len(),
            h == fnv(bytes@.take(i as int)),
        decreases bytes@.len() - i,
    {
        assert(bytes@.take(i + 1).drop_last() =~= bytes@.take(i as int));
        assert(bytes@.take(i + 1).last() == bytes@[i as int]);
        h = h ^ (bytes[i] as u64);
        h = h.wrapping_mul(0x100_0000_01b3);
        i += 1;
    }
    assert(bytes@.take(bytes@.len() as int) =~= bytes@);
    let masked: u64 = h & 0x7FFF_FFFF_FFFF_FFFF;
    if masked == 0 {
        1
    } else {
        masked
    }
}

/// The number of a path is never 0 and leaves the highest bit free.
pub proof fn law_index_number_is_usable(rel: Seq<char>)
    ensures
        1 <= index_number(rel) <= 0x7FFF_FFFF_FFFF_FFFF,
{
    let h = fnv(vstd::utf8::encode_utf8(rel));
    assert(h & 0x7FFF_FFFF_FFFF_FFFF <= 0x7FFF_FFFF_FFFF_FFFF) by (bit_vector);
}

/// Seconds since 1970 as ticks since 1601; what is too large ends at the largest number.
pub open spec fn filetime(secs: int) -> u64 {
    if secs * 10_000_000 > u64::MAX - FILETIME_EPOCH_OFFSET {
        u64::MAX
    } else {
        (secs * 10_000_000 + FILETIME_EPOCH_OFFSET) as u64
    }
}

/// Seconds since 1970 as ticks since 1601.
pub fn secs_to_filetime(secs: u64) -> (t: u64)
    ensures
        t == filetime(secs as int),
{
    let wide: u128 = secs as u128 * 10_000_000 + FILETIME_EPOCH_OFFSET as u128;
    if wide > u64::MAX as u128 {
        u64::MAX
    } else {
        wide as u64
    }
}

/// Whole seconds of a time in microseconds; a time before 1970 counts as 1970.
pub open spec fn whole_secs(micros: i64) -> int {
    if micros < 0 {
        0
    } else {
        micros as int / 1_000_000
    }
}

/// Microseconds since 1970 as ticks since 1601.
pub fn micros_to_filetime(micros: i64) -> (t: u64)
    ensures
        t == filetime(whole_secs(micros)),
{
    if micros < 0 {
        secs_to_filetime(0)
    } else {
        secs_to_filetime(micros as u64 / 1_000_000)
    }
}

/// What the file system says of an entry; times are in seconds since 1970.
#[derive(Clone, Copy, Debug, PartialEq, Eq, Structural)]
pub struct FileMeta {
    pub is_dir: bool,
    pub len: u64,
    pub created: u64,
    pub modified: u64,
    pub accessed: u64,
}

/// What is answered about an entry; times are in ticks since 1601.
#[derive(Clone, Copy, Debug, PartialEq, Eq, Structural)]
pub struct FileInfo {
    pub file_attributes: u32,
    pub file_size: u64,
    pub allocation_size: u64,
    pub creation_time: u64,
    pub last_write_time: u64,
    pub change_time: u64,
    pub last_access_time: u64,
    pub index_number: u64,
}

/// The attributes of a directory or a file.
pub open spec fn attributes(is_dir: bool) -> u32 {
    if is_dir {
        FILE_ATTRIBUTE_DIRECTORY
    } else {
        FILE_ATTRIBUTE_ARCHIVE
    }
}

fn attributes_of(is_dir: bool) -> (a: u32)
    ensures
        a == attributes(is_dir),
{
    if is_dir {
        FILE_ATTRIBUTE_DIRECTORY
    } else {
        FILE_ATTRIBUTE_ARCHIVE
    }
}

/// What is answered about an entry from what the file system says.
pub open spec fn info_of(m: FileMeta, rel: Seq<char>) -> FileInfo {
    FileInfo {
        file_attributes: attributes(m.is_dir),
        file_size: m.len,
        allocation_size: m.len,
        creation_time: filetime(m.created as int),
        last_write_time: filetime(m.modified as int),
        change_time: filetime(m.modified as int),
        last_access_time: filetime(m.accessed as int),
        index_number: index_number(rel),
    }
}

/// What is answered about an entry from what the file system says.
pub fn populate_file_info(m: &FileMeta, rel: &str) -> (info: FileInfo)
    ensures
        info == info_of(*m, rel@),
{
    FileInfo {
        file_attributes: attributes_of(m.is_dir),
        file_size: m.len,
        allocation_size: m.len,
        creation_time: secs_to_filetime(m.created),
        last_write_time: secs_to_filetime(m.modified),
        change_time: secs_to_filetime(m.modified),
        last_access_time: secs_to_filetime(m.accessed),
        index_number: path_to_index_number(rel),
    }
}

/// What is answered about an entry from what the cache knows.
pub open spec fn info_of_cached(a: CachedAttr, rel: Seq<char>) -> FileInfo {
    let modified = filetime(whole_secs(a.mtime));
    FileInfo {
        file_attributes: attributes(a.is_dir),
        file_size: a.size,
        allocation_size: a.size,
        creation_time: filetime(whole_secs(a.created)),
        last_write_time: modified,
        change_time: modified,
        last_access_time: modified,
        index_number: index_number(rel),
    }
}

/// What is answered about an entry from what the cache knows.
pub fn populate_file_info_from_cached(a: &CachedAttr, rel: &str) -> (info: FileInfo)
    ensures
        info == info_of_cached(*a, rel@),
{
    let modified: u64 = micros_to_filetime(a.mtime);
    FileInfo {
        file_attributes: attributes_of(a.is_dir),
        file_size: a.size,
        allocation_size: a.size,
        creation_time: micros_to_filetime(a.created),
        last_write_time: modified,
        change_time: modified,
        last_access_time: modified,
        index_number: path_to_index_number(rel),
    }
}

/// What is answered about an open entry: what the cache knows, or what the file system says.
pub fn get_file_info(
    cached: Option<CachedAttr>,
    meta: Option<FileMeta>,
    rel: &str,
) -> (r: Result<FileInfo, FsStatus>)
    ensures
        r == match (cached, meta) {
            (Some(a), _) => Ok::<FileInfo, FsStatus>(info_of_cached(a, rel@)),
            (None, Some(m)) => Ok(info_of(m, rel@)),
            (None, None) => Err(FsStatus::NameNotFound),
        },
{
    match cached {
        Some(a) => Ok(populate_file_info_from_cached(&a, rel)),
        None => match meta {
            Some(m) => Ok(populate_file_info(&m, rel)),
            None => Err(FsStatus::NameNotFound),
        },
    }
}

/// The size of a security descriptor of `len` bytes, or the refusal where the room that was given
/// for it is too small.
pub fn get_security(len: usize, room: Option<usize>) -> (r: Result<u64, FsStatus>)
    ensures
        r == match room {
            Some(n) => if n >= len {
                Ok::<u64, FsStatus>(len as u64)
            } else {
                Err(FsStatus::BufferOverflow)
            },
            None => Ok(len as u64),
        },
{
    match room {
        Some(n) => if n >= len {
            Ok(len as u64)
        } else {
            Err(FsStatus::BufferOverflow)
        },
        None => Ok(len as u64),
    }
}

/// Attributes and size of the security descriptor of a name. `cached` and `on_server` say whether
/// the entry is a directory, where the cache or the server knows it.
pub fn get_security_by_name(
    cached: Option<bool>,
    on_server: Option<bool>,
    len: usize,
    room: Option<usize>,
) -> (r: Result<(u32, u64), FsStatus>)
    ensures
        r == match (cached, on_server) {
            (None, None) => Err::<(u32, u64), FsStatus>(FsStatus::NameNotFound),
            _ => {
                let is_dir = match cached {
                    Some(d) => d,
                    None => on_server->0,
                };
                match room {
                    Some(n) => if n >= len {
                        Ok((attributes(is_dir), len as u64))
                    } else {
                        Err(FsStatus::BufferOverflow)
                    },
                    None => Ok((attributes(is_dir), len as u64)),
                }
            },
        },
{
    let is_dir = match cached {
        Some(d) => d,
        None => match on_server {
            Some(d) => d,
            None => {
                return Err(FsStatus::NameNotFound);
            },
        },
    };
    match get_security(len, room) {
        Ok(n) => Ok((attributes_of(is_dir), n)),
        Err(e) => Err(e),
    }
}

/// How the error of an attempt to create an entry is answered.
pub fn create_error(already_exists: bool) -> (s: FsStatus)
    ensures
        s == if already_exists {
            FsStatus::NameCollision
        } else {
            FsStatus::DiskFull
        },
{
    if already_exists {
        FsStatus::NameCollision
    } else {
        FsStatus::DiskFull
    }
}

/// Whether a request to create an entry is about a directory.
pub fn creates_dir(create_options: u32, file_attributes: u32) -> (r: bool)
    ensures
        r == (create_options & FILE_DIRECTORY_FILE != 0 || file_attributes
            & FILE_ATTRIBUTE_DIRECTORY != 0),
{
    (create_options & FILE_DIRECTORY_FILE) != 0 || (file_attributes & FILE_ATTRIBUTE_DIRECTORY) != 0
}

/// Where the bytes of a read come from.
#[derive(Clone, Copy, Debug, PartialEq, Eq, Structural)]
pub enum ReadSource {
    /// The file of the cache, which is complete.
    CacheFile,
    /// The chunks that the cache has, and the server for the others.
    Chunks,
    /// The server alone.
    Server,
}

/// Where the bytes of a read come from at first. `has_file` says whether the cache has a file for
/// the entry.
pub open spec fn source_of(cached: Option<CachedAttr>, has_file: bool) -> ReadSource {
    match cached {
        Some(a) => if has_file && a.is_hydrated {
            ReadSource::CacheFile
        } else if has_file {
            ReadSource::Chunks
        } else {
            ReadSource::Server
        },
        None => ReadSource::Server,
    }
}

/// Where the bytes of a read come from; directories cannot be read.
pub fn read_source(is_dir: bool, cached: Option<CachedAttr>, has_file: bool) -> (r: Result<
    ReadSource,
    FsStatus,
>)
    ensures
        r == if is_dir {
            Err::<ReadSource, FsStatus>(FsStatus::AccessDenied)
        } else {
            Ok(source_of(cached, has_file))
        },
{
    if is_dir {
        return Err(FsStatus::AccessDenied);
    }
    match cached {
        Some(a) => {
            if has_file && a.is_hydrated {
                return Ok(ReadSource::CacheFile);
            }
            if has_file {
                return Ok(ReadSource::Chunks);
            }
            Ok(ReadSource::Server)
        },
        None => Ok(ReadSource::Server),
    }
}

/// Where the bytes of a read come from after a source has failed.
pub fn next_source(failed: ReadSource) -> (r: Result<ReadSource, FsStatus>)
    ensures
        r == match failed {
            ReadSource::CacheFile => Ok::<ReadSource, FsStatus>(ReadSource::Chunks),
            ReadSource::Chunks => Ok(ReadSource::Server),
            ReadSource::Server => Err(FsStatus::AccessDenied),
        },
{
    match failed {
        ReadSource::CacheFile => Ok(ReadSource::Chunks),
        ReadSource::Chunks => Ok(ReadSource::Server),
        ReadSource::Server => Err(FsStatus::AccessDenied),
    }
}

/// The position that a write starts at; `len` is the size of the file, where it could be read.
pub fn write_position(write_to_eof: bool, len: Option<u64>, offset: u64) -> (p: u64)
    ensures
        p == match len {
            Some(n) => if write_to_eof {
                n
            } else {
                offset
            },
            None => offset,
        },
{
    if write_to_eof {
        match len {
            Some(n) => n,
            None => offset,
        }
    } else {
        offset
    }
}

/// Content of a file can be changed, that of a directory cannot.
pub fn check_writable(is_dir: bool) -> (r: Result<(), FsStatus>)
    ensures
        r == if is_dir {
            Err::<(), FsStatus>(FsStatus::AccessDenied)
        } else {
            Ok(())
        },
{
    if is_dir {
        Err(FsStatus::AccessDenied)
    } else {
        Ok(())
    }
}

/// What is removed when the last handle of an entry is closed.
#[derive(Clone, Copy, Debug, PartialEq, Eq, Structural)]
pub enum CleanupStep {
    Nothing,
    RemoveDir,
    RemoveFile,
}

/// An entry that is open, and whether it is removed once it is closed.
pub struct OpenCtx {
    pub abs: String,
    pub is_dir: bool,
    pub pending_delete: bool,
}

impl OpenCtx {
    /// An entry that was just opened is not removed.
    pub fn new(abs: String, is_dir: bool) -> (c: OpenCtx)
        ensures
            c.abs@ == abs@,
            c.is_dir == is_dir,
            !c.pending_delete,
    {
        OpenCtx { abs, is_dir, pending_delete: false }
    }

    /// Marks the entry to be removed once it is closed, or takes that back.
    pub fn set_delete(&mut self, delete_file: bool)
        ensures
            final(self).pending_delete == delete_file,
            final(self).abs == old(self).abs,
            final(self).is_dir == old(self).is_dir,
    {
        self.pending_delete = delete_file;
    }

    /// What is removed when the entry is closed.
    pub fn cleanup(&self) -> (s: CleanupStep)
        ensures
            s == if !self.pending_delete {
                CleanupStep::Nothing
            } else if self.is_dir {
                CleanupStep::RemoveDir
            } else {
                CleanupStep::RemoveFile
            },
    {
        if !self.pending_delete {
            return CleanupStep::Nothing;
        }
        if self.is_dir {
            CleanupStep::RemoveDir
        } else {
            CleanupStep::RemoveFile
        }
    }
}

/// An entry of a listing.
#[derive(Debug, Clone, PartialEq, Eq)]
pub struct DirItem {
    pub name: String,
    pub info: FileInfo,
}

pub open spec fn items(v: Seq<DirItem>) -> Seq<(Seq<char>, FileInfo)> {
    v.map_values(|d: DirItem| (d.name@, d.info))
}

/// A directory of which nothing is known.
pub open spec fn bare_dir() -> CachedAttr {
    CachedAttr {
        is_dir: true,
        size: 0,
        mtime: 0,
        created: 0,
        is_hydrated: false,
        hydrated_size: 0,
    }
}

/// The entries of a listing for the directory itself and the one above it. A directory that the
/// cache does not know has none, and the root has none above it.
pub open spec fn dot_items(
    rel: Seq<char>,
    own: Option<CachedAttr>,
    above: Option<CachedAttr>,
) -> Seq<(Seq<char>, FileInfo)> {
    match own {
        None => Seq::empty(),
        Some(a) => {
            let dot = seq![("."@, info_of_cached(a, rel))];
            if rel.len() == 0 {
                dot
            } else {
                let up = match above {
                    Some(p) => p,
                    None => bare_dir(),
                };
                dot.push((".."@, info_of_cached(up, parent_path(rel))))
            }
        },
    }
}

/// The entries of a listing for what a directory holds.
pub open spec fn child_items(rel: Seq<char>, children: Seq<(String, CachedAttr)>) -> Seq<
    (Seq<char>, FileInfo),
> {
    children.map_values(
        |c: (String, CachedAttr)| (c.0@, info_of_cached(c.1, child_path(rel, c.0@))),
    )
}

/// The listing of a directory from what the cache knows.
pub fn list_directory(
    rel: &str,
    own: Option<CachedAttr>,
    above: Option<CachedAttr>,
    children: &Vec<(String, CachedAttr)>,
) -> (out: Vec<DirItem>)
    ensures
        items(out@) == dot_items(rel@, own, above) + child_items(rel@, children@),
{
    let mut out: Vec<DirItem> = Vec::new();
    match own {
        Some(a) => {
            out.push(
                DirItem { name: ".".to_owned(), info: populate_file_info_from_cached(&a, rel) },
            );
            if !rel.is_empty() {
                let up = match above {
                    Some(p) => p,
                    None => CachedAttr {
                        is_dir: true,
                        size: 0,
                        mtime: 0,
                        created: 0,
                        is_hydrated: false,
                        hydrated_size: 0,
                    },
                };
                let parent = parent_of(rel);
                out.push(
                    DirItem {
                        name: "..".to_owned(),
                        info: populate_file_info_from_cached(&up, parent),
                    },
                );
            }
        },
        None => {},
    }
    let ghost dots = items(out@);
    assert(dots =~= dot_items(rel@, own, above));
    let mut i: usize = 0;
    assert(items(out@) =~= dots + child_items(rel@, children@.take(0)));
    while i < children.len()
        invariant
            i <= children@.len(),
            items(out@) == dots + child_items(rel@, children@.take(i as int)),
        decreases children@.len() - i,
    {
        let c = &children[i];
        let ghost before = items(out@);
        let child = join_rel(rel, c.0.as_str());
        let d = DirItem {
            name: c.0.clone(),
            info: populate_file_info_from_cached(&c.1, child.as_str()),
        };
        out.push(d);
        assert(items(out@) =~= before.push((d.name@, d.info)));
        assert(child_items(rel@, children@.take(i + 1)) =~= child_items(
            rel@,
            children@.take(i as int),
        ).push((d.name@, d.info)));
        assert(items(out@) =~= dots + child_items(rel@, children@.take(i + 1)));
        i += 1;
    }
    assert(children@.take(children@.len() as int) =~= children@);
    out
}

/// The name of a request without the separators at its front.
pub open spec fn plain_request(name: Seq<char>) -> Seq<char> {
    trim_front(trim_front(name, '\\'), '/')
}

/// A share as the virtual drive shows it.
pub struct PassthroughFs {
    domain: String,
    nas_root: String,
}

/// Whether the server's version of a file is another one than the cache knows: the size differs, or
/// the time by more than two seconds. `live` is in seconds since 1970.
pub open spec fn drifted(live_size: u64, live: u64, cached: CachedAttr) -> bool {
    live_size != cached.size || live * 1_000_000 - cached.mtime > 2_000_000 || cached.mtime - live
        * 1_000_000 > 2_000_000
}

impl PassthroughFs {
    pub closed spec fn root(&self) -> Seq<char> {
        self.nas_root@
    }

    pub closed spec fn domain_name(&self) -> Seq<char> {
        self.domain@
    }

    /// The path on the server of a request.
    pub open spec fn resolved(&self, name: Seq<char>) -> Seq<char> {
        let plain = plain_request(name);
        if plain.len() == 0 {
            self.root()
        } else {
            joined(Platform::Windows, self.root(), replaced(plain, '/', '\\'))
        }
    }

    /// A share below `nas_root`.
    pub fn new(domain: String, nas_root: String) -> (f: PassthroughFs)
        ensures
            f.domain_name() == domain@,
            f.root() == nas_root@,
    {
        PassthroughFs { domain, nas_root }
    }

    /// The path on the server of a request.
    pub fn resolve(&self, name: &str) -> (out: String)
        ensures
            out@ == self.resolved(name@),
    {
        let a = trim_start_char(name, '\\');
        let plain = trim_start_char(a.as_str(), '/');
        if plain.as_str().is_empty() {
            self.nas_root.clone()
        } else {
            let child = replace_char(plain.as_str(), '/', '\\');
            join(Platform::Windows, self.nas_root.as_str(), child.as_str())
        }
    }

    /// The path of a request as the cache knows it: below the root, with `/` between its parts.
    pub fn rel_path(name: &str) -> (out: String)
        ensures
            out@ == replaced(plain_request(name@), '\\', '/'),
    {
        let a = trim_start_char(name, '\\');
        let plain = trim_start_char(a.as_str(), '/');
        replace_char(plain.as_str(), '\\', '/')
    }

    /// The path on the server as the cache knows it; empty for the root and for what lies outside.
    pub open spec fn relative_of(&self, abs: Seq<char>) -> Seq<char> {
        match below(Platform::Windows, self.root(), abs) {
            Some(r) => replaced(r, '\\', '/'),
            None => Seq::empty(),
        }
    }

    /// The path on the server as the cache knows it; empty for the root and for what lies outside.
    pub fn rel_from_abs(&self, abs: &str) -> (out: String)
        ensures
            out@ == self.relative_of(abs@),
    {
        match strip_prefix(Platform::Windows, self.nas_root.as_str(), abs) {
            Some(r) => replace_char(r.as_str(), '\\', '/'),
            None => {
                let out = String::new();
                assert(out@ =~= Seq::<char>::empty());
                out
            },
        }
    }

    /// What is answered to a request to open an entry: its attributes and a handle. `meta` is what
    /// the server says of it, and `opened` whether its content could be opened.
    pub fn open(&self, name: &str, meta: Option<FileMeta>, opened: bool) -> (r: Result<
        (OpenCtx, FileInfo),
        FsStatus,
    >)
        ensures
            match meta {
                None => r matches Err(e) && e == FsStatus::NameNotFound,
                Some(m) => if m.is_dir || opened {
                    &&& r matches Ok((c, info))
                    &&& c.abs@ == self.resolved(name@)
                    &&& c.is_dir == m.is_dir
                    &&& !c.pending_delete
                    &&& info == info_of(m, replaced(plain_request(name@), '\\', '/'))
                } else {
                    r matches Err(e) && e == FsStatus::AccessDenied
                },
            },
    {
        match meta {
            None => Err(FsStatus::NameNotFound),
            Some(m) => {
                let rel = PassthroughFs::rel_path(name);
                let info = populate_file_info(&m, rel.as_str());
                if !m.is_dir && !opened {
                    return Err(FsStatus::AccessDenied);
                }
                Ok((OpenCtx::new(self.resolve(name), m.is_dir), info))
            },
        }
    }

    /// The paths of a rename on the server, and those that the cache knows the entry by, unless one
    /// of them is the root. A name that is taken is only given away if the request says so.
    pub fn rename(&self, name: &str, new_name: &str, replace: bool, taken: bool) -> (r: Result<
        (String, String, Option<(String, String)>),
        FsStatus,
    >)
        ensures
            ({
                let from = replaced(plain_request(name@), '\\', '/');
                let to = replaced(plain_request(new_name@), '\\', '/');
                if !replace && taken {
                    r matches Err(e) && e == FsStatus::NameCollision
                } else {
                    &&& r matches Ok((a, b, c))
                    &&& a@ == self.resolved(name@)
                    &&& b@ == self.resolved(new_name@)
                    &&& if from.len() > 0 && to.len() > 0 {
                        c matches Some((x, y)) && x@ == from && y@ == to
                    } else {
                        c is None
                    }
                }
            }),
    {
        let src = self.resolve(name);
        let dst = self.resolve(new_name);
        if !replace && taken {
            return Err(FsStatus::NameCollision);
        }
        let from = PassthroughFs::rel_path(name);
        let to = PassthroughFs::rel_path(new_name);
        let moved = if !from.as_str().is_empty() && !to.as_str().is_empty() {
            Some((from, to))
        } else {
            None
        };
        Ok((src, dst, moved))
    }

    /// Where the server's version of a file is kept before it is overwritten, and what is told of
    /// that: only where it is another one than the cache knows.
    pub fn conflict_sidecar(
        &self,
        rel: &str,
        abs: &str,
        live: Option<(u64, u64)>,
        cached: Option<CachedAttr>,
        host: &str,
        now: u64,
    ) -> (r: Option<(String, ConflictDetectedMsg)>)
        ensures
            match (live, cached) {
                (Some((size, mtime)), Some(a)) => if drifted(size, mtime, a) {
                    &&& r matches Some((path, msg))
                    &&& exists|t: (u32, u32, u32, u32, u32, u32)| #[trigger]
                        is_time(t, now as int) && path@ == conflict_path(
                            Platform::Windows,
                            abs@,
                            before_first(host@, '.'),
                            compact(t),
                        )
                    &&& msg.domain@ == self.domain_name()
                    &&& msg.original_path@ == rel@
                    &&& msg.conflict_path@ == last_part(Platform::Windows, path@)
                    &&& msg.host@ == before_first(host@, '.')
                    &&& msg.detected_at == now
                } else {
                    r is None
                },
                _ => r is None,
            },
    {
        let (size, mtime) = match live {
            Some(l) => l,
            None => {
                return None;
            },
        };
        let a = match cached {
            Some(a) => a,
            None => {
                return None;
            },
        };
        let live_micros: i128 = mtime as i128 * 1_000_000;
        let known: i128 = a.mtime as i128;
        let differs = size != a.size || live_micros - known > 2_000_000 || known - live_micros
            > 2_000_000;
        if !differs {
            return None;
        }
        let short = hostname_short(host);
        let path = make_conflict_path(Platform::Windows, abs, short.as_str(), now);
        let msg = ConflictDetectedMsg {
            domain: self.domain.clone(),
            original_path: rel.to_owned(),
            conflict_path: file_name(Platform::Windows, path.as_str()),
            host: short,
            detected_at: now,
        };
        Some((path, msg))
    }
}

/// Whether a path on the server comes from a request that names an entry below the root: the root
/// is a directory of a share or a drive, and the request names no other one and has neither
/// separators nor single dots at its ends.
pub open spec fn names_below(root: Seq<char>, name: Seq<char>) -> bool {
    let plain = plain_request(name);
    &&& root.len() > 0
    &&& can_be_base(Platform::Windows, root)
    &&& plain.len() > 0
    &&& !is_sep(plain[0])
    &&& !has_drive(replaced(plain, '/', '\\'))
    &&& trimmed_path(Platform::Windows, replaced(plain, '/', '\\')) == replaced(plain, '/', '\\')
}

/// The cache knows an entry by one path, whether that is taken from the request or from the path on
/// the server.
pub proof fn law_relative_paths_agree(fs: PassthroughFs, name: Seq<char>)
    requires
        names_below(fs.root(), name),
    ensures
        fs.relative_of(fs.resolved(name)) == replaced(plain_request(name), '\\', '/'),
{
    let plain = plain_request(name);
    let child = replaced(plain, '/', '\\');
    assert(child[0] == plain[0]);
    law_joined_path_lies_below(Platform::Windows, fs.root(), child);
    assert(replaced(child, '\\', '/') =~= replaced(plain, '\\', '/'));
}

/// What is answered about an entry that the cache knows shows the size that the server has, whether
/// or not content is held here.
pub proof fn law_cached_size_is_the_servers(a: CachedAttr, b: CachedAttr, rel: Seq<char>)
    ensures
        info_of_cached(a, rel).file_size == a.size,
        info_of_cached(a, rel).allocation_size == a.size,
        a.is_dir == b.is_dir && a.size == b.size && a.mtime == b.mtime && a.created == b.created
            ==> info_of_cached(a, rel) == info_of_cached(b, rel),
{
}

/// The answer about an entry shows the size that the file system says.
pub proof fn law_live_size_is_shown(m: FileMeta, rel: Seq<char>)
    ensures
        info_of(m, rel).file_size == m.len,
        info_of(m, rel).allocation_size == m.len,
{
}

/// Directories are shown as directories and files as files, from either source.
pub proof fn law_directories_are_told_apart(m: FileMeta, a: CachedAttr, rel: Seq<char>)
    ensures
        info_of(m, rel).file_attributes & 0x10 != 0 <==> m.is_dir,
        info_of_cached(a, rel).file_attributes & 0x10 != 0 <==> a.is_dir,
        info_of(m, rel).file_attributes != 0,
        info_of_cached(a, rel).file_attributes != 0,
{
    assert(0x10u32 & 0x10 != 0) by (bit_vector);
    assert(0x20u32 & 0x10 == 0) by (bit_vector);
}

/// Whether ticks since 1601 stand for a time in microseconds since 1970, cut to whole seconds.
pub open spec fn ticks_show(ticks: u64, micros: int) -> bool {
    let since = ticks - 116_444_736_000_000_000;
    10 * micros - 10_000_000 < since <= 10 * micros && since % 10_000_000 == 0
}

/// The times of an answer are those of the entry, each its own, as far as they can be written down.
pub proof fn law_times_are_shown(m: FileMeta, a: CachedAttr, rel: Seq<char>)
    ensures
        ({
            let live = info_of(m, rel);
            let known = info_of_cached(a, rel);
            let reach = 1_800_000_000_000int * 1_000_000;
            &&& m.created * 1_000_000 < reach ==> ticks_show(
                live.creation_time,
                m.created * 1_000_000,
            )
            &&& m.modified * 1_000_000 < reach ==> ticks_show(
                live.last_write_time,
                m.modified * 1_000_000,
            ) && live.change_time == live.last_write_time
            &&& m.accessed * 1_000_000 < reach ==> ticks_show(
                live.last_access_time,
                m.accessed * 1_000_000,
            )
            &&& 0 <= a.created < reach ==> ticks_show(known.creation_time, a.created as int)
            &&& 0 <= a.mtime < reach ==> ticks_show(known.last_write_time, a.mtime as int)
                && known.change_time == known.last_write_time && known.last_access_time
                == known.last_write_time
            &&& a.mtime < 0 ==> ticks_show(known.last_write_time, 0)
            &&& a.created < 0 ==> ticks_show(known.creation_time, 0)
        }),
{
    assert(1_800_000_000_000int * 1_000_000 == 1_800_000_000_000_000_000) by (nonlinear_arith);
}

/// A later time is never shown as an earlier one.
pub proof fn law_times_keep_their_order(a: int, b: int)
    requires
        0 <= a <= b,
    ensures
        filetime(a) <= filetime(b),
        filetime(a) == filetime(b) && filetime(b) < u64::MAX ==> a == b,
{
}

/// The cache and the server give the same answer about an entry that they agree on, but for the time
/// of the last access, which the cache does not know.
pub proof fn law_cache_answers_like_the_server(m: FileMeta, a: CachedAttr, rel: Seq<char>)
    requires
        a.is_dir == m.is_dir,
        a.size == m.len,
        a.mtime == m.modified * 1_000_000,
        a.created == m.created * 1_000_000,
    ensures
        info_of_cached(a, rel) == (FileInfo {
            last_access_time: info_of_cached(a, rel).last_access_time,
            ..info_of(m, rel)
        }),
{
}

/// A listing shows each entry of a directory once, in order, under its name, with the size and the
/// kind that are known of it and with the number by which its own path is known.
pub proof fn law_listing_shows_every_child(
    rel: Seq<char>,
    own: Option<CachedAttr>,
    above: Option<CachedAttr>,
    children: Seq<(String, CachedAttr)>,
    k: int,
)
    requires
        0 <= k < children.len(),
    ensures
        ({
            let dots = dot_items(rel, own, above);
            let out = dots + child_items(rel, children);
            let (name, info) = out[dots.len() + k];
            let path = if rel.len() == 0 {
                children[k].0@
            } else {
                rel.push('/') + children[k].0@
            };
            &&& out.len() == dots.len() + children.len()
            &&& name == children[k].0@
            &&& info.file_size == children[k].1.size
            &&& info.file_attributes & 0x10 != 0 <==> children[k].1.is_dir
            &&& info == info_of_cached(children[k].1, path)
            &&& info.index_number == index_number(path)
        }),
{
    let dots = dot_items(rel, own, above);
    let items = child_items(rel, children);
    assert((dots + items)[dots.len() + k] == items[k]);
    law_directories_are_told_apart(
        FileMeta { is_dir: true, len: 0, created: 0, modified: 0, accessed: 0 },
        children[k].1,
        rel,
    );
}

/// The listing of a directory that the cache knows starts with the directory itself and, below the
/// root, with the one above, and both are shown as what they are.
pub proof fn law_listing_starts_with_dots(rel: Seq<char>, own: CachedAttr, above: Option<CachedAttr>)
    ensures
        ({
            let dots = dot_items(rel, Some(own), above);
            &&& dots.len() == if rel.len() == 0 {
                1int
            } else {
                2
            }
            &&& dots[0].0 == "."@
            &&& dots[0].1 == info_of_cached(own, rel)
            &&& rel.len() > 0 ==> {
                &&& dots[1].0 == ".."@
                &&& dots[1].1.index_number == index_number(parent_path(rel))
                &&& above matches Some(up) ==> dots[1].1 == info_of_cached(up, parent_path(rel))
                &&& above is None ==> dots[1].1.file_attributes & 0x10 != 0
                    && dots[1].1.file_size == 0
            }
        }),
        dot_items(rel, None, above).len() == 0,
{
    assert(0x10u32 & 0x10 != 0) by (bit_vector);
}

/// A read is served from the cache's file alone exactly where the whole content is held, and from
/// the server alone exactly where the cache has no file for the entry or does not know it.
pub proof fn law_reads_come_from_where_the_bytes_are(a: CachedAttr, has_file: bool)
    ensures
        source_of(Some(a), has_file) == ReadSource::CacheFile <==> a.is_hydrated && has_file,
        source_of(Some(a), has_file) == ReadSource::Server <==> !has_file,
        source_of(None, has_file) == ReadSource::Server,
{
}

/// The server's version of a file counts as another one whenever its size is not the one that is
/// known, smaller or larger, or its time lies more than two seconds off, earlier or later; and in no
/// other case.
pub proof fn law_drift_is_seen(size: u64, live: u64, a: CachedAttr)
    ensures
        size < a.size ==> drifted(size, live, a),
        size > a.size ==> drifted(size, live, a),
        live * 1_000_000 > a.mtime + 2_000_000 ==> drifted(size, live, a),
        live * 1_000_000 < a.mtime - 2_000_000 ==> drifted(size, live, a),
        size == a.size && a.mtime - 2_000_000 <= live * 1_000_000 <= a.mtime + 2_000_000
            ==> !drifted(size, live, a),
{
}

/// The empty request and requests of separators alone are about the root.
pub proof fn law_root_is_asked_for_by_separators(fs: PassthroughFs, name: Seq<char>)
    requires
        name.len() <= 1,
        name.len() == 1 ==> is_sep(name[0]),
    ensures
        fs.resolved(name) == fs.root(),
        fs.relative_of(fs.root()).len() == 0,
{
    reveal_with_fuel(trim_front, 3);
    law_path_lies_below_itself(Platform::Windows, fs.root());
    assert(replaced(Seq::<char>::empty(), '\\', '/') =~= Seq::<char>::empty());
}

/// Directories cannot be read, and everything else can.
pub proof fn law_only_files_are_read(
    is_dir: bool,
    cached: Option<CachedAttr>,
    has_file: bool,
    r: Result<ReadSource, FsStatus>,
)
    requires
        call_ensures(read_source, (is_dir, cached, has_file), r),
    ensures
        is_dir <==> r is Err,
        !is_dir ==> r == Ok::<ReadSource, FsStatus>(source_of(cached, has_file)),
{
}

/// What the cache knows of an entry is answered before what the server says, and an entry that
/// neither knows is not found.
pub proof fn law_cache_is_asked_first(
    cached: Option<CachedAttr>,
    meta: Option<FileMeta>,
    rel: &str,
    r: Result<FileInfo, FsStatus>,
)
    requires
        call_ensures(get_file_info, (cached, meta, rel), r),
    ensures
        r is Err <==> cached is None && meta is None,
        r matches Err(e) ==> e is NameNotFound,
        cached matches Some(a) ==> (r matches Ok(i) && i.file_size == a.size && i.allocation_size
            == a.size && (i.file_attributes == attributes(a.is_dir))),
        cached is None ==> (meta matches Some(m) ==> (r matches Ok(i) && i == info_of(m, rel@))),
{
}

/// A description that does not fit into the room for it is refused, and its size is told
/// otherwise; what it is of is told by its attributes.
pub proof fn law_descriptions_have_to_fit(
    cached: Option<bool>,
    on_server: Option<bool>,
    len: usize,
    room: Option<usize>,
    r: Result<(u32, u64), FsStatus>,
)
    requires
        call_ensures(get_security_by_name, (cached, on_server, len, room), r),
    ensures
        cached is None && on_server is None ==> (r matches Err(e) && e is NameNotFound),
        cached is Some || on_server is Some ==> (r is Err <==> room is Some && room->0 < len),
        cached is Some || on_server is Some ==> (r matches Err(e) ==> e is BufferOverflow),
        r matches Ok(v) ==> v.1 == len && v.0 == attributes(
            if cached is Some {
                cached->0
            } else {
                on_server->0
            },
        ),
{
}

/// A directory is asked for by either of two bits, and a failed creation is told by its reason.
pub proof fn law_creations_say_what_they_make(
    options: u32,
    attrs: u32,
    dir: bool,
    exists_already: bool,
    s: FsStatus,
)
    requires
        call_ensures(creates_dir, (options, attrs), dir),
        call_ensures(create_error, (exists_already,), s),
    ensures
        dir <==> options & 0x1 != 0 || attrs & 0x10 != 0,
        s is NameCollision <==> exists_already,
        s is DiskFull <==> !exists_already,
{
}

/// A read goes on from the cache file to the chunks and from those to the server, and fails only
/// there.
pub proof fn law_reads_fall_back_to_the_server(
    a: Result<ReadSource, FsStatus>,
    b: Result<ReadSource, FsStatus>,
    c: Result<ReadSource, FsStatus>,
)
    requires
        call_ensures(next_source, (ReadSource::CacheFile,), a),
        call_ensures(next_source, (ReadSource::Chunks,), b),
        call_ensures(next_source, (ReadSource::Server,), c),
    ensures
        a == Ok::<ReadSource, FsStatus>(ReadSource::Chunks),
        b == Ok::<ReadSource, FsStatus>(ReadSource::Server),
        c is Err,
{
}

/// A write to the end goes to the end as far as that is known, and any other to where it was asked
/// to; only files are written.
pub proof fn law_writes_go_where_they_are_asked_to(
    to_end: bool,
    len: Option<u64>,
    offset: u64,
    p: u64,
    is_dir: bool,
    ok: Result<(), FsStatus>,
)
    requires
        call_ensures(write_position, (to_end, len, offset), p),
        call_ensures(check_writable, (is_dir,), ok),
    ensures
        !to_end ==> p == offset,
        to_end ==> (len matches Some(n) ==> p == n),
        len is None ==> p == offset,
        ok is Ok <==> !is_dir,
        ok matches Err(e) ==> e is AccessDenied,
{
}

/// Only what was marked is removed when it is closed, and as what it is; a mark can be taken back.
pub proof fn law_only_marked_entries_are_removed(
    c: &mut OpenCtx,
    mark: bool,
    after: OpenCtx,
    s: CleanupStep,
)
    requires
        call_ensures(OpenCtx::set_delete, (c, mark), ()),
        after == *final(c),
        call_ensures(OpenCtx::cleanup, (&after,), s),
    ensures
        s is Nothing <==> !mark,
        s is RemoveDir <==> mark && old(c).is_dir,
        s is RemoveFile <==> mark && !old(c).is_dir,
        after.abs@ == old(c).abs@,
{
}

/// An entry that the server has is opened at its path on the server, and shown as the server says;
/// a file whose content cannot be opened is refused.
pub proof fn law_opened_entries_are_those_asked_for(
    f: PassthroughFs,
    name: &str,
    meta: Option<FileMeta>,
    opened: bool,
    r: Result<(OpenCtx, FileInfo), FsStatus>,
)
    requires
        call_ensures(PassthroughFs::open, (&f, name, meta, opened), r),
    ensures
        meta is None ==> (r matches Err(e) && e is NameNotFound),
        meta matches Some(m) ==> (r is Ok <==> m.is_dir || opened),
        meta matches Some(m) ==> (r matches Ok(v) ==> v.0.abs@ == f.resolved(name@) && v.0.is_dir
            == m.is_dir && !v.0.pending_delete),
        meta is Some ==> (r matches Err(e) ==> e is AccessDenied),
{
}

/// A rename goes from the old path to the new one, on the server and in the cache, and never over
/// another entry unless it may.
pub proof fn law_renames_keep_their_direction(
    f: PassthroughFs,
    name: &str,
    new_name: &str,
    replace: bool,
    taken: bool,
    r: Result<(String, String, Option<(String, String)>), FsStatus>,
)
    requires
        call_ensures(PassthroughFs::rename, (&f, name, new_name, replace, taken), r),
    ensures
        r is Err <==> taken && !replace,
        r matches Err(e) ==> e is NameCollision,
        r matches Ok(v) ==> v.0@ == f.resolved(name@) && v.1@ == f.resolved(new_name@),
        r matches Ok(v) ==> (v.2 matches Some(c) ==> c.0@ == replaced(
            plain_request(name@),
            '\\',
            '/',
        ) && c.1@ == replaced(plain_request(new_name@), '\\', '/')),
{
}

/// A version of the server that is about to be overwritten is kept where it is not the known one,
/// beside the file, and is told with the share, the file and the time.
pub proof fn law_unknown_versions_are_kept(
    f: PassthroughFs,
    rel: &str,
    abs: &str,
    size: u64,
    secs: u64,
    a: CachedAttr,
    host: &str,
    now: u64,
    r: Option<(String, ConflictDetectedMsg)>,
)
    requires
        call_ensures(
            PassthroughFs::conflict_sidecar,
            (&f, rel, abs, Some((size, secs)), Some(a), host, now),
            r,
        ),
    ensures
        size != a.size ==> r is Some,
        secs * 1_000_000 - a.mtime > 2_000_000 || a.mtime - secs * 1_000_000 > 2_000_000 ==> r
            is Some,
        size == a.size && -2_000_000 <= secs * 1_000_000 - a.mtime <= 2_000_000 ==> r is None,
        r matches Some(v) ==> v.1.domain@ == f.domain_name() && v.1.original_path@ == rel@
            && v.1.detected_at == now && v.1.host@ == before_first(host@, '.')
            && v.1.conflict_path@ == last_part(Platform::Windows, v.0@),
{
}

} // verus!
