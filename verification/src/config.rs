//! Configuration of the mounts, and the paths that follow from it.
use crate::paths::{below_home, home_dir, join, joined, Environment, Platform};
use crate::text::{
    after_last, join2, lemma_last_pos, rest_after_last, same, texts, trim_back, trim_end_char,
};
use vstd::prelude::*;

verus! {

/// All mounts.
#[derive(Debug, Clone, PartialEq, Eq)]
pub struct MountsConfig {
    pub version: u32,
    pub mounts: Vec<MountConfig>,
    /// Folder of the synced files of all mounts, in place of the default one.
    pub sync_cache_root: Option<String>,
}

/// Configuration of one mount.
#[derive(Debug, Clone, PartialEq, Eq)]
pub struct MountConfig {
    /// Identifier of the mount.
    pub id: String,
    /// Whether the mount is in use.
    pub enabled: bool,
    /// Name for people to read.
    pub display_name: String,
    /// Path of the share, such as `\\nas\media`.
    pub nas_share_path: String,
    /// Key of the credentials in the credential store.
    pub credential_key: String,
    /// Drive letter under which programs see the share (Windows).
    pub mount_drive_letter: String,
    /// Where the share itself is mounted (Linux).
    pub smb_mount_path: Option<String>,
    /// Where the user sees the share (Linux).
    pub mount_path_linux: Option<String>,
    /// Where the user sees the share (macOS).
    pub mount_path_macos: Option<String>,
    /// Whether the folders of the share are jobs.
    pub is_jobs_folder: bool,
    /// Whether the share is synced on demand instead of mounted.
    pub sync_enabled: bool,
    /// Folder of the synced files, in place of the derived one.
    pub sync_root_path: Option<String>,
    /// Byte budget for synced content; 0 is none.
    pub sync_cache_limit_bytes: u64,
    /// Kept for configurations that still have it, as are the fields that follow.
    pub rclone_drive_letter: String,
    pub smb_drive_letter: String,
    pub junction_path: String,
    pub rclone_mount_path: Option<String>,
    pub rclone_remote: Option<String>,
    pub cache_dir_path: String,
    pub cache_max_size: String,
    pub cache_max_age: String,
    pub vfs_write_back: String,
    pub vfs_read_chunk_size: String,
    pub vfs_read_chunk_streams: u32,
    pub vfs_read_ahead: String,
    pub buffer_size: String,
    pub probe_interval_secs: u64,
    pub probe_timeout_ms: u64,
    pub fallback_threshold: u32,
    pub recovery_threshold: u32,
    pub max_rclone_start_attempts: u32,
    pub healthcheck_file_name: String,
    pub extra_rclone_flags: Vec<String>,
}

pub open spec fn opt_text(o: Option<String>) -> Option<Seq<char>> {
    match o {
        Some(s) => Some(s@),
        None => None,
    }
}

/// What a `MountConfig` says.
#[verifier::ext_equal]
pub struct ConfigView {
    pub id: Seq<char>,
    pub enabled: bool,
    pub display_name: Seq<char>,
    pub nas_share_path: Seq<char>,
    pub credential_key: Seq<char>,
    pub mount_drive_letter: Seq<char>,
    pub smb_mount_path: Option<Seq<char>>,
    pub mount_path_linux: Option<Seq<char>>,
    pub mount_path_macos: Option<Seq<char>>,
    pub is_jobs_folder: bool,
    pub sync_enabled: bool,
    pub sync_root_path: Option<Seq<char>>,
    pub sync_cache_limit_bytes: u64,
    pub rclone_drive_letter: Seq<char>,
    pub smb_drive_letter: Seq<char>,
    pub junction_path: Seq<char>,
    pub rclone_mount_path: Option<Seq<char>>,
    pub rclone_remote: Option<Seq<char>>,
    pub cache_dir_path: Seq<char>,
    pub cache_max_size: Seq<char>,
    pub cache_max_age: Seq<char>,
    pub vfs_write_back: Seq<char>,
    pub vfs_read_chunk_size: Seq<char>,
    pub vfs_read_chunk_streams: u32,
    pub vfs_read_ahead: Seq<char>,
    pub buffer_size: Seq<char>,
    pub probe_interval_secs: u64,
    pub probe_timeout_ms: u64,
    pub fallback_threshold: u32,
    pub recovery_threshold: u32,
    pub max_rclone_start_attempts: u32,
    pub healthcheck_file_name: Seq<char>,
    pub extra_rclone_flags: Seq<Seq<char>>,
}

impl View for MountConfig {
    type V = ConfigView;

    open spec fn view(&self) -> ConfigView {
        ConfigView {
            id: self.id@,
            enabled: self.enabled,
            display_name: self.display_name@,
            nas_share_path: self.nas_share_path@,
            credential_key: self.credential_key@,
            mount_drive_letter: self.mount_drive_letter@,
            smb_mount_path: opt_text(self.smb_mount_path),
            mount_path_linux: opt_text(self.mount_path_linux),
            mount_path_macos: opt_text(self.mount_path_macos),
            is_jobs_folder: self.is_jobs_folder,
            sync_enabled: self.sync_enabled,
            sync_root_path: opt_text(self.sync_root_path),
            sync_cache_limit_bytes: self.sync_cache_limit_bytes,
            rclone_drive_letter: self.rclone_drive_letter@,
            smb_drive_letter: self.smb_drive_letter@,
            junction_path: self.junction_path@,
            rclone_mount_path: opt_text(self.rclone_mount_path),
            rclone_remote: opt_text(self.rclone_remote),
            cache_dir_path: self.cache_dir_path@,
            cache_max_size: self.cache_max_size@,
            cache_max_age: self.cache_max_age@,
            vfs_write_back: self.vfs_write_back@,
            vfs_read_chunk_size: self.vfs_read_chunk_size@,
            vfs_read_chunk_streams: self.vfs_read_chunk_streams,
            vfs_read_ahead: self.vfs_read_ahead@,
            buffer_size: self.buffer_size@,
            probe_interval_secs: self.probe_interval_secs,
            probe_timeout_ms: self.probe_timeout_ms,
            fallback_threshold: self.fallback_threshold,
            recovery_threshold: self.recovery_threshold,
            max_rclone_start_attempts: self.max_rclone_start_attempts,
            healthcheck_file_name: self.healthcheck_file_name@,
            extra_rclone_flags: texts(self.extra_rclone_flags@),
        }
    }
}

/// The value of an override, where it is given and not empty.
pub open spec fn given(o: Option<String>) -> Option<Seq<char>> {
    match o {
        Some(s) => if s@.len() > 0 {
            Some(s@)
        } else {
            None
        },
        None => None,
    }
}

fn given_text(o: &Option<String>) -> (r: Option<String>)
    ensures
        opt_text(r) == given(*o),
{
    match o {
        Some(s) => if s.as_str().is_empty() {
            None
        } else {
            Some(s.clone())
        },
        None => None,
    }
}

fn same_opt(a: &Option<String>, b: &Option<String>) -> (r: bool)
    ensures
        r == (opt_text(*a) == opt_text(*b)),
{
    match (a, b) {
        (Some(x), Some(y)) => same(x.as_str(), y.as_str()),
        (None, None) => true,
        _ => false,
    }
}

fn same_list(a: &Vec<String>, b: &Vec<String>) -> (r: bool)
    ensures
        r == (texts(a@) == texts(b@)),
{
    if a.len() != b.len() {
        assert(texts(a@).len() != texts(b@).len());
        return false;
    }
    let mut i: usize = 0;
    while i < a.len()
        invariant
            i <= a@.len(),
            a@.len() == b@.len(),
            forall|k: int| 0 <= k < i ==> #[trigger] texts(a@)[k] == texts(b@)[k],
        decreases a@.len() - i,
    {
        if !same(a[i].as_str(), b[i].as_str()) {
            assert(texts(a@)[i as int] != texts(b@)[i as int]);
            return false;
        }
        i += 1;
    }
    assert(texts(a@) =~= texts(b@));
    true
}

/// Whether two configurations say the same.
pub open spec fn agree(a: MountConfig, b: MountConfig) -> bool {
    &&& a.id@ == b.id@
    &&& a.enabled == b.enabled
    &&& a.display_name@ == b.display_name@
    &&& a.nas_share_path@ == b.nas_share_path@
    &&& a.credential_key@ == b.credential_key@
    &&& a.mount_drive_letter@ == b.mount_drive_letter@
    &&& opt_text(a.smb_mount_path) == opt_text(b.smb_mount_path)
    &&& opt_text(a.mount_path_linux) == opt_text(b.mount_path_linux)
    &&& opt_text(a.mount_path_macos) == opt_text(b.mount_path_macos)
    &&& a.is_jobs_folder == b.is_jobs_folder
    &&& a.sync_enabled == b.sync_enabled
    &&& opt_text(a.sync_root_path) == opt_text(b.sync_root_path)
    &&& a.sync_cache_limit_bytes == b.sync_cache_limit_bytes
    &&& a.rclone_drive_letter@ == b.rclone_drive_letter@
    &&& a.smb_drive_letter@ == b.smb_drive_letter@
    &&& a.junction_path@ == b.junction_path@
    &&& opt_text(a.rclone_mount_path) == opt_text(b.rclone_mount_path)
    &&& opt_text(a.rclone_remote) == opt_text(b.rclone_remote)
    &&& a.cache_dir_path@ == b.cache_dir_path@
    &&& a.cache_max_size@ == b.cache_max_size@
    &&& a.cache_max_age@ == b.cache_max_age@
    &&& a.vfs_write_back@ == b.vfs_write_back@
    &&& a.vfs_read_chunk_size@ == b.vfs_read_chunk_size@
    &&& a.vfs_read_chunk_streams == b.vfs_read_chunk_streams
    &&& a.vfs_read_ahead@ == b.vfs_read_ahead@
    &&& a.buffer_size@ == b.buffer_size@
    &&& a.probe_interval_secs == b.probe_interval_secs
    &&& a.probe_timeout_ms == b.probe_timeout_ms
    &&& a.fallback_threshold == b.fallback_threshold
    &&& a.recovery_threshold == b.recovery_threshold
    &&& a.max_rclone_start_attempts == b.max_rclone_start_attempts
    &&& a.healthcheck_file_name@ == b.healthcheck_file_name@
    &&& texts(a.extra_rclone_flags@) == texts(b.extra_rclone_flags@)
}

/// The name of the share: the last part of its path, or the identifier where there is none.
pub open spec fn share(m: MountConfig) -> Seq<char> {
    let last = after_last(trim_back(m.nas_share_path@, '\\'), '\\');
    if last.len() == 0 {
        m.id@
    } else {
        last
    }
}

/// Base directory of the links that the user sees.
pub open spec fn volumes_dir(env: Environment) -> Seq<char> {
    match env.platform {
        Platform::Windows => "C:\\Volumes\\ufb"@,
        Platform::Macos => home_dir(env, "ufb/mounts"@, "/tmp/ufb-mounts"@),
        Platform::Linux => linux_mounts_dir(env),
    }
}

/// Base directory of derived mount paths on Linux.
pub open spec fn linux_mounts_dir(env: Environment) -> Seq<char> {
    home_dir(env, ".local/share/ufb/mnt"@, "/tmp/ufb-mnt"@)
}

/// The folder of synced files where the configuration names none.
pub open spec fn default_sync_dir(env: Environment) -> Seq<char> {
    match env.platform {
        Platform::Windows => match env.local_app_data {
            Some(local) => joined(
                env.platform,
                joined(env.platform, local@, "ufb"@),
                "sync"@,
            ),
            None => "C:\\ufb\\sync"@,
        },
        _ => home_dir(env, ".local/share/ufb/sync"@, "/tmp/ufb-sync"@),
    }
}

/// The folder that macOS keeps the files of a synced share in.
pub open spec fn domain_dir(env: Environment, m: MountConfig) -> Seq<char> {
    let home = match env.home {
        Some(home) => home@,
        None => Seq::empty(),
    };
    joined(
        env.platform,
        joined(env.platform, home, "Library/CloudStorage"@),
        "com.unionfiles.mediamount-tray.FileProvider-"@ + share(m),
    )
}

/// The path of the link to the share that the user sees.
pub open spec fn volume(env: Environment, m: MountConfig) -> Seq<char> {
    joined(env.platform, volumes_dir(env), share(m))
}

/// The folder of a mount's synced files.
pub open spec fn sync_dir(env: Environment, m: MountConfig, cache_root: Seq<char>) -> Seq<char> {
    if env.platform is Macos {
        domain_dir(env, m)
    } else {
        match given(m.sync_root_path) {
            Some(p) => p,
            None => joined(env.platform, cache_root, share(m)),
        }
    }
}

/// Where the user finds the share.
pub open spec fn user_path(env: Environment, m: MountConfig) -> Seq<char> {
    match env.platform {
        Platform::Windows => volume(env, m),
        Platform::Macos => match given(m.mount_path_macos) {
            Some(p) => p,
            None => volume(env, m),
        },
        Platform::Linux => match given(m.mount_path_linux) {
            Some(p) => p,
            None => joined(env.platform, linux_mounts_dir(env), m.id@),
        },
    }
}

/// The identifiers of the enabled mounts with the given share name, in order.
pub open spec fn ids_of_share(ms: Seq<MountConfig>, name: Seq<char>) -> Seq<Seq<char>>
    decreases ms.len(),
{
    if ms.len() == 0 {
        Seq::empty()
    } else if ms.last().enabled && share(ms.last()) == name {
        ids_of_share(ms.drop_last(), name).push(ms.last().id@)
    } else {
        ids_of_share(ms.drop_last(), name)
    }
}

/// The mount at `i` is the first enabled one with its share name.
pub open spec fn first_of_share(ms: Seq<MountConfig>, i: int) -> bool {
    &&& 0 <= i < ms.len()
    &&& ms[i].enabled
    &&& forall|j: int| 0 <= j < i && (#[trigger] ms[j]).enabled ==> share(ms[j]) != share(ms[i])
}

/// The share names of the first `n` mounts that several enabled mounts have, with the
/// identifiers of those.
pub open spec fn collisions(ms: Seq<MountConfig>, n: nat) -> Seq<(Seq<char>, Seq<Seq<char>>)>
    decreases n,
{
    if n == 0 {
        Seq::empty()
    } else {
        let i = n - 1;
        let rest = collisions(ms, (n - 1) as nat);
        if first_of_share(ms, i) && ids_of_share(ms, share(ms[i])).len() > 1 {
            rest.push((share(ms[i]), ids_of_share(ms, share(ms[i]))))
        } else {
            rest
        }
    }
}

pub open spec fn collision_views(v: Seq<(String, Vec<String>)>) -> Seq<
    (Seq<char>, Seq<Seq<char>>),
> {
    v.map_values(|t: (String, Vec<String>)| (t.0@, texts(t.1@)))
}

impl MountsConfig {
    /// A configuration without mounts, which stands in for one that cannot be read.
    pub fn empty() -> (c: MountsConfig)
        ensures
            c.version == 1,
            c.mounts@.len() == 0,
            c.sync_cache_root is None,
    {
        MountsConfig { version: 1, mounts: Vec::new(), sync_cache_root: None }
    }

    /// The folder of the synced files of all mounts.
    pub fn cache_root(&self, env: &Environment) -> (out: String)
        ensures
            out@ == match given(self.sync_cache_root) {
                Some(p) => p,
                None => default_sync_dir(*env),
            },
    {
        match given_text(&self.sync_cache_root) {
            Some(p) => p,
            None => MountConfig::default_cache_root(env),
        }
    }

    /// The share names that several enabled mounts have, with the identifiers of those.
    pub fn share_name_collisions(&self) -> (out: Vec<(String, Vec<String>)>)
        ensures
            collision_views(out@) == collisions(self.mounts@, self.mounts@.len()),
    {
        let mut out: Vec<(String, Vec<String>)> = Vec::new();
        let ghost ms = self.mounts@;
        let mut i: usize = 0;
        assert(collision_views(out@) =~= collisions(ms, 0));
        while i < self.mounts.len()
            invariant
                i <= ms.len(),
                ms == self.mounts@,
                collision_views(out@) == collisions(ms, i as nat),
            decreases ms.len() - i,
        {
            let ghost before = collision_views(out@);
            if self.is_first_of_share(i) {
                let name = self.mounts[i].share_name();
                let ids = self.ids_with_share(name.as_str());
                if ids.len() > 1 {
                    out.push((name, ids));
                    assert(collision_views(out@) =~= before.push((name@, texts(ids@))));
                }
            }
            i += 1;
        }
        out
    }

    fn is_first_of_share(&self, i: usize) -> (r: bool)
        requires
            i < self.mounts@.len(),
        ensures
            r == first_of_share(self.mounts@, i as int),
    {
        if !self.mounts[i].enabled {
            return false;
        }
        let name = self.mounts[i].share_name();
        let mut j: usize = 0;
        while j < i
            invariant
                j <= i < self.mounts@.len(),
                name@ == share(self.mounts@[i as int]),
                forall|k: int|
                    0 <= k < j && (#[trigger] self.mounts@[k]).enabled ==> share(self.mounts@[k])
                        != name@,
            decreases i - j,
        {
            if self.mounts[j].enabled {
                let other = self.mounts[j].share_name();
                if same(other.as_str(), name.as_str()) {
                    return false;
                }
            }
            j += 1;
        }
        true
    }

    fn ids_with_share(&self, name: &str) -> (out: Vec<String>)
        ensures
            texts(out@) == ids_of_share(self.mounts@, name@),
    {
        let mut out: Vec<String> = Vec::new();
        let ghost ms = self.mounts@;
        let mut i: usize = 0;
        assert(ms.take(0) =~= Seq::<MountConfig>::empty());
        assert(texts(out@) =~= ids_of_share(ms.take(0), name@));
        while i < self.mounts.len()
            invariant
                i <= ms.len(),
                ms == self.mounts@,
                texts(out@) == ids_of_share(ms.take(i as int), name@),
            decreases ms.len() - i,
        {
            assert(ms.take(i + 1).drop_last() =~= ms.take(i as int));
            let ghost before = texts(out@);
            let m = &self.mounts[i];
            if m.enabled {
                let s = m.share_name();
                if same(s.as_str(), name) {
                    out.push(m.id.clone());
                    assert(texts(out@) =~= before.push(m.id@));
                }
            }
            i += 1;
        }
        assert(ms.take(ms.len() as int) =~= ms);
        out
    }
}

impl MountConfig {
    /// Whether two configurations say the same.
    pub fn same_as(&self, other: &MountConfig) -> (r: bool)
        ensures
            r == agree(*self, *other),
    {
        same(self.id.as_str(), other.id.as_str())
            && self.enabled == other.enabled
            && same(self.display_name.as_str(), other.display_name.as_str())
            && same(self.nas_share_path.as_str(), other.nas_share_path.as_str())
            && same(self.credential_key.as_str(), other.credential_key.as_str())
            && same(self.mount_drive_letter.as_str(), other.mount_drive_letter.as_str())
            && same_opt(&self.smb_mount_path, &other.smb_mount_path)
            && same_opt(&self.mount_path_linux, &other.mount_path_linux)
            && same_opt(&self.mount_path_macos, &other.mount_path_macos)
            && self.is_jobs_folder == other.is_jobs_folder
            && self.sync_enabled == other.sync_enabled
            && same_opt(&self.sync_root_path, &other.sync_root_path)
            && self.sync_cache_limit_bytes == other.sync_cache_limit_bytes
            && same(self.rclone_drive_letter.as_str(), other.rclone_drive_letter.as_str())
            && same(self.smb_drive_letter.as_str(), other.smb_drive_letter.as_str())
            && same(self.junction_path.as_str(), other.junction_path.as_str())
            && same_opt(&self.rclone_mount_path, &other.rclone_mount_path)
            && same_opt(&self.rclone_remote, &other.rclone_remote)
            && same(self.cache_dir_path.as_str(), other.cache_dir_path.as_str())
            && same(self.cache_max_size.as_str(), other.cache_max_size.as_str())
            && same(self.cache_max_age.as_str(), other.cache_max_age.as_str())
            && same(self.vfs_write_back.as_str(), other.vfs_write_back.as_str())
            && same(self.vfs_read_chunk_size.as_str(), other.vfs_read_chunk_size.as_str())
            && self.vfs_read_chunk_streams == other.vfs_read_chunk_streams
            && same(self.vfs_read_ahead.as_str(), other.vfs_read_ahead.as_str())
            && same(self.buffer_size.as_str(), other.buffer_size.as_str())
            && self.probe_interval_secs == other.probe_interval_secs
            && self.probe_timeout_ms == other.probe_timeout_ms
            && self.fallback_threshold == other.fallback_threshold
            && self.recovery_threshold == other.recovery_threshold
            && self.max_rclone_start_attempts == other.max_rclone_start_attempts
            && same(self.healthcheck_file_name.as_str(), other.healthcheck_file_name.as_str())
            && same_list(&self.extra_rclone_flags, &other.extra_rclone_flags)
    }

    /// Whether the mount is synced on demand instead of mounted.
    pub fn is_sync_mode(&self) -> (r: bool)
        ensures
            r == self.sync_enabled,
    {
        self.sync_enabled
    }

    /// The folder of the mount's synced files below `cache_root`, unless the mount names its
    /// own. On macOS the system decides on the folder.
    pub fn sync_root_dir(&self, env: &Environment, cache_root: &str) -> (out: String)
        ensures
            out@ == sync_dir(*env, *self, cache_root@),
    {
        match env.platform {
            Platform::Macos => self.fileprovider_domain_path(env),
            _ => match given_text(&self.sync_root_path) {
                Some(p) => p,
                None => {
                    let name = self.share_name();
                    join(env.platform, cache_root, name.as_str())
                },
            },
        }
    }

    /// The folder that macOS keeps the files of this share in.
    pub fn fileprovider_domain_path(&self, env: &Environment) -> (out: String)
        ensures
            out@ == domain_dir(*env, *self),
    {
        let home: String = match &env.home {
            Some(home) => home.clone(),
            None => {
                let none = String::new();
                assert(none@ =~= Seq::<char>::empty());
                none
            },
        };
        let base = join(env.platform, home.as_str(), "Library/CloudStorage");
        let name = self.share_name();
        let folder = join2("com.unionfiles.mediamount-tray.FileProvider-", name.as_str());
        join(env.platform, base.as_str(), folder.as_str())
    }

    /// The name of the share: the last part of its path, or the identifier where there is none.
    pub fn share_name(&self) -> (out: String)
        ensures
            out@ == share(*self),
    {
        let trimmed = trim_end_char(self.nas_share_path.as_str(), '\\');
        let last = rest_after_last(trimmed.as_str(), '\\');
        if last.as_str().is_empty() {
            self.id.clone()
        } else {
            last
        }
    }

    /// The path of the link to the share that the user sees.
    pub fn volume_path(&self, env: &Environment) -> (out: String)
        ensures
            out@ == volume(*env, *self),
    {
        let base = MountConfig::volumes_base(env);
        let name = self.share_name();
        join(env.platform, base.as_str(), name.as_str())
    }

    /// Base directory of the links that the user sees.
    pub fn volumes_base(env: &Environment) -> (out: String)
        ensures
            out@ == volumes_dir(*env),
    {
        match env.platform {
            Platform::Windows => "C:\\Volumes\\ufb".to_owned(),
            Platform::Macos => below_home(env, "ufb/mounts", "/tmp/ufb-mounts"),
            Platform::Linux => MountConfig::linux_mnt_base(env),
        }
    }

    /// Base directory in which macOS mounts the shares themselves.
    pub fn smb_mount_base(env: &Environment) -> (out: String)
        ensures
            out@ == home_dir(*env, ".local/share/ufb/smb-mounts"@, "/tmp/ufb-smb-mounts"@),
    {
        below_home(env, ".local/share/ufb/smb-mounts", "/tmp/ufb-smb-mounts")
    }

    /// The folder of synced files where the configuration names none.
    pub fn default_cache_root(env: &Environment) -> (out: String)
        ensures
            out@ == default_sync_dir(*env),
    {
        match env.platform {
            Platform::Windows => match &env.local_app_data {
                Some(local) => {
                    let ufb = join(env.platform, local.as_str(), "ufb");
                    join(env.platform, ufb.as_str(), "sync")
                },
                None => "C:\\ufb\\sync".to_owned(),
            },
            _ => below_home(env, ".local/share/ufb/sync", "/tmp/ufb-sync"),
        }
    }

    /// Base directory of derived mount paths on Linux.
    pub fn linux_mnt_base(env: &Environment) -> (out: String)
        ensures
            out@ == linux_mounts_dir(*env),
    {
        below_home(env, ".local/share/ufb/mnt", "/tmp/ufb-mnt")
    }

    /// Where the user finds the share.
    pub fn mount_path(&self, env: &Environment) -> (out: String)
        ensures
            out@ == user_path(*env, *self),
    {
        match env.platform {
            Platform::Windows => self.volume_path(env),
            Platform::Macos => match given_text(&self.mount_path_macos) {
                Some(p) => p,
                None => self.volume_path(env),
            },
            Platform::Linux => match given_text(&self.mount_path_linux) {
                Some(p) => p,
                None => {
                    let base = MountConfig::linux_mnt_base(env);
                    join(env.platform, base.as_str(), self.id.as_str())
                },
            },
        }
    }

    /// Where the share itself is mounted on Linux.
    pub fn smb_target_path(&self, env: &Environment) -> (out: String)
        ensures
            out@ == share_mount_path(*env, *self),
    {
        match given_text(&self.smb_mount_path) {
            Some(p) => p,
            None => {
                let mut out = "/media/".to_owned();
                if let Some(user) = &env.user {
                    out.append(user.as_str());
                }
                out.append("/ufb/");
                out.append(self.id.as_str());
                out.append("-smb");
                out
            },
        }
    }
}

/// Where the share itself is mounted on Linux: the given path, else a directory of the user's
/// below `/media`.
pub open spec fn share_mount_path(env: Environment, m: MountConfig) -> Seq<char> {
    match given(m.smb_mount_path) {
        Some(p) => p,
        None => {
            let user = match env.user {
                Some(u) => u@,
                None => Seq::empty(),
            };
            "/media/"@ + user + "/ufb/"@ + m.id@ + "-smb"@
        },
    }
}

/// Value of a switch that is on unless it is set.
pub fn default_true() -> (r: bool)
    ensures
        r,
{
    true
}

/// Path of the configuration file, where the environment says where to look.
pub fn config_file_path(env: &Environment) -> (r: Option<String>)
    ensures
        opt_text(r) == match env.platform {
            Platform::Windows => match env.local_app_data {
                Some(local) => Some(
                    joined(
                        env.platform,
                        joined(env.platform, local@, "ufb"@),
                        "mounts.json"@,
                    ),
                ),
                None => None,
            },
            _ => match env.home {
                Some(home) => Some(
                    joined(
                        env.platform,
                        joined(env.platform, home@, ".local/share/ufb"@),
                        "mounts.json"@,
                    ),
                ),
                None => None,
            },
        },
{
    match env.platform {
        Platform::Windows => match &env.local_app_data {
            Some(local) => {
                let dir = join(env.platform, local.as_str(), "ufb");
                Some(join(env.platform, dir.as_str(), "mounts.json"))
            },
            None => None,
        },
        _ => match &env.home {
            Some(home) => {
                let dir = join(env.platform, home.as_str(), ".local/share/ufb");
                Some(join(env.platform, dir.as_str(), "mounts.json"))
            },
            None => None,
        },
    }
}

/// A share name taken from the path of the share is not empty and holds no backslash.
pub proof fn law_share_name_is_one_component(m: MountConfig)
    ensures
        share(m) != m.id@ ==> share(m).len() > 0 && forall|i: int|
            0 <= i < share(m).len() ==> share(m)[i] != '\\',
        m.id@.len() > 0 ==> share(m).len() > 0,
{
    lemma_last_pos(trim_back(m.nas_share_path@, '\\'), '\\');
}

/// Backslashes at the end of the path of a share do not count.
pub proof fn law_trailing_backslash_is_ignored(a: MountConfig, b: MountConfig)
    requires
        a.id@ == b.id@,
        b.nas_share_path@ == a.nas_share_path@.push('\\'),
    ensures
        share(a) == share(b),
{
    assert(b.nas_share_path@.drop_last() =~= a.nas_share_path@);
}

proof fn lemma_ids_of_share(ms: Seq<MountConfig>, i: int)
    requires
        0 <= i < ms.len(),
        ms[i].enabled,
    ensures
        ids_of_share(ms, share(ms[i])).contains(ms[i].id@),
        ids_of_share(ms, share(ms[i])).len() >= 1,
    decreases ms.len(),
{
    let name = share(ms[i]);
    let rest = ids_of_share(ms.drop_last(), name);
    if i == ms.len() - 1 {
        assert(rest.push(ms[i].id@)[rest.len() as int] == ms[i].id@);
    } else {
        assert(ms.drop_last()[i] == ms[i]);
        lemma_ids_of_share(ms.drop_last(), i);
        let k = choose|k: int| 0 <= k < rest.len() && rest[k] == ms[i].id@;
        assert(ids_of_share(ms, name)[k] == ms[i].id@);
    }
}

proof fn lemma_two_ids(ms: Seq<MountConfig>, i: int, j: int)
    requires
        0 <= i < j < ms.len(),
        ms[i].enabled,
        ms[j].enabled,
        share(ms[i]) == share(ms[j]),
    ensures
        ids_of_share(ms, share(ms[i])).len() > 1,
    decreases ms.len(),
{
    let less = ms.drop_last();
    assert(less[i] == ms[i]);
    if j == ms.len() - 1 {
        lemma_ids_of_share(less, i);
    } else {
        assert(less[j] == ms[j]);
        lemma_two_ids(less, i, j);
    }
}

proof fn lemma_collisions_has(ms: Seq<MountConfig>, n: nat, i: int)
    requires
        0 <= i < n <= ms.len(),
        first_of_share(ms, i),
        ids_of_share(ms, share(ms[i])).len() > 1,
    ensures
        collisions(ms, n).contains((share(ms[i]), ids_of_share(ms, share(ms[i])))),
    decreases n,
{
    let c = (share(ms[i]), ids_of_share(ms, share(ms[i])));
    let rest = collisions(ms, (n - 1) as nat);
    if i == n - 1 {
        assert(collisions(ms, n)[rest.len() as int] == c);
    } else {
        lemma_collisions_has(ms, (n - 1) as nat, i);
        let k = choose|k: int| 0 <= k < rest.len() && rest[k] == c;
        assert(collisions(ms, n)[k] == c);
    }
}

proof fn lemma_first_exists(ms: Seq<MountConfig>, i: int) -> (f: int)
    requires
        0 <= i < ms.len(),
        ms[i].enabled,
    ensures
        0 <= f <= i,
        first_of_share(ms, f),
        share(ms[f]) == share(ms[i]),
    decreases i,
{
    if first_of_share(ms, i) {
        i
    } else {
        let j = choose|j: int|
            0 <= j < i && (#[trigger] ms[j]).enabled && share(ms[j]) == share(ms[i]);
        lemma_first_exists(ms, j)
    }
}

/// Any two enabled mounts with one share name are reported together.
pub proof fn law_collisions_are_found(ms: Seq<MountConfig>, i: int, j: int)
    requires
        0 <= i < j < ms.len(),
        ms[i].enabled,
        ms[j].enabled,
        share(ms[i]) == share(ms[j]),
    ensures
        ({
            let ids = ids_of_share(ms, share(ms[i]));
            &&& collisions(ms, ms.len()).contains((share(ms[i]), ids))
            &&& ids.contains(ms[i].id@)
            &&& ids.contains(ms[j].id@)
        }),
{
    lemma_two_ids(ms, i, j);
    lemma_ids_of_share(ms, i);
    lemma_ids_of_share(ms, j);
    let f = lemma_first_exists(ms, i);
    lemma_collisions_has(ms, ms.len(), f);
}

/// Two configurations say the same only where every single field does: a difference in any of
/// them is a difference of the whole.
pub proof fn law_agreement_is_in_every_field(a: MountConfig, b: MountConfig)
    ensures
        a.id@ != b.id@ ==> !agree(a, b) && a@ != b@,
        a.enabled != b.enabled ==> !agree(a, b) && a@ != b@,
        a.display_name@ != b.display_name@ ==> !agree(a, b) && a@ != b@,
        a.nas_share_path@ != b.nas_share_path@ ==> !agree(a, b) && a@ != b@,
        a.credential_key@ != b.credential_key@ ==> !agree(a, b) && a@ != b@,
        a.mount_drive_letter@ != b.mount_drive_letter@ ==> !agree(a, b) && a@ != b@,
        opt_text(a.smb_mount_path) != opt_text(b.smb_mount_path) ==> !agree(a, b) && a@ != b@,
        opt_text(a.mount_path_linux) != opt_text(b.mount_path_linux) ==> !agree(a, b) && a@ != b@,
        opt_text(a.mount_path_macos) != opt_text(b.mount_path_macos) ==> !agree(a, b) && a@ != b@,
        a.is_jobs_folder != b.is_jobs_folder ==> !agree(a, b) && a@ != b@,
        a.sync_enabled != b.sync_enabled ==> !agree(a, b) && a@ != b@,
        opt_text(a.sync_root_path) != opt_text(b.sync_root_path) ==> !agree(a, b) && a@ != b@,
        a.sync_cache_limit_bytes != b.sync_cache_limit_bytes ==> !agree(a, b) && a@ != b@,
        a.rclone_drive_letter@ != b.rclone_drive_letter@ ==> !agree(a, b) && a@ != b@,
        a.smb_drive_letter@ != b.smb_drive_letter@ ==> !agree(a, b) && a@ != b@,
        a.junction_path@ != b.junction_path@ ==> !agree(a, b) && a@ != b@,
        opt_text(a.rclone_mount_path) != opt_text(b.rclone_mount_path) ==> !agree(a, b) && a@ != b@,
        opt_text(a.rclone_remote) != opt_text(b.rclone_remote) ==> !agree(a, b) && a@ != b@,
        a.cache_dir_path@ != b.cache_dir_path@ ==> !agree(a, b) && a@ != b@,
        a.cache_max_size@ != b.cache_max_size@ ==> !agree(a, b) && a@ != b@,
        a.cache_max_age@ != b.cache_max_age@ ==> !agree(a, b) && a@ != b@,
        a.vfs_write_back@ != b.vfs_write_back@ ==> !agree(a, b) && a@ != b@,
        a.vfs_read_chunk_size@ != b.vfs_read_chunk_size@ ==> !agree(a, b) && a@ != b@,
        a.vfs_read_chunk_streams != b.vfs_read_chunk_streams ==> !agree(a, b) && a@ != b@,
        a.vfs_read_ahead@ != b.vfs_read_ahead@ ==> !agree(a, b) && a@ != b@,
        a.buffer_size@ != b.buffer_size@ ==> !agree(a, b) && a@ != b@,
        a.probe_interval_secs != b.probe_interval_secs ==> !agree(a, b) && a@ != b@,
        a.probe_timeout_ms != b.probe_timeout_ms ==> !agree(a, b) && a@ != b@,
        a.fallback_threshold != b.fallback_threshold ==> !agree(a, b) && a@ != b@,
        a.recovery_threshold != b.recovery_threshold ==> !agree(a, b) && a@ != b@,
        a.max_rclone_start_attempts != b.max_rclone_start_attempts ==> !agree(a, b) && a@ != b@,
        a.healthcheck_file_name@ != b.healthcheck_file_name@ ==> !agree(a, b) && a@ != b@,
        texts(a.extra_rclone_flags@) != texts(b.extra_rclone_flags@) ==> !agree(a, b) && a@ != b@,
        agree(a, b) <==> a@ == b@,
{
}

/// The share is named by the last component of its path.
pub proof fn law_share_is_the_last_component(m: MountConfig, dir: Seq<char>, name: Seq<char>)
    requires
        name.len() > 0,
        forall|i: int| 0 <= i < name.len() ==> name[i] != '\\',
        m.nas_share_path@ == dir + seq!['\\'] + name || m.nas_share_path@ == name,
    ensures
        share(m) == name,
{
    let s = m.nas_share_path@;
    let k = s.len() - name.len();
    assert(s.last() == name.last());
    assert(name.last() == name[name.len() - 1]);
    assert forall|i: int| k - 1 < i < s.len() implies s[i] != '\\' by {
        assert(s[i] == name[i - k]);
    }
    crate::text::lemma_last_pos_is(s, '\\', k - 1);
    assert(s.skip(k) =~= name);
}

/// A share whose path has no component is named by the identifier of the mount.
pub proof fn law_share_without_a_path_is_named_by_its_mount(m: MountConfig)
    requires
        forall|i: int| 0 <= i < m.nas_share_path@.len() ==> m.nas_share_path@[i] == '\\',
    ensures
        share(m) == m.id@,
{
    let s = m.nas_share_path@;
    crate::text::lemma_trim_back(s, '\\', 0);
    assert(s.take(0) =~= Seq::<char>::empty());
    lemma_last_pos(s.take(0), '\\');
}

/// An override decides where it is given and not empty, and only there.
pub proof fn law_overrides_decide(env: Environment, m: MountConfig, cache_root: Seq<char>)
    ensures
        env.platform is Macos ==> (m.mount_path_macos matches Some(p) ==> p@.len() > 0 ==> user_path(
            env,
            m,
        ) == p@),
        env.platform is Linux ==> (m.mount_path_linux matches Some(p) ==> p@.len() > 0 ==> user_path(
            env,
            m,
        ) == p@),
        !(env.platform is Macos) ==> (m.sync_root_path matches Some(p) ==> p@.len() > 0 ==> sync_dir(
            env,
            m,
            cache_root,
        ) == p@),
        m.smb_mount_path matches Some(p) ==> p@.len() > 0 ==> share_mount_path(env, m) == p@,
        env.platform is Macos && (m.mount_path_macos is None || m.mount_path_macos->0@.len() == 0)
            ==> user_path(env, m) == joined(env.platform, volumes_dir(env), share(m)),
        env.platform is Linux && (m.mount_path_linux is None || m.mount_path_linux->0@.len() == 0)
            ==> user_path(env, m) == joined(env.platform, volumes_dir(env), m.id@),
        env.platform is Windows ==> user_path(env, m) == joined(
            env.platform,
            volumes_dir(env),
            share(m),
        ),
        env.platform is Macos ==> sync_dir(env, m, cache_root) == domain_dir(env, m),
        !(env.platform is Macos) && (m.sync_root_path is None || m.sync_root_path->0@.len() == 0)
            ==> sync_dir(env, m, cache_root) == joined(env.platform, cache_root, share(m)),
{
}

/// The directories that the mounts of a user lie in are below the home directory of the user,
/// and in fixed places where there is none.
pub proof fn law_mounts_lie_below_home(env: Environment)
    requires
        !(env.platform is Windows),
    ensures
        env.home matches Some(h) ==> {
            &&& linux_mounts_dir(env) == joined(env.platform, h@, ".local/share/ufb/mnt"@)
            &&& default_sync_dir(env) == joined(env.platform, h@, ".local/share/ufb/sync"@)
            &&& env.platform is Macos ==> volumes_dir(env) == joined(
                env.platform,
                h@,
                "ufb/mounts"@,
            )
            &&& env.platform is Linux ==> volumes_dir(env) == linux_mounts_dir(env)
        },
        env.home is None ==> {
            &&& linux_mounts_dir(env) == "/tmp/ufb-mnt"@
            &&& default_sync_dir(env) == "/tmp/ufb-sync"@
            &&& env.platform is Macos ==> volumes_dir(env) == "/tmp/ufb-mounts"@
        },
{
}

/// Shares of different names are kept in different folders, so that the files of one never turn
/// up in another.
pub proof fn law_synced_shares_have_their_own_folders(
    env: Environment,
    a: MountConfig,
    b: MountConfig,
)
    requires
        !(env.platform is Windows),
        share(a) != share(b),
    ensures
        domain_dir(env, a) != domain_dir(env, b),
{
    let home = match env.home {
        Some(home) => home@,
        None => Seq::empty(),
    };
    let base = joined(env.platform, home, "Library/CloudStorage"@);
    let mark = "com.unionfiles.mediamount-tray.FileProvider-"@;
    reveal_strlit("com.unionfiles.mediamount-tray.FileProvider-");
    let x = domain_dir(env, a);
    let y = domain_dir(env, b);
    let n = x.len() - share(a).len();
    assert(y.len() - share(b).len() == n);
    assert(x.skip(n) =~= share(a));
    assert(y.skip(n) =~= share(b));
}

proof fn lemma_ids_are_of_share(ms: Seq<MountConfig>, name: Seq<char>, k: int)
    requires
        0 <= k < ids_of_share(ms, name).len(),
    ensures
        exists|i: int|
            0 <= i < ms.len() && (#[trigger] ms[i]).enabled && share(ms[i]) == name && ms[i].id@
                == ids_of_share(ms, name)[k],
    decreases ms.len(),
{
    let less = ms.drop_last();
    let rest = ids_of_share(less, name);
    if k < rest.len() {
        lemma_ids_are_of_share(less, name, k);
        let i = choose|i: int|
            0 <= i < less.len() && (#[trigger] less[i]).enabled && share(less[i]) == name
                && less[i].id@ == rest[k];
        assert(ms[i] == less[i]);
    } else {
        assert(ms[ms.len() - 1] == ms.last());
    }
}

proof fn lemma_collisions_from(ms: Seq<MountConfig>, n: nat, c: int)
    requires
        n <= ms.len(),
        0 <= c < collisions(ms, n).len(),
    ensures
        collisions(ms, n)[c].1 == ids_of_share(ms, collisions(ms, n)[c].0),
        collisions(ms, n)[c].1.len() > 1,
    decreases n,
{
    if n > 0 {
        let rest = collisions(ms, (n - 1) as nat);
        if c < rest.len() {
            lemma_collisions_from(ms, (n - 1) as nat, c);
        }
    }
}

/// A reported collision is one: several mounts are named, and each of them is enabled and has the
/// share name.
pub proof fn law_collisions_are_real(ms: Seq<MountConfig>, c: int, k: int)
    requires
        0 <= c < collisions(ms, ms.len()).len(),
        0 <= k < collisions(ms, ms.len())[c].1.len(),
    ensures
        collisions(ms, ms.len())[c].1.len() >= 2,
        exists|i: int|
            0 <= i < ms.len() && (#[trigger] ms[i]).enabled && share(ms[i]) == collisions(
                ms,
                ms.len(),
            )[c].0 && ms[i].id@ == collisions(ms, ms.len())[c].1[k],
{
    lemma_collisions_from(ms, ms.len(), c);
    lemma_ids_are_of_share(ms, collisions(ms, ms.len())[c].0, k);
}

/// A share on Linux is mounted below the directory for media of the user, in a directory of its
/// own mount.
pub proof fn law_shares_are_mounted_with_the_users_media(env: Environment, m: MountConfig)
    requires
        m.smb_mount_path is None || m.smb_mount_path->0@.len() == 0,
    ensures
        env.user matches Some(u) ==> share_mount_path(env, m) == "/media/"@ + u@ + "/ufb/"@ + m.id@
            + "-smb"@,
        env.user is None ==> share_mount_path(env, m) == "/media/"@ + Seq::<char>::empty()
            + "/ufb/"@ + m.id@ + "-smb"@,
{
}

/// The synced files of all mounts lie where the configuration says, and in the default place where
/// it says nothing or an empty path.
pub proof fn law_configured_folder_is_used(c: MountsConfig, env: Environment, out: String)
    requires
        call_ensures(MountsConfig::cache_root, (&c, &env), out),
    ensures
        c.sync_cache_root matches Some(p) ==> p@.len() > 0 ==> out@ == p@,
        c.sync_cache_root is None || c.sync_cache_root->0@.len() == 0 ==> out@ == default_sync_dir(
            env,
        ),
{
}

/// The configuration file lies with the user's own data, and nowhere where that has no place.
pub proof fn law_configuration_lies_with_the_users_data(env: Environment, r: Option<String>)
    requires
        call_ensures(config_file_path, (&env,), r),
    ensures
        env.platform is Windows ==> (r is Some <==> env.local_app_data is Some),
        !(env.platform is Windows) ==> (r is Some <==> env.home is Some),
        env.platform is Windows ==> (env.local_app_data matches Some(d) ==> r->0@ == joined(
            env.platform,
            joined(env.platform, d@, "ufb"@),
            "mounts.json"@,
        )),
        !(env.platform is Windows) ==> (env.home matches Some(h) ==> r->0@ == joined(
            env.platform,
            joined(env.platform, h@, ".local/share/ufb"@),
            "mounts.json"@,
        )),
{
}

} // verus!
