//! The rclone backend: its command line, what its log says, and its cache statistics.
use crate::config::MountConfig;
use crate::paths::{join, joined, Platform};
use crate::text::{
    chars_of, contains, decimal, decimal_of, first_index, first_pos, join2, number_in, occurs,
    parse_u32, string_range, texts, trim, trimmed,
};
use vstd::prelude::*;

verus! {

/// What the rclone process was found to do.
#[derive(Debug, Clone, PartialEq, Eq)]
pub enum RcloneSignal {
    Started,
    Fatal(String),
    Exited { code: Option<i32> },
}

/// What a signal says.
pub enum SignalView {
    Started,
    Fatal(Seq<char>),
    Exited(Option<i32>),
}

impl View for RcloneSignal {
    type V = SignalView;

    open spec fn view(&self) -> SignalView {
        match self {
            RcloneSignal::Started => SignalView::Started,
            RcloneSignal::Fatal(s) => SignalView::Fatal(s@),
            RcloneSignal::Exited { code } => SignalView::Exited(*code),
        }
    }
}

/// The signal in a line of the log. The first of the patterns that matches counts, and the
/// case of letters does.
pub open spec fn signal_in(line: Seq<char>) -> Option<SignalView> {
    if occurs(line, "Serving"@) || occurs(line, "Local file system at"@) {
        Some(SignalView::Started)
    } else if occurs(line, "Fatal"@) || occurs(line, "mount helper error"@) {
        Some(SignalView::Fatal(line))
    } else if occurs(line, "winfsp"@) && occurs(line, "not found"@) {
        Some(SignalView::Fatal("WinFSP not found"@))
    } else if occurs(line, "mount point"@) && occurs(line, "already mounted"@) {
        Some(SignalView::Fatal("mount point already mounted"@))
    } else {
        None
    }
}

/// The signal in a line of the log.
pub fn parse_log_line(line: &str) -> (r: Option<RcloneSignal>)
    ensures
        r is Some <==> signal_in(line@) is Some,
        r matches Some(s) ==> signal_in(line@) == Some(s@),
{
    if contains(line, "Serving") || contains(line, "Local file system at") {
        return Some(RcloneSignal::Started);
    }
    if contains(line, "Fatal") || contains(line, "mount helper error") {
        return Some(RcloneSignal::Fatal(line.to_owned()));
    }
    if contains(line, "winfsp") && contains(line, "not found") {
        return Some(RcloneSignal::Fatal("WinFSP not found".to_owned()));
    }
    if contains(line, "mount point") && contains(line, "already mounted") {
        return Some(RcloneSignal::Fatal("mount point already mounted".to_owned()));
    }
    None
}

/// Statistics of the file system cache.
#[derive(Debug, Clone, PartialEq, Eq)]
pub struct VfsStats {
    pub disk_cache: Option<DiskCacheStats>,
}

/// Statistics of the cache on disk.
#[derive(Debug, Clone, Copy, PartialEq, Eq, Structural)]
pub struct DiskCacheStats {
    pub bytes_used: u64,
    pub uploads_in_progress: u32,
    pub uploads_queued: u32,
}

impl DiskCacheStats {
    /// Number of files that still have to be uploaded.
    pub fn dirty_count(&self) -> (n: u32)
        requires
            self.uploads_in_progress + self.uploads_queued <= u32::MAX,
        ensures
            n == self.uploads_in_progress + self.uploads_queued,
    {
        self.uploads_in_progress + self.uploads_queued
    }
}

/// The command line that mounts the share of a configuration.
pub open spec fn command_line(c: MountConfig, rc_port: u16) -> Seq<Seq<char>> {
    seq![
        "mount"@,
        c.nas_share_path@,
        c.rclone_drive_letter@ + ":"@,
        "--vfs-cache-mode"@,
        "full"@,
        "--cache-dir"@,
        c.cache_dir_path@,
        "--vfs-cache-max-size"@,
        c.cache_max_size@,
        "--vfs-cache-max-age"@,
        c.cache_max_age@,
        "--vfs-write-back"@,
        c.vfs_write_back@,
        "--vfs-read-chunk-size"@,
        c.vfs_read_chunk_size@,
        "--vfs-read-chunk-size-limit=off"@,
        "--transfers="@ + decimal(c.vfs_read_chunk_streams as nat),
        "--vfs-read-ahead"@,
        c.vfs_read_ahead@,
        "--buffer-size"@,
        c.buffer_size@,
        "--rc"@,
        "--rc-addr=127.0.0.1:"@ + decimal(rc_port as nat),
        "--rc-no-auth"@,
        "-v"@,
    ] + texts(c.extra_rclone_flags@)
}

/// The command line that mounts the share of a configuration.
pub fn mount_args(config: &MountConfig, rc_port: u16) -> (out: Vec<String>)
    ensures
        texts(out@) == command_line(*config, rc_port),
{
    let streams = decimal_of(config.vfs_read_chunk_streams as u64);
    let port = decimal_of(rc_port as u64);
    let mut out: Vec<String> = vec![
        "mount".to_owned(),
        config.nas_share_path.clone(),
        join2(config.rclone_drive_letter.as_str(), ":"),
        "--vfs-cache-mode".to_owned(),
        "full".to_owned(),
        "--cache-dir".to_owned(),
        config.cache_dir_path.clone(),
        "--vfs-cache-max-size".to_owned(),
        config.cache_max_size.clone(),
        "--vfs-cache-max-age".to_owned(),
        config.cache_max_age.clone(),
        "--vfs-write-back".to_owned(),
        config.vfs_write_back.clone(),
        "--vfs-read-chunk-size".to_owned(),
        config.vfs_read_chunk_size.clone(),
        "--vfs-read-chunk-size-limit=off".to_owned(),
        join2("--transfers=", streams.as_str()),
        "--vfs-read-ahead".to_owned(),
        config.vfs_read_ahead.clone(),
        "--buffer-size".to_owned(),
        config.buffer_size.clone(),
        "--rc".to_owned(),
        join2("--rc-addr=127.0.0.1:", port.as_str()),
        "--rc-no-auth".to_owned(),
        "-v".to_owned(),
    ];
    let ghost fixed = texts(out@);
    let ghost extra = texts(config.extra_rclone_flags@);
    let mut i: usize = 0;
    assert(texts(out@) =~= fixed + extra.take(0));
    while i < config.extra_rclone_flags.len()
        invariant
            i <= config.extra_rclone_flags@.len(),
            extra == texts(config.extra_rclone_flags@),
            texts(out@) == fixed + extra.take(i as int),
        decreases config.extra_rclone_flags@.len() - i,
    {
        let ghost before = texts(out@);
        out.push(config.extra_rclone_flags[i].clone());
        assert(texts(out@) =~= before.push(extra[i as int]));
        assert(extra.take(i + 1) =~= extra.take(i as int).push(extra[i as int]));
        i += 1;
    }
    assert(texts(out@) =~= command_line(*config, rc_port));
    out
}

/// Name of the rclone program.
pub open spec fn program_name(platform: Platform) -> Seq<char> {
    match platform {
        Platform::Windows => "rclone.exe"@,
        _ => "rclone"@,
    }
}

/// Where to look for rclone first: beside the agent.
pub fn sidecar_path(platform: Platform, exe_dir: &str) -> (out: String)
    ensures
        out@ == joined(platform, exe_dir@, program_name(platform)),
{
    let name = rclone_name(platform);
    join(platform, exe_dir, name.as_str())
}

/// Name of the rclone program.
pub fn rclone_name(platform: Platform) -> (out: String)
    ensures
        out@ == program_name(platform),
{
    match platform {
        Platform::Windows => "rclone.exe".to_owned(),
        _ => "rclone".to_owned(),
    }
}

/// Number of ports that are tried.
pub const PORT_TRIES: u16 = 100;

/// The address of a command of the remote control.
pub open spec fn control_url(rc_port: u16, command: Seq<char>) -> Seq<char> {
    "http://127.0.0.1:"@ + decimal(rc_port as nat) + "/"@ + command
}

/// The address of a command of the remote control, such as `vfs/stats` or `core/quit`.
pub fn rc_url(rc_port: u16, command: &str) -> (out: String)
    ensures
        out@ == control_url(rc_port, command@),
{
    let port = decimal_of(rc_port as u64);
    let host = join2("http://127.0.0.1:", port.as_str());
    let base = join2(host.as_str(), "/");
    join2(base.as_str(), command)
}

/// What the manager knows of its rclone process.
pub struct RcloneManager {
    running: bool,
    rc_port: u16,
}

impl RcloneManager {
    /// Whether the process has been started and not been killed.
    pub closed spec fn alive(&self) -> bool {
        self.running
    }

    /// The port of the remote control.
    pub closed spec fn port(&self) -> u16 {
        self.rc_port
    }

    /// The rclone program to use: the one beside the agent where it is there, else the one that
    /// the system finds by its name.
    pub fn resolve_rclone_path(
        platform: Platform,
        exe_dir: &Option<String>,
        sidecar_exists: bool,
    ) -> (out: String)
        ensures
            out@ == match *exe_dir {
                Some(dir) => if sidecar_exists {
                    joined(platform, dir@, program_name(platform))
                } else {
                    program_name(platform)
                },
                None => program_name(platform),
            },
    {
        match exe_dir {
            Some(dir) => if sidecar_exists {
                sidecar_path(platform, dir.as_str())
            } else {
                rclone_name(platform)
            },
            None => rclone_name(platform),
        }
    }

    /// Whether rclone can be run, and from where. A program that is named by its place has to be
    /// there; another one has to answer when it is asked for its version.
    pub fn verify_rclone(
        path: &str,
        absolute: bool,
        exists: bool,
        version: Result<bool, String>,
    ) -> (r: Result<String, String>)
        ensures
            absolute && exists ==> (r matches Ok(p) && p@ == path@),
            absolute && !exists ==> (r matches Err(e) && e@ == "rclone not found at "@ + path@),
            !absolute ==> match version {
                Ok(true) => r matches Ok(p) && p@ == path@,
                Ok(false) => r matches Err(e) && e@ == "rclone found but returned error"@,
                Err(why) => r matches Err(e) && e@ == "rclone not found in PATH: "@ + why@,
            },
    {
        if absolute {
            if exists {
                return Ok(path.to_owned());
            }
            return Err(join2("rclone not found at ", path));
        }
        match version {
            Ok(true) => Ok(path.to_owned()),
            Ok(false) => Err("rclone found but returned error".to_owned()),
            Err(why) => Err(join2("rclone not found in PATH: ", why.as_str())),
        }
    }

    /// Where the library of WinFsp is below a directory of programs.
    pub fn winfsp_library(program_files: &str) -> (out: String)
        ensures
            out@ == joined(Platform::Windows, program_files@, "WinFsp/bin/winfsp-x64.dll"@),
    {
        join(Platform::Windows, program_files, "WinFsp/bin/winfsp-x64.dll")
    }

    /// Whether what rclone needs for drives is installed: on Windows the library of WinFsp has to
    /// be in one of the two places for programs.
    pub fn check_winfsp(platform: Platform, in_first: bool, in_second: bool) -> (r: bool)
        ensures
            r == (platform is Windows ==> in_first || in_second),
    {
        match platform {
            Platform::Windows => in_first || in_second,
            _ => true,
        }
    }

    /// The first port from `start` on that is free, as far as ports were tried; `start` itself
    /// where none is.
    pub fn find_available_port(start: u16, free: &Vec<bool>) -> (p: u16)
        requires
            start + PORT_TRIES <= u16::MAX,
            free@.len() == PORT_TRIES,
        ensures
            (exists|i: int| 0 <= i < PORT_TRIES && #[trigger] free@[i]) ==> start <= p < start
                + PORT_TRIES && free@[p - start] && forall|i: int|
                0 <= i < p - start ==> !#[trigger] free@[i],
            (forall|i: int| 0 <= i < PORT_TRIES ==> !#[trigger] free@[i]) ==> p == start,
    {
        let mut i: u16 = 0;
        while i < PORT_TRIES
            invariant
                i <= PORT_TRIES,
                start + PORT_TRIES <= u16::MAX,
                free@.len() == PORT_TRIES,
                forall|k: int| 0 <= k < i ==> !#[trigger] free@[k],
            decreases PORT_TRIES - i,
        {
            if free[i as usize] {
                return start + i;
            }
            i += 1;
        }
        start
    }

    /// A process that was just started.
    pub fn started(rc_port: u16) -> (m: RcloneManager)
        ensures
            m.alive(),
            m.port() == rc_port,
    {
        RcloneManager { running: true, rc_port }
    }

    /// The address that asks the process to end, while there is one.
    pub fn quit_url(&self) -> (r: Option<String>)
        ensures
            r is Some <==> self.alive(),
            r matches Some(u) ==> u@ == control_url(self.port(), "core/quit"@),
    {
        if self.running {
            Some(rc_url(self.rc_port, "core/quit"))
        } else {
            None
        }
    }

    /// Takes note that the process was asked to end; whether it has to be killed, because it has
    /// not ended by itself.
    pub fn kill(&mut self, exited: bool) -> (force: bool)
        ensures
            force == (old(self).alive() && !exited),
            !final(self).alive(),
            final(self).port() == old(self).port(),
    {
        let force = self.running && !exited;
        self.running = false;
        force
    }

    /// The port of the remote control.
    pub fn rc_port(&self) -> (p: u16)
        ensures
            p == self.port(),
    {
        self.rc_port
    }

    /// Whether there is a process.
    pub fn is_running(&self) -> (r: bool)
        ensures
            r == self.alive(),
    {
        self.running
    }
}

/// The process of a line `PID|command line`, where the command line mounts the drive.
pub open spec fn orphan_in(line: Seq<char>, drive_letter: Seq<char>) -> Option<int> {
    let t = trimmed(line);
    let bar = first_pos(t, '|');
    if bar < t.len() && occurs(t.skip(bar + 1), drive_letter + ":"@) {
        number_in(trimmed(t.take(bar)), u32::MAX as int)
    } else {
        None
    }
}

/// The process of a line `PID|command line`, where the command line mounts the drive.
pub fn orphan_pid(line: &str, drive_letter: &str) -> (r: Option<u32>)
    ensures
        r is Some <==> orphan_in(line@, drive_letter@) is Some,
        r matches Some(pid) ==> orphan_in(line@, drive_letter@) == Some(pid as int),
{
    let t = trim(line);
    let v = chars_of(t.as_str());
    let bar: usize = first_index(&v, '|');
    if bar >= v.len() {
        return None;
    }
    let pid = string_range(&v, 0, bar);
    let command = string_range(&v, bar + 1, v.len());
    assert(v@.subrange(0, bar as int) =~= v@.take(bar as int));
    assert(v@.subrange(bar + 1, v@.len() as int) =~= v@.skip(bar + 1));
    let pattern = join2(drive_letter, ":");
    if !contains(command.as_str(), pattern.as_str()) {
        return None;
    }
    let digits = trim(pid.as_str());
    parse_u32(digits.as_str())
}

/// A line that reports a start is never taken for a failure.
pub proof fn law_start_wins(line: Seq<char>)
    requires
        occurs(line, "Serving"@) || occurs(line, "Local file system at"@),
    ensures
        signal_in(line) == Some(SignalView::Started),
{
}

/// The log never reports an exit.
pub proof fn law_log_reports_no_exit(line: Seq<char>)
    ensures
        signal_in(line) matches Some(s) ==> s !is Exited,
{
}

/// The command line mounts the share of the configuration on its drive, hands over each setting
/// behind the option that it belongs to, and ends with the flags that the configuration adds.
pub proof fn law_settings_follow_their_options(c: MountConfig, port: u16, i: int)
    requires
        0 <= i < c.extra_rclone_flags@.len(),
    ensures
        ({
            let a = command_line(c, port);
            &&& a[0] == "mount"@ && a[1] == c.nas_share_path@ && a[2] == c.rclone_drive_letter@
                + ":"@
            &&& a[5] == "--cache-dir"@ && a[6] == c.cache_dir_path@
            &&& a[7] == "--vfs-cache-max-size"@ && a[8] == c.cache_max_size@
            &&& a[9] == "--vfs-cache-max-age"@ && a[10] == c.cache_max_age@
            &&& a[11] == "--vfs-write-back"@ && a[12] == c.vfs_write_back@
            &&& a[13] == "--vfs-read-chunk-size"@ && a[14] == c.vfs_read_chunk_size@
            &&& a[16] == "--transfers="@ + decimal(c.vfs_read_chunk_streams as nat)
            &&& a[17] == "--vfs-read-ahead"@ && a[18] == c.vfs_read_ahead@
            &&& a[19] == "--buffer-size"@ && a[20] == c.buffer_size@
            &&& a[22] == "--rc-addr=127.0.0.1:"@ + decimal(port as nat)
            &&& a.len() == 25 + c.extra_rclone_flags@.len()
            &&& a[25 + i] == c.extra_rclone_flags@[i]@
        }),
{
    let a = command_line(c, port);
    assert(a[25 + i] == texts(c.extra_rclone_flags@)[i]);
}

/// A line that reports a failure is handed on whole, and the two failures that are known are told
/// by what they are; other lines report nothing.
pub proof fn law_failures_are_read_from_the_log(line: Seq<char>)
    requires
        !occurs(line, "Serving"@),
        !occurs(line, "Local file system at"@),
    ensures
        occurs(line, "Fatal"@) || occurs(line, "mount helper error"@) ==> signal_in(line) == Some(
            SignalView::Fatal(line),
        ),
        !occurs(line, "Fatal"@) && !occurs(line, "mount helper error"@) ==> {
            &&& occurs(line, "winfsp"@) && occurs(line, "not found"@) ==> signal_in(line) == Some(
                SignalView::Fatal("WinFSP not found"@),
            )
            &&& !(occurs(line, "winfsp"@) && occurs(line, "not found"@)) && occurs(
                line,
                "mount point"@,
            ) && occurs(line, "already mounted"@) ==> signal_in(line) == Some(
                SignalView::Fatal("mount point already mounted"@),
            )
            &&& !(occurs(line, "winfsp"@) && occurs(line, "not found"@)) && !(occurs(
                line,
                "mount point"@,
            ) && occurs(line, "already mounted"@)) ==> signal_in(line) is None
        },
{
}

/// What is still to be uploaded is what is being uploaded and what waits for it.
pub proof fn law_unfinished_uploads_are_counted(s: DiskCacheStats, n: u32)
    requires
        s.uploads_in_progress + s.uploads_queued <= u32::MAX,
        call_ensures(DiskCacheStats::dirty_count, (&s,), n),
    ensures
        n >= s.uploads_in_progress,
        n >= s.uploads_queued,
        n == s.uploads_in_progress + s.uploads_queued,
{
}

/// The program beside the agent is used where it is there, and named for its system.
pub proof fn law_program_beside_the_agent_is_used(
    platform: Platform,
    dir: Option<String>,
    there: bool,
    out: String,
)
    requires
        call_ensures(RcloneManager::resolve_rclone_path, (platform, &dir, there), out),
    ensures
        dir matches Some(d) ==> there ==> out@ == joined(platform, d@, program_name(platform)),
        dir is None || !there ==> out@ == program_name(platform),
        program_name(platform) == if platform is Windows {
            "rclone.exe"@
        } else {
            "rclone"@
        },
{
}

/// A command line counts as one of the drive where it names the drive behind the bar; the number
/// of its process stands before that.
pub proof fn law_orphans_are_told_by_their_drive(line: Seq<char>, drive: Seq<char>)
    ensures
        ({
            let t = trimmed(line);
            let bar = first_pos(t, '|');
            &&& bar >= t.len() ==> orphan_in(line, drive) is None
            &&& bar < t.len() && !occurs(t.skip(bar + 1), drive + ":"@) ==> orphan_in(line, drive)
                is None
            &&& orphan_in(line, drive) matches Some(pid) ==> number_in(
                trimmed(t.take(bar)),
                4_294_967_295,
            ) == Some(pid)
        }),
{
}

/// A process is asked to end at the address of its own remote control, as long as there is one.
pub proof fn law_processes_are_asked_to_end(m: RcloneManager, r: Option<String>)
    requires
        call_ensures(RcloneManager::quit_url, (&m,), r),
    ensures
        r is Some <==> m.alive(),
        r matches Some(u) ==> u@ == "http://127.0.0.1:"@ + decimal(m.port() as nat) + "/"@
            + "core/quit"@,
{
}

/// A process that did not end by itself is killed, and either way there is none afterwards.
pub proof fn law_processes_end(m: &mut RcloneManager, exited: bool, force: bool)
    requires
        call_ensures(RcloneManager::kill, (m, exited), force),
    ensures
        !final(m).alive(),
        exited ==> !force,
        old(m).alive() && !exited ==> force,
        !old(m).alive() ==> !force,
{
}

/// The first free port is taken, and the one asked for where none is free.
pub proof fn law_first_free_port_is_taken(start: u16, free: Vec<bool>, p: u16, k: int)
    requires
        start + 100 <= u16::MAX,
        free@.len() == 100,
        0 <= k < 100,
        call_ensures(RcloneManager::find_available_port, (start, &free), p),
    ensures
        free@[k] ==> start <= p <= start + k && free@[p - start],
        p != start ==> start < p < start + 100 && free@[p - start],
{
    if exists|i: int| 0 <= i < PORT_TRIES && #[trigger] free@[i] {
    } else {
        assert(forall|i: int| 0 <= i < PORT_TRIES ==> !#[trigger] free@[i]);
    }
}

} // verus!
