//! What is known of a process.

use vstd::prelude::*;

use crate::cgroup;
use crate::fd_scan;
use crate::fd_scan::{FdCaches, FdCachesView, FdListing, FdListingView};
use crate::fdinfo;
use crate::fdinfo::{Fdinfo, FdinfoView};
use crate::gpu_usage::{GpuIdentifier, GpuUsageStats};
use crate::npu_usage::NpuUsageStats;
use crate::number;
use crate::nvidia;
use crate::nvidia::{NvidiaSnapshot, ReadingView};
use crate::pattern;
use crate::pci_slot;
use crate::pci_slot::PciSlot;
use crate::proc_files;
use crate::proc_files::{IoFields, StatError, StatFields, StatView, StatusError, StatusFields, StatusView};
use crate::pss;
use crate::pss::{
    ApproxPss, ApproxPssView, MappedProcess, MappingKey, MappingsView, PidMappings,
};
use crate::sorted_map::SortedMap;
use crate::telemetry;
use crate::telemetry::{Telemetry, TelemetryView};
use crate::text;

verus! {

/// How the proportional set size of processes is found.
#[derive(Debug, Clone, Copy, PartialEq, Eq, Structural)]
pub enum PssMode {
    /// Not at all.
    Disabled,
    /// By an approximation, which costs more and is more accurate.
    Approximate,
    /// By what the kernel says, which costs most and is most accurate.
    Exact,
}

/// The niceness of a process, from -20 to 19.
#[derive(Debug, Clone, Copy, PartialEq, Eq, PartialOrd, Ord, Hash, Structural)]
pub struct Niceness {
    nice: i8,
}

/// The number is no niceness.
#[derive(Debug, Clone, Copy, PartialEq, Eq, Structural)]
pub struct NicenessError;

/// The niceness that a text denotes.
pub open spec fn parse_niceness(s: Seq<char>) -> Option<i8> {
    match number::parse_signed(s, i8::MIN as int, i8::MAX as int) {
        Some(v) => if -20 <= v <= 19 {
            Some(v as i8)
        } else {
            None
        },
        None => None,
    }
}

impl Niceness {
    #[verifier::type_invariant]
    closed spec fn inv(&self) -> bool {
        -20 <= self.nice <= 19
    }

    /// The number.
    pub closed spec fn value(self) -> i8 {
        self.nice
    }

    /// The niceness of that number, if it is in range.
    pub fn try_new(nice: i8) -> (r: Result<Self, NicenessError>)
        ensures
            match r {
                Ok(n) => -20 <= nice <= 19 && n.value() == nice,
                Err(_) => nice < -20 || nice > 19,
            },
    {
        if -20 <= nice && nice <= 19 {
            Ok(Niceness { nice })
        } else {
            Err(NicenessError)
        }
    }

    /// The number.
    pub fn into_inner(self) -> (r: i8)
        ensures
            r == self.value(),
            -20 <= r <= 19,
    {
        proof {
            use_type_invariant(&self);
        }
        self.nice
    }

    /// Reads a niceness.
    pub fn from_chars(s: &Vec<char>) -> (r: Result<Self, NicenessError>)
        ensures
            match r {
                Ok(n) => parse_niceness(s@) == Some(n.value()),
                Err(_) => parse_niceness(s@) is None,
            },
    {
        match number::parse_i8_chars(s) {
            Some(v) => Self::try_new(v),
            None => Err(NicenessError),
        }
    }
}

impl Default for Niceness {
    fn default() -> (r: Self)
        ensures
            r.value() == 0,
    {
        Niceness { nice: 0 }
    }
}

// Containers -----------------------------------------------------------------------

/// In what kind of container a process runs.
#[derive(Debug, Clone, Copy, PartialEq, Eq, PartialOrd, Ord, Hash, Structural)]
pub enum Containerization {
    Host,
    Flatpak,
    Portable,
    Snap,
    AppImage,
}

impl Default for Containerization {
    fn default() -> (r: Self)
        ensures
            r == Containerization::Host,
    {
        Containerization::Host
    }
}

/// In what kind of container a process runs: the first of these that shows.
pub open spec fn containerization_of(
    portable_file: bool,
    flatpak_file: bool,
    commandline: Seq<char>,
    launcher: Seq<char>,
    has_appimage_path: bool,
) -> Containerization {
    if text::starts_with(commandline, "/snap/"@) || launcher == "snap"@ {
        Containerization::Snap
    } else if portable_file || launcher == "portable"@ {
        Containerization::Portable
    } else if flatpak_file || launcher == "flatpak"@ {
        Containerization::Flatpak
    } else if has_appimage_path {
        Containerization::AppImage
    } else {
        Containerization::Host
    }
}

impl Containerization {
    /// In what kind of container a process runs. `portable_file` and
    /// `flatpak_file` say whether the root of the process holds
    /// `top.kimiblock.portable` and `.flatpak-info`.
    pub fn detect(
        portable_file: bool,
        flatpak_file: bool,
        commandline: &str,
        launcher: &str,
        has_appimage_path: bool,
    ) -> (r: Self)
        ensures
            r == containerization_of(
                portable_file,
                flatpak_file,
                commandline@,
                launcher@,
                has_appimage_path,
            ),
    {
        if text::has_prefix(commandline, "/snap/") || text::same_text(launcher, "snap") {
            Containerization::Snap
        } else if portable_file || text::same_text(launcher, "portable") {
            Containerization::Portable
        } else if flatpak_file || text::same_text(launcher, "flatpak") {
            Containerization::Flatpak
        } else if has_appimage_path {
            Containerization::AppImage
        } else {
            Containerization::Host
        }
    }
}

// Users ----------------------------------------------------------------------------

/// The names of users.
pub open spec fn user_names(users: Map<u32, String>) -> Map<u32, Seq<char>> {
    Map::new(|k: u32| users.contains_key(k), |k: u32| users[k]@)
}

/// The name of a user; the number where the user is not known.
pub open spec fn username_of(users: Map<u32, Seq<char>>, uid: u32) -> Seq<char> {
    if users.contains_key(uid) {
        users[uid]
    } else {
        number::number_text(uid as int, 10)
    }
}

/// The name of a user.
pub fn username_for_uid(users: &SortedMap<u32, String>, uid: u32) -> (r: String)
    ensures
        r@ == username_of(user_names(users@), uid),
{
    match users.get(&uid) {
        Some(name) => name.clone(),
        None => number::decimal(uid as u64),
    }
}

// The environment -------------------------------------------------------------------

/// The value of a variable among the entries `name=value`; the last one where
/// there are several.
pub open spec fn env_value(entries: Seq<Seq<char>>, name: Seq<char>) -> Option<Seq<char>>
    decreases entries.len(),
{
    if entries.len() == 0 {
        None
    } else {
        match text::split_once(entries.last(), '=') {
            Some((key, value)) => if key == name {
                Some(value)
            } else {
                env_value(entries.drop_last(), name)
            },
            None => env_value(entries.drop_last(), name),
        }
    }
}

/// The value of a variable among the entries `name=value`.
pub fn environment_value(entries: &Vec<Vec<char>>, name: &str) -> (r: Option<String>)
    ensures
        text::opt_text(r) == env_value(text::texts(entries@), name@),
{
    let ghost all = text::texts(entries@);
    let name_chars: Vec<char> = text::to_chars(name);
    let mut left: usize = entries.len();
    proof {
        assert(all.take(left as int) =~= all);
    }
    while left > 0
        invariant
            left <= entries.len(),
            all == text::texts(entries@),
            name_chars@ == name@,
            env_value(all.take(left as int), name@) == env_value(all, name@),
        decreases left,
    {
        proof {
            assert(all.take(left as int).last() == entries@[left - 1]@);
            assert(all.take(left as int).drop_last() =~= all.take(left - 1));
        }
        if let Some((key, value)) = text::split_once_chars(&entries[left - 1], '=') {
            if text::same_chars(&key, &name_chars) {
                return Some(text::to_text(&value));
            }
        }
        left -= 1;
    }
    None
}

/// The Steam application that a variable names.
pub open spec fn steam_appid_of(value: Option<Seq<char>>) -> Option<u32> {
    match value {
        Some(s) => match number::parse_unsigned(s, 10, u32::MAX as int) {
            Some(v) => Some(v as u32),
            None => None,
        },
        None => None,
    }
}

// What can be read without the descriptors --------------------------------------------

/// The text without its line feeds.
pub open spec fn without_newlines(s: Seq<char>) -> Seq<char>
    decreases s.len(),
{
    if s.len() == 0 {
        s
    } else if s.last() == '\n' {
        without_newlines(s.drop_last())
    } else {
        without_newlines(s.drop_last()).push(s.last())
    }
}

fn remove_newlines(s: &str) -> (r: String)
    ensures
        r@ == without_newlines(s@),
{
    let chars: Vec<char> = text::to_chars(s);
    let mut r: String = String::new();
    let mut i: usize = 0;
    proof {
        assert(chars@.take(0) =~= Seq::<char>::empty());
    }
    while i < chars.len()
        invariant
            i <= chars.len(),
            r@ == without_newlines(chars@.take(i as int)),
        decreases chars.len() - i,
    {
        proof {
            assert(chars@.take(i + 1).drop_last() =~= chars@.take(i as int));
            assert(chars@.take(i + 1).last() == chars@[i as int]);
        }
        if chars[i] != '\n' {
            r.push(chars[i]);
        }
        i += 1;
    }
    proof {
        assert(chars@.take(i as int) =~= chars@);
    }
    r
}

/// The files of a process, each where it could be read. `dir_name` is the name of
/// its directory in `/proc`; `portable_file` and `flatpak_file` say whether its
/// root holds `top.kimiblock.portable` and `.flatpak-info`.
pub struct ProcFiles {
    pub dir_name: Option<String>,
    pub stat: Option<String>,
    pub status: Option<String>,
    pub comm: Option<String>,
    pub cmdline: Option<String>,
    pub io: Option<String>,
    pub smaps_rollup: Option<String>,
    pub cgroup: Option<String>,
    pub environ: Option<String>,
    pub portable_file: bool,
    pub flatpak_file: bool,
}

/// What `ProcFiles` holds.
#[verifier::ext_equal]
pub struct ProcFilesView {
    pub dir_name: Option<Seq<char>>,
    pub stat: Option<Seq<char>>,
    pub status: Option<Seq<char>>,
    pub comm: Option<Seq<char>>,
    pub cmdline: Option<Seq<char>>,
    pub io: Option<Seq<char>>,
    pub smaps_rollup: Option<Seq<char>>,
    pub cgroup: Option<Seq<char>>,
    pub environ: Option<Seq<char>>,
    pub portable_file: bool,
    pub flatpak_file: bool,
}

impl View for ProcFiles {
    type V = ProcFilesView;

    open spec fn view(&self) -> ProcFilesView {
        ProcFilesView {
            dir_name: text::opt_text(self.dir_name),
            stat: text::opt_text(self.stat),
            status: text::opt_text(self.status),
            comm: text::opt_text(self.comm),
            cmdline: text::opt_text(self.cmdline),
            io: text::opt_text(self.io),
            smaps_rollup: text::opt_text(self.smaps_rollup),
            cgroup: text::opt_text(self.cgroup),
            environ: text::opt_text(self.environ),
            portable_file: self.portable_file,
            flatpak_file: self.flatpak_file,
        }
    }
}

/// Why there is nothing to tell of a process.
#[derive(Debug, Clone, Copy, PartialEq, Eq, Structural)]
pub enum ProcessDataError {
    /// The directory has no name.
    NoName,
    /// The name of the directory is no process identifier.
    InvalidPid,
    /// One of `stat`, `status`, `comm` and `cmdline` could not be read.
    Unreadable,
    /// `status` is malformed.
    Status(StatusError),
    /// `stat` is malformed.
    Stat(StatError),
}

/// What the files of a process tell without its descriptors.
pub struct ProcessHead {
    pub pid: i32,
    pub stat: StatFields,
    pub status: StatusFields,
    pub io: IoFields,
    pub user: String,
    pub comm: String,
    pub commandline: String,
    pub pss: Option<usize>,
    pub cgroup: Option<String>,
    pub containerization: Containerization,
    pub appimage_path: Option<String>,
    pub steam_appid: Option<u32>,
}

/// What a `ProcessHead` holds.
#[verifier::ext_equal]
pub struct HeadView {
    pub pid: i32,
    pub stat: StatView,
    pub status: StatusView,
    pub io: IoFields,
    pub user: Seq<char>,
    pub comm: Seq<char>,
    pub commandline: Seq<char>,
    pub pss: Option<usize>,
    pub cgroup: Option<Seq<char>>,
    pub containerization: Containerization,
    pub appimage_path: Option<Seq<char>>,
    pub steam_appid: Option<u32>,
}

impl View for ProcessHead {
    type V = HeadView;

    open spec fn view(&self) -> HeadView {
        HeadView {
            pid: self.pid,
            stat: self.stat@,
            status: self.status@,
            io: self.io,
            user: self.user@,
            comm: self.comm@,
            commandline: self.commandline@,
            pss: self.pss,
            cgroup: text::opt_text(self.cgroup),
            containerization: self.containerization,
            appimage_path: text::opt_text(self.appimage_path),
            steam_appid: self.steam_appid,
        }
    }
}

/// The process identifier that a directory is named after.
pub open spec fn pid_of(dir_name: Option<Seq<char>>) -> Result<i32, ProcessDataError> {
    match dir_name {
        None => Err(ProcessDataError::NoName),
        Some(s) => match number::parse_signed(s, i32::MIN as int, i32::MAX as int) {
            Some(v) => Ok(v as i32),
            None => Err(ProcessDataError::InvalidPid),
        },
    }
}

/// The launcher and the application of a process.
pub open spec fn launcher_of(cgroup: Option<Seq<char>>) -> (Seq<char>, Option<Seq<char>>) {
    match pss::trimmed_content(cgroup) {
        Some(s) => {
            let (launcher, app) = cgroup::cgroup_of(s);
            (
                match launcher {
                    Some(l) => l,
                    None => Seq::<char>::empty(),
                },
                app,
            )
        },
        None => (Seq::<char>::empty(), None),
    }
}

/// The entries of the environment of a process.
pub open spec fn env_entries(environ: Option<Seq<char>>) -> Seq<Seq<char>> {
    text::split(pattern::or_empty(pss::trimmed_content(environ)), '\0')
}

/// What was found in the files of a process.
pub struct FoundFields {
    pub stat: StatFields,
    pub status: StatusFields,
    pub io: IoFields,
    pub pss: Option<usize>,
    pub launcher: String,
    pub cgroup: Option<String>,
}

/// What a `FoundFields` holds.
#[verifier::ext_equal]
pub struct FoundView {
    pub stat: StatView,
    pub status: StatusView,
    pub io: IoFields,
    pub pss: Option<usize>,
    pub launcher: Seq<char>,
    pub cgroup: Option<Seq<char>>,
}

impl View for FoundFields {
    type V = FoundView;

    open spec fn view(&self) -> FoundView {
        FoundView {
            stat: self.stat@,
            status: self.status@,
            io: self.io,
            pss: self.pss,
            launcher: self.launcher@,
            cgroup: text::opt_text(self.cgroup),
        }
    }
}

/// What is found in the files of a process whose `stat` and `status` are well-formed.
pub open spec fn found_in(
    files: ProcFilesView,
    stat: StatView,
    status: StatusView,
    pss_enabled: bool,
) -> FoundView {
    let (launcher, app) = launcher_of(files.cgroup);
    FoundView {
        stat,
        status,
        io: proc_files::io_of(
            proc_files::io_capture(proc_files::RE_IO_READ@, pss::trimmed_content(files.io)),
            proc_files::io_capture(proc_files::RE_IO_WRITE@, pss::trimmed_content(files.io)),
        ),
        pss: if pss_enabled {
            pss::exact_pss(files.smaps_rollup)
        } else {
            None
        },
        launcher,
        cgroup: app,
    }
}

/// What the files tell, given what was found in them.
pub open spec fn head_fields(
    pid: i32,
    files: ProcFilesView,
    found: FoundView,
    users: Map<u32, Seq<char>>,
) -> HeadView {
    let commandline = pattern::or_empty(pss::trimmed_content(files.cmdline));
    let entries = env_entries(files.environ);
    let appimage_path = env_value(entries, "APPIMAGE"@);
    HeadView {
        pid,
        stat: found.stat,
        status: found.status,
        io: found.io,
        user: username_of(users, found.status.uid),
        comm: without_newlines(pattern::or_empty(pss::trimmed_content(files.comm))),
        commandline,
        pss: found.pss,
        cgroup: found.cgroup,
        containerization: containerization_of(
            files.portable_file,
            files.flatpak_file,
            commandline,
            found.launcher,
            appimage_path is Some,
        ),
        appimage_path,
        steam_appid: steam_appid_of(env_value(entries, "SteamAppId"@)),
    }
}

/// What the files tell without the descriptors, or the first thing that stands in
/// the way.
pub open spec fn head_of(
    files: ProcFilesView,
    users: Map<u32, Seq<char>>,
    num_cpus: usize,
    pss_enabled: bool,
) -> Result<HeadView, ProcessDataError> {
    match pid_of(files.dir_name) {
        Err(e) => Err(e),
        Ok(pid) => if files.stat is None || files.status is None || files.comm is None
            || files.cmdline is None {
            Err(ProcessDataError::Unreadable)
        } else {
            match proc_files::status_of(
                proc_files::status_captures(text::trim(files.status->0)),
                num_cpus,
            ) {
                Err(e) => Err(ProcessDataError::Status(e)),
                Ok(status) => match proc_files::stat_of(
                    proc_files::stat_fields(text::trim(files.stat->0)),
                ) {
                    Err(e) => Err(ProcessDataError::Stat(e)),
                    Ok(stat) => Ok(
                        head_fields(pid, files, found_in(files, stat, status, pss_enabled), users),
                    ),
                },
            }
        },
    }
}

fn trimmed_option(s: &Option<String>) -> (r: Option<String>)
    ensures
        text::opt_text(r) == pss::trimmed_content(text::opt_text(*s)),
{
    match s {
        Some(s) => Some(text::trimmed(s.as_str())),
        None => None,
    }
}

fn text_or_empty(s: Option<String>) -> (r: String)
    ensures
        r@ == pattern::or_empty(text::opt_text(s)),
{
    match s {
        Some(s) => s,
        None => {
            let r: String = String::new();
            proof {
                assert(r@ =~= Seq::<char>::empty());
            }
            r
        },
    }
}

impl ProcessHead {
    fn launcher(cgroup: &Option<String>) -> (r: (String, Option<String>))
        ensures
            (r.0@, text::opt_text(r.1)) == launcher_of(text::opt_text(*cgroup)),
    {
        match trimmed_option(cgroup) {
            Some(s) => {
                let (launcher, app): (Option<String>, Option<String>) = cgroup::sanitize_cgroup(
                    s.as_str(),
                );
                match launcher {
                    Some(launcher) => (launcher, app),
                    None => (String::new(), app),
                }
            },
            None => (String::new(), None),
        }
    }

    fn environment(environ: &Option<String>) -> (r: Vec<Vec<char>>)
        ensures
            text::texts(r@) == env_entries(text::opt_text(*environ)),
    {
        let s: String = text_or_empty(trimmed_option(environ));
        text::split_chars(&text::to_chars(s.as_str()), '\0')
    }

    /// Reads what the files of a process tell without its descriptors.
    pub fn read(
        files: &ProcFiles,
        users: &SortedMap<u32, String>,
        num_cpus: usize,
        pss_enabled: bool,
    ) -> (r: Result<Self, ProcessDataError>)
        ensures
            match r {
                Ok(head) => head_of(files@, user_names(users@), num_cpus, pss_enabled) == Ok::<
                    HeadView,
                    ProcessDataError,
                >(head@),
                Err(e) => head_of(files@, user_names(users@), num_cpus, pss_enabled) == Err::<
                    HeadView,
                    ProcessDataError,
                >(e),
            },
    {
        let pid: i32 = match &files.dir_name {
            None => {
                return Err(ProcessDataError::NoName);
            },
            Some(s) => match number::parse_i32_chars(&text::to_chars(s.as_str())) {
                Some(v) => v,
                None => {
                    return Err(ProcessDataError::InvalidPid);
                },
            },
        };
        let (Some(raw_stat), Some(raw_status)) = (
            trimmed_option(&files.stat),
            trimmed_option(&files.status),
        ) else {
            return Err(ProcessDataError::Unreadable);
        };
        if files.comm.is_none() || files.cmdline.is_none() {
            return Err(ProcessDataError::Unreadable);
        }
        let status: StatusFields = match StatusFields::parse(raw_status.as_str(), num_cpus) {
            Ok(status) => status,
            Err(e) => {
                return Err(ProcessDataError::Status(e));
            },
        };
        let stat: StatFields = match StatFields::parse(raw_stat.as_str()) {
            Ok(stat) => stat,
            Err(e) => {
                return Err(ProcessDataError::Stat(e));
            },
        };
        let pss: Option<usize> = if pss_enabled {
            pss::read_exact_pss(&files.smaps_rollup)
        } else {
            None
        };
        let (launcher, cgroup): (String, Option<String>) = Self::launcher(&files.cgroup);
        let io: IoFields = IoFields::parse(&trimmed_option(&files.io));
        let found = FoundFields { stat, status, io, pss, launcher, cgroup };
        proof {
            assert(found@ =~= found_in(files@, stat@, status@, pss_enabled));
        }
        Ok(Self::assemble(pid, files, found, users))
    }

    /// Puts together what the files of a process tell, given what was found in them.
    pub fn assemble(
        pid: i32,
        files: &ProcFiles,
        found: FoundFields,
        users: &SortedMap<u32, String>,
    ) -> (r: Self)
        ensures
            r@ == head_fields(pid, files@, found@, user_names(users@)),
    {
        let ghost view = found@;
        let user: String = username_for_uid(users, found.status.uid);
        let comm: String = remove_newlines(text_or_empty(trimmed_option(&files.comm)).as_str());
        let commandline: String = text_or_empty(trimmed_option(&files.cmdline));
        let entries: Vec<Vec<char>> = Self::environment(&files.environ);
        let appimage_path: Option<String> = environment_value(&entries, "APPIMAGE");
        let steam_appid: Option<u32> = match environment_value(&entries, "SteamAppId") {
            Some(s) => number::parse_u32(s.as_str()),
            None => None,
        };
        let containerization: Containerization = Containerization::detect(
            files.portable_file,
            files.flatpak_file,
            commandline.as_str(),
            found.launcher.as_str(),
            appimage_path.is_some(),
        );
        let head = ProcessHead {
            pid,
            stat: found.stat,
            status: found.status,
            io: found.io,
            user,
            comm,
            commandline,
            pss: found.pss,
            cgroup: found.cgroup,
            containerization,
            appimage_path,
            steam_appid,
        };
        proof {
            assert(head@ =~= head_fields(pid, files@, view, user_names(users@)));
        }
        head
    }
}

// The whole of it -----------------------------------------------------------------------

/// What is known of a process.
pub struct ProcessData {
    pub pid: i32,
    pub parent_pid: i32,
    pub user: String,
    pub comm: String,
    pub commandline: String,
    pub user_cpu_time: u64,
    pub system_cpu_time: u64,
    pub niceness: Niceness,
    pub affinity: Vec<bool>,
    pub rss: usize,
    pub rss_shmem: usize,
    pub rss_anon: usize,
    pub rss_file: usize,
    pub vm_size: usize,
    pub pss: Option<usize>,
    pub swap_usage: usize,
    /// In clock ticks.
    pub starttime: u64,
    pub cgroup: Option<String>,
    pub containerization: Containerization,
    pub read_bytes: Option<u64>,
    pub write_bytes: Option<u64>,
    /// In milliseconds since the epoch.
    pub timestamp: u64,
    pub gpu_usage_stats: SortedMap<GpuIdentifier, GpuUsageStats>,
    pub npu_usage_stats: SortedMap<PciSlot, NpuUsageStats>,
    pub appimage_path: Option<String>,
    pub steam_appid: Option<u32>,
}

/// What a `ProcessData` holds.
#[verifier::ext_equal]
pub struct ProcessDataView {
    pub pid: i32,
    pub parent_pid: i32,
    pub user: Seq<char>,
    pub comm: Seq<char>,
    pub commandline: Seq<char>,
    pub user_cpu_time: u64,
    pub system_cpu_time: u64,
    pub niceness: i8,
    pub affinity: Seq<bool>,
    pub rss: usize,
    pub rss_shmem: usize,
    pub rss_anon: usize,
    pub rss_file: usize,
    pub vm_size: usize,
    pub pss: Option<usize>,
    pub swap_usage: usize,
    pub starttime: u64,
    pub cgroup: Option<Seq<char>>,
    pub containerization: Containerization,
    pub read_bytes: Option<u64>,
    pub write_bytes: Option<u64>,
    pub timestamp: u64,
    pub gpu_usage_stats: Map<GpuIdentifier, GpuUsageStats>,
    pub npu_usage_stats: Map<PciSlot, NpuUsageStats>,
    pub appimage_path: Option<Seq<char>>,
    pub steam_appid: Option<u32>,
}

impl View for ProcessData {
    type V = ProcessDataView;

    open spec fn view(&self) -> ProcessDataView {
        ProcessDataView {
            pid: self.pid,
            parent_pid: self.parent_pid,
            user: self.user@,
            comm: self.comm@,
            commandline: self.commandline@,
            user_cpu_time: self.user_cpu_time,
            system_cpu_time: self.system_cpu_time,
            niceness: self.niceness.value(),
            affinity: self.affinity@,
            rss: self.rss,
            rss_shmem: self.rss_shmem,
            rss_anon: self.rss_anon,
            rss_file: self.rss_file,
            vm_size: self.vm_size,
            pss: self.pss,
            swap_usage: self.swap_usage,
            starttime: self.starttime,
            cgroup: text::opt_text(self.cgroup),
            containerization: self.containerization,
            read_bytes: self.read_bytes,
            write_bytes: self.write_bytes,
            timestamp: self.timestamp,
            gpu_usage_stats: self.gpu_usage_stats@,
            npu_usage_stats: self.npu_usage_stats@,
            appimage_path: text::opt_text(self.appimage_path),
            steam_appid: self.steam_appid,
        }
    }
}

/// Whether a process only watches NPUs: the exporter of their data, and this
/// program.
pub open spec fn is_monitor(comm: Seq<char>, commandline: Seq<char>) -> bool {
    ||| text::contains(comm, "exporter"@)
    ||| text::contains(commandline, "exporter"@)
    ||| text::contains(comm, "resources"@)
    ||| text::contains(commandline, "resources"@)
}

/// Whether a process works with an NPU, as far as its name shows.
pub open spec fn works_with_npu(comm: Seq<char>, commandline: Seq<char>) -> bool {
    &&& !is_monitor(comm, commandline)
    &&& {
        ||| comm == "flm-real"@
        ||| text::contains(commandline, "flm-real"@)
        ||| text::contains(commandline, "/npu/"@)
        ||| text::contains(comm, "xrt"@)
        ||| text::contains(commandline, "xrt_"@)
        ||| text::contains(commandline, "xrt-"@)
        ||| text::contains(commandline, "lemonade_test"@)
    }
}

/// Whether a process works with an NPU, as far as its name shows.
pub fn is_npu_process(comm: &str, commandline: &str) -> (r: bool)
    ensures
        r == works_with_npu(comm@, commandline@),
{
    let is_exporter: bool = text::has_text(comm, "exporter") || text::has_text(
        commandline,
        "exporter",
    ) || text::has_text(comm, "resources") || text::has_text(commandline, "resources");
    !is_exporter && (text::same_text(comm, "flm-real") || text::has_text(commandline, "flm-real")
        || text::has_text(commandline, "/npu/") || text::has_text(comm, "xrt") || text::has_text(
        commandline,
        "xrt_",
    ) || text::has_text(commandline, "xrt-") || text::has_text(commandline, "lemonade_test"))
}

/// What a process uses of NPUs: what its descriptors show, or else an estimate
/// where its name shows that it works with one.
pub open spec fn npu_usage_with_estimate(
    found: Map<PciSlot, NpuUsageStats>,
    head: HeadView,
    told: Option<TelemetryView>,
    now_secs: u64,
) -> Map<PciSlot, NpuUsageStats> {
    if found == Map::<PciSlot, NpuUsageStats>::empty() && works_with_npu(
        head.comm,
        head.commandline,
    ) {
        found.insert(
            pci_slot::zero_slot(),
            telemetry::estimated_usage(
                telemetry::fresh_process(told, head.pid, now_secs),
                telemetry::ticks_ns(head.stat.user_cpu_time, head.stat.system_cpu_time),
                head.status.rss,
            ),
        )
    } else {
        found
    }
}

/// What is known of a process, from what its files tell and from what it uses of
/// GPUs and NPUs.
pub open spec fn data_of(
    head: HeadView,
    gpu: Map<GpuIdentifier, GpuUsageStats>,
    npu: Map<PciSlot, NpuUsageStats>,
    timestamp: u64,
) -> ProcessDataView {
    ProcessDataView {
        pid: head.pid,
        parent_pid: head.stat.parent_pid,
        user: head.user,
        comm: head.comm,
        commandline: head.commandline,
        user_cpu_time: head.stat.user_cpu_time,
        system_cpu_time: head.stat.system_cpu_time,
        niceness: head.stat.niceness,
        affinity: head.status.affinity,
        rss: head.status.rss,
        rss_shmem: head.status.rss_shmem,
        rss_anon: head.status.rss_anon,
        rss_file: head.status.rss_file,
        vm_size: head.status.vm_size,
        pss: head.pss,
        swap_usage: head.status.swap_usage,
        starttime: head.stat.starttime,
        cgroup: head.cgroup,
        containerization: head.containerization,
        read_bytes: head.io.read_bytes,
        write_bytes: head.io.write_bytes,
        timestamp,
        gpu_usage_stats: gpu,
        npu_usage_stats: npu,
        appimage_path: head.appimage_path,
        steam_appid: head.steam_appid,
    }
}

/// What is known of a process, given what it uses of GPUs and NPUs by its descriptors and
/// by NVIDIA's library, which counts before them.
pub open spec fn data_with_usage(
    head: HeadView,
    gpu: Map<GpuIdentifier, GpuUsageStats>,
    nvidia: Map<GpuIdentifier, GpuUsageStats>,
    npu: Map<PciSlot, NpuUsageStats>,
    told: Option<TelemetryView>,
    now_secs: u64,
    timestamp: u64,
) -> ProcessDataView {
    data_of(
        head,
        gpu.union_prefer_right(nvidia),
        npu_usage_with_estimate(npu, head, told, now_secs),
        timestamp,
    )
}

/// What is known of a process whose descriptors were read.
pub open spec fn data_with_fdinfos(
    head: HeadView,
    fdinfos: Seq<FdinfoView>,
    readings: Seq<ReadingView>,
    told: Option<TelemetryView>,
    now_secs: u64,
    timestamp: u64,
) -> ProcessDataView {
    data_with_usage(
        head,
        fdinfo::gpu_usage_map(fdinfos),
        nvidia::nvidia_map(readings, nvidia::unsigned_pid(head.pid)),
        fdinfo::npu_usage_map(fdinfos),
        told,
        now_secs,
        timestamp,
    )
}

/// The caches with the descriptors that were found to tell nothing.
pub open spec fn caches_with_fdinfos(caches: FdCachesView, fdinfos: Seq<FdinfoView>) -> FdCachesView {
    FdCachesView {
        non_gpu: caches.non_gpu.union(fdinfo::without_gpu(fdinfos)),
        non_npu: caches.non_npu.union(fdinfo::without_npu(fdinfos)),
        ..caches
    }
}

/// What a `Result` holds of a process.
pub open spec fn result_view(r: Result<ProcessData, ProcessDataError>) -> Result<
    ProcessDataView,
    ProcessDataError,
> {
    match r {
        Ok(data) => Ok(data@),
        Err(e) => Err(e),
    }
}

/// What is known of a process, and the caches behind it, given everything that was
/// read of it.
pub open spec fn process_of_files(
    files: ProcFilesView,
    listing: FdListingView,
    caches: FdCachesView,
    users: Map<u32, Seq<char>>,
    num_cpus: usize,
    pss_enabled: bool,
    readings: Seq<ReadingView>,
    told: Option<TelemetryView>,
    now_secs: u64,
    timestamp: u64,
) -> (Result<ProcessDataView, ProcessDataError>, FdCachesView) {
    match head_of(files, users, num_cpus, pss_enabled) {
        Err(e) => (Err(e), caches),
        Ok(head) => {
            let scan = fd_scan::all_scanned(
                fd_scan::scan_begin(head.pid, caches),
                listing.entries,
            );
            let found = match fd_scan::scan_result(listing, scan) {
                Ok(found) => found,
                Err(_) => Seq::<FdinfoView>::empty(),
            };
            (
                Ok(
                    data_with_fdinfos(head, found, readings, told, now_secs, timestamp),
                ),
                caches_with_fdinfos(scan.caches, found),
            )
        },
    }
}

/// Whether the memory of a process is what the kernel tells of it: each amount is the
/// number of kibibytes behind its own name in `status`, and the proportional set size,
/// where it is asked for, the one in `smaps_rollup`.
pub open spec fn memory_is_told(
    data: ProcessData,
    status: Option<Seq<char>>,
    smaps_rollup: Option<Seq<char>>,
    pss_enabled: bool,
) -> bool {
    &&& status is Some
    &&& proc_files::shows_kib(data.rss, r"VmRSS:\s*([0-9]+)\s*kB"@, text::trim(status->0))
    &&& proc_files::shows_kib(data.rss_anon, r"RssAnon:\s*([0-9]+)\s*kB"@, text::trim(status->0))
    &&& proc_files::shows_kib(data.rss_shmem, r"RssShmem:\s*([0-9]+)\s*kB"@, text::trim(status->0))
    &&& proc_files::shows_kib(data.rss_file, r"RssFile:\s*([0-9]+)\s*kB"@, text::trim(status->0))
    &&& proc_files::shows_kib(data.vm_size, r"VmSize:\s*([0-9]+)\s*kB"@, text::trim(status->0))
    &&& proc_files::shows_kib(data.swap_usage, r"VmSwap:\s*([0-9]+)\s*kB"@, text::trim(status->0))
    &&& if pss_enabled && smaps_rollup is Some {
        data.pss is Some && proc_files::shows_kib(
            data.pss->0,
            r"Pss:\s*([0-9]+)\s*kB"@,
            text::trim(smaps_rollup->0),
        )
    } else {
        data.pss is None
    }
}

/// Whether the parent, the times and the niceness of a process are what the kernel tells
/// in `stat`, at their places behind the name of the executable.
pub open spec fn times_are_told(data: ProcessData, stat: Option<Seq<char>>, timestamp: u64) -> bool {
    let f = text::split(text::split(text::trim(stat->0), ')').last(), ' ');
    &&& stat is Some
    &&& f.len() > 20
    &&& number::parse_signed(f[2], i32::MIN as int, i32::MAX as int) == Some(
        data.parent_pid as int,
    )
    &&& number::parse_unsigned(f[12], 10, u64::MAX as int) == Some(data.user_cpu_time as int)
    &&& number::parse_unsigned(f[13], 10, u64::MAX as int) == Some(data.system_cpu_time as int)
    &&& number::parse_signed(f[17], i8::MIN as int, i8::MAX as int) == Some(
        data.niceness.value() as int,
    )
    &&& number::parse_unsigned(f[20], 10, u64::MAX as int) == Some(data.starttime as int)
    &&& data.timestamp == timestamp
}

/// Whether what a process has read and written is what the kernel tells in `io`, where
/// that can be read.
pub open spec fn io_is_told(data: ProcessData, io: Option<Seq<char>>) -> bool {
    let io = match io {
        Some(s) => Some(text::trim(s)),
        None => None,
    };
    &&& proc_files::shows_number(data.read_bytes, r"read_bytes:\s*(\d+)"@, io)
    &&& proc_files::shows_number(data.write_bytes, r"write_bytes:\s*(\d+)"@, io)
}

impl ProcessData {
    /// Completes what the files of a process tell by what its descriptors show.
    pub fn from_head(
        head: ProcessHead,
        fdinfos: &Vec<Fdinfo>,
        caches: &mut FdCaches,
        nvidia_stats: &NvidiaSnapshot,
        telemetry: &Option<Telemetry>,
        now_secs: u64,
        timestamp: u64,
    ) -> (r: Self)
        ensures
            r@ == data_with_fdinfos(
                head@,
                fdinfo::fdinfo_views(fdinfos@),
                nvidia_stats@,
                telemetry::opt_telemetry(*telemetry),
                now_secs,
                timestamp,
            ),
            final(caches)@ == caches_with_fdinfos(old(caches)@, fdinfo::fdinfo_views(fdinfos@)),
    {
        let ghost before = caches@;
        let ghost list = fdinfo::fdinfo_views(fdinfos@);
        let gpu: SortedMap<GpuIdentifier, GpuUsageStats> = fdinfo::other_gpu_usage_stats(
            fdinfos,
            &mut caches.non_gpu,
        );
        let nvidia: SortedMap<GpuIdentifier, GpuUsageStats> = nvidia_stats.gpu_usage_stats_all(
            head.pid,
        );
        let npu: SortedMap<PciSlot, NpuUsageStats> = fdinfo::npu_usage_stats(
            fdinfos,
            &mut caches.non_npu,
        );
        proof {
            assert(caches@ =~= caches_with_fdinfos(before, list));
        }
        Self::from_usage(head, gpu, &nvidia, npu, telemetry, now_secs, timestamp)
    }

    /// Completes what the files of a process tell by what it uses of GPUs and NPUs.
    pub fn from_usage(
        head: ProcessHead,
        gpu: SortedMap<GpuIdentifier, GpuUsageStats>,
        nvidia: &SortedMap<GpuIdentifier, GpuUsageStats>,
        npu: SortedMap<PciSlot, NpuUsageStats>,
        telemetry: &Option<Telemetry>,
        now_secs: u64,
        timestamp: u64,
    ) -> (r: Self)
        ensures
            r@ == data_with_usage(
                head@,
                gpu@,
                nvidia@,
                npu@,
                telemetry::opt_telemetry(*telemetry),
                now_secs,
                timestamp,
            ),
            r.pid == head.pid,
            r.parent_pid == head.stat.parent_pid,
            r.user_cpu_time == head.stat.user_cpu_time,
            r.system_cpu_time == head.stat.system_cpu_time,
            r.niceness == head.stat.niceness,
            r.starttime == head.stat.starttime,
            r.affinity@ == head.status.affinity@,
            r.rss == head.status.rss,
            r.rss_anon == head.status.rss_anon,
            r.rss_shmem == head.status.rss_shmem,
            r.rss_file == head.status.rss_file,
            r.vm_size == head.status.vm_size,
            r.swap_usage == head.status.swap_usage,
            r.pss == head.pss,
            r.read_bytes == head.io.read_bytes,
            r.write_bytes == head.io.write_bytes,
            r.user@ == head.user@,
            r.comm@ == head.comm@,
            r.commandline@ == head.commandline@,
            r.containerization == head.containerization,
            r.steam_appid == head.steam_appid,
            r.timestamp == timestamp,
    {
        let ghost view = head@;
        let ghost gpu_map = gpu@;
        let ghost npu_map = npu@;
        let mut gpu_usage_stats: SortedMap<GpuIdentifier, GpuUsageStats> = gpu;
        gpu_usage_stats.extend(nvidia);
        let mut npu_usage_stats: SortedMap<PciSlot, NpuUsageStats> = npu;
        if npu_usage_stats.is_empty() && is_npu_process(
            head.comm.as_str(),
            head.commandline.as_str(),
        ) {
            let cpu_ns: u64 = telemetry::cpu_time_ns(
                head.stat.user_cpu_time,
                head.stat.system_cpu_time,
            );
            let usage: NpuUsageStats = telemetry::estimate_usage(
                telemetry,
                head.pid,
                now_secs,
                cpu_ns,
                head.status.rss,
            );
            npu_usage_stats.insert(PciSlot::default(), usage);
        }
        let r = ProcessData {
            pid: head.pid,
            parent_pid: head.stat.parent_pid,
            user: head.user,
            comm: head.comm,
            commandline: head.commandline,
            user_cpu_time: head.stat.user_cpu_time,
            system_cpu_time: head.stat.system_cpu_time,
            niceness: head.stat.niceness,
            affinity: head.status.affinity,
            rss: head.status.rss,
            rss_shmem: head.status.rss_shmem,
            rss_anon: head.status.rss_anon,
            rss_file: head.status.rss_file,
            vm_size: head.status.vm_size,
            pss: head.pss,
            swap_usage: head.status.swap_usage,
            starttime: head.stat.starttime,
            cgroup: head.cgroup,
            containerization: head.containerization,
            read_bytes: head.io.read_bytes,
            write_bytes: head.io.write_bytes,
            timestamp,
            gpu_usage_stats,
            npu_usage_stats,
            appimage_path: head.appimage_path,
            steam_appid: head.steam_appid,
        };
        proof {
            assert(r@ =~= data_with_usage(
                view,
                gpu_map,
                nvidia@,
                npu_map,
                telemetry::opt_telemetry(*telemetry),
                now_secs,
                timestamp,
            ));
        }
        r
    }

    /// Reads all there is to know of a process. Where its files cannot be read or
    /// are malformed, its descriptors are not looked at; where these cannot be listed
    /// to the end, they tell nothing.
    pub fn try_from_path(
        files: &ProcFiles,
        listing: &FdListing,
        caches: &mut FdCaches,
        users: &SortedMap<u32, String>,
        num_cpus: usize,
        pss_enabled: bool,
        nvidia_stats: &NvidiaSnapshot,
        telemetry: &Option<Telemetry>,
        now_secs: u64,
        timestamp: u64,
    ) -> (r: Result<Self, ProcessDataError>)
        ensures
            (result_view(r), final(caches)@) == process_of_files(
                files@,
                listing@,
                old(caches)@,
                user_names(users@),
                num_cpus,
                pss_enabled,
                nvidia_stats@,
                telemetry::opt_telemetry(*telemetry),
                now_secs,
                timestamp,
            ),
            r matches Ok(data) ==> memory_is_told(
                data,
                text::opt_text(files.status),
                text::opt_text(files.smaps_rollup),
                pss_enabled,
            ) && times_are_told(data, text::opt_text(files.stat), timestamp) && io_is_told(
                data,
                text::opt_text(files.io),
            ),
    {
        let head: ProcessHead = match ProcessHead::read(files, users, num_cpus, pss_enabled) {
            Ok(head) => head,
            Err(e) => {
                return Err(e);
            },
        };
        let fdinfos: Vec<Fdinfo> = match fd_scan::collect_fdinfos(head.pid, listing, caches) {
            Ok(fdinfos) => fdinfos,
            Err(_) => Vec::new(),
        };
        proof {
            assert(fdinfos@.len() == 0 ==> fdinfo::fdinfo_views(fdinfos@)
                =~= Seq::<FdinfoView>::empty());
            proc_files::memory_by_its_name(text::trim(files@.status->0), num_cpus);
            proc_files::stat_fields_by_their_places(text::trim(files@.stat->0));
            proc_files::io_by_its_name(pss::trimmed_content(files@.io));
            if let Some(content) = files@.smaps_rollup {
                proc_files::lemma_shows_kib(r"Pss:\s*([0-9]+)\s*kB"@, text::trim(content));
            }
        }
        Ok(
            Self::from_head(
                head,
                &fdinfos,
                caches,
                nvidia_stats,
                telemetry,
                now_secs,
                timestamp,
            ),
        )
    }
}

// All processes ----------------------------------------------------------------------------

/// Whether a directory in `/proc` is one of a process.
pub open spec fn process_dir(name: Seq<char>) -> bool {
    number::parse_unsigned(name, 10, u32::MAX as int) is Some
}

/// Whether a directory in `/proc` is one of a process.
pub fn is_process_dir(name: &str) -> (r: bool)
    ensures
        r == process_dir(name@),
{
    number::parse_u32(name).is_some()
}

/// The views of a list.
pub open spec fn data_views(list: Seq<ProcessData>) -> Seq<ProcessDataView> {
    Seq::new(list.len(), |i: int| list[i]@)
}

/// Everything that was read of a process, and when.
pub struct ProcessSnapshot {
    pub files: ProcFiles,
    pub listing: FdListing,
    /// In seconds since the epoch.
    pub now_secs: u64,
    /// In milliseconds since the epoch.
    pub timestamp: u64,
}

/// What a `ProcessSnapshot` holds.
#[verifier::ext_equal]
pub struct SnapshotView {
    pub files: ProcFilesView,
    pub listing: FdListingView,
    pub now_secs: u64,
    pub timestamp: u64,
}

impl View for ProcessSnapshot {
    type V = SnapshotView;

    open spec fn view(&self) -> SnapshotView {
        SnapshotView {
            files: self.files@,
            listing: self.listing@,
            now_secs: self.now_secs,
            timestamp: self.timestamp,
        }
    }
}

/// The views of a list.
pub open spec fn snapshot_views(list: Seq<ProcessSnapshot>) -> Seq<SnapshotView> {
    Seq::new(list.len(), |i: int| list[i]@)
}

/// Whether what was read is of a process at all.
pub open spec fn is_of_process(files: ProcFilesView) -> bool {
    files.dir_name matches Some(name) && process_dir(name)
}

/// What is known of all processes, in the order in which they were read, and the
/// caches behind it. A process of which there is nothing to tell is left out.
pub open spec fn all_data(
    list: Seq<SnapshotView>,
    caches: FdCachesView,
    users: Map<u32, Seq<char>>,
    num_cpus: usize,
    pss_enabled: bool,
    readings: Seq<ReadingView>,
    told: Option<TelemetryView>,
) -> (Seq<ProcessDataView>, FdCachesView)
    decreases list.len(),
{
    if list.len() == 0 {
        (Seq::<ProcessDataView>::empty(), caches)
    } else {
        let before = all_data(
            list.drop_last(),
            caches,
            users,
            num_cpus,
            pss_enabled,
            readings,
            told,
        );
        let s = list.last();
        if is_of_process(s.files) {
            let (r, after) = process_of_files(
                s.files,
                s.listing,
                before.1,
                users,
                num_cpus,
                pss_enabled,
                readings,
                told,
                s.now_secs,
                s.timestamp,
            );
            match r {
                Ok(data) => (before.0.push(data), after),
                Err(_) => (before.0, after),
            }
        } else {
            before
        }
    }
}

impl ProcessData {
    /// Reads all there is to know of all processes. Values that the kernel does not
    /// give exactly are not approximated yet.
    pub fn all_process_data(
        list: &Vec<ProcessSnapshot>,
        caches: &mut FdCaches,
        users: &SortedMap<u32, String>,
        num_cpus: usize,
        pss_mode: PssMode,
        nvidia_stats: &NvidiaSnapshot,
        telemetry: &Option<Telemetry>,
    ) -> (r: Vec<Self>)
        ensures
            (data_views(r@), final(caches)@) == all_data(
                snapshot_views(list@),
                old(caches)@,
                user_names(users@),
                num_cpus,
                pss_mode == PssMode::Exact,
                nvidia_stats@,
                telemetry::opt_telemetry(*telemetry),
            ),
    {
        let ghost all = snapshot_views(list@);
        let ghost start = caches@;
        let ghost names = user_names(users@);
        let ghost told = telemetry::opt_telemetry(*telemetry);
        let pss_enabled: bool = pss_mode == PssMode::Exact;
        let mut r: Vec<ProcessData> = Vec::new();
        let mut i: usize = 0;
        proof {
            assert(all.take(0) =~= Seq::<SnapshotView>::empty());
            assert(data_views(r@) =~= Seq::<ProcessDataView>::empty());
        }
        while i < list.len()
            invariant
                i <= list.len(),
                all == snapshot_views(list@),
                names == user_names(users@),
                told == telemetry::opt_telemetry(*telemetry),
                (data_views(r@), caches@) == all_data(
                    all.take(i as int),
                    start,
                    names,
                    num_cpus,
                    pss_enabled,
                    nvidia_stats@,
                    told,
                ),
            decreases list.len() - i,
        {
            let s: &ProcessSnapshot = &list[i];
            let ghost before = data_views(r@);
            proof {
                assert(all.take(i + 1).drop_last() =~= all.take(i as int));
                assert(all.take(i + 1).last() == s@);
            }
            let of_process: bool = match &s.files.dir_name {
                Some(name) => is_process_dir(name.as_str()),
                None => false,
            };
            if of_process {
                if let Ok(data) = Self::try_from_path(
                    &s.files,
                    &s.listing,
                    caches,
                    users,
                    num_cpus,
                    pss_enabled,
                    nvidia_stats,
                    telemetry,
                    s.now_secs,
                    s.timestamp,
                ) {
                    let ghost view = data@;
                    r.push(data);
                    proof {
                        assert(data_views(r@) =~= before.push(view));
                    }
                }
            }
            i += 1;
        }
        proof {
            assert(all.take(i as int) =~= all);
        }
        r
    }
}

/// The processes that have files or shared memory resident.
pub open spec fn mapped_pids(list: Seq<ProcessDataView>) -> Seq<i32>
    decreases list.len(),
{
    if list.len() == 0 {
        Seq::<i32>::empty()
    } else {
        let before = mapped_pids(list.drop_last());
        if list.last().rss_file > 0 || list.last().rss_shmem > 0 {
            before.push(list.last().pid)
        } else {
            before
        }
    }
}

/// The processes that have files or shared memory resident.
pub fn pids_with_mapped_rss(list: &Vec<ProcessData>) -> (r: Vec<i32>)
    ensures
        r@ == mapped_pids(data_views(list@)),
{
    let ghost all = data_views(list@);
    let mut r: Vec<i32> = Vec::new();
    let mut i: usize = 0;
    proof {
        assert(all.take(0) =~= Seq::<ProcessDataView>::empty());
    }
    while i < list.len()
        invariant
            i <= list.len(),
            all == data_views(list@),
            r@ == mapped_pids(all.take(i as int)),
        decreases list.len() - i,
    {
        proof {
            assert(all.take(i + 1).drop_last() =~= all.take(i as int));
            assert(all.take(i + 1).last() == list@[i as int]@);
        }
        if list[i].rss_file > 0 || list[i].rss_shmem > 0 {
            r.push(list[i].pid);
        }
        i += 1;
    }
    proof {
        assert(all.take(i as int) =~= all);
    }
    r
}

impl ProcessData {
    /// How the memory of the process is approximated, where it is not known yet.
    pub fn pss_plan(
        &self,
        all_mappings: &SortedMap<i32, PidMappings>,
        sharer_counts: &SortedMap<MappingKey, usize>,
    ) -> (r: Option<ApproxPss>)
        ensures
            match r {
                Some(plan) => self.pss is None && plan@ == pss::approximation(
                    self.rss_anon,
                    self.rss_file,
                    self.rss_shmem,
                    pss::mappings_at(pss::mapping_views(all_mappings@), self.pid),
                    sharer_counts@,
                ),
                None => self.pss is Some,
            },
    {
        if self.pss.is_some() {
            return None;
        }
        Some(
            pss::approx_pss(
                self.rss_anon,
                self.rss_file,
                self.rss_shmem,
                all_mappings.get(&self.pid),
                sharer_counts,
            ),
        )
    }
}

/// How the memory of a process is approximated, given what all processes map: not
/// at all where it is known, or where nothing is asked for.
pub open spec fn plan_of(
    mode: PssMode,
    d: ProcessDataView,
    mapped: Seq<(i32, MappingsView)>,
) -> Option<ApproxPssView> {
    if mode == PssMode::Disabled || d.pss is Some {
        None
    } else {
        Some(
            pss::approximation(
                d.rss_anon,
                d.rss_file,
                d.rss_shmem,
                pss::mappings_at(pss::mappings_by_pid(mapped), d.pid),
                pss::sharer_counts(mapped),
            ),
        )
    }
}

/// What an optional `ApproxPss` holds.
pub open spec fn opt_plan(plan: Option<ApproxPss>) -> Option<ApproxPssView> {
    match plan {
        Some(plan) => Some(plan@),
        None => None,
    }
}

/// How the memory of all processes is approximated, in their order. `mapped` is
/// what the processes map that have files or shared memory resident.
pub fn pss_plans(
    mode: PssMode,
    list: &Vec<ProcessData>,
    mapped: Vec<MappedProcess>,
) -> (r: Vec<Option<ApproxPss>>)
    requires
        mapped.len() < usize::MAX / 2,
    ensures
        r.len() == list.len(),
        forall|i: int|
            0 <= i < r.len() ==> opt_plan(#[trigger] r@[i]) == plan_of(
                mode,
                list@[i]@,
                pss::mapped_views(mapped@),
            ),
{
    let ghost views = pss::mapped_views(mapped@);
    let (by_pid, counts): (
        SortedMap<i32, PidMappings>,
        SortedMap<MappingKey, usize>,
    ) = pss::collect_file_mappings(mapped);
    proof {
        assert(counts@ =~= pss::sharer_counts(views));
    }
    let mut r: Vec<Option<ApproxPss>> = Vec::new();
    while r.len() < list.len()
        invariant
            r.len() <= list.len(),
            pss::mapping_views(by_pid@) == pss::mappings_by_pid(views),
            counts@ == pss::sharer_counts(views),
            forall|i: int|
                0 <= i < r.len() ==> opt_plan(#[trigger] r@[i]) == plan_of(mode, list@[i]@, views),
        decreases list.len() - r.len(),
    {
        let plan: Option<ApproxPss> = if mode == PssMode::Disabled {
            None
        } else {
            list[r.len()].pss_plan(&by_pid, &counts)
        };
        r.push(plan);
    }
    r
}

/// The list with the approximated values in place where none was known.
pub open spec fn with_pss(
    list: Seq<ProcessDataView>,
    values: Seq<Option<usize>>,
) -> Seq<ProcessDataView> {
    Seq::new(
        list.len(),
        |i: int|
            if list[i].pss is None && i < values.len() {
                ProcessDataView { pss: values[i], ..list[i] }
            } else {
                list[i]
            },
    )
}

/// Sets the approximated values, in the order of the processes, where none is
/// known yet.
pub fn fill_pss(list: &mut Vec<ProcessData>, values: &Vec<Option<usize>>)
    ensures
        data_views(final(list)@) == with_pss(data_views(old(list)@), values@),
{
    let ghost before = data_views(list@);
    let ghost expected = with_pss(before, values@);
    let n: usize = list.len();
    let mut i: usize = 0;
    while i < n
        invariant
            i <= n,
            list.len() == n,
            before.len() == n,
            expected == with_pss(before, values@),
            forall|j: int| 0 <= j < i ==> (#[trigger] list@[j])@ == expected[j],
            forall|j: int| i <= j < n ==> (#[trigger] list@[j])@ == before[j],
        decreases n - i,
    {
        proof {
            assert(list@[i as int]@ == before[i as int]);
        }
        if list[i].pss.is_none() && i < values.len() {
            list[i].pss = values[i];
            proof {
                assert(list@[i as int]@ =~= expected[i as int]);
            }
        }
        i += 1;
    }
    proof {
        assert(data_views(list@) =~= expected);
    }
}

// Laws --------------------------------------------------------------------------------------

/// A process whose `stat`, `status`, `comm` or `cmdline` cannot be read leaves no
/// trace: there is nothing to tell of it, and the caches stay as they are.
pub proof fn unreadable_process_skipped(
    files: ProcFilesView,
    listing: FdListingView,
    caches: FdCachesView,
    users: Map<u32, Seq<char>>,
    num_cpus: usize,
    pss_enabled: bool,
    readings: Seq<ReadingView>,
    told: Option<TelemetryView>,
    now_secs: u64,
    timestamp: u64,
)
    requires
        files.stat is None || files.status is None || files.comm is None || files.cmdline is None,
    ensures
        process_of_files(
            files,
            listing,
            caches,
            users,
            num_cpus,
            pss_enabled,
            readings,
            told,
            now_secs,
            timestamp,
        ).0 is Err,
        process_of_files(
            files,
            listing,
            caches,
            users,
            num_cpus,
            pss_enabled,
            readings,
            told,
            now_secs,
            timestamp,
        ).1 == caches,
{
}

/// A descriptor whose file turned out to tell nothing of a GPU or an NPU, and which does
/// not point to a device, is not read again.
pub proof fn useless_descriptor_not_read_again(
    caches: FdCachesView,
    fdinfos: Seq<FdinfoView>,
    i: int,
    link: Option<Seq<u8>>,
)
    requires
        0 <= i < fdinfos.len(),
        fdinfo::gpu_usage_of(fdinfos[i].content) is Err,
        fdinfo::npu_usage_of(fdinfos[i].content) is Err,
        fd_scan::target_by_caches(caches, fdinfo::key_of(fdinfos[i]), link) matches Some(t)
            && !fd_scan::device_path(t),
    ensures
        fd_scan::passed_over(
            caches_with_fdinfos(caches, fdinfos),
            fdinfo::key_of(fdinfos[i]),
            link,
        ),
{
}

/// A process that only watches NPUs is never given an estimate: without
/// descriptors of an NPU it uses none.
pub proof fn monitor_uses_no_npu(
    head: HeadView,
    told: Option<TelemetryView>,
    now_secs: u64,
)
    requires
        is_monitor(head.comm, head.commandline),
    ensures
        npu_usage_with_estimate(Map::empty(), head, told, now_secs) == Map::<
            PciSlot,
            NpuUsageStats,
        >::empty(),
{
}

/// A process that cannot be read does not stand in the way of the others: they are
/// read as if it had not been there.
pub proof fn unreadable_process_left_out(
    list: Seq<SnapshotView>,
    s: SnapshotView,
    caches: FdCachesView,
    users: Map<u32, Seq<char>>,
    num_cpus: usize,
    pss_enabled: bool,
    readings: Seq<ReadingView>,
    told: Option<TelemetryView>,
)
    requires
        head_of(s.files, users, num_cpus, pss_enabled) is Err,
    ensures
        all_data(list.push(s), caches, users, num_cpus, pss_enabled, readings, told) == all_data(
            list,
            caches,
            users,
            num_cpus,
            pss_enabled,
            readings,
            told,
        ),
{
    assert(list.push(s).drop_last() =~= list);
}

/// Where approximated values are asked for, every process ends up with a value.
pub proof fn every_process_has_pss(
    mode: PssMode,
    list: Seq<ProcessDataView>,
    mapped: Seq<(i32, MappingsView)>,
    values: Seq<Option<usize>>,
    i: int,
)
    requires
        mode != PssMode::Disabled,
        0 <= i < list.len(),
        values.len() == list.len(),
        plan_of(mode, list[i], mapped) is Some ==> values[i] is Some,
    ensures
        with_pss(list, values)[i].pss is Some,
{
}

/// A known value is never replaced by an approximated one.
pub proof fn exact_pss_kept(list: Seq<ProcessDataView>, values: Seq<Option<usize>>, i: int)
    requires
        0 <= i < list.len(),
        list[i].pss is Some,
    ensures
        with_pss(list, values)[i] == list[i],
{
}

/// What is known of a process shows what it holds.
pub proof fn data_shows_its_fields(d: ProcessData)
    ensures
        d@.pid == d.pid,
        d@.parent_pid == d.parent_pid,
        d@.user == d.user@,
        d@.comm == d.comm@,
        d@.commandline == d.commandline@,
        d@.user_cpu_time == d.user_cpu_time,
        d@.system_cpu_time == d.system_cpu_time,
        d@.niceness == d.niceness.value(),
        d@.affinity == d.affinity@,
        d@.rss == d.rss,
        d@.rss_shmem == d.rss_shmem,
        d@.rss_anon == d.rss_anon,
        d@.rss_file == d.rss_file,
        d@.vm_size == d.vm_size,
        d@.pss == d.pss,
        d@.swap_usage == d.swap_usage,
        d@.starttime == d.starttime,
        d.cgroup matches Some(s) ==> d@.cgroup == Some(s@),
        d.cgroup is None ==> d@.cgroup is None,
        d@.containerization == d.containerization,
        d@.read_bytes == d.read_bytes,
        d@.write_bytes == d.write_bytes,
        d@.timestamp == d.timestamp,
        d@.gpu_usage_stats == d.gpu_usage_stats@,
        d@.npu_usage_stats == d.npu_usage_stats@,
        d.appimage_path matches Some(s) ==> d@.appimage_path == Some(s@),
        d.appimage_path is None ==> d@.appimage_path is None,
        d@.steam_appid == d.steam_appid,
{
}

/// What is known of a process by its files: each amount of memory is the number of
/// kibibytes behind its name in `status`, the parent and the times stand at their places in
/// `stat`, what was read and written is in `io`; the name and the command line are the
/// contents of their files.
pub proof fn process_told_by_its_files(
    files: ProcFilesView,
    listing: FdListingView,
    caches: FdCachesView,
    users: Map<u32, Seq<char>>,
    num_cpus: usize,
    pss_enabled: bool,
    readings: Seq<ReadingView>,
    told: Option<TelemetryView>,
    now_secs: u64,
    timestamp: u64,
)
    ensures
        process_of_files(
            files,
            listing,
            caches,
            users,
            num_cpus,
            pss_enabled,
            readings,
            told,
            now_secs,
            timestamp,
        ).0 matches Ok(d) ==> {
            let status = text::trim(files.status->0);
            let f = text::split(text::split(text::trim(files.stat->0), ')').last(), ' ');
            let io = match files.io {
                Some(s) => Some(text::trim(s)),
                None => None,
            };
            let comm = text::trim(files.comm->0);
            &&& files.status is Some && files.stat is Some && files.comm is Some
                && files.cmdline is Some
            &&& files.dir_name matches Some(name) && number::parse_signed(
                name,
                i32::MIN as int,
                i32::MAX as int,
            ) == Some(d.pid as int)
            &&& proc_files::shows_kib(d.rss, r"VmRSS:\s*([0-9]+)\s*kB"@, status)
            &&& proc_files::shows_kib(d.rss_anon, r"RssAnon:\s*([0-9]+)\s*kB"@, status)
            &&& proc_files::shows_kib(d.rss_shmem, r"RssShmem:\s*([0-9]+)\s*kB"@, status)
            &&& proc_files::shows_kib(d.rss_file, r"RssFile:\s*([0-9]+)\s*kB"@, status)
            &&& proc_files::shows_kib(d.vm_size, r"VmSize:\s*([0-9]+)\s*kB"@, status)
            &&& proc_files::shows_kib(d.swap_usage, r"VmSwap:\s*([0-9]+)\s*kB"@, status)
            &&& f.len() > 20
            &&& number::parse_signed(f[2], i32::MIN as int, i32::MAX as int) == Some(
                d.parent_pid as int,
            )
            &&& number::parse_unsigned(f[12], 10, u64::MAX as int) == Some(
                d.user_cpu_time as int,
            )
            &&& number::parse_unsigned(f[13], 10, u64::MAX as int) == Some(
                d.system_cpu_time as int,
            )
            &&& number::parse_signed(f[17], i8::MIN as int, i8::MAX as int) == Some(
                d.niceness as int,
            )
            &&& number::parse_unsigned(f[20], 10, u64::MAX as int) == Some(d.starttime as int)
            &&& proc_files::shows_number(d.read_bytes, r"read_bytes:\s*(\d+)"@, io)
            &&& proc_files::shows_number(d.write_bytes, r"write_bytes:\s*(\d+)"@, io)
            &&& d.commandline == text::trim(files.cmdline->0)
            &&& (forall|i: int| 0 <= i < comm.len() ==> comm[i] != '\n') ==> d.comm == comm
            &&& d.timestamp == timestamp
            &&& !pss_enabled || files.smaps_rollup is None ==> d.pss is None
        },
{
    proc_files::memory_by_its_name(text::trim(files.status->0), num_cpus);
    proc_files::stat_fields_by_their_places(text::trim(files.stat->0));
    proc_files::io_by_its_name(pss::trimmed_content(files.io));
    if let Some(name) = files.dir_name {
        number::number_is_within_bounds(
            name,
            10,
            i32::MIN as int,
            i32::MAX as int,
            i32::MAX as int,
        );
    }
    let comm = text::trim(files.comm->0);
    if forall|i: int| 0 <= i < comm.len() ==> comm[i] != '\n' {
        line_feeds_taken_out(comm, Seq::<char>::empty());
    }
}

/// Whether `stat` holds what is read from it.
pub open spec fn stat_is_complete(stat: Seq<char>) -> bool {
    let f = text::split(text::split(text::trim(stat), ')').last(), ' ');
    &&& f.len() > 20
    &&& number::parse_signed(f[2], i32::MIN as int, i32::MAX as int) is Some
    &&& number::parse_unsigned(f[12], 10, u64::MAX as int) is Some
    &&& number::parse_unsigned(f[13], 10, u64::MAX as int) is Some
    &&& number::parse_signed(f[17], i8::MIN as int, i8::MAX as int) matches Some(n) && -20 <= n
        <= 19
    &&& number::parse_unsigned(f[20], 10, u64::MAX as int) is Some
}

/// Whether `status` names no user, or one by a number.
pub open spec fn status_is_complete(status: Seq<char>) -> bool {
    let found = pattern::captures_of(r"Uid:\s*(\d+)"@, text::trim(status));
    ||| found is None
    ||| pattern::group(found, 1) matches Some(s) && number::parse_unsigned(
        s,
        10,
        u32::MAX as int,
    ) is Some
}

/// A process is read exactly where its directory is named after it, `stat`, `status`,
/// `comm` and `cmdline` can be read, and the first two are well-formed; whatever else is
/// missing does not stand in the way.
pub proof fn readable_process_is_read(
    files: ProcFilesView,
    listing: FdListingView,
    caches: FdCachesView,
    users: Map<u32, Seq<char>>,
    num_cpus: usize,
    pss_enabled: bool,
    readings: Seq<ReadingView>,
    told: Option<TelemetryView>,
    now_secs: u64,
    timestamp: u64,
)
    ensures
        process_of_files(
            files,
            listing,
            caches,
            users,
            num_cpus,
            pss_enabled,
            readings,
            told,
            now_secs,
            timestamp,
        ).0 is Ok <==> {
            &&& files.dir_name matches Some(name) && number::parse_signed(
                name,
                i32::MIN as int,
                i32::MAX as int,
            ) is Some
            &&& files.stat matches Some(stat) && stat_is_complete(stat)
            &&& files.status matches Some(status) && status_is_complete(status)
            &&& files.comm is Some
            &&& files.cmdline is Some
        },
{
    proc_files::stat_fields_by_their_places(text::trim(files.stat->0));
}

/// Line feeds are taken out of the name of a process, and nothing else is.
pub proof fn line_feeds_taken_out(a: Seq<char>, b: Seq<char>)
    ensures
        (forall|i: int| 0 <= i < a.len() ==> a[i] != '\n') ==> without_newlines(a) == a,
        without_newlines(a + b) == without_newlines(a) + without_newlines(b),
        without_newlines(seq!['\n']) == Seq::<char>::empty(),
    decreases a.len() + b.len(),
{
    let one = seq!['\n'];
    assert(one.drop_last() =~= Seq::<char>::empty());
    assert(without_newlines(one.drop_last()) =~= Seq::<char>::empty());
    if b.len() > 0 {
        line_feeds_taken_out(a, b.drop_last());
        assert((a + b).drop_last() =~= a + b.drop_last());
        assert((a + b).last() == b.last());
        assert(without_newlines(a + b) =~= without_newlines(a) + without_newlines(b));
    } else {
        assert(a + b =~= a);
        assert(without_newlines(a) + without_newlines(b) =~= without_newlines(a));
        if a.len() > 0 {
            line_feeds_taken_out(a.drop_last(), b);
            if forall|i: int| 0 <= i < a.len() ==> a[i] != '\n' {
                assert forall|i: int| 0 <= i < a.drop_last().len() implies a.drop_last()[i]
                    != '\n' by {
                    assert(a[i] == a.drop_last()[i]);
                }
                assert(a[a.len() - 1] == a.last());
                assert(without_newlines(a) =~= a);
            }
        }
    }
}

/// Of several entries of the environment with the same name the last one counts; entries
/// with other names, or without an equals sign, do not count.
pub proof fn last_entry_counts(
    entries: Seq<Seq<char>>,
    name: Seq<char>,
    value: Seq<char>,
    other: Seq<char>,
)
    requires
        forall|i: int| 0 <= i < name.len() ==> name[i] != '=',
    ensures
        env_value(Seq::<Seq<char>>::empty(), name) is None,
        env_value(entries.push(name + seq!['='] + value), name) == Some(value),
        other != name ==> env_value(entries.push(name + seq!['='] + value), other) == env_value(
            entries,
            other,
        ),
        env_value(entries.push(name), other) == env_value(entries, other),
{
    text::split_at_every_separator(name, '=', value);
    let e = name + seq!['='] + value;
    assert(entries.push(e).last() == e);
    assert(entries.push(e).drop_last() =~= entries);
    assert(entries.push(name).last() == name);
    assert(entries.push(name).drop_last() =~= entries);
}

/// The AppImage and the Steam game of a process are those that its environment names.
pub proof fn environment_names_appimage_and_game(
    pid: i32,
    files: ProcFilesView,
    found: FoundView,
    users: Map<u32, Seq<char>>,
)
    ensures
        ({
            let entries = match files.environ {
                Some(s) => text::split(text::trim(s), '\0'),
                None => seq![Seq::<char>::empty()],
            };
            let head = head_fields(pid, files, found, users);
            &&& head.appimage_path == env_value(entries, "APPIMAGE"@)
            &&& match env_value(entries, "SteamAppId"@) {
                Some(s) => match number::parse_unsigned(s, 10, u32::MAX as int) {
                    Some(n) => head.steam_appid == Some(n as u32),
                    None => head.steam_appid is None,
                },
                None => head.steam_appid is None,
            }
        }),
{
    if files.environ is None {
        text::split_at_every_separator(Seq::<char>::empty(), '\0', Seq::<char>::empty());
    }
}

/// The user of a process goes by the name that is known for it, or else by its number.
pub proof fn user_goes_by_name(
    pid: i32,
    files: ProcFilesView,
    found: FoundView,
    users: Map<u32, Seq<char>>,
)
    ensures
        ({
            let user = head_fields(pid, files, found, users).user;
            let uid = found.status.uid;
            &&& users.contains_key(uid) ==> user == users[uid]
            &&& !users.contains_key(uid) ==> user == number::number_text(uid as int, 10)
        }),
{
}

/// A process whose command line begins in `/snap/`, or whose launcher is `snap`, runs in a
/// snap. Else one with the file of a portable container, or launched by it, runs in that;
/// else one with the file of a Flatpak, or launched by it, in a Flatpak; else one with the
/// path of an AppImage in an AppImage; and all others run on the host.
pub proof fn container_by_what_shows(
    portable_file: bool,
    flatpak_file: bool,
    commandline: Seq<char>,
    launcher: Seq<char>,
    has_appimage_path: bool,
)
    ensures
        ({
            let r = containerization_of(
                portable_file,
                flatpak_file,
                commandline,
                launcher,
                has_appimage_path,
            );
            let snap = text::starts_with(commandline, "/snap/"@) || launcher == "snap"@;
            let portable = portable_file || launcher == "portable"@;
            let flatpak = flatpak_file || launcher == "flatpak"@;
            &&& r == Containerization::Snap <==> snap
            &&& r == Containerization::Portable <==> !snap && portable
            &&& r == Containerization::Flatpak <==> !snap && !portable && flatpak
            &&& r == Containerization::AppImage <==> !snap && !portable && !flatpak
                && has_appimage_path
        }),
{
}

/// The container of a process is told by its files, its command line, its launcher and its
/// environment.
pub proof fn container_of_process(
    pid: i32,
    files: ProcFilesView,
    found: FoundView,
    users: Map<u32, Seq<char>>,
)
    ensures
        ({
            let head = head_fields(pid, files, found, users);
            head.containerization == containerization_of(
                files.portable_file,
                files.flatpak_file,
                head.commandline,
                found.launcher,
                head.appimage_path is Some,
            )
        }),
        head_fields(pid, files, found, users).cgroup == found.cgroup,
{
}

/// Which names show that a process works with an NPU; the exporter and this program never
/// do.
pub proof fn names_that_show_npu_work(comm: Seq<char>, commandline: Seq<char>)
    ensures
        works_with_npu(comm, commandline) <==> {
            &&& !text::contains(comm, "exporter"@) && !text::contains(commandline, "exporter"@)
            &&& !text::contains(comm, "resources"@) && !text::contains(commandline, "resources"@)
            &&& comm == "flm-real"@ || text::contains(commandline, "flm-real"@) || text::contains(
                commandline,
                "/npu/"@,
            ) || text::contains(comm, "xrt"@) || text::contains(commandline, "xrt_"@)
                || text::contains(commandline, "xrt-"@) || text::contains(
                commandline,
                "lemonade_test"@,
            )
        },
{
}

/// What a process uses of NPUs is what its descriptors show. Only where they show none, and
/// its name shows that it works with one, it is given an estimate, under the address of all
/// zeros.
pub proof fn estimate_only_without_descriptors(
    found: Map<PciSlot, NpuUsageStats>,
    head: HeadView,
    told: Option<TelemetryView>,
    now_secs: u64,
    slot: PciSlot,
)
    ensures
        found.contains_key(slot) || !works_with_npu(head.comm, head.commandline)
            ==> npu_usage_with_estimate(found, head, told, now_secs) == found,
        found == Map::<PciSlot, NpuUsageStats>::empty() && works_with_npu(
            head.comm,
            head.commandline,
        ) ==> {
            let zero = PciSlot { domain: 0, bus: 0, number: 0, function: 0 };
            let r = npu_usage_with_estimate(found, head, told, now_secs);
            &&& r.contains_key(zero)
            &&& r.contains_key(slot) ==> slot == zero
            &&& r[zero] == telemetry::estimated_usage(
                telemetry::fresh_process(told, head.pid, now_secs),
                telemetry::ticks_ns(head.stat.user_cpu_time, head.stat.system_cpu_time),
                head.status.rss,
            )
        },
{
}

/// What a process uses of a GPU is what NVIDIA's library tells of that, or else what its
/// descriptors show.
pub proof fn nvidia_before_descriptors(
    head: HeadView,
    gpu: Map<GpuIdentifier, GpuUsageStats>,
    nvidia: Map<GpuIdentifier, GpuUsageStats>,
    npu: Map<PciSlot, NpuUsageStats>,
    told: Option<TelemetryView>,
    now_secs: u64,
    timestamp: u64,
    id: GpuIdentifier,
)
    ensures
        ({
            let stats = data_with_usage(
                head,
                gpu,
                nvidia,
                npu,
                told,
                now_secs,
                timestamp,
            ).gpu_usage_stats;
            &&& stats.contains_key(id) == (gpu.contains_key(id) || nvidia.contains_key(id))
            &&& nvidia.contains_key(id) ==> stats[id] == nvidia[id]
            &&& gpu.contains_key(id) && !nvidia.contains_key(id) ==> stats[id] == gpu[id]
        }),
{
}

/// What a process uses of GPUs and NPUs comes of the descriptors that were read, as long as
/// they could be listed to the end, and of what NVIDIA's library tells of that process.
pub proof fn devices_by_descriptors(
    files: ProcFilesView,
    listing: FdListingView,
    caches: FdCachesView,
    users: Map<u32, Seq<char>>,
    num_cpus: usize,
    pss_enabled: bool,
    readings: Seq<ReadingView>,
    told: Option<TelemetryView>,
    now_secs: u64,
    timestamp: u64,
)
    ensures
        process_of_files(
            files,
            listing,
            caches,
            users,
            num_cpus,
            pss_enabled,
            readings,
            told,
            now_secs,
            timestamp,
        ).0 matches Ok(d) ==> {
            let found = if listing.complete {
                fd_scan::all_scanned(
                    fd_scan::scan_begin(d.pid, caches),
                    listing.entries,
                ).found
            } else {
                Seq::<FdinfoView>::empty()
            };
            &&& d.gpu_usage_stats == fdinfo::gpu_usage_map(found).union_prefer_right(
                nvidia::nvidia_map(readings, nvidia::unsigned_pid(d.pid)),
            )
            &&& !works_with_npu(d.comm, d.commandline) ==> d.npu_usage_stats
                == fdinfo::npu_usage_map(found)
        },
{
}

/// One more process that can be read comes last, with all that was known of the others
/// before; one that is none, or cannot be read, changes nothing.
pub proof fn every_readable_process_is_listed(
    list: Seq<SnapshotView>,
    s: SnapshotView,
    caches: FdCachesView,
    users: Map<u32, Seq<char>>,
    num_cpus: usize,
    pss_enabled: bool,
    readings: Seq<ReadingView>,
    told: Option<TelemetryView>,
)
    ensures
        ({
            let before = all_data(list, caches, users, num_cpus, pss_enabled, readings, told);
            let after = all_data(
                list.push(s),
                caches,
                users,
                num_cpus,
                pss_enabled,
                readings,
                told,
            );
            let one = process_of_files(
                s.files,
                s.listing,
                before.1,
                users,
                num_cpus,
                pss_enabled,
                readings,
                told,
                s.now_secs,
                s.timestamp,
            );
            let is_process = s.files.dir_name matches Some(name) && number::parse_unsigned(
                name,
                10,
                u32::MAX as int,
            ) is Some;
            &&& is_process && one.0 is Ok ==> after.0 == before.0.push(one.0->Ok_0)
            &&& !is_process || one.0 is Err ==> after.0 == before.0
            &&& is_process ==> after.1 == one.1
            &&& !is_process ==> after.1 == before.1
        }),
        all_data(
            Seq::<SnapshotView>::empty(),
            caches,
            users,
            num_cpus,
            pss_enabled,
            readings,
            told,
        ) == (Seq::<ProcessDataView>::empty(), caches),
{
    assert(list.push(s).drop_last() =~= list);
    assert(list.push(s).last() == s);
}

/// The mappings are read of exactly those processes that have files or shared memory
/// resident.
pub proof fn mappings_wanted_where_resident(a: Seq<ProcessDataView>, b: Seq<ProcessDataView>, d: ProcessDataView)
    ensures
        mapped_pids(a + b) == mapped_pids(a) + mapped_pids(b),
        mapped_pids(seq![d]) == if d.rss_file > 0 || d.rss_shmem > 0 {
            seq![d.pid]
        } else {
            Seq::<i32>::empty()
        },
    decreases b.len(),
{
    let one = seq![d];
    assert(one.drop_last() =~= Seq::<ProcessDataView>::empty());
    assert(one.last() == d);
    assert(mapped_pids(one.drop_last()) =~= Seq::<i32>::empty());
    assert(Seq::<i32>::empty().push(d.pid) =~= seq![d.pid]);
    if b.len() == 0 {
        assert(a + b =~= a);
        assert(mapped_pids(a) + mapped_pids(b) =~= mapped_pids(a));
    } else {
        mappings_wanted_where_resident(a, b.drop_last(), d);
        assert((a + b).drop_last() =~= a + b.drop_last());
        assert((a + b).last() == b.last());
        assert(mapped_pids(a + b) =~= mapped_pids(a) + mapped_pids(b));
    }
}

/// Each process is given its own approximated value, and nothing else of it changes.
pub proof fn value_goes_to_its_process(
    list: Seq<ProcessDataView>,
    values: Seq<Option<usize>>,
    i: int,
)
    requires
        0 <= i < list.len(),
        values.len() == list.len(),
    ensures
        with_pss(list, values).len() == list.len(),
        list[i].pss is None ==> with_pss(list, values)[i].pss == values[i],
        (ProcessDataView { pss: None, ..with_pss(list, values)[i] }) == (ProcessDataView {
            pss: None,
            ..list[i]
        }),
{
}

/// The memory of a process whose only shared memory is mapped by several processes is
/// approximated with an equal part of it: its resident shared memory divided by their
/// number. Its private memory counts in full.
pub proof fn shared_segment_split_among_processes(
    mode: PssMode,
    d: ProcessDataView,
    mapped: Seq<(i32, MappingsView)>,
    i: int,
    key: MappingKey,
    size: u64,
)
    requires
        mode != PssMode::Disabled,
        d.pss is None,
        mapped.len() < usize::MAX / 2,
        0 <= i < mapped.len(),
        mapped[i].0 == d.pid,
        forall|j: int| 0 <= j < mapped.len() && j != i ==> (#[trigger] mapped[j]).0 != d.pid,
        size > 0,
        mapped[i].1.shmem == Map::<MappingKey, u64>::empty().insert(key, size),
    ensures
        plan_of(mode, d, mapped) is Some,
        plan_of(mode, d, mapped)->0.rss_anon == d.rss_anon,
        ({
            let (num, den) = pss::weighted_value(plan_of(mode, d, mapped)->0.shmem);
            den > 0 && num * pss::sharers(mapped, key) == d.rss_shmem * den
        }),
{
    assert(mapped[i].1.shmem.contains_key(key));
    pss::mapper_is_sharer(mapped, i, key);
    assert(mapped[i].1.shmem.dom().contains(key));
    pss::mappings_found_by_process(mapped, i);
    pss::sole_segment_split_evenly(
        d.rss_anon,
        d.rss_file,
        d.rss_shmem,
        mapped[i].1,
        pss::sharer_counts(mapped),
        key,
        size,
    );
}

/// What else is known of a process: the user whose number its `status` names, the CPUs of
/// the mask there, the application and the container of its control group, and what its
/// environment names.
pub proof fn process_told_by_its_surroundings(
    files: ProcFilesView,
    listing: FdListingView,
    caches: FdCachesView,
    users: Map<u32, Seq<char>>,
    num_cpus: usize,
    pss_enabled: bool,
    readings: Seq<ReadingView>,
    told: Option<TelemetryView>,
    now_secs: u64,
    timestamp: u64,
    uid: u32,
)
    ensures
        process_of_files(
            files,
            listing,
            caches,
            users,
            num_cpus,
            pss_enabled,
            readings,
            told,
            now_secs,
            timestamp,
        ).0 matches Ok(d) ==> {
            let status = text::trim(files.status->0);
            let named = pattern::captures_of(r"Uid:\s*(\d+)"@, status);
            let is_user = if named is None {
                uid == 0
            } else {
                number::parse_unsigned(pattern::group(named, 1)->0, 10, u32::MAX as int) == Some(
                    uid as int,
                )
            };
            let (launcher, app) = match files.cgroup {
                Some(s) => cgroup::cgroup_of(text::trim(s)),
                None => (None, None),
            };
            let entries = match files.environ {
                Some(s) => text::split(text::trim(s), '\0'),
                None => seq![Seq::<char>::empty()],
            };
            let mask = pattern::group(
                pattern::captures_of(r"Cpus_allowed:\s*([0-9A-Fa-f]+)"@, status),
                1,
            );
            &&& is_user && users.contains_key(uid) ==> d.user == users[uid]
            &&& is_user && !users.contains_key(uid) ==> d.user == number::number_text(
                uid as int,
                10,
            )
            &&& mask matches Some(m) ==> d.affinity == proc_files::affinity_of(m, num_cpus)
            &&& mask is None ==> d.affinity.len() == 0
            &&& d.cgroup == app
            &&& d.containerization == containerization_of(
                files.portable_file,
                files.flatpak_file,
                d.commandline,
                if launcher is Some {
                    launcher->0
                } else {
                    Seq::<char>::empty()
                },
                d.appimage_path is Some,
            )
            &&& d.appimage_path == env_value(entries, "APPIMAGE"@)
            &&& match env_value(entries, "SteamAppId"@) {
                Some(s) => match number::parse_unsigned(s, 10, u32::MAX as int) {
                    Some(n) => d.steam_appid == Some(n as u32),
                    None => d.steam_appid is None,
                },
                None => d.steam_appid is None,
            }
            &&& pss_enabled ==> d.pss == pss::exact_pss(files.smaps_rollup)
        },
{
    let status = text::trim(files.status->0);
    proc_files::user_by_its_number(status, num_cpus, uid);
    if files.environ is None {
        text::split_at_every_separator(Seq::<char>::empty(), '\0', Seq::<char>::empty());
    }
    if let Some(s) = pattern::group(pattern::captures_of(r"Uid:\s*(\d+)"@, status), 1) {
        number::number_is_within_bounds(s, 10, 0, u32::MAX as int, u32::MAX as int);
    }
}

/// The proportional memory of a process is approximated where it is wanted and the kernel has
/// not told it; a process whose mappings are not known counts with all that is resident.
pub proof fn approximated_where_not_told(
    mode: PssMode,
    d: ProcessDataView,
    mapped: Seq<(i32, MappingsView)>,
)
    requires
        forall|j: int| 0 <= j < mapped.len() ==> (#[trigger] mapped[j]).0 != d.pid,
    ensures
        plan_of(mode, d, mapped) is None <==> mode == PssMode::Disabled || d.pss is Some,
        plan_of(mode, d, mapped) matches Some(a) ==> {
            &&& a.rss_anon == d.rss_anon
            &&& pss::weighted_value(a.file) == (d.rss_file as int, 1int)
            &&& pss::weighted_value(a.shmem) == (d.rss_shmem as int, 1int)
        },
{
    pss::unlisted_process_has_no_mappings(mapped, d.pid);
}

/// A text denotes a niceness exactly where it denotes a number from -20 to 19, and then it is
/// that number.
pub proof fn niceness_is_in_range(s: Seq<char>)
    ensures
        match number::parse_signed(s, i8::MIN as int, i8::MAX as int) {
            Some(v) => if v < -20 || v >= 20 {
                parse_niceness(s) is None
            } else {
                parse_niceness(s) is Some && parse_niceness(s)->0 == v
            },
            None => parse_niceness(s) is None,
        },
{
}

} // verus!
