//! What the exporter of NPU data finds out and reports.

use vstd::prelude::*;

use crate::number;
use crate::process_data;
use crate::telemetry;
use crate::text;

verus! {

// What is reported ---------------------------------------------------------------------

/// What is reported of a process that uses an NPU.
pub struct ProcessNpuInfo {
    pub pid: i32,
    pub comm: String,
    pub user: String,
    pub memory_bytes: u64,
    pub proc_ns: u64,
}

/// What a `ProcessNpuInfo` holds.
#[verifier::ext_equal]
pub struct InfoView {
    pub pid: i32,
    pub comm: Seq<char>,
    pub user: Seq<char>,
    pub memory_bytes: u64,
    pub proc_ns: u64,
}

impl View for ProcessNpuInfo {
    type V = InfoView;

    open spec fn view(&self) -> InfoView {
        InfoView {
            pid: self.pid,
            comm: self.comm@,
            user: self.user@,
            memory_bytes: self.memory_bytes,
            proc_ns: self.proc_ns,
        }
    }
}

/// The views of a list.
pub open spec fn info_views(list: Seq<ProcessNpuInfo>) -> Seq<InfoView> {
    Seq::new(list.len(), |i: int| list[i]@)
}

/// The processes that a scan has found, with the sums over them.
pub struct NpuScan {
    pub total_ns: u64,
    pub total_mem: u64,
    pub processes: Vec<ProcessNpuInfo>,
}

/// What an `NpuScan` holds.
#[verifier::ext_equal]
pub struct NpuScanView {
    pub total_ns: u64,
    pub total_mem: u64,
    pub processes: Seq<InfoView>,
}

impl View for NpuScan {
    type V = NpuScanView;

    open spec fn view(&self) -> NpuScanView {
        NpuScanView {
            total_ns: self.total_ns,
            total_mem: self.total_mem,
            processes: info_views(self.processes@),
        }
    }
}

/// A scan that has found nothing.
pub open spec fn empty_scan() -> NpuScanView {
    NpuScanView { total_ns: 0, total_mem: 0, processes: Seq::<InfoView>::empty() }
}

/// The scan with one more process. The sums are modulo 2^64.
pub open spec fn with_info(scan: NpuScanView, info: InfoView) -> NpuScanView {
    NpuScanView {
        total_ns: number::wrapped_sum(scan.total_ns, info.proc_ns),
        total_mem: number::wrapped_sum(scan.total_mem, info.memory_bytes),
        processes: scan.processes.push(info),
    }
}

/// The scan with one more process, if there is one.
pub open spec fn with_found(scan: NpuScanView, found: Option<InfoView>) -> NpuScanView {
    match found {
        Some(info) => with_info(scan, info),
        None => scan,
    }
}

/// What an optional `ProcessNpuInfo` holds.
pub open spec fn opt_info(info: Option<ProcessNpuInfo>) -> Option<InfoView> {
    match info {
        Some(info) => Some(info@),
        None => None,
    }
}

impl NpuScan {
    /// A scan that has found nothing.
    pub fn new() -> (r: Self)
        ensures
            r@ == empty_scan(),
    {
        let r = NpuScan { total_ns: 0, total_mem: 0, processes: Vec::new() };
        proof {
            assert(r@ =~= empty_scan());
        }
        r
    }

    /// Takes in a process, if there is one.
    pub fn take_in(&mut self, found: Option<ProcessNpuInfo>)
        ensures
            final(self)@ == with_found(old(self)@, opt_info(found)),
    {
        let ghost before = self@;
        let ghost view = opt_info(found);
        if let Some(info) = found {
            self.total_ns = self.total_ns.wrapping_add(info.proc_ns);
            self.total_mem = self.total_mem.wrapping_add(info.memory_bytes);
            self.processes.push(info);
            proof {
                assert(self@ =~= with_info(before, view->0));
            }
        }
    }
}

/// A process as it stands in `/proc`: the name of its directory, and the contents of
/// its files where they could be read. `fdinfos` is missing where the directory could
/// not be read.
pub struct ProcSnapshot {
    pub dir_name: String,
    pub fdinfos: Option<Vec<Option<String>>>,
    pub comm: Option<String>,
    pub cmdline: Option<String>,
    pub stat: Option<String>,
    pub status: Option<String>,
}

/// What a `ProcSnapshot` holds.
#[verifier::ext_equal]
pub struct SnapshotView {
    pub dir_name: Seq<char>,
    pub fdinfos: Option<Seq<Option<Seq<char>>>>,
    pub comm: Option<Seq<char>>,
    pub cmdline: Option<Seq<char>>,
    pub stat: Option<Seq<char>>,
    pub status: Option<Seq<char>>,
}

/// The texts of a list of contents.
pub open spec fn content_texts(list: Seq<Option<String>>) -> Seq<Option<Seq<char>>> {
    Seq::new(list.len(), |i: int| text::opt_text(list[i]))
}

impl View for ProcSnapshot {
    type V = SnapshotView;

    open spec fn view(&self) -> SnapshotView {
        SnapshotView {
            dir_name: self.dir_name@,
            fdinfos: match self.fdinfos {
                Some(list) => Some(content_texts(list@)),
                None => None,
            },
            comm: text::opt_text(self.comm),
            cmdline: text::opt_text(self.cmdline),
            stat: text::opt_text(self.stat),
            status: text::opt_text(self.status),
        }
    }
}

/// The views of a list.
pub open spec fn snapshot_views(list: Seq<ProcSnapshot>) -> Seq<SnapshotView> {
    Seq::new(list.len(), |i: int| list[i]@)
}

/// The process that a directory is of.
pub open spec fn pid_of(dir_name: Seq<char>) -> Option<i32> {
    match number::parse_signed(dir_name, i32::MIN as int, i32::MAX as int) {
        Some(v) => Some(v as i32),
        None => None,
    }
}

/// The contents of a file without the white space around them; empty where it could
/// not be read.
pub open spec fn trimmed_or_empty(content: Option<Seq<char>>) -> Seq<char> {
    match content {
        Some(s) => text::trim(s),
        None => Seq::<char>::empty(),
    }
}

fn trimmed_content(content: &Option<String>) -> (r: String)
    ensures
        r@ == trimmed_or_empty(text::opt_text(*content)),
{
    match content {
        Some(s) => text::trimmed(s.as_str()),
        None => {
            let r: String = String::new();
            proof {
                assert(r@ =~= Seq::<char>::empty());
            }
            r
        },
    }
}

// By the descriptors ------------------------------------------------------------------------

/// What a descriptor tells of an NPU.
#[derive(Debug, Clone, Copy, PartialEq, Eq, Structural)]
pub struct FdUsage {
    pub is_npu: bool,
    pub ns: u64,
    pub mem: u64,
}

/// The number in the first word of a text; 0 where it is none. Nothing where there is
/// no word.
pub open spec fn first_number(s: Seq<char>) -> Option<u64> {
    let words = text::words(s);
    if words.len() == 0 {
        None
    } else {
        match number::parse_unsigned(words[0], 10, u64::MAX as int) {
            Some(v) => Some(v as u64),
            None => Some(0),
        }
    }
}

/// The bytes of a number of kibibytes, modulo 2^64.
pub open spec fn kib_bytes(kib: u64) -> u64 {
    ((kib * 1024) % 0x1_0000_0000_0000_0000) as u64
}

/// What is told with one more field.
pub open spec fn with_field(u: FdUsage, key: Seq<char>, value: Seq<char>) -> FdUsage {
    let is_npu = u.is_npu || (key == "drm-driver"@ && (value == "amdxdna"@ || value
        == "amdxdna_accel_driver"@));
    let ns = if key == "drm-engine-npu-amdxdna"@ || key == "drm-engine-npu"@ || key
        == "drm-engine-accel"@ {
        match first_number(value) {
            Some(n) => n,
            None => u.ns,
        }
    } else {
        u.ns
    };
    let mem = if key == "drm-total-memory"@ || key == "drm-memory-vram"@ {
        match first_number(value) {
            Some(n) => kib_bytes(n),
            None => u.mem,
        }
    } else {
        u.mem
    };
    FdUsage { is_npu, ns, mem }
}

/// What the lines of an fdinfo file tell; of several fields of one sort the last one
/// counts.
pub open spec fn fd_usage_of(lines: Seq<Seq<char>>) -> FdUsage
    decreases lines.len(),
{
    if lines.len() == 0 {
        FdUsage { is_npu: false, ns: 0, mem: 0 }
    } else {
        let before = fd_usage_of(lines.drop_last());
        match text::split_once(lines.last(), ':') {
            Some((key, value)) => with_field(before, text::trim(key), text::trim(value)),
            None => before,
        }
    }
}

/// What the descriptors of a process tell: the largest of their values.
pub open spec fn usage_of_fds(contents: Seq<Option<Seq<char>>>) -> FdUsage
    decreases contents.len(),
{
    if contents.len() == 0 {
        FdUsage { is_npu: false, ns: 0, mem: 0 }
    } else {
        let before = usage_of_fds(contents.drop_last());
        match contents.last() {
            None => before,
            Some(c) => {
                let u = fd_usage_of(text::lines(c));
                if u.is_npu {
                    FdUsage {
                        is_npu: true,
                        ns: number::larger(before.ns, u.ns),
                        mem: number::larger(before.mem, u.mem),
                    }
                } else {
                    before
                }
            },
        }
    }
}

/// Whether a name is one of the programs that only watch NPUs.
pub open spec fn watches(comm: Seq<char>) -> bool {
    text::contains(comm, "exporter"@) || text::contains(comm, "resources"@)
}

/// What is reported of a process by its descriptors.
pub open spec fn fd_info(p: SnapshotView) -> Option<InfoView> {
    match (pid_of(p.dir_name), p.fdinfos) {
        (Some(pid), Some(contents)) => {
            let u = usage_of_fds(contents);
            let comm = trimmed_or_empty(p.comm);
            if u.is_npu && !watches(comm) {
                Some(
                    InfoView {
                        pid,
                        comm,
                        user: "unknown"@,
                        memory_bytes: u.mem,
                        proc_ns: u.ns,
                    },
                )
            } else {
                None
            }
        },
        _ => None,
    }
}

/// What is found by the descriptors of several processes.
pub open spec fn fd_scan(list: Seq<SnapshotView>) -> NpuScanView
    decreases list.len(),
{
    if list.len() == 0 {
        empty_scan()
    } else {
        with_found(fd_scan(list.drop_last()), fd_info(list.last()))
    }
}

fn number_in(value: &Vec<char>) -> (r: Option<u64>)
    ensures
        r == first_number(value@),
{
    let words: Vec<Vec<char>> = text::words_chars(value);
    let ghost texts = text::texts(words@);
    if words.len() == 0 {
        return None;
    }
    proof {
        assert(texts[0] == words@[0]@);
    }
    match number::parse_u64_chars(&words[0], 10) {
        Some(v) => Some(v),
        None => Some(0),
    }
}

fn take_field(u: FdUsage, key: &str, value: &Vec<char>) -> (r: FdUsage)
    ensures
        r == with_field(u, key@, value@),
{
    let text_value: String = text::to_text(value);
    let is_npu: bool = u.is_npu || (text::same_text(key, "drm-driver") && (text::same_text(
        text_value.as_str(),
        "amdxdna",
    ) || text::same_text(text_value.as_str(), "amdxdna_accel_driver")));
    let ns: u64 = if text::same_text(key, "drm-engine-npu-amdxdna") || text::same_text(
        key,
        "drm-engine-npu",
    ) || text::same_text(key, "drm-engine-accel") {
        match number_in(value) {
            Some(n) => n,
            None => u.ns,
        }
    } else {
        u.ns
    };
    let mem: u64 = if text::same_text(key, "drm-total-memory") || text::same_text(
        key,
        "drm-memory-vram",
    ) {
        match number_in(value) {
            Some(n) => wrapping_kib(n),
            None => u.mem,
        }
    } else {
        u.mem
    };
    FdUsage { is_npu, ns, mem }
}

fn wrapping_kib(kib: u64) -> (r: u64)
    ensures
        r == kib_bytes(kib),
{
    ((kib as u128 * 1024) % 0x1_0000_0000_0000_0000) as u64
}

/// What the contents of an fdinfo file tell.
pub fn fd_usage(content: &str) -> (r: FdUsage)
    ensures
        r == fd_usage_of(text::lines(content@)),
{
    let lines: Vec<Vec<char>> = text::lines_chars(&text::to_chars(content));
    let ghost all = text::texts(lines@);
    let mut u = FdUsage { is_npu: false, ns: 0, mem: 0 };
    let mut i: usize = 0;
    proof {
        assert(all.take(0) =~= Seq::<Seq<char>>::empty());
    }
    while i < lines.len()
        invariant
            i <= lines.len(),
            all == text::texts(lines@),
            u == fd_usage_of(all.take(i as int)),
        decreases lines.len() - i,
    {
        proof {
            assert(all.take(i + 1).drop_last() =~= all.take(i as int));
            assert(all.take(i + 1).last() == lines@[i as int]@);
        }
        if let Some((key, value)) = text::split_once_chars(&lines[i], ':') {
            let key: String = text::to_text(&text::trim_chars(&key));
            u = take_field(u, key.as_str(), &text::trim_chars(&value));
        }
        i += 1;
    }
    proof {
        assert(all.take(i as int) =~= all);
    }
    u
}

fn fds_usage(contents: &Vec<Option<String>>) -> (r: FdUsage)
    ensures
        r == usage_of_fds(content_texts(contents@)),
{
    let ghost all = content_texts(contents@);
    let mut u = FdUsage { is_npu: false, ns: 0, mem: 0 };
    let mut i: usize = 0;
    proof {
        assert(all.take(0) =~= Seq::<Option<Seq<char>>>::empty());
    }
    while i < contents.len()
        invariant
            i <= contents.len(),
            all == content_texts(contents@),
            u == usage_of_fds(all.take(i as int)),
        decreases contents.len() - i,
    {
        proof {
            assert(all.take(i + 1).drop_last() =~= all.take(i as int));
            assert(all.take(i + 1).last() == text::opt_text(contents@[i as int]));
        }
        if let Some(content) = &contents[i] {
            let one: FdUsage = fd_usage(content.as_str());
            if one.is_npu {
                u = FdUsage {
                    is_npu: true,
                    ns: number::max_u64(u.ns, one.ns),
                    mem: number::max_u64(u.mem, one.mem),
                };
            }
        }
        i += 1;
    }
    proof {
        assert(all.take(i as int) =~= all);
    }
    u
}

/// What is reported of a process by its descriptors.
pub fn scan_fdinfo(p: &ProcSnapshot) -> (r: Option<ProcessNpuInfo>)
    ensures
        opt_info(r) == fd_info(p@),
{
    let Some(pid) = number::parse_i32_chars(&text::to_chars(p.dir_name.as_str())) else {
        return None;
    };
    let Some(contents) = &p.fdinfos else {
        return None;
    };
    let u: FdUsage = fds_usage(contents);
    let comm: String = trimmed_content(&p.comm);
    if u.is_npu && !text::has_text(comm.as_str(), "exporter") && !text::has_text(
        comm.as_str(),
        "resources",
    ) {
        let info = ProcessNpuInfo {
            pid,
            comm,
            user: "unknown".to_string(),
            memory_bytes: u.mem,
            proc_ns: u.ns,
        };
        proof {
            assert(Some(info@) =~= fd_info(p@));
        }
        Some(info)
    } else {
        None
    }
}

/// Finds the processes that use an NPU by their descriptors.
pub fn scan_fdinfos(list: &Vec<ProcSnapshot>) -> (r: NpuScan)
    ensures
        r@ == fd_scan(snapshot_views(list@)),
{
    let ghost all = snapshot_views(list@);
    let mut scan: NpuScan = NpuScan::new();
    let mut i: usize = 0;
    proof {
        assert(all.take(0) =~= Seq::<SnapshotView>::empty());
    }
    while i < list.len()
        invariant
            i <= list.len(),
            all == snapshot_views(list@),
            scan@ == fd_scan(all.take(i as int)),
        decreases list.len() - i,
    {
        proof {
            assert(all.take(i + 1).drop_last() =~= all.take(i as int));
            assert(all.take(i + 1).last() == list@[i as int]@);
        }
        scan.take_in(scan_fdinfo(&list[i]));
        i += 1;
    }
    proof {
        assert(all.take(i as int) =~= all);
    }
    scan
}

// By the names --------------------------------------------------------------------------------

/// The text with a space for every NUL.
pub open spec fn spaced(s: Seq<char>) -> Seq<char> {
    Seq::new(
        s.len(),
        |i: int|
            if s[i] == '\0' {
                ' '
            } else {
                s[i]
            },
    )
}

/// The number at a place of a list of words; 0 where it is none.
pub open spec fn number_at(words: Seq<Seq<char>>, i: int) -> u64 {
    match number::parse_unsigned(words[i], 10, u64::MAX as int) {
        Some(v) => v as u64,
        None => 0,
    }
}

/// The CPU time that the contents of `stat` tell, in nanoseconds.
pub open spec fn stat_ns(stat: Option<Seq<char>>) -> u64 {
    let words = text::words(
        match stat {
            Some(s) => s,
            None => Seq::<char>::empty(),
        },
    );
    if words.len() > 14 {
        telemetry::ticks_ns(number_at(words, 13), number_at(words, 14))
    } else {
        0
    }
}

/// The memory that the lines of `status` tell, in bytes.
pub open spec fn rss_of(lines: Seq<Seq<char>>) -> u64
    decreases lines.len(),
{
    if lines.len() == 0 {
        0
    } else {
        let before = rss_of(lines.drop_last());
        let words = text::words(lines.last());
        if text::starts_with(lines.last(), "VmRSS:"@) && words.len() > 1 {
            kib_bytes(number_at(words, 1))
        } else {
            before
        }
    }
}

/// The memory that the contents of `status` tell, in bytes.
pub open spec fn status_mem(status: Option<Seq<char>>) -> u64 {
    match status {
        Some(s) => rss_of(text::lines(s)),
        None => 0,
    }
}

/// The command line of a process, with spaces between its parts.
pub open spec fn spaced_cmdline(cmdline: Option<Seq<char>>) -> Seq<char> {
    match cmdline {
        Some(s) => spaced(s),
        None => Seq::<char>::empty(),
    }
}

/// What is reported of a process whose name shows that it works with an NPU: its CPU
/// time and its memory.
pub open spec fn named_info(p: SnapshotView) -> Option<InfoView> {
    match pid_of(p.dir_name) {
        None => None,
        Some(pid) => {
            let comm = trimmed_or_empty(p.comm);
            if process_data::works_with_npu(comm, spaced_cmdline(p.cmdline)) {
                Some(
                    InfoView {
                        pid,
                        comm,
                        user: "unknown"@,
                        memory_bytes: status_mem(p.status),
                        proc_ns: stat_ns(p.stat),
                    },
                )
            } else {
                None
            }
        },
    }
}

/// What is found by the names of several processes.
pub open spec fn name_scan(list: Seq<SnapshotView>) -> NpuScanView
    decreases list.len(),
{
    if list.len() == 0 {
        empty_scan()
    } else {
        with_found(name_scan(list.drop_last()), named_info(list.last()))
    }
}

fn space_nuls(cmdline: &Option<String>) -> (r: String)
    ensures
        r@ == spaced_cmdline(text::opt_text(*cmdline)),
{
    let mut r: String = String::new();
    if let Some(s) = cmdline {
        let chars: Vec<char> = text::to_chars(s.as_str());
        let mut i: usize = 0;
        while i < chars.len()
            invariant
                i <= chars.len(),
                chars@ == s@,
                r@ == spaced(s@).take(i as int),
            decreases chars.len() - i,
        {
            let c: char = chars[i];
            r.push(
                if c == '\0' {
                    ' '
                } else {
                    c
                },
            );
            i += 1;
            proof {
                assert(spaced(s@).take(i as int) =~= spaced(s@).take(i - 1).push(spaced(s@)[i - 1]));
            }
        }
        proof {
            assert(spaced(s@).take(i as int) =~= spaced(s@));
        }
    } else {
        proof {
            assert(r@ =~= Seq::<char>::empty());
        }
    }
    r
}

fn number_or_zero(word: &Vec<char>) -> (r: u64)
    ensures
        r == match number::parse_unsigned(word@, 10, u64::MAX as int) {
            Some(v) => v as u64,
            None => 0,
        },
{
    match number::parse_u64_chars(word, 10) {
        Some(v) => v,
        None => 0,
    }
}

fn cpu_ns(stat: &Option<String>) -> (r: u64)
    ensures
        r == stat_ns(text::opt_text(*stat)),
{
    let chars: Vec<char> = match stat {
        Some(s) => text::to_chars(s.as_str()),
        None => Vec::new(),
    };
    let words: Vec<Vec<char>> = text::words_chars(&chars);
    let ghost texts = text::texts(words@);
    proof {
        if text::opt_text(*stat) is None {
            assert(chars@ =~= Seq::<char>::empty());
        }
    }
    if words.len() > 14 {
        proof {
            assert(texts[13] == words@[13]@ && texts[14] == words@[14]@);
        }
        telemetry::cpu_time_ns(number_or_zero(&words[13]), number_or_zero(&words[14]))
    } else {
        0
    }
}

fn rss_bytes(status: &Option<String>) -> (r: u64)
    ensures
        r == status_mem(text::opt_text(*status)),
{
    let Some(status) = status else {
        return 0;
    };
    let lines: Vec<Vec<char>> = text::lines_chars(&text::to_chars(status.as_str()));
    let ghost all = text::texts(lines@);
    let mut mem: u64 = 0;
    let mut i: usize = 0;
    proof {
        assert(all.take(0) =~= Seq::<Seq<char>>::empty());
    }
    while i < lines.len()
        invariant
            i <= lines.len(),
            all == text::texts(lines@),
            mem == rss_of(all.take(i as int)),
        decreases lines.len() - i,
    {
        proof {
            assert(all.take(i + 1).drop_last() =~= all.take(i as int));
            assert(all.take(i + 1).last() == lines@[i as int]@);
        }
        let line: String = text::to_text(&lines[i]);
        if text::has_prefix(line.as_str(), "VmRSS:") {
            let words: Vec<Vec<char>> = text::words_chars(&lines[i]);
            let ghost texts = text::texts(words@);
            if words.len() > 1 {
                proof {
                    assert(texts[1] == words@[1]@);
                }
                mem = wrapping_kib(number_or_zero(&words[1]));
            }
        }
        i += 1;
    }
    proof {
        assert(all.take(i as int) =~= all);
    }
    mem
}

/// What is reported of a process by its name.
pub fn scan_named_process(p: &ProcSnapshot) -> (r: Option<ProcessNpuInfo>)
    ensures
        opt_info(r) == named_info(p@),
{
    let Some(pid) = number::parse_i32_chars(&text::to_chars(p.dir_name.as_str())) else {
        return None;
    };
    let comm: String = trimmed_content(&p.comm);
    let cmdline: String = space_nuls(&p.cmdline);
    if process_data::is_npu_process(comm.as_str(), cmdline.as_str()) {
        let info = ProcessNpuInfo {
            pid,
            comm,
            user: "unknown".to_string(),
            memory_bytes: rss_bytes(&p.status),
            proc_ns: cpu_ns(&p.stat),
        };
        proof {
            assert(Some(info@) =~= named_info(p@));
        }
        Some(info)
    } else {
        None
    }
}

/// Finds the processes that work with an NPU by their names, for where their
/// descriptors cannot be read.
pub fn scan_process_fallback(list: &Vec<ProcSnapshot>) -> (r: NpuScan)
    ensures
        r@ == name_scan(snapshot_views(list@)),
{
    let ghost all = snapshot_views(list@);
    let mut scan: NpuScan = NpuScan::new();
    let mut i: usize = 0;
    proof {
        assert(all.take(0) =~= Seq::<SnapshotView>::empty());
    }
    while i < list.len()
        invariant
            i <= list.len(),
            all == snapshot_views(list@),
            scan@ == name_scan(all.take(i as int)),
        decreases list.len() - i,
    {
        proof {
            assert(all.take(i + 1).drop_last() =~= all.take(i as int));
            assert(all.take(i + 1).last() == list@[i as int]@);
        }
        scan.take_in(scan_named_process(&list[i]));
        i += 1;
    }
    proof {
        assert(all.take(i as int) =~= all);
    }
    scan
}

// Sampling ------------------------------------------------------------------------------------------

/// What the exporter remembers from one sample to the next.
#[derive(Debug, Clone, Copy, PartialEq, Eq, Structural)]
pub struct Exporter {
    pub last_ns: u64,
}

/// One sample. `delta_ns` is by how much the NPU time has grown since the last one,
/// where it can be said; the NPU is idle where it cannot.
pub struct Sample {
    pub delta_ns: Option<u64>,
    pub used_memory_bytes: u64,
    pub processes: Vec<ProcessNpuInfo>,
}

/// Whether the processes have to be looked for by their names: the descriptors show
/// no NPU time.
pub open spec fn wants_fallback(fd: NpuScanView) -> bool {
    fd.total_ns == 0
}

/// The scan that counts: the names have no say where the descriptors show NPU time.
pub open spec fn fallback_of(fd: NpuScanView, names: NpuScanView) -> NpuScanView {
    if wants_fallback(fd) {
        names
    } else {
        empty_scan()
    }
}

/// The NPU time of a sample.
pub open spec fn current_ns(fd: NpuScanView, names: NpuScanView) -> u64 {
    if fd.total_ns > 0 {
        fd.total_ns
    } else {
        fallback_of(fd, names).total_ns
    }
}

/// The NPU memory of a sample.
pub open spec fn current_mem(fd: NpuScanView, names: NpuScanView) -> u64 {
    if fd.total_mem > 0 {
        fd.total_mem
    } else {
        fallback_of(fd, names).total_mem
    }
}

/// The processes of a sample.
pub open spec fn current_processes(fd: NpuScanView, names: NpuScanView) -> Seq<InfoView> {
    if fd.processes.len() == 0 {
        fallback_of(fd, names).processes
    } else {
        fd.processes
    }
}

/// By how much the NPU time has grown; nothing can be said at the first sample, nor
/// where the time went back.
pub open spec fn growth(last_ns: u64, now_ns: u64) -> Option<u64> {
    if last_ns > 0 && now_ns >= last_ns {
        Some((now_ns - last_ns) as u64)
    } else {
        None
    }
}

impl NpuScan {
    /// Whether the processes have to be looked for by their names.
    pub fn needs_fallback(&self) -> (r: bool)
        ensures
            r == wants_fallback(self@),
    {
        self.total_ns == 0
    }
}

impl Exporter {
    /// An exporter that has taken no sample.
    pub fn new() -> (r: Self)
        ensures
            r.last_ns == 0,
    {
        Exporter { last_ns: 0 }
    }

    /// Takes a sample. `names` is what a scan by names has found, and counts only
    /// where the descriptors show no NPU time.
    pub fn sample(&mut self, fd: NpuScan, names: NpuScan) -> (r: Sample)
        ensures
            final(self).last_ns == current_ns(fd@, names@),
            r.delta_ns == growth(old(self).last_ns, current_ns(fd@, names@)),
            r.used_memory_bytes == current_mem(fd@, names@),
            info_views(r.processes@) == current_processes(fd@, names@),
    {
        let fallback: bool = fd.needs_fallback();
        let now_ns: u64 = if fd.total_ns > 0 {
            fd.total_ns
        } else {
            names.total_ns
        };
        let used_memory_bytes: u64 = if fd.total_mem > 0 {
            fd.total_mem
        } else if fallback {
            names.total_mem
        } else {
            0
        };
        let delta_ns: Option<u64> = if self.last_ns > 0 && now_ns >= self.last_ns {
            Some(now_ns - self.last_ns)
        } else {
            None
        };
        let ghost before_fd = fd@;
        let ghost before_names = names@;
        let processes: Vec<ProcessNpuInfo> = if fd.processes.len() > 0 {
            fd.processes
        } else if fallback {
            names.processes
        } else {
            Vec::new()
        };
        proof {
            assert(info_views(processes@) =~= current_processes(before_fd, before_names));
        }
        self.last_ns = now_ns;
        Sample { delta_ns, used_memory_bytes, processes }
    }
}

// Sensors ---------------------------------------------------------------------------------------------

/// How much a temperature sensor counts: one of the NPU or the CPU before one of the
/// GPU or the board, and others not at all.
#[derive(Debug, Clone, Copy, PartialEq, Eq, Structural)]
pub enum SensorRank {
    Preferred,
    Usable,
    Ignored,
}

/// How much the sensor of a name counts.
pub open spec fn sensor_rank_of(name: Seq<char>) -> SensorRank {
    if name == "amdxdna"@ || name == "k10temp"@ {
        SensorRank::Preferred
    } else if name == "amdgpu"@ || name == "acpitz"@ {
        SensorRank::Usable
    } else {
        SensorRank::Ignored
    }
}

/// How much the sensor counts whose name a file holds.
pub fn sensor_rank(name: &Option<String>) -> (r: SensorRank)
    ensures
        r == sensor_rank_of(trimmed_or_empty(text::opt_text(*name))),
{
    let name: String = trimmed_content(name);
    if text::same_text(name.as_str(), "amdxdna") || text::same_text(name.as_str(), "k10temp") {
        SensorRank::Preferred
    } else if text::same_text(name.as_str(), "amdgpu") || text::same_text(
        name.as_str(),
        "acpitz",
    ) {
        SensorRank::Usable
    } else {
        SensorRank::Ignored
    }
}

/// Whether a file holds a temperature.
pub fn is_temperature_file(file_name: &str) -> (r: bool)
    ensures
        r == (text::starts_with(file_name@, "temp"@) && text::ends_with(file_name@, "_input"@)),
{
    text::has_prefix(file_name, "temp") && text::has_suffix(file_name, "_input")
}

/// A temperature that was read, or could not be, by a sensor that counts so much.
#[derive(Debug, Clone, Copy, PartialEq, Eq, Structural)]
pub struct TemperatureReading {
    pub rank: SensorRank,
    pub readable: bool,
}

/// Whether a reading can be used at the given rank.
pub open spec fn usable_at(t: TemperatureReading, rank: SensorRank) -> bool {
    t.readable && t.rank == rank
}

/// The first reading that can be used at the given rank.
pub open spec fn first_at(list: Seq<TemperatureReading>, rank: SensorRank) -> Option<int>
    decreases list.len(),
{
    if list.len() == 0 {
        None
    } else {
        match first_at(list.drop_last(), rank) {
            Some(i) => Some(i),
            None => if usable_at(list.last(), rank) {
                Some(list.len() - 1)
            } else {
                None
            },
        }
    }
}

/// The reading that is reported: the first preferred one, or else the first usable
/// one.
pub open spec fn selected(list: Seq<TemperatureReading>) -> Option<int> {
    match first_at(list, SensorRank::Preferred) {
        Some(i) => Some(i),
        None => first_at(list, SensorRank::Usable),
    }
}

fn find_at(list: &Vec<TemperatureReading>, rank: SensorRank) -> (r: Option<usize>)
    ensures
        match r {
            Some(i) => i < list.len() && first_at(list@, rank) == Some(i as int),
            None => first_at(list@, rank) is None,
        },
{
    let mut found: Option<usize> = None;
    let mut i: usize = 0;
    proof {
        assert(list@.take(0) =~= Seq::<TemperatureReading>::empty());
    }
    while i < list.len()
        invariant
            i <= list.len(),
            match found {
                Some(k) => k < i && first_at(list@.take(i as int), rank) == Some(k as int),
                None => first_at(list@.take(i as int), rank) is None,
            },
        decreases list.len() - i,
    {
        proof {
            assert(list@.take(i + 1).drop_last() =~= list@.take(i as int));
            assert(list@.take(i + 1).last() == list@[i as int]);
        }
        if found.is_none() && list[i].readable && list[i].rank == rank {
            found = Some(i);
        }
        i += 1;
    }
    proof {
        assert(list@.take(i as int) =~= list@);
    }
    found
}

/// The place of the reading that is reported.
pub fn select_temperature(list: &Vec<TemperatureReading>) -> (r: Option<usize>)
    ensures
        match r {
            Some(i) => i < list.len() && selected(list@) == Some(i as int),
            None => selected(list@) is None,
        },
{
    match find_at(list, SensorRank::Preferred) {
        Some(i) => Some(i),
        None => find_at(list, SensorRank::Usable),
    }
}

/// The power state that a file tells; active where it cannot be read.
pub open spec fn power_state_of(content: Option<Seq<char>>) -> Seq<char> {
    match content {
        Some(s) => text::trim(s),
        None => text::trim("active"@),
    }
}

/// The power state that a file tells.
pub fn power_state(content: &Option<String>) -> (r: String)
    ensures
        r@ == power_state_of(text::opt_text(*content)),
{
    match content {
        Some(s) => text::trimmed(s.as_str()),
        None => text::trimmed("active"),
    }
}

/// The name of the file that is written before it takes the place of another one.
pub fn temporary_name(file_name: &str) -> (r: String)
    ensures
        r@ == seq!['.'] + file_name@ + ".tmp"@,
{
    let mut chars: Vec<char> = Vec::new();
    chars.push('.');
    text::append_chars(&mut chars, &text::to_chars(file_name));
    text::append_chars(&mut chars, &text::to_chars(".tmp"));
    proof {
        assert(chars@ =~= seq!['.'] + file_name@ + ".tmp"@);
    }
    text::to_text(&chars)
}

// Laws ---------------------------------------------------------------------------------------------------

/// The NPU time of a list of processes, modulo 2^64.
pub open spec fn ns_sum(list: Seq<InfoView>) -> u64
    decreases list.len(),
{
    if list.len() == 0 {
        0
    } else {
        number::wrapped_sum(ns_sum(list.drop_last()), list.last().proc_ns)
    }
}

/// The NPU memory of a list of processes, modulo 2^64.
pub open spec fn mem_sum(list: Seq<InfoView>) -> u64
    decreases list.len(),
{
    if list.len() == 0 {
        0
    } else {
        number::wrapped_sum(mem_sum(list.drop_last()), list.last().memory_bytes)
    }
}

proof fn lemma_with_info(scan: NpuScanView, info: InfoView)
    requires
        scan.total_ns == ns_sum(scan.processes),
        scan.total_mem == mem_sum(scan.processes),
    ensures
        with_info(scan, info).total_ns == ns_sum(with_info(scan, info).processes),
        with_info(scan, info).total_mem == mem_sum(with_info(scan, info).processes),
{
    assert(scan.processes.push(info).drop_last() =~= scan.processes);
}

/// The totals of a scan are the sums over the processes that it lists.
pub proof fn totals_match_processes(list: Seq<SnapshotView>)
    ensures
        fd_scan(list).total_ns == ns_sum(fd_scan(list).processes),
        fd_scan(list).total_mem == mem_sum(fd_scan(list).processes),
        name_scan(list).total_ns == ns_sum(name_scan(list).processes),
        name_scan(list).total_mem == mem_sum(name_scan(list).processes),
    decreases list.len(),
{
    if list.len() > 0 {
        totals_match_processes(list.drop_last());
        if let Some(info) = fd_info(list.last()) {
            lemma_with_info(fd_scan(list.drop_last()), info);
        }
        if let Some(info) = named_info(list.last()) {
            lemma_with_info(name_scan(list.drop_last()), info);
        }
    }
}

proof fn lemma_still_contains(list: Seq<InfoView>, info: InfoView, other: InfoView)
    requires
        list.contains(info) || info == other,
    ensures
        list.push(other).contains(info),
{
    let r = list.push(other);
    if list.contains(info) {
        let k = choose|k: int| 0 <= k < list.len() && list[k] == info;
        assert(r[k] == info);
    } else {
        assert(r[list.len() as int] == info);
    }
}

/// Every process whose descriptors show that it uses an NPU is reported, whoever runs it,
/// unless it only watches NPUs.
pub proof fn npu_process_reported(list: Seq<SnapshotView>, names: NpuScanView, i: int)
    requires
        0 <= i < list.len(),
        fd_info(list[i]) is Some,
    ensures
        current_processes(fd_scan(list), names).contains(fd_info(list[i])->0),
{
    lemma_fd_listed(list, i);
    let all = fd_scan(list).processes;
    let k = choose|k: int| 0 <= k < all.len() && all[k] == fd_info(list[i])->0;
    assert(current_processes(fd_scan(list), names) == all);
}

proof fn lemma_fd_listed(list: Seq<SnapshotView>, i: int)
    requires
        0 <= i < list.len(),
        fd_info(list[i]) is Some,
    ensures
        fd_scan(list).processes.contains(fd_info(list[i])->0),
    decreases list.len(),
{
    let info = fd_info(list[i])->0;
    let head = list.drop_last();
    let before = fd_scan(head).processes;
    if i < head.len() {
        assert(head[i] == list[i]);
        lemma_fd_listed(head, i);
        if let Some(other) = fd_info(list.last()) {
            lemma_still_contains(before, info, other);
        }
    } else {
        lemma_still_contains(before, info, info);
    }
}

/// The programs that only watch NPUs are never listed.
pub proof fn watchers_not_listed(list: Seq<SnapshotView>)
    ensures
        forall|i: int|
            0 <= i < fd_scan(list).processes.len() ==> !watches(
                (#[trigger] fd_scan(list).processes[i]).comm,
            ),
        forall|i: int|
            0 <= i < name_scan(list).processes.len() ==> !watches(
                (#[trigger] name_scan(list).processes[i]).comm,
            ),
    decreases list.len(),
{
    if list.len() > 0 {
        watchers_not_listed(list.drop_last());
        let fd = fd_scan(list.drop_last());
        let names = name_scan(list.drop_last());
        assert forall|i: int| 0 <= i < fd_scan(list).processes.len() implies !watches(
            (#[trigger] fd_scan(list).processes[i]).comm,
        ) by {
            if i < fd.processes.len() {
                assert(fd_scan(list).processes[i] == fd.processes[i]);
            }
        }
        assert forall|i: int| 0 <= i < name_scan(list).processes.len() implies !watches(
            (#[trigger] name_scan(list).processes[i]).comm,
        ) by {
            if i < names.processes.len() {
                assert(name_scan(list).processes[i] == names.processes[i]);
            }
        }
    }
}

/// Where the descriptors show NPU time, what the names show has no say.
pub proof fn descriptors_before_names(fd: NpuScanView, names: NpuScanView)
    requires
        fd.total_ns > 0,
    ensures
        current_ns(fd, names) == fd.total_ns,
        current_mem(fd, names) == fd.total_mem,
        current_processes(fd, names) == fd.processes,
{
    assert(current_processes(fd, names) =~= fd.processes);
}

proof fn lemma_first_at(list: Seq<TemperatureReading>, rank: SensorRank)
    ensures
        match first_at(list, rank) {
            Some(i) => 0 <= i < list.len() && usable_at(list[i], rank) && forall|j: int|
                0 <= j < i ==> !usable_at(#[trigger] list[j], rank),
            None => forall|j: int| 0 <= j < list.len() ==> !usable_at(#[trigger] list[j], rank),
        },
    decreases list.len(),
{
    if list.len() > 0 {
        let head = list.drop_last();
        lemma_first_at(head, rank);
        assert forall|j: int| 0 <= j < head.len() implies #[trigger] list[j] == head[j] by {}
        assert(list[list.len() - 1] == list.last());
    }
}

/// A temperature of a preferred sensor is reported before every other one; where there
/// is one at all that can be used, one is reported.
pub proof fn preferred_sensor_first(list: Seq<TemperatureReading>, i: int)
    requires
        0 <= i < list.len(),
        list[i].readable,
        list[i].rank != SensorRank::Ignored,
    ensures
        selected(list) matches Some(k) && 0 <= k < list.len() && list[k].readable && (
        list[i].rank == SensorRank::Preferred ==> list[k].rank == SensorRank::Preferred && k <= i),
{
    lemma_first_at(list, SensorRank::Preferred);
    lemma_first_at(list, SensorRank::Usable);
    assert(usable_at(list[i], list[i].rank));
}

/// What is found among several processes is what is found among the ones, followed by what
/// is found among the others, and the totals add up modulo 2^64.
pub proof fn scans_of_parts(a: Seq<SnapshotView>, b: Seq<SnapshotView>)
    ensures
        name_scan(a + b).processes == name_scan(a).processes + name_scan(b).processes,
        name_scan(a + b).total_ns == (name_scan(a).total_ns + name_scan(b).total_ns)
            % 0x1_0000_0000_0000_0000,
        name_scan(a + b).total_mem == (name_scan(a).total_mem + name_scan(b).total_mem)
            % 0x1_0000_0000_0000_0000,
        fd_scan(a + b).processes == fd_scan(a).processes + fd_scan(b).processes,
        fd_scan(a + b).total_ns == (fd_scan(a).total_ns + fd_scan(b).total_ns)
            % 0x1_0000_0000_0000_0000,
        fd_scan(a + b).total_mem == (fd_scan(a).total_mem + fd_scan(b).total_mem)
            % 0x1_0000_0000_0000_0000,
{
    lemma_name_scan_parts(a, b);
    lemma_fd_scan_parts(a, b);
}

/// What two scans have found together.
spec fn joined(a: NpuScanView, b: NpuScanView) -> NpuScanView {
    NpuScanView {
        total_ns: number::wrapped_sum(a.total_ns, b.total_ns),
        total_mem: number::wrapped_sum(a.total_mem, b.total_mem),
        processes: a.processes + b.processes,
    }
}

proof fn lemma_joined(a: NpuScanView, b: NpuScanView, found: Option<InfoView>)
    ensures
        joined(a, with_found(b, found)) == with_found(joined(a, b), found),
        joined(a, empty_scan()) == a,
{
    number::wrapped_sum_associates(a.total_ns, 0, 0);
    number::wrapped_sum_associates(a.total_mem, 0, 0);
    assert(joined(a, empty_scan()).processes =~= a.processes);
    if let Some(info) = found {
        number::wrapped_sum_associates(a.total_ns, b.total_ns, info.proc_ns);
        number::wrapped_sum_associates(a.total_mem, b.total_mem, info.memory_bytes);
        assert(a.processes + b.processes.push(info) =~= (a.processes + b.processes).push(info));
    }
}

proof fn lemma_name_scan_parts(a: Seq<SnapshotView>, b: Seq<SnapshotView>)
    ensures
        name_scan(a + b) == joined(name_scan(a), name_scan(b)),
    decreases b.len(),
{
    if b.len() == 0 {
        assert(a + b =~= a);
        lemma_joined(name_scan(a), empty_scan(), None);
    } else {
        lemma_name_scan_parts(a, b.drop_last());
        assert((a + b).drop_last() =~= a + b.drop_last());
        assert((a + b).last() == b.last());
        lemma_joined(name_scan(a), name_scan(b.drop_last()), named_info(b.last()));
    }
}

proof fn lemma_fd_scan_parts(a: Seq<SnapshotView>, b: Seq<SnapshotView>)
    ensures
        fd_scan(a + b) == joined(fd_scan(a), fd_scan(b)),
    decreases b.len(),
{
    if b.len() == 0 {
        assert(a + b =~= a);
        lemma_joined(fd_scan(a), empty_scan(), None);
    } else {
        lemma_fd_scan_parts(a, b.drop_last());
        assert((a + b).drop_last() =~= a + b.drop_last());
        assert((a + b).last() == b.last());
        lemma_joined(fd_scan(a), fd_scan(b.drop_last()), fd_info(b.last()));
    }
}

/// Whether the name of a process shows that it works with an NPU, and that it is none of
/// the programs that only watch NPUs.
pub open spec fn named_after_npu(comm: Seq<char>, cmdline: Seq<char>) -> bool {
    &&& !text::contains(comm, "exporter"@) && !text::contains(cmdline, "exporter"@)
    &&& !text::contains(comm, "resources"@) && !text::contains(cmdline, "resources"@)
    &&& {
        ||| comm == "flm-real"@
        ||| text::contains(cmdline, "flm-real"@)
        ||| text::contains(cmdline, "/npu/"@)
        ||| text::contains(comm, "xrt"@)
        ||| text::contains(cmdline, "xrt_"@)
        ||| text::contains(cmdline, "xrt-"@)
        ||| text::contains(cmdline, "lemonade_test"@)
    }
}

/// The text with a space for every NUL.
pub open spec fn nul_as_space(s: Seq<char>) -> Seq<char> {
    s.map_values(
        |c: char|
            if c == '\0' {
                ' '
            } else {
                c
            },
    )
}

/// The name of a process.
pub open spec fn shown_name(comm: Option<Seq<char>>) -> Seq<char> {
    match comm {
        Some(s) => text::trim(s),
        None => Seq::<char>::empty(),
    }
}

/// The command line of a process.
pub open spec fn shown_command(cmdline: Option<Seq<char>>) -> Seq<char> {
    match cmdline {
        Some(s) => nul_as_space(s),
        None => Seq::<char>::empty(),
    }
}

/// Whether a directory is that of a process whose name shows that it works with an NPU.
pub open spec fn is_named_worker(p: SnapshotView) -> bool {
    number::parse_signed(p.dir_name, i32::MIN as int, i32::MAX as int) is Some && named_after_npu(
        shown_name(p.comm),
        shown_command(p.cmdline),
    )
}

/// What is found by the name of one process: the process where its name shows that it works
/// with an NPU, with its CPU time and its memory, and nothing else.
pub proof fn worker_found_by_name(p: SnapshotView)
    ensures
        is_named_worker(p) ==> name_scan(seq![p]).processes == seq![
            InfoView {
                pid: number::parse_signed(p.dir_name, i32::MIN as int, i32::MAX as int)->0 as i32,
                comm: shown_name(p.comm),
                user: "unknown"@,
                memory_bytes: status_mem(p.status),
                proc_ns: stat_ns(p.stat),
            },
        ],
        is_named_worker(p) ==> name_scan(seq![p]).total_ns == stat_ns(p.stat),
        is_named_worker(p) ==> name_scan(seq![p]).total_mem == status_mem(p.status),
        !is_named_worker(p) ==> name_scan(seq![p]) == empty_scan(),
{
    let one = seq![p];
    assert(one.drop_last() =~= Seq::<SnapshotView>::empty());
    assert(one.last() == p);
    assert(name_scan(one.drop_last()) == empty_scan());
    assert(shown_command(p.cmdline) =~= spaced_cmdline(p.cmdline));
    assert(shown_name(p.comm) == trimmed_or_empty(p.comm));
    if is_named_worker(p) {
        assert(name_scan(one).processes =~= seq![named_info(p)->0]);
    }
}

/// Every process in the list whose name shows that it works with an NPU is among the
/// processes that the scan by names reports, and there are as many of these as such
/// processes.
pub proof fn every_named_worker_reported(list: Seq<SnapshotView>)
    ensures
        forall|i: int|
            0 <= i < list.len() && is_named_worker(#[trigger] list[i])
                ==> name_scan(list).processes.contains(
                InfoView {
                    pid: number::parse_signed(
                        list[i].dir_name,
                        i32::MIN as int,
                        i32::MAX as int,
                    )->0 as i32,
                    comm: shown_name(list[i].comm),
                    user: "unknown"@,
                    memory_bytes: status_mem(list[i].status),
                    proc_ns: stat_ns(list[i].stat),
                },
            ),
        Set::new(|i: int| 0 <= i < list.len() && is_named_worker(list[i])).finite(),
        name_scan(list).processes.len() == Set::new(
            |i: int| 0 <= i < list.len() && is_named_worker(list[i]),
        ).len(),
    decreases list.len(),
{
    let workers = Set::new(|i: int| 0 <= i < list.len() && is_named_worker(list[i]));
    if list.len() == 0 {
        assert(workers =~= Set::<int>::empty());
    } else {
        let head = list.drop_last();
        let last = list.len() - 1;
        let earlier = Set::new(|i: int| 0 <= i < head.len() && is_named_worker(head[i]));
        let before = name_scan(head).processes;
        let all = name_scan(list).processes;
        every_named_worker_reported(head);
        worker_found_by_name(list[last]);
        scans_of_parts(head, seq![list[last]]);
        assert(head + seq![list[last]] =~= list);
        if is_named_worker(list[last]) {
            assert(workers =~= earlier.insert(last));
        } else {
            assert(workers =~= earlier);
        }
        assert forall|i: int| 0 <= i < list.len() && is_named_worker(#[trigger] list[i])
            implies all.contains(
            InfoView {
                pid: number::parse_signed(
                    list[i].dir_name,
                    i32::MIN as int,
                    i32::MAX as int,
                )->0 as i32,
                comm: shown_name(list[i].comm),
                user: "unknown"@,
                memory_bytes: status_mem(list[i].status),
                proc_ns: stat_ns(list[i].stat),
            },
        ) by {
            if i < last {
                assert(head[i] == list[i]);
                let info = InfoView {
                    pid: number::parse_signed(
                        head[i].dir_name,
                        i32::MIN as int,
                        i32::MAX as int,
                    )->0 as i32,
                    comm: shown_name(head[i].comm),
                    user: "unknown"@,
                    memory_bytes: status_mem(head[i].status),
                    proc_ns: stat_ns(head[i].stat),
                };
                assert(before.contains(info));
                let k = choose|k: int| 0 <= k < before.len() && before[k] == info;
                assert(all[k] == info);
            } else {
                assert(all[before.len() as int] == name_scan(seq![list[last]]).processes[0]);
            }
        }
    }
}

/// The CPU time of a process is that of its user and its system time together, at a
/// hundred ticks a second, which are the fourteenth and the fifteenth word of `stat`.
pub proof fn cpu_time_from_stat(stat: Seq<char>, user: u64, system: u64)
    requires
        text::words(stat).len() > 14,
        number::parse_unsigned(text::words(stat)[13], 10, u64::MAX as int) == Some(user as int),
        number::parse_unsigned(text::words(stat)[14], 10, u64::MAX as int) == Some(system as int),
        (user + system) * 10_000_000 <= u64::MAX,
    ensures
        stat_ns(Some(stat)) == (user + system) * 10_000_000,
{
}

/// The memory of a process is the number of kibibytes behind `VmRSS:` in `status`; other
/// lines have no part in it.
pub proof fn memory_from_status(lines: Seq<Seq<char>>, line: Seq<char>, kib: u64)
    ensures
        text::starts_with(line, "VmRSS:"@) && text::words(line).len() > 1
            && number::parse_unsigned(text::words(line)[1], 10, u64::MAX as int) == Some(
            kib as int,
        ) && kib * 1024 <= u64::MAX ==> rss_of(lines.push(line)) == kib * 1024,
        !text::starts_with(line, "VmRSS:"@) ==> rss_of(lines.push(line)) == rss_of(lines),
        rss_of(Seq::<Seq<char>>::empty()) == 0,
{
    assert(lines.push(line).drop_last() =~= lines);
    assert(lines.push(line).last() == line);
}

/// What one more line of an fdinfo file tells: whether an NPU is meant, its busy time or
/// its memory, by the name of the field, and nothing else.
pub proof fn fdinfo_line_tells(
    lines: Seq<Seq<char>>,
    name: Seq<char>,
    value: Seq<char>,
    n: u64,
)
    requires
        forall|i: int| 0 <= i < name.len() ==> name[i] != ':',
    ensures
        ({
            let key = text::trim(name);
            let v = text::trim(value);
            let before = fd_usage_of(lines);
            let after = fd_usage_of(lines.push(name + seq![':'] + value));
            let numbered = text::words(v).len() > 0 && number::parse_unsigned(
                text::words(v)[0],
                10,
                u64::MAX as int,
            ) == Some(n as int);
            &&& after.is_npu == (before.is_npu || (key == "drm-driver"@ && (v == "amdxdna"@ || v
                == "amdxdna_accel_driver"@)))
            &&& (key == "drm-engine-npu-amdxdna"@ || key == "drm-engine-npu"@ || key
                == "drm-engine-accel"@) && numbered ==> after.ns == n
            &&& key != "drm-engine-npu-amdxdna"@ && key != "drm-engine-npu"@ && key
                != "drm-engine-accel"@ ==> after.ns == before.ns
            &&& (key == "drm-total-memory"@ || key == "drm-memory-vram"@) && numbered && n * 1024
                <= u64::MAX ==> after.mem == n * 1024
            &&& key != "drm-total-memory"@ && key != "drm-memory-vram"@ ==> after.mem
                == before.mem
        }),
        fd_usage_of(Seq::<Seq<char>>::empty()) == (FdUsage { is_npu: false, ns: 0, mem: 0 }),
{
    let line = name + seq![':'] + value;
    text::lemma_split_once_joined(name, ':', value);
    assert(lines.push(line).drop_last() =~= lines);
    assert(lines.push(line).last() == line);
}

/// A process uses an NPU where one of its descriptors shows it, as long and with as much
/// memory as the descriptor that shows the most; descriptors of something else have no
/// part in it.
pub proof fn descriptor_with_most_counts(contents: Seq<Option<Seq<char>>>)
    ensures
        usage_of_fds(contents).is_npu == exists|i: int|
            0 <= i < contents.len() && (#[trigger] contents[i]) is Some && fd_usage_of(
                text::lines(contents[i]->0),
            ).is_npu,
        forall|i: int|
            0 <= i < contents.len() && (#[trigger] contents[i]) is Some && fd_usage_of(
                text::lines(contents[i]->0),
            ).is_npu ==> fd_usage_of(text::lines(contents[i]->0)).ns <= usage_of_fds(contents).ns
                && fd_usage_of(text::lines(contents[i]->0)).mem <= usage_of_fds(contents).mem,
        usage_of_fds(contents).ns > 0 ==> exists|i: int|
            0 <= i < contents.len() && (#[trigger] contents[i]) is Some && fd_usage_of(
                text::lines(contents[i]->0),
            ).is_npu && fd_usage_of(text::lines(contents[i]->0)).ns == usage_of_fds(contents).ns,
        usage_of_fds(contents).mem > 0 ==> exists|i: int|
            0 <= i < contents.len() && (#[trigger] contents[i]) is Some && fd_usage_of(
                text::lines(contents[i]->0),
            ).is_npu && fd_usage_of(text::lines(contents[i]->0)).mem == usage_of_fds(contents).mem,
    decreases contents.len(),
{
    if contents.len() > 0 {
        let head = contents.drop_last();
        let last = contents.len() - 1;
        descriptor_with_most_counts(head);
        assert forall|i: int| 0 <= i < head.len() implies #[trigger] contents[i] == head[i] by {}
        assert(contents[last] == contents.last());
        if usage_of_fds(head).is_npu {
            let i = choose|i: int|
                0 <= i < head.len() && (#[trigger] head[i]) is Some && fd_usage_of(
                    text::lines(head[i]->0),
                ).is_npu;
            assert(contents[i] == head[i]);
        }
        if usage_of_fds(head).ns > 0 {
            let i = choose|i: int|
                0 <= i < head.len() && (#[trigger] head[i]) is Some && fd_usage_of(
                    text::lines(head[i]->0),
                ).is_npu && fd_usage_of(text::lines(head[i]->0)).ns == usage_of_fds(head).ns;
            assert(contents[i] == head[i]);
        }
        if usage_of_fds(head).mem > 0 {
            let i = choose|i: int|
                0 <= i < head.len() && (#[trigger] head[i]) is Some && fd_usage_of(
                    text::lines(head[i]->0),
                ).is_npu && fd_usage_of(text::lines(head[i]->0)).mem == usage_of_fds(head).mem;
            assert(contents[i] == head[i]);
        }
    }
}

/// Whether a directory is that of a process whose descriptors show an NPU, and which is
/// none of the programs that only watch NPUs.
pub open spec fn is_fd_worker(p: SnapshotView) -> bool {
    &&& number::parse_signed(p.dir_name, i32::MIN as int, i32::MAX as int) is Some
    &&& p.fdinfos is Some
    &&& usage_of_fds(p.fdinfos->0).is_npu
    &&& !text::contains(shown_name(p.comm), "exporter"@)
    &&& !text::contains(shown_name(p.comm), "resources"@)
}

/// What is found by the descriptors of one process: the process where they show an NPU,
/// with what they show, and nothing else.
pub proof fn worker_found_by_descriptors(p: SnapshotView)
    ensures
        is_fd_worker(p) ==> fd_scan(seq![p]).processes == seq![
            InfoView {
                pid: number::parse_signed(p.dir_name, i32::MIN as int, i32::MAX as int)->0 as i32,
                comm: shown_name(p.comm),
                user: "unknown"@,
                memory_bytes: usage_of_fds(p.fdinfos->0).mem,
                proc_ns: usage_of_fds(p.fdinfos->0).ns,
            },
        ],
        is_fd_worker(p) ==> fd_scan(seq![p]).total_ns == usage_of_fds(p.fdinfos->0).ns,
        is_fd_worker(p) ==> fd_scan(seq![p]).total_mem == usage_of_fds(p.fdinfos->0).mem,
        !is_fd_worker(p) ==> fd_scan(seq![p]) == empty_scan(),
{
    let one = seq![p];
    assert(one.drop_last() =~= Seq::<SnapshotView>::empty());
    assert(one.last() == p);
    assert(fd_scan(one.drop_last()) == empty_scan());
    assert(shown_name(p.comm) == trimmed_or_empty(p.comm));
    if is_fd_worker(p) {
        assert(fd_scan(one).processes =~= seq![fd_info(p)->0]);
    }
}

/// Every process in the list whose descriptors show an NPU is among those that the scan by
/// descriptors reports, and there are as many of these as such processes.
pub proof fn every_fd_worker_reported(list: Seq<SnapshotView>)
    ensures
        forall|i: int|
            0 <= i < list.len() && is_fd_worker(#[trigger] list[i])
                ==> fd_scan(list).processes.contains(
                InfoView {
                    pid: number::parse_signed(
                        list[i].dir_name,
                        i32::MIN as int,
                        i32::MAX as int,
                    )->0 as i32,
                    comm: shown_name(list[i].comm),
                    user: "unknown"@,
                    memory_bytes: usage_of_fds(list[i].fdinfos->0).mem,
                    proc_ns: usage_of_fds(list[i].fdinfos->0).ns,
                },
            ),
        Set::new(|i: int| 0 <= i < list.len() && is_fd_worker(list[i])).finite(),
        fd_scan(list).processes.len() == Set::new(
            |i: int| 0 <= i < list.len() && is_fd_worker(list[i]),
        ).len(),
    decreases list.len(),
{
    let workers = Set::new(|i: int| 0 <= i < list.len() && is_fd_worker(list[i]));
    if list.len() == 0 {
        assert(workers =~= Set::<int>::empty());
    } else {
        let head = list.drop_last();
        let last = list.len() - 1;
        let earlier = Set::new(|i: int| 0 <= i < head.len() && is_fd_worker(head[i]));
        let before = fd_scan(head).processes;
        let all = fd_scan(list).processes;
        every_fd_worker_reported(head);
        worker_found_by_descriptors(list[last]);
        scans_of_parts(head, seq![list[last]]);
        assert(head + seq![list[last]] =~= list);
        if is_fd_worker(list[last]) {
            assert(workers =~= earlier.insert(last));
        } else {
            assert(workers =~= earlier);
        }
        assert forall|i: int| 0 <= i < list.len() && is_fd_worker(#[trigger] list[i])
            implies all.contains(
            InfoView {
                pid: number::parse_signed(
                    list[i].dir_name,
                    i32::MIN as int,
                    i32::MAX as int,
                )->0 as i32,
                comm: shown_name(list[i].comm),
                user: "unknown"@,
                memory_bytes: usage_of_fds(list[i].fdinfos->0).mem,
                proc_ns: usage_of_fds(list[i].fdinfos->0).ns,
            },
        ) by {
            if i < last {
                assert(head[i] == list[i]);
                let info = InfoView {
                    pid: number::parse_signed(
                        head[i].dir_name,
                        i32::MIN as int,
                        i32::MAX as int,
                    )->0 as i32,
                    comm: shown_name(head[i].comm),
                    user: "unknown"@,
                    memory_bytes: usage_of_fds(head[i].fdinfos->0).mem,
                    proc_ns: usage_of_fds(head[i].fdinfos->0).ns,
                };
                assert(before.contains(info));
                let k = choose|k: int| 0 <= k < before.len() && before[k] == info;
                assert(all[k] == info);
            } else {
                assert(all[before.len() as int] == fd_scan(seq![list[last]]).processes[0]);
            }
        }
    }
}

/// Where the descriptors show no NPU time, the names stand in for them: for the time, and
/// for the memory and the processes where the descriptors show none of these either.
pub proof fn names_stand_in_for_descriptors(fd: NpuScanView, names: NpuScanView)
    requires
        fd.total_ns == 0,
    ensures
        current_ns(fd, names) == names.total_ns,
        current_mem(fd, names) == if fd.total_mem > 0 {
            fd.total_mem
        } else {
            names.total_mem
        },
        current_processes(fd, names) == if fd.processes.len() > 0 {
            fd.processes
        } else {
            names.processes
        },
{
}

/// Between two samples the NPU time has grown by the difference; nothing is said at the
/// first one, nor where the time went back.
pub proof fn growth_between_samples(last_ns: u64, now_ns: u64)
    ensures
        growth(0, now_ns) is None,
        now_ns < last_ns ==> growth(last_ns, now_ns) is None,
        0 < last_ns <= now_ns ==> growth(last_ns, now_ns) == Some((now_ns - last_ns) as u64),
{
}

/// The sensors of the NPU and of the CPU come first, those of the GPU and of the board
/// second, and all others are left out.
pub proof fn sensors_by_name(name: Seq<char>)
    ensures
        sensor_rank_of(name) == SensorRank::Preferred <==> (name == "amdxdna"@ || name
            == "k10temp"@),
        sensor_rank_of(name) == SensorRank::Usable <==> (name == "amdgpu"@ || name
            == "acpitz"@),
{
    reveal_strlit("amdxdna");
    reveal_strlit("k10temp");
    reveal_strlit("amdgpu");
    reveal_strlit("acpitz");
    assert("amdxdna"@.len() == 7 && "k10temp"@.len() == 7 && "amdgpu"@.len() == 6
        && "acpitz"@.len() == 6);
}

/// The temperature that is reported is the first one that can be read of a preferred
/// sensor; where there is none, the first of a usable one; and where there is none either,
/// none is.
pub proof fn first_readable_temperature_reported(list: Seq<TemperatureReading>)
    ensures
        match selected(list) {
            Some(k) => {
                &&& 0 <= k < list.len() && list[k].readable
                &&& list[k].rank == SensorRank::Preferred || list[k].rank == SensorRank::Usable
                &&& forall|j: int|
                    0 <= j < k && (#[trigger] list[j]).readable ==> list[j].rank != list[k].rank
                &&& list[k].rank == SensorRank::Usable ==> forall|j: int|
                    0 <= j < list.len() && (#[trigger] list[j]).readable ==> list[j].rank
                        != SensorRank::Preferred
            },
            None => forall|j: int|
                0 <= j < list.len() && (#[trigger] list[j]).readable ==> list[j].rank
                    == SensorRank::Ignored,
        },
{
    lemma_first_at(list, SensorRank::Preferred);
    lemma_first_at(list, SensorRank::Usable);
    if let Some(k) = selected(list) {
        assert forall|j: int| 0 <= j < k && (#[trigger] list[j]).readable implies list[j].rank
            != list[k].rank by {
            assert(!usable_at(list[j], list[k].rank));
        }
        if list[k].rank == SensorRank::Usable {
            assert forall|j: int| 0 <= j < list.len() && (#[trigger] list[j]).readable
                implies list[j].rank != SensorRank::Preferred by {
                assert(!usable_at(list[j], SensorRank::Preferred));
            }
        }
    } else {
        assert forall|j: int| 0 <= j < list.len() && (#[trigger] list[j]).readable
            implies list[j].rank == SensorRank::Ignored by {
            assert(!usable_at(list[j], SensorRank::Preferred));
            assert(!usable_at(list[j], SensorRank::Usable));
        }
    }
}

/// The power state is what the file says, and `active` where it cannot be read.
pub proof fn power_state_is_told(content: Seq<char>)
    ensures
        power_state_of(Some(content)) == text::trim(content),
        power_state_of(None) == "active"@,
{
    reveal_strlit("active");
    let s = "active"@;
    text::trim_takes_white_space_away(Seq::<char>::empty(), s, Seq::<char>::empty());
    assert(Seq::<char>::empty() + s + Seq::<char>::empty() =~= s);
}

/// A file that cannot be read, or does not hold what is looked for, counts for nothing.
pub proof fn missing_files_count_nothing(stat: Seq<char>, status: Seq<char>)
    ensures
        stat_ns(None) == 0,
        text::words(stat).len() <= 14 ==> stat_ns(Some(stat)) == 0,
        status_mem(None) == 0,
        status_mem(Some(status)) == rss_of(text::lines(status)),
        rss_of(Seq::<Seq<char>>::empty()) == 0,
{
    text::lemma_prefix_lens(Seq::<char>::empty());
    assert(text::words(Seq::<char>::empty()).len() == 0);
}

/// A line of `status` that is not the one for the memory changes nothing.
pub proof fn other_status_lines_ignored(lines: Seq<Seq<char>>, line: Seq<char>)
    requires
        !text::starts_with(line, "VmRSS:"@),
    ensures
        rss_of(lines.push(line)) == rss_of(lines),
{
    assert(lines.push(line).drop_last() =~= lines);
    assert(lines.push(line).last() == line);
}

} // verus!
