//! A process, with what was known of it before.

use vstd::prelude::*;

use crate::gpu_usage;
use crate::gpu_usage::{GpuIdentifier, GpuUsageStats};
use crate::npu_usage;
use crate::npu_usage::NpuUsageStats;
use crate::pci_slot::PciSlot;
use crate::process_data::{ProcessData, ProcessDataView};
use crate::settings::MemoryMetric;
use crate::sorted_map;
use crate::sorted_map::SortedMap;
use crate::text;

verus! {

/// An icon: one of the icon theme, or a file.
pub enum AppIcon {
    Themed(String),
    File(String),
}

/// What an `AppIcon` holds.
#[verifier::ext_equal]
pub enum IconView {
    Themed(Seq<char>),
    File(Seq<char>),
}

impl View for AppIcon {
    type V = IconView;

    open spec fn view(&self) -> IconView {
        match self {
            AppIcon::Themed(name) => IconView::Themed(name@),
            AppIcon::File(path) => IconView::File(path@),
        }
    }
}

impl AppIcon {
    /// A copy of the icon.
    pub fn copy(&self) -> (r: Self)
        ensures
            r@ == self@,
    {
        match self {
            AppIcon::Themed(name) => AppIcon::Themed(name.clone()),
            AppIcon::File(path) => AppIcon::File(path.clone()),
        }
    }
}

/// A process. What ends in `_last` is what was known of it before the last
/// refresh.
pub struct Process {
    pub data: ProcessData,
    pub executable_path: String,
    pub executable_name: String,
    pub icon: AppIcon,
    pub cpu_time_last: u64,
    pub timestamp_last: u64,
    pub read_bytes_last: Option<u64>,
    pub write_bytes_last: Option<u64>,
    pub gpu_usage_stats_last: SortedMap<GpuIdentifier, GpuUsageStats>,
    pub npu_usage_stats_last: SortedMap<PciSlot, NpuUsageStats>,
}

/// What a `Process` holds.
#[verifier::ext_equal]
pub struct ProcessView {
    pub data: ProcessDataView,
    pub executable_path: Seq<char>,
    pub executable_name: Seq<char>,
    pub icon: IconView,
    pub cpu_time_last: u64,
    pub timestamp_last: u64,
    pub read_bytes_last: Option<u64>,
    pub write_bytes_last: Option<u64>,
    pub gpu_usage_stats_last: Map<GpuIdentifier, GpuUsageStats>,
    pub npu_usage_stats_last: Map<PciSlot, NpuUsageStats>,
}

impl View for Process {
    type V = ProcessView;

    open spec fn view(&self) -> ProcessView {
        ProcessView {
            data: self.data@,
            executable_path: self.executable_path@,
            executable_name: self.executable_name@,
            icon: self.icon@,
            cpu_time_last: self.cpu_time_last,
            timestamp_last: self.timestamp_last,
            read_bytes_last: self.read_bytes_last,
            write_bytes_last: self.write_bytes_last,
            gpu_usage_stats_last: self.gpu_usage_stats_last@,
            npu_usage_stats_last: self.npu_usage_stats_last@,
        }
    }
}

/// The path of the executable: the first part of the command line.
pub open spec fn executable_path_of(commandline: Seq<char>) -> Seq<char> {
    text::split(commandline, '\0')[0]
}

/// The name of an executable: the last part of its path.
pub open spec fn executable_name_of(path: Seq<char>) -> Seq<char> {
    text::split(path, '/').last()
}

/// The CPU time of a process.
pub open spec fn cpu_time_of(data: ProcessDataView) -> u64 {
    if data.user_cpu_time + data.system_cpu_time > u64::MAX {
        u64::MAX
    } else {
        (data.user_cpu_time + data.system_cpu_time) as u64
    }
}

/// A process that is seen for the first time: nothing has changed since before,
/// and of GPUs and NPUs nothing was known.
pub open spec fn new_process(data: ProcessDataView) -> ProcessView {
    ProcessView {
        data,
        executable_path: executable_path_of(data.commandline),
        executable_name: executable_name_of(executable_path_of(data.commandline)),
        icon: IconView::Themed("generic-process"@),
        cpu_time_last: cpu_time_of(data),
        timestamp_last: data.timestamp,
        read_bytes_last: data.read_bytes,
        write_bytes_last: data.write_bytes,
        gpu_usage_stats_last: Map::empty(),
        npu_usage_stats_last: Map::empty(),
    }
}

/// A process that was seen before, with new data.
pub open spec fn updated_process(p: ProcessView, data: ProcessDataView) -> ProcessView {
    ProcessView {
        data,
        cpu_time_last: cpu_time_of(p.data),
        timestamp_last: p.data.timestamp,
        read_bytes_last: p.data.read_bytes,
        write_bytes_last: p.data.write_bytes,
        gpu_usage_stats_last: p.data.gpu_usage_stats,
        npu_usage_stats_last: p.data.npu_usage_stats,
        ..p
    }
}

/// The memory of a process by a metric.
pub open spec fn memory_of(data: ProcessDataView, metric: MemoryMetric) -> usize {
    let unshared = if data.rss >= data.rss_shmem {
        (data.rss - data.rss_shmem) as usize
    } else {
        0
    };
    match metric {
        MemoryMetric::VmSize => data.vm_size,
        MemoryMetric::Rss => data.rss,
        MemoryMetric::RssNoSharedMemory => unshared,
        MemoryMetric::RssAnon => data.rss_anon,
        MemoryMetric::ApproximatePss | MemoryMetric::Pss => match data.pss {
            Some(pss) => pss,
            None => unshared,
        },
    }
}

/// The memory of all readings, modulo 2^64.
pub open spec fn gpu_mem_sum(pairs: Seq<(GpuIdentifier, GpuUsageStats)>) -> int
    decreases pairs.len(),
{
    if pairs.len() == 0 {
        0
    } else {
        (gpu_mem_sum(pairs.drop_last()) + match gpu_usage::mem_of(pairs.last().1) {
            Some(m) => m as int,
            None => 0,
        }) % 0x1_0000_0000_0000_0000
    }
}

/// The memory of all readings, modulo 2^64.
pub open spec fn npu_mem_sum(pairs: Seq<(PciSlot, NpuUsageStats)>) -> int
    decreases pairs.len(),
{
    if pairs.len() == 0 {
        0
    } else {
        (npu_mem_sum(pairs.drop_last()) + match npu_usage::mem_of(pairs.last().1) {
            Some(m) => m as int,
            None => 0,
        }) % 0x1_0000_0000_0000_0000
    }
}

impl Process {
    /// A process that is seen for the first time.
    pub fn from_process_data(data: ProcessData) -> (r: Self)
        ensures
            r@ == new_process(data@),
    {
        let ghost view = data@;
        let parts: Vec<Vec<char>> = text::split_chars(
            &text::to_chars(data.commandline.as_str()),
            '\0',
        );
        proof {
            text::lemma_split_nonempty(view.commandline, '\0');
            assert(text::texts(parts@)[0] == parts@[0]@);
        }
        let path: &Vec<char> = &parts[0];
        let names: Vec<Vec<char>> = text::split_chars(path, '/');
        proof {
            text::lemma_split_nonempty(path@, '/');
            assert(text::texts(names@).last() == names@[names@.len() - 1]@);
        }
        let executable_path: String = text::to_text(path);
        let executable_name: String = text::to_text(&names[names.len() - 1]);
        let r = Process {
            executable_path,
            executable_name,
            icon: AppIcon::Themed("generic-process".to_string()),
            cpu_time_last: data.user_cpu_time.saturating_add(data.system_cpu_time),
            timestamp_last: data.timestamp,
            read_bytes_last: data.read_bytes,
            write_bytes_last: data.write_bytes,
            gpu_usage_stats_last: SortedMap::new(),
            npu_usage_stats_last: SortedMap::new(),
            data,
        };
        proof {
            assert(r@ =~= new_process(view));
        }
        r
    }

    /// The process with new data.
    pub fn updated(self, data: ProcessData) -> (r: Self)
        ensures
            r@ == updated_process(self@, data@),
    {
        let ghost before = self@;
        let ghost view = data@;
        let cpu_time_last: u64 = self.data.user_cpu_time.saturating_add(self.data.system_cpu_time);
        let r = Process {
            executable_path: self.executable_path,
            executable_name: self.executable_name,
            icon: self.icon,
            cpu_time_last,
            timestamp_last: self.data.timestamp,
            read_bytes_last: self.data.read_bytes,
            write_bytes_last: self.data.write_bytes,
            gpu_usage_stats_last: self.data.gpu_usage_stats,
            npu_usage_stats_last: self.data.npu_usage_stats,
            data,
        };
        proof {
            assert(r@ =~= updated_process(before, view));
        }
        r
    }

    /// The memory of the process by a metric.
    pub fn mem_usage(&self, metric: MemoryMetric) -> (r: usize)
        ensures
            r == memory_of(self@.data, metric),
    {
        let unshared: usize = self.data.rss.saturating_sub(self.data.rss_shmem);
        match metric {
            MemoryMetric::VmSize => self.data.vm_size,
            MemoryMetric::Rss => self.data.rss,
            MemoryMetric::RssNoSharedMemory => unshared,
            MemoryMetric::RssAnon => self.data.rss_anon,
            MemoryMetric::ApproximatePss | MemoryMetric::Pss => match self.data.pss {
                Some(pss) => pss,
                None => unshared,
            },
        }
    }

    /// The memory of the process on all GPUs.
    pub fn gpu_mem_usage(&self) -> (r: u64)
        ensures
            r == gpu_mem_sum(sorted_map::sorted_pairs(self@.data.gpu_usage_stats)),
    {
        let entries: &Vec<(GpuIdentifier, GpuUsageStats)> = self.data.gpu_usage_stats.entries();
        let mut sum: u64 = 0;
        let mut i: usize = 0;
        proof {
            assert(entries@.take(0) =~= Seq::<(GpuIdentifier, GpuUsageStats)>::empty());
        }
        while i < entries.len()
            invariant
                i <= entries.len(),
                sum == gpu_mem_sum(entries@.take(i as int)),
            decreases entries.len() - i,
        {
            proof {
                assert(entries@.take(i + 1).drop_last() =~= entries@.take(i as int));
                assert(entries@.take(i + 1).last() == entries@[i as int]);
            }
            let mem: u64 = match entries[i].1.mem() {
                Some(m) => m,
                None => 0,
            };
            sum = sum.wrapping_add(mem);
            i += 1;
        }
        proof {
            assert(entries@.take(i as int) =~= entries@);
        }
        sum
    }

    /// The memory of the process on all NPUs.
    pub fn npu_mem_usage(&self) -> (r: u64)
        ensures
            r == npu_mem_sum(sorted_map::sorted_pairs(self@.data.npu_usage_stats)),
    {
        let entries: &Vec<(PciSlot, NpuUsageStats)> = self.data.npu_usage_stats.entries();
        let mut sum: u64 = 0;
        let mut i: usize = 0;
        proof {
            assert(entries@.take(0) =~= Seq::<(PciSlot, NpuUsageStats)>::empty());
        }
        while i < entries.len()
            invariant
                i <= entries.len(),
                sum == npu_mem_sum(entries@.take(i as int)),
            decreases entries.len() - i,
        {
            proof {
                assert(entries@.take(i + 1).drop_last() =~= entries@.take(i as int));
                assert(entries@.take(i + 1).last() == entries@[i as int]);
            }
            let mem: u64 = match entries[i].1.mem() {
                Some(m) => m,
                None => 0,
            };
            sum = sum.wrapping_add(mem);
            i += 1;
        }
        proof {
            assert(entries@.take(i as int) =~= entries@);
        }
        sum
    }
}

/// An update keeps what a process is, and remembers what was known before.
pub proof fn update_remembers(p: ProcessView, data: ProcessDataView)
    ensures
        updated_process(p, data).data == data,
        updated_process(p, data).executable_path == p.executable_path,
        updated_process(p, data).executable_name == p.executable_name,
        updated_process(p, data).icon == p.icon,
        updated_process(p, data).gpu_usage_stats_last == p.data.gpu_usage_stats,
        updated_process(p, data).npu_usage_stats_last == p.data.npu_usage_stats,
        updated_process(p, data).timestamp_last == p.data.timestamp,
{
}

/// The executable of a process is what its command line begins with, and its name what
/// stands behind the last slash of that.
pub proof fn executable_begins_command_line(
    data: ProcessDataView,
    path: Seq<char>,
    arguments: Seq<char>,
    dir: Seq<char>,
    name: Seq<char>,
)
    requires
        forall|i: int| 0 <= i < path.len() ==> path[i] != '\0',
        data.commandline == path || data.commandline == path + seq!['\0'] + arguments,
        forall|i: int| 0 <= i < name.len() ==> name[i] != '/',
        path == name || path == dir + seq!['/'] + name,
    ensures
        new_process(data).executable_path == path,
        new_process(data).executable_name == name,
{
    text::split_at_every_separator(path, '\0', arguments);
    text::split_at_every_separator(name, '/', dir);
    text::lemma_split_last(dir, '/', name);
}

/// Of a process that is seen for the first time nothing is known of before: what it has
/// done so far counts as done already, and of GPUs and NPUs there is no earlier reading.
pub proof fn new_process_has_no_past(data: ProcessDataView)
    ensures
        new_process(data).data == data,
        new_process(data).timestamp_last == data.timestamp,
        new_process(data).read_bytes_last == data.read_bytes,
        new_process(data).write_bytes_last == data.write_bytes,
        data.user_cpu_time + data.system_cpu_time <= u64::MAX ==> new_process(data).cpu_time_last
            == data.user_cpu_time + data.system_cpu_time,
        forall|id: GpuIdentifier| !new_process(data).gpu_usage_stats_last.contains_key(id),
        forall|slot: PciSlot| !new_process(data).npu_usage_stats_last.contains_key(slot),
{
}

/// What a process had read and written, and the CPU time it had taken, is remembered by
/// an update, so that what has come since is the difference.
pub proof fn update_remembers_counters(p: ProcessView, data: ProcessDataView)
    ensures
        updated_process(p, data).data == data,
        updated_process(p, data).read_bytes_last == p.data.read_bytes,
        updated_process(p, data).write_bytes_last == p.data.write_bytes,
        p.data.user_cpu_time + p.data.system_cpu_time <= u64::MAX ==> updated_process(
            p,
            data,
        ).cpu_time_last == p.data.user_cpu_time + p.data.system_cpu_time,
        p.data.user_cpu_time + p.data.system_cpu_time > u64::MAX ==> updated_process(
            p,
            data,
        ).cpu_time_last == u64::MAX,
{
}

/// Each metric shows its own part of the memory. Where the proportional set size is not
/// known, the resident memory that is not shared stands for it.
pub proof fn metric_selects_memory(data: ProcessDataView)
    ensures
        memory_of(data, MemoryMetric::VmSize) == data.vm_size,
        memory_of(data, MemoryMetric::Rss) == data.rss,
        memory_of(data, MemoryMetric::RssAnon) == data.rss_anon,
        data.rss_shmem <= data.rss ==> memory_of(data, MemoryMetric::RssNoSharedMemory)
            + data.rss_shmem == data.rss,
        data.rss_shmem > data.rss ==> memory_of(data, MemoryMetric::RssNoSharedMemory) == 0,
        data.pss matches Some(pss) ==> memory_of(data, MemoryMetric::Pss) == pss && memory_of(
            data,
            MemoryMetric::ApproximatePss,
        ) == pss,
        data.pss is None ==> memory_of(data, MemoryMetric::Pss) == memory_of(
            data,
            MemoryMetric::RssNoSharedMemory,
        ) && memory_of(data, MemoryMetric::ApproximatePss) == memory_of(
            data,
            MemoryMetric::RssNoSharedMemory,
        ),
{
}

/// The memory of a process on GPUs is the sum over its readings, modulo 2^64: each
/// reading counts with the memory that it reports, and one that reports none not at all.
pub proof fn gpu_memory_adds_up(
    a: Seq<(GpuIdentifier, GpuUsageStats)>,
    b: Seq<(GpuIdentifier, GpuUsageStats)>,
    id: GpuIdentifier,
    stats: GpuUsageStats,
)
    ensures
        gpu_mem_sum(a + b) == (gpu_mem_sum(a) + gpu_mem_sum(b)) % 0x1_0000_0000_0000_0000,
        gpu_mem_sum(seq![(id, stats)]) == match stats {
            GpuUsageStats::AmdgpuStats { mem_bytes, .. } => mem_bytes as int,
            GpuUsageStats::NvidiaStats { mem_bytes, .. } => mem_bytes as int,
            GpuUsageStats::V3dStats { mem_bytes, .. } => mem_bytes as int,
            GpuUsageStats::XeStats { mem_bytes, .. } => mem_bytes as int,
            GpuUsageStats::I915Stats { .. } => 0,
        },
    decreases b.len(),
{
    let one = seq![(id, stats)];
    assert(one.drop_last() =~= Seq::<(GpuIdentifier, GpuUsageStats)>::empty());
    assert(gpu_mem_sum(one.drop_last()) == 0);
    lemma_gpu_mem_range(a);
    if b.len() == 0 {
        assert(a + b =~= a);
    } else {
        gpu_memory_adds_up(a, b.drop_last(), id, stats);
        assert((a + b).drop_last() =~= a + b.drop_last());
        assert((a + b).last() == b.last());
    }
}

pub proof fn lemma_gpu_mem_range(pairs: Seq<(GpuIdentifier, GpuUsageStats)>)
    ensures
        0 <= gpu_mem_sum(pairs) < 0x1_0000_0000_0000_0000,
    decreases pairs.len(),
{
    if pairs.len() > 0 {
        lemma_gpu_mem_range(pairs.drop_last());
    }
}

/// The memory of a process on NPUs is the sum over its readings, modulo 2^64.
pub proof fn npu_memory_adds_up(
    a: Seq<(PciSlot, NpuUsageStats)>,
    b: Seq<(PciSlot, NpuUsageStats)>,
    slot: PciSlot,
    usage_ns: u64,
    mem_bytes: u64,
)
    ensures
        npu_mem_sum(a + b) == (npu_mem_sum(a) + npu_mem_sum(b)) % 0x1_0000_0000_0000_0000,
        npu_mem_sum(seq![(slot, NpuUsageStats::AmdxdnaStats { usage_ns, mem_bytes })])
            == mem_bytes,
    decreases b.len(),
{
    let one = seq![(slot, NpuUsageStats::AmdxdnaStats { usage_ns, mem_bytes })];
    assert(one.drop_last() =~= Seq::<(PciSlot, NpuUsageStats)>::empty());
    assert(npu_mem_sum(one.drop_last()) == 0);
    lemma_npu_mem_range(a);
    if b.len() == 0 {
        assert(a + b =~= a);
    } else {
        npu_memory_adds_up(a, b.drop_last(), slot, usage_ns, mem_bytes);
        assert((a + b).drop_last() =~= a + b.drop_last());
        assert((a + b).last() == b.last());
    }
}

pub proof fn lemma_npu_mem_range(pairs: Seq<(PciSlot, NpuUsageStats)>)
    ensures
        0 <= npu_mem_sum(pairs) < 0x1_0000_0000_0000_0000,
    decreases pairs.len(),
{
    if pairs.len() > 0 {
        lemma_npu_mem_range(pairs.drop_last());
    }
}

} // verus!
