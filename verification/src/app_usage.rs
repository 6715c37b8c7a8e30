//! What applications and devices use, added up over processes.

use vstd::prelude::*;

use crate::app;
use crate::app::{App, AppView};
use crate::apps::AppsContext;
use crate::context;
use crate::context::ContextView;
use crate::gpu_usage;
use crate::gpu_usage::GpuIdentifier;
use crate::npu_usage;
use crate::npu_usage::NpuUsageStats;
use crate::number;
use crate::pci_slot;
use crate::pci_slot::PciSlot;
use crate::process;
use crate::process::{Process, ProcessView};
use crate::process_data::ProcessDataView;
use crate::settings::MemoryMetric;
use crate::sorted_map;
use crate::sorted_map::SortedMap;
use crate::units::Fraction;

verus! {

// The processes of an application --------------------------------------------------------

/// The processes among the pairs that belong to an application.
pub open spec fn processes_of(pids: Seq<i32>, pairs: Seq<(i32, ProcessView)>) -> Seq<ProcessView>
    decreases pairs.len(),
{
    if pairs.len() == 0 {
        Seq::<ProcessView>::empty()
    } else {
        let before = processes_of(pids, pairs.drop_last());
        if pids.contains(pairs.last().1.data.pid) {
            before.push(pairs.last().1)
        } else {
            before
        }
    }
}

/// The processes of an application, in ascending order of their identifiers.
pub open spec fn app_processes(a: AppView, c: ContextView) -> Seq<ProcessView> {
    processes_of(a.processes, sorted_map::sorted_pairs(c.processes))
}

/// The views of a list of references.
pub open spec fn process_ref_views(list: Seq<&Process>) -> Seq<ProcessView> {
    Seq::new(list.len(), |i: int| list[i]@)
}

/// What a process contributes to a sum.
#[derive(Debug, Clone, Copy, PartialEq, Eq, Structural)]
pub enum Quantity {
    Memory(MemoryMetric),
    Swap,
    Read,
    Written,
    GpuMemory,
    NpuMemory,
}

/// What a process contributes to a sum; what is not known counts as nothing.
pub open spec fn quantity_of(p: ProcessView, q: Quantity) -> u64 {
    match q {
        Quantity::Memory(metric) => process::memory_of(p.data, metric) as u64,
        Quantity::Swap => p.data.swap_usage as u64,
        Quantity::Read => match p.data.read_bytes {
            Some(n) => n,
            None => 0,
        },
        Quantity::Written => match p.data.write_bytes {
            Some(n) => n,
            None => 0,
        },
        Quantity::GpuMemory => process::gpu_mem_sum(
            sorted_map::sorted_pairs(p.data.gpu_usage_stats),
        ) as u64,
        Quantity::NpuMemory => process::npu_mem_sum(
            sorted_map::sorted_pairs(p.data.npu_usage_stats),
        ) as u64,
    }
}

/// The sum over processes, modulo 2^64.
pub open spec fn total(list: Seq<ProcessView>, q: Quantity) -> u64
    decreases list.len(),
{
    if list.len() == 0 {
        0
    } else {
        number::wrapped_sum(total(list.drop_last(), q), quantity_of(list.last(), q))
    }
}

fn quantity(p: &Process, q: Quantity) -> (r: u64)
    ensures
        r == quantity_of(p@, q),
{
    match q {
        Quantity::Memory(metric) => p.mem_usage(metric) as u64,
        Quantity::Swap => p.data.swap_usage as u64,
        Quantity::Read => match p.data.read_bytes {
            Some(n) => n,
            None => 0,
        },
        Quantity::Written => match p.data.write_bytes {
            Some(n) => n,
            None => 0,
        },
        Quantity::GpuMemory => p.gpu_mem_usage(),
        Quantity::NpuMemory => p.npu_mem_usage(),
    }
}

/// The smallest start time of the processes; 0 where there is none.
pub open spec fn earliest_start(list: Seq<ProcessView>) -> u64
    decreases list.len(),
{
    if list.len() == 0 {
        0
    } else if list.len() == 1 {
        list[0].data.starttime
    } else {
        let before = earliest_start(list.drop_last());
        if list.last().data.starttime < before {
            list.last().data.starttime
        } else {
            before
        }
    }
}

/// What an application has read in all, dead processes included.
pub open spec fn read_total_of(a: AppView, c: ContextView) -> u64 {
    number::saturating_sum(
        a.read_bytes_from_dead_processes,
        total(app_processes(a, c), Quantity::Read),
    )
}

/// What an application has written in all, dead processes included.
pub open spec fn write_total_of(a: AppView, c: ContextView) -> u64 {
    number::saturating_sum(
        a.write_bytes_from_dead_processes,
        total(app_processes(a, c), Quantity::Written),
    )
}

impl App {
    /// The processes of the application.
    pub fn processes_iter<'a>(&self, apps: &'a AppsContext) -> (r: Vec<&'a Process>)
        ensures
            process_ref_views(r@) == app_processes(self@, apps@),
    {
        let entries: &'a Vec<(i32, Process)> = apps.processes_iter();
        let ghost pairs = sorted_map::viewed_pairs(entries@);
        let mut r: Vec<&'a Process> = Vec::new();
        let mut i: usize = 0;
        proof {
            assert(pairs.take(0) =~= Seq::<(i32, ProcessView)>::empty());
            assert(process_ref_views(r@) =~= Seq::<ProcessView>::empty());
        }
        while i < entries.len()
            invariant
                i <= entries.len(),
                pairs == sorted_map::viewed_pairs(entries@),
                process_ref_views(r@) == processes_of(self@.processes, pairs.take(i as int)),
            decreases entries.len() - i,
        {
            let p: &'a Process = &entries[i].1;
            proof {
                assert(pairs.take(i + 1).drop_last() =~= pairs.take(i as int));
                assert(pairs.take(i + 1).last().1 == p@);
            }
            if app::contains_pid(&self.processes, p.data.pid) {
                let ghost before = r@;
                r.push(p);
                proof {
                    assert(process_ref_views(r@) =~= process_ref_views(before).push(p@));
                }
            }
            i += 1;
        }
        proof {
            assert(pairs.take(i as int) =~= pairs);
        }
        r
    }

    /// The sum over the processes of the application.
    fn sum(&self, apps: &AppsContext, q: Quantity) -> (r: u64)
        ensures
            r == total(app_processes(self@, apps@), q),
    {
        let list: Vec<&Process> = self.processes_iter(apps);
        let ghost views = process_ref_views(list@);
        let mut sum: u64 = 0;
        let mut i: usize = 0;
        proof {
            assert(views.take(0) =~= Seq::<ProcessView>::empty());
        }
        while i < list.len()
            invariant
                i <= list.len(),
                views == process_ref_views(list@),
                sum == total(views.take(i as int), q),
            decreases list.len() - i,
        {
            proof {
                assert(views.take(i + 1).drop_last() =~= views.take(i as int));
                assert(views.take(i + 1).last() == list@[i as int]@);
            }
            sum = sum.wrapping_add(quantity(list[i], q));
            i += 1;
        }
        proof {
            assert(views.take(i as int) =~= views);
        }
        sum
    }

    /// The memory of the application by a metric.
    pub fn memory_usage(&self, apps: &AppsContext, metric: MemoryMetric) -> (r: usize)
        ensures
            r == total(app_processes(self@, apps@), Quantity::Memory(metric)) as usize,
    {
        self.sum(apps, Quantity::Memory(metric)) as usize
    }

    /// The swap space of the application.
    pub fn swap_usage(&self, apps: &AppsContext) -> (r: usize)
        ensures
            r == total(app_processes(self@, apps@), Quantity::Swap) as usize,
    {
        self.sum(apps, Quantity::Swap) as usize
    }

    /// What the application has read in all, dead processes included.
    pub fn read_total(&self, apps: &AppsContext) -> (r: u64)
        ensures
            r == read_total_of(self@, apps@),
    {
        self.read_bytes_from_dead_processes.saturating_add(self.sum(apps, Quantity::Read))
    }

    /// What the application has written in all, dead processes included.
    pub fn write_total(&self, apps: &AppsContext) -> (r: u64)
        ensures
            r == write_total_of(self@, apps@),
    {
        self.write_bytes_from_dead_processes.saturating_add(self.sum(apps, Quantity::Written))
    }

    /// The memory of the application on GPUs.
    pub fn gpu_mem_usage(&self, apps: &AppsContext) -> (r: u64)
        ensures
            r == total(app_processes(self@, apps@), Quantity::GpuMemory),
    {
        self.sum(apps, Quantity::GpuMemory)
    }

    /// The memory of the application on NPUs.
    pub fn npu_mem_usage(&self, apps: &AppsContext) -> (r: u64)
        ensures
            r == total(app_processes(self@, apps@), Quantity::NpuMemory),
    {
        self.sum(apps, Quantity::NpuMemory)
    }

    /// When the application was started, in clock ticks since the system was; 0
    /// where it is not running.
    pub fn starttime(&self, apps: &AppsContext) -> (r: u64)
        ensures
            r == earliest_start(app_processes(self@, apps@)),
    {
        let list: Vec<&Process> = self.processes_iter(apps);
        let ghost views = process_ref_views(list@);
        if list.len() == 0 {
            return 0;
        }
        let mut earliest: u64 = list[0].data.starttime;
        let mut i: usize = 1;
        proof {
            assert(views.take(1)[0] == list@[0]@);
        }
        while i < list.len()
            invariant
                1 <= i <= list.len(),
                views == process_ref_views(list@),
                earliest == earliest_start(views.take(i as int)),
            decreases list.len() - i,
        {
            let start: u64 = list[i].data.starttime;
            proof {
                assert(views.take(i + 1).drop_last() =~= views.take(i as int));
                assert(views.take(i + 1).last() == list@[i as int]@);
            }
            if start < earliest {
                earliest = start;
            }
            i += 1;
        }
        proof {
            assert(views.take(i as int) =~= views);
        }
        earliest
    }
}

// The use of a device --------------------------------------------------------------------------

/// A part of a GPU.
#[derive(Debug, Clone, Copy, PartialEq, Eq, Structural)]
pub enum Engine {
    Graphics,
    Encoder,
    Decoder,
}

/// The time between the last two readings of a process, in milliseconds.
pub open spec fn time_delta(p: ProcessView) -> u64 {
    if p.data.timestamp >= p.timestamp_last {
        (p.data.timestamp - p.timestamp_last) as u64
    } else {
        0
    }
}

/// The share of a part of a GPU that a process uses; none where it did not use the
/// GPU at both of the last two readings, or where no time has passed.
pub open spec fn engine_share(p: ProcessView, id: GpuIdentifier, engine: Engine) -> Option<
    Fraction,
> {
    if p.data.gpu_usage_stats.contains_key(id) && p.gpu_usage_stats_last.contains_key(id) {
        let new = p.data.gpu_usage_stats[id];
        let old = p.gpu_usage_stats_last[id];
        match engine {
            Engine::Graphics => gpu_usage::gfx_share(new, old, time_delta(p)),
            Engine::Encoder => gpu_usage::enc_share(new, old, time_delta(p)),
            Engine::Decoder => gpu_usage::dec_share(new, old, time_delta(p)),
        }
    } else {
        None
    }
}

/// The reading of an NPU; where there is none under its address, the one under the
/// address of all zeros.
pub open spec fn npu_stats_at(stats: Map<PciSlot, NpuUsageStats>, slot: PciSlot) -> Option<
    NpuUsageStats,
> {
    if stats.contains_key(slot) {
        Some(stats[slot])
    } else if stats.contains_key(pci_slot::zero_slot()) {
        Some(stats[pci_slot::zero_slot()])
    } else {
        None
    }
}

/// The share of an NPU that a process uses.
pub open spec fn npu_share(p: ProcessView, slot: PciSlot) -> Option<Fraction> {
    match (
        npu_stats_at(p.data.npu_usage_stats, slot),
        npu_stats_at(p.npu_usage_stats_last, slot),
    ) {
        (Some(new), Some(old)) => npu_usage::usage_share(new, old, time_delta(p)),
        _ => None,
    }
}

/// The shares of a part of a GPU that processes use, without those that use none.
pub open spec fn engine_shares(
    pairs: Seq<(i32, ProcessView)>,
    id: GpuIdentifier,
    engine: Engine,
) -> Seq<Fraction>
    decreases pairs.len(),
{
    if pairs.len() == 0 {
        Seq::<Fraction>::empty()
    } else {
        let before = engine_shares(pairs.drop_last(), id, engine);
        match engine_share(pairs.last().1, id, engine) {
            Some(f) => before.push(f),
            None => before,
        }
    }
}

/// The shares of an NPU that processes use, without those that use none.
pub open spec fn npu_shares(pairs: Seq<(i32, ProcessView)>, slot: PciSlot) -> Seq<Fraction>
    decreases pairs.len(),
{
    if pairs.len() == 0 {
        Seq::<Fraction>::empty()
    } else {
        let before = npu_shares(pairs.drop_last(), slot);
        match npu_share(pairs.last().1, slot) {
            Some(f) => before.push(f),
            None => before,
        }
    }
}

/// The memory of a GPU that processes use, modulo 2^64.
pub open spec fn vram_sum(pairs: Seq<(i32, ProcessView)>, id: GpuIdentifier) -> u64
    decreases pairs.len(),
{
    if pairs.len() == 0 {
        0
    } else {
        let before = vram_sum(pairs.drop_last(), id);
        let stats = pairs.last().1.data.gpu_usage_stats;
        if stats.contains_key(id) {
            match gpu_usage::mem_of(stats[id]) {
                Some(m) => number::wrapped_sum(before, m),
                None => before,
            }
        } else {
            before
        }
    }
}

/// The memory of an NPU that processes use, modulo 2^64.
pub open spec fn npu_mem_total(pairs: Seq<(i32, ProcessView)>, slot: PciSlot) -> u64
    decreases pairs.len(),
{
    if pairs.len() == 0 {
        0
    } else {
        let before = npu_mem_total(pairs.drop_last(), slot);
        match npu_stats_at(pairs.last().1.data.npu_usage_stats, slot) {
            Some(stats) => match npu_usage::mem_of(stats) {
                Some(m) => number::wrapped_sum(before, m),
                None => before,
            },
            None => before,
        }
    }
}

fn share_of(p: &Process, id: GpuIdentifier, engine: Engine) -> (r: Option<Fraction>)
    ensures
        r == engine_share(p@, id, engine),
{
    let delta: u64 = p.data.timestamp.saturating_sub(p.timestamp_last);
    match (p.data.gpu_usage_stats.get(&id), p.gpu_usage_stats_last.get(&id)) {
        (Some(new), Some(old)) => match engine {
            Engine::Graphics => new.gfx_fraction(old, delta),
            Engine::Encoder => new.enc_fraction(old, delta),
            Engine::Decoder => new.dec_fraction(old, delta),
        },
        _ => None,
    }
}

fn npu_stats(stats: &SortedMap<PciSlot, NpuUsageStats>, slot: PciSlot) -> (r: Option<NpuUsageStats>)
    ensures
        r == npu_stats_at(stats@, slot),
{
    match stats.get(&slot) {
        Some(s) => Some(*s),
        None => match stats.get(&PciSlot::default()) {
            Some(s) => Some(*s),
            None => None,
        },
    }
}

fn npu_share_of(p: &Process, slot: PciSlot) -> (r: Option<Fraction>)
    ensures
        r == npu_share(p@, slot),
{
    let delta: u64 = p.data.timestamp.saturating_sub(p.timestamp_last);
    match (
        npu_stats(&p.data.npu_usage_stats, slot),
        npu_stats(&p.npu_usage_stats_last, slot),
    ) {
        (Some(new), Some(old)) => new.usage_fraction(&old, delta),
        _ => None,
    }
}

impl AppsContext {
    fn shares(&self, id: GpuIdentifier, engine: Engine) -> (r: Vec<Fraction>)
        ensures
            r@ == engine_shares(sorted_map::sorted_pairs(self@.processes), id, engine),
    {
        let entries: &Vec<(i32, Process)> = self.processes_iter();
        let ghost pairs = sorted_map::viewed_pairs(entries@);
        let mut r: Vec<Fraction> = Vec::new();
        let mut i: usize = 0;
        proof {
            assert(pairs.take(0) =~= Seq::<(i32, ProcessView)>::empty());
        }
        while i < entries.len()
            invariant
                i <= entries.len(),
                pairs == sorted_map::viewed_pairs(entries@),
                r@ == engine_shares(pairs.take(i as int), id, engine),
            decreases entries.len() - i,
        {
            proof {
                assert(pairs.take(i + 1).drop_last() =~= pairs.take(i as int));
                assert(pairs.take(i + 1).last().1 == entries@[i as int].1@);
            }
            if let Some(f) = share_of(&entries[i].1, id, engine) {
                r.push(f);
            }
            i += 1;
        }
        proof {
            assert(pairs.take(i as int) =~= pairs);
        }
        r
    }

    /// The shares of a GPU's graphics that processes use. Their sum, but no more than
    /// the whole, is how busy it is.
    pub fn gpu_fraction(&self, id: GpuIdentifier) -> (r: Vec<Fraction>)
        ensures
            r@ == engine_shares(sorted_map::sorted_pairs(self@.processes), id, Engine::Graphics),
    {
        self.shares(id, Engine::Graphics)
    }

    /// The shares of a GPU's encoder that processes use.
    pub fn encoder_fraction(&self, id: GpuIdentifier) -> (r: Vec<Fraction>)
        ensures
            r@ == engine_shares(sorted_map::sorted_pairs(self@.processes), id, Engine::Encoder),
    {
        self.shares(id, Engine::Encoder)
    }

    /// The shares of a GPU's decoder that processes use.
    pub fn decoder_fraction(&self, id: GpuIdentifier) -> (r: Vec<Fraction>)
        ensures
            r@ == engine_shares(sorted_map::sorted_pairs(self@.processes), id, Engine::Decoder),
    {
        self.shares(id, Engine::Decoder)
    }

    /// The shares of an NPU that processes use.
    pub fn npu_fraction(&self, slot: PciSlot) -> (r: Vec<Fraction>)
        ensures
            r@ == npu_shares(sorted_map::sorted_pairs(self@.processes), slot),
    {
        let entries: &Vec<(i32, Process)> = self.processes_iter();
        let ghost pairs = sorted_map::viewed_pairs(entries@);
        let mut r: Vec<Fraction> = Vec::new();
        let mut i: usize = 0;
        proof {
            assert(pairs.take(0) =~= Seq::<(i32, ProcessView)>::empty());
        }
        while i < entries.len()
            invariant
                i <= entries.len(),
                pairs == sorted_map::viewed_pairs(entries@),
                r@ == npu_shares(pairs.take(i as int), slot),
            decreases entries.len() - i,
        {
            proof {
                assert(pairs.take(i + 1).drop_last() =~= pairs.take(i as int));
                assert(pairs.take(i + 1).last().1 == entries@[i as int].1@);
            }
            if let Some(f) = npu_share_of(&entries[i].1, slot) {
                r.push(f);
            }
            i += 1;
        }
        proof {
            assert(pairs.take(i as int) =~= pairs);
        }
        r
    }

    /// The memory of an NPU that processes use.
    pub fn npu_mem(&self, slot: PciSlot) -> (r: u64)
        ensures
            r == npu_mem_total(sorted_map::sorted_pairs(self@.processes), slot),
    {
        let entries: &Vec<(i32, Process)> = self.processes_iter();
        let ghost pairs = sorted_map::viewed_pairs(entries@);
        let mut sum: u64 = 0;
        let mut i: usize = 0;
        proof {
            assert(pairs.take(0) =~= Seq::<(i32, ProcessView)>::empty());
        }
        while i < entries.len()
            invariant
                i <= entries.len(),
                pairs == sorted_map::viewed_pairs(entries@),
                sum == npu_mem_total(pairs.take(i as int), slot),
            decreases entries.len() - i,
        {
            proof {
                assert(pairs.take(i + 1).drop_last() =~= pairs.take(i as int));
                assert(pairs.take(i + 1).last().1 == entries@[i as int].1@);
            }
            if let Some(stats) = npu_stats(&entries[i].1.data.npu_usage_stats, slot) {
                if let Some(m) = stats.mem() {
                    sum = sum.wrapping_add(m);
                }
            }
            i += 1;
        }
        proof {
            assert(pairs.take(i as int) =~= pairs);
        }
        sum
    }

    /// The memory of a GPU that processes use.
    pub fn vram_usage(&self, id: GpuIdentifier) -> (r: u64)
        ensures
            r == vram_sum(sorted_map::sorted_pairs(self@.processes), id),
    {
        let entries: &Vec<(i32, Process)> = self.processes_iter();
        let ghost pairs = sorted_map::viewed_pairs(entries@);
        let mut sum: u64 = 0;
        let mut i: usize = 0;
        proof {
            assert(pairs.take(0) =~= Seq::<(i32, ProcessView)>::empty());
        }
        while i < entries.len()
            invariant
                i <= entries.len(),
                pairs == sorted_map::viewed_pairs(entries@),
                sum == vram_sum(pairs.take(i as int), id),
            decreases entries.len() - i,
        {
            proof {
                assert(pairs.take(i + 1).drop_last() =~= pairs.take(i as int));
                assert(pairs.take(i + 1).last().1 == entries@[i as int].1@);
            }
            if let Some(stats) = entries[i].1.data.gpu_usage_stats.get(&id) {
                if let Some(m) = stats.mem() {
                    sum = sum.wrapping_add(m);
                }
            }
            i += 1;
        }
        proof {
            assert(pairs.take(i as int) =~= pairs);
        }
        sum
    }
}

// Laws -----------------------------------------------------------------------------------------

/// The sum over processes.
spec fn plain_total(list: Seq<ProcessView>, q: Quantity) -> int
    decreases list.len(),
{
    if list.len() == 0 {
        0
    } else {
        plain_total(list.drop_last(), q) + quantity_of(list.last(), q)
    }
}

proof fn lemma_total(list: Seq<ProcessView>, q: Quantity)
    requires
        plain_total(list, q) <= u64::MAX,
    ensures
        total(list, q) == plain_total(list, q),
        plain_total(list, q) >= 0,
    decreases list.len(),
{
    if list.len() > 0 {
        lemma_plain_total_sign(list.drop_last(), q);
        lemma_total(list.drop_last(), q);
    }
}

proof fn lemma_plain_total_sign(list: Seq<ProcessView>, q: Quantity)
    ensures
        plain_total(list, q) >= 0,
    decreases list.len(),
{
    if list.len() > 0 {
        lemma_plain_total_sign(list.drop_last(), q);
    }
}

/// Whether no process occurs twice among the pairs.
spec fn distinct_pids(pairs: Seq<(i32, ProcessView)>) -> bool {
    forall|i: int, j: int|
        0 <= i < j < pairs.len() ==> (#[trigger] pairs[i]).1.data.pid != (
        #[trigger] pairs[j]).1.data.pid
}

proof fn lemma_no_processes(pairs: Seq<(i32, ProcessView)>)
    ensures
        processes_of(Seq::<i32>::empty(), pairs) == Seq::<ProcessView>::empty(),
    decreases pairs.len(),
{
    if pairs.len() > 0 {
        lemma_no_processes(pairs.drop_last());
    }
}

proof fn lemma_push_contains(pids: Seq<i32>, pid: i32, other: i32)
    ensures
        pids.push(pid).contains(other) == (other == pid || pids.contains(other)),
{
    let r = pids.push(pid);
    assert(r[pids.len() as int] == pid);
    if pids.contains(other) {
        let i = choose|i: int| 0 <= i < pids.len() && pids[i] == other;
        assert(r[i] == other);
    }
}

proof fn lemma_absent_pid(pids: Seq<i32>, pid: i32, pairs: Seq<(i32, ProcessView)>)
    requires
        forall|i: int| 0 <= i < pairs.len() ==> (#[trigger] pairs[i]).1.data.pid != pid,
    ensures
        processes_of(pids.push(pid), pairs) == processes_of(pids, pairs),
    decreases pairs.len(),
{
    if pairs.len() > 0 {
        let head = pairs.drop_last();
        assert forall|i: int| 0 <= i < head.len() implies (
        #[trigger] head[i]).1.data.pid != pid by {
            assert(head[i] == pairs[i]);
        }
        lemma_absent_pid(pids, pid, head);
        assert(pairs[pairs.len() - 1].1.data.pid != pid);
        lemma_push_contains(pids, pid, pairs.last().1.data.pid);
    }
}

proof fn lemma_present_pid(
    pids: Seq<i32>,
    pid: i32,
    pairs: Seq<(i32, ProcessView)>,
    at: int,
    q: Quantity,
)
    requires
        distinct_pids(pairs),
        !pids.contains(pid),
        0 <= at < pairs.len(),
        pairs[at].1.data.pid == pid,
    ensures
        plain_total(processes_of(pids.push(pid), pairs), q) == plain_total(
            processes_of(pids, pairs),
            q,
        ) + quantity_of(pairs[at].1, q),
    decreases pairs.len(),
{
    let head = pairs.drop_last();
    let last = pairs.last().1;
    lemma_push_contains(pids, pid, last.data.pid);
    assert(pairs[pairs.len() - 1].1 == last);
    let more = processes_of(pids.push(pid), head);
    let fewer = processes_of(pids, head);
    assert(more.push(last).drop_last() =~= more);
    assert(fewer.push(last).drop_last() =~= fewer);
    if at < head.len() {
        assert forall|i: int, j: int| 0 <= i < j < head.len() implies (
        #[trigger] head[i]).1.data.pid != (#[trigger] head[j]).1.data.pid by {
            assert(pairs[i].1.data.pid != pairs[j].1.data.pid);
        }
        assert(head[at] == pairs[at]);
        lemma_present_pid(pids, pid, head, at, q);
        assert(pairs[at].1.data.pid != last.data.pid);
    } else {
        assert forall|i: int| 0 <= i < head.len() implies (
        #[trigger] head[i]).1.data.pid != pid by {
            assert(pairs[i].1.data.pid != pairs[at].1.data.pid);
        }
        lemma_absent_pid(pids, pid, head);
    }
}

proof fn lemma_sum_by_pids(pids: Seq<i32>, processes: Map<i32, ProcessView>)
    requires
        pids.no_duplicates(),
        forall|pid: i32| #[trigger]
            processes.contains_key(pid) ==> processes[pid].data.pid == pid,
        forall|i: int| 0 <= i < pids.len() ==> processes.contains_key(#[trigger] pids[i]),
    ensures
        plain_total(processes_of(pids, sorted_map::sorted_pairs(processes)), Quantity::Read)
            == context::read_sum(pids, processes),
        plain_total(processes_of(pids, sorted_map::sorted_pairs(processes)), Quantity::Written)
            == context::write_sum(pids, processes),
    decreases pids.len(),
{
    let pairs = sorted_map::sorted_pairs(processes);
    sorted_map::lemma_listable(processes);
    if pids.len() == 0 {
        assert(pids =~= Seq::<i32>::empty());
        lemma_no_processes(pairs);
    } else {
        let head = pids.drop_last();
        let pid = pids.last();
        assert(pids[pids.len() - 1] == pid);
        assert forall|i: int| 0 <= i < head.len() implies processes.contains_key(
            #[trigger] head[i],
        ) by {
            assert(head[i] == pids[i]);
        }
        lemma_sum_by_pids(head, processes);
        assert forall|i: int, j: int| 0 <= i < j < pairs.len() implies (
        #[trigger] pairs[i]).1.data.pid != (#[trigger] pairs[j]).1.data.pid by {
            sorted_map::lemma_key_at(pairs, i);
            sorted_map::lemma_key_at(pairs, j);
        }
        assert(sorted_map::has_key(pairs, pid));
        let at = choose|at: int| sorted_map::key_at(pairs, pid, at);
        sorted_map::lemma_key_at(pairs, at);
        assert(!head.contains(pid));
        assert(head.push(pid) =~= pids);
        lemma_present_pid(head, pid, pairs, at, Quantity::Read);
        lemma_present_pid(head, pid, pairs, at, Quantity::Written);
    }
}

proof fn lemma_app_sums(c: ContextView, i: int)
    requires
        context::context_wf(c),
        0 <= i < c.apps.len(),
    ensures
        plain_total(app_processes(c.apps[i], c), Quantity::Read) == context::read_sum(
            c.apps[i].processes,
            c.processes,
        ),
        plain_total(app_processes(c.apps[i], c), Quantity::Written) == context::write_sum(
            c.apps[i].processes,
            c.processes,
        ),
{
    let pids = c.apps[i].processes;
    assert forall|k: int, l: int| 0 <= k < pids.len() && 0 <= l < pids.len() && k
        != l implies pids[k] != pids[l] by {
        if pids[k] == pids[l] {
            assert(context::placed(c.apps, pids[k], i, k));
            assert(context::placed(c.apps, pids[k], i, l));
        }
    }
    assert forall|k: int| 0 <= k < pids.len() implies c.processes.contains_key(
        #[trigger] pids[k],
    ) by {
        assert(context::placed(c.apps, pids[k], i, k));
        assert(context::has_app(c.apps, pids[k]));
    }
    lemma_sum_by_pids(pids, c.processes);
}

proof fn lemma_sums_of_living(pids: Seq<i32>, processes: Map<i32, ProcessView>, alive: Set<i32>)
    requires
        forall|i: int| 0 <= i < pids.len() ==> processes.contains_key(#[trigger] pids[i]),
        forall|i: int| 0 <= i < pids.len() ==> alive.contains(#[trigger] pids[i]),
    ensures
        context::read_sum(pids, processes.restrict(alive)) == context::read_sum(pids, processes),
        context::write_sum(pids, processes.restrict(alive)) == context::write_sum(pids, processes),
    decreases pids.len(),
{
    if pids.len() > 0 {
        let head = pids.drop_last();
        assert forall|i: int| 0 <= i < head.len() implies processes.contains_key(
            #[trigger] head[i],
        ) && alive.contains(head[i]) by {
            assert(head[i] == pids[i]);
        }
        assert(pids[pids.len() - 1] == pids.last());
        lemma_sums_of_living(head, processes, alive);
    }
}

/// What an application has read and written in all stays the same when processes of it
/// die, as long as it is running. This is within 64 bits, and of dead processes of which
/// both or neither are known.
pub proof fn totals_outlive_processes(c: ContextView, alive: Set<i32>, i: int)
    requires
        context::context_wf(c),
        0 <= i < c.apps.len(),
        forall|k: int|
            0 <= k < c.apps[i].processes.len() && !alive.contains(
                #[trigger] c.apps[i].processes[k],
            ) ==> context::io_known_alike(c.processes[c.apps[i].processes[k]]),
        context::buried(c, alive).apps[i].processes.len() > 0,
        c.apps[i].read_bytes_from_dead_processes + context::read_sum(
            c.apps[i].processes,
            c.processes,
        ) <= u64::MAX,
        c.apps[i].write_bytes_from_dead_processes + context::write_sum(
            c.apps[i].processes,
            c.processes,
        ) <= u64::MAX,
    ensures
        read_total_of(context::buried(c, alive).apps[i], context::buried(c, alive))
            == read_total_of(c.apps[i], c),
        write_total_of(context::buried(c, alive).apps[i], context::buried(c, alive))
            == write_total_of(c.apps[i], c),
{
    let a = c.apps[i];
    let after = context::buried(c, alive);
    let b = after.apps[i];
    assert forall|k: int| 0 <= k < a.processes.len() implies c.processes.contains_key(
        #[trigger] a.processes[k],
    ) by {
        assert(context::placed(c.apps, a.processes[k], i, k));
        assert(context::has_app(c.apps, a.processes[k]));
    }
    context::lemma_buried_wf(c, alive);
    lemma_app_sums(c, i);
    lemma_app_sums(after, i);
    context::totals_survive_death(a, c.processes, alive);
    assert forall|k: int| 0 <= k < b.processes.len() implies c.processes.contains_key(
        #[trigger] b.processes[k],
    ) && alive.contains(b.processes[k]) by {
        assert(context::placed(after.apps, b.processes[k], i, k));
        assert(context::has_app(after.apps, b.processes[k]));
        assert(after.processes.contains_key(b.processes[k]));
    }
    lemma_sums_of_living(b.processes, c.processes, alive);
    lemma_total(app_processes(a, c), Quantity::Read);
    lemma_total(app_processes(a, c), Quantity::Written);
    lemma_total(app_processes(b, after), Quantity::Read);
    lemma_total(app_processes(b, after), Quantity::Written);
}

/// A process that was seen for the first time adds nothing to the use of a GPU or an
/// NPU, since nothing is known of before.
pub proof fn new_process_adds_no_share(
    data: ProcessDataView,
    id: GpuIdentifier,
    engine: Engine,
    slot: PciSlot,
)
    ensures
        engine_share(process::new_process(data), id, engine) is None,
        npu_share(process::new_process(data), slot) is None,
{
}

/// The start of an application is that of one of its processes, and none of them
/// started earlier.
pub proof fn earliest_start_is_least(list: Seq<ProcessView>)
    requires
        list.len() > 0,
    ensures
        exists|i: int|
            0 <= i < list.len() && (#[trigger] list[i]).data.starttime == earliest_start(list),
        forall|i: int|
            0 <= i < list.len() ==> earliest_start(list) <= (#[trigger] list[i]).data.starttime,
    decreases list.len(),
{
    if list.len() == 1 {
        assert(list[0].data.starttime == earliest_start(list));
    } else {
        let head = list.drop_last();
        earliest_start_is_least(head);
        let j = choose|j: int|
            0 <= j < head.len() && (#[trigger] head[j]).data.starttime == earliest_start(head);
        assert(list[j] == head[j]);
        assert(list[list.len() - 1] == list.last());
        assert forall|i: int| 0 <= i < list.len() implies earliest_start(list) <= (
        #[trigger] list[i]).data.starttime by {
            if i < head.len() {
                assert(head[i] == list[i]);
            }
        }
    }
}

/// The share of a GPU's engine that a process has comes of its last two readings of that
/// GPU and of the time between them; without two readings it has none.
pub proof fn share_is_between_two_readings(p: ProcessView, id: GpuIdentifier)
    ensures
        !p.data.gpu_usage_stats.contains_key(id) || !p.gpu_usage_stats_last.contains_key(id)
            ==> forall|engine: Engine| engine_share(p, id, engine) is None,
        p.data.gpu_usage_stats.contains_key(id) && p.gpu_usage_stats_last.contains_key(id) ==> {
            let new = p.data.gpu_usage_stats[id];
            let old = p.gpu_usage_stats_last[id];
            let ms = if p.data.timestamp >= p.timestamp_last {
                (p.data.timestamp - p.timestamp_last) as u64
            } else {
                0
            };
            &&& engine_share(p, id, Engine::Graphics) == gpu_usage::gfx_share(new, old, ms)
            &&& engine_share(p, id, Engine::Encoder) == gpu_usage::enc_share(new, old, ms)
            &&& engine_share(p, id, Engine::Decoder) == gpu_usage::dec_share(new, old, ms)
        },
{
}

/// The reading of an NPU is the one under its address, or else the one under the address
/// of all zeros, and its share comes of the last two readings.
pub proof fn npu_share_is_between_two_readings(p: ProcessView, slot: PciSlot)
    ensures
        ({
            let zero = PciSlot { domain: 0, bus: 0, number: 0, function: 0 };
            let new = p.data.npu_usage_stats;
            let old = p.npu_usage_stats_last;
            let ms = if p.data.timestamp >= p.timestamp_last {
                (p.data.timestamp - p.timestamp_last) as u64
            } else {
                0
            };
            let new_key = if new.contains_key(slot) {
                slot
            } else {
                zero
            };
            let old_key = if old.contains_key(slot) {
                slot
            } else {
                zero
            };
            npu_share(p, slot) == if new.contains_key(new_key) && old.contains_key(old_key) {
                npu_usage::usage_share(new[new_key], old[old_key], ms)
            } else {
                None
            }
        }),
{
}

/// The places of the processes that have a share of a GPU's engine.
pub open spec fn sharing(
    pairs: Seq<(i32, ProcessView)>,
    id: GpuIdentifier,
    engine: Engine,
) -> Set<int> {
    Set::new(
        |i: int| 0 <= i < pairs.len() && engine_share(pairs[i].1, id, engine) is Some,
    )
}

/// The places of the processes that have a share of an NPU.
pub open spec fn npu_sharing(pairs: Seq<(i32, ProcessView)>, slot: PciSlot) -> Set<int> {
    Set::new(|i: int| 0 <= i < pairs.len() && npu_share(pairs[i].1, slot) is Some)
}

/// Every process that has a share of a GPU's engine counts, once: the share of each is
/// among the shares, and there are as many of these as such processes.
pub proof fn every_share_counts(
    pairs: Seq<(i32, ProcessView)>,
    id: GpuIdentifier,
    engine: Engine,
)
    ensures
        sharing(pairs, id, engine).finite(),
        engine_shares(pairs, id, engine).len() == sharing(pairs, id, engine).len(),
        forall|i: int|
            0 <= i < pairs.len() && engine_share((#[trigger] pairs[i]).1, id, engine) is Some
                ==> engine_shares(pairs, id, engine).contains(
                engine_share(pairs[i].1, id, engine)->0,
            ),
        forall|f: Fraction| #[trigger]
            engine_shares(pairs, id, engine).contains(f) ==> exists|i: int|
                0 <= i < pairs.len() && engine_share((#[trigger] pairs[i]).1, id, engine) == Some(
                    f,
                ),
    decreases pairs.len(),
{
    if pairs.len() == 0 {
        assert(sharing(pairs, id, engine) =~= Set::<int>::empty());
    } else {
        let head = pairs.drop_last();
        let last = pairs.len() - 1;
        let before = engine_shares(head, id, engine);
        let all = engine_shares(pairs, id, engine);
        every_share_counts(head, id, engine);
        assert forall|i: int| 0 <= i < head.len() implies #[trigger] head[i] == pairs[i] by {}
        if let Some(f) = engine_share(pairs[last].1, id, engine) {
            assert(sharing(pairs, id, engine) =~= sharing(head, id, engine).insert(last));
            assert(all[before.len() as int] == f);
        } else {
            assert(sharing(pairs, id, engine) =~= sharing(head, id, engine));
        }
        assert forall|f: Fraction| before.contains(f) implies all.contains(f) by {
            let k = choose|k: int| 0 <= k < before.len() && before[k] == f;
            assert(all[k] == f);
        }
        assert forall|i: int|
            0 <= i < pairs.len() && engine_share((#[trigger] pairs[i]).1, id, engine) is Some
            implies all.contains(engine_share(pairs[i].1, id, engine)->0) by {
            if i < last {
                assert(head[i] == pairs[i]);
                assert(before.contains(engine_share(head[i].1, id, engine)->0));
            }
        }
        assert forall|f: Fraction| #[trigger] all.contains(f) implies exists|i: int|
            0 <= i < pairs.len() && engine_share((#[trigger] pairs[i]).1, id, engine) == Some(
                f,
            ) by {
            let k = choose|k: int| 0 <= k < all.len() && all[k] == f;
            if k < before.len() {
                assert(before[k] == f);
                assert(before.contains(f));
                let i = choose|i: int|
                    0 <= i < head.len() && engine_share((#[trigger] head[i]).1, id, engine)
                        == Some(f);
                assert(pairs[i] == head[i]);
            } else {
                assert(engine_share(pairs[last].1, id, engine) == Some(f));
            }
        }
    }
}

/// The shares of several processes are those of the ones followed by those of the others.
pub proof fn shares_of_parts(
    a: Seq<(i32, ProcessView)>,
    b: Seq<(i32, ProcessView)>,
    id: GpuIdentifier,
    engine: Engine,
    slot: PciSlot,
)
    ensures
        engine_shares(a + b, id, engine) == engine_shares(a, id, engine) + engine_shares(
            b,
            id,
            engine,
        ),
        npu_shares(a + b, slot) == npu_shares(a, slot) + npu_shares(b, slot),
    decreases b.len(),
{
    if b.len() == 0 {
        assert(a + b =~= a);
        assert(engine_shares(a, id, engine) + engine_shares(b, id, engine) =~= engine_shares(
            a,
            id,
            engine,
        ));
        assert(npu_shares(a, slot) + npu_shares(b, slot) =~= npu_shares(a, slot));
    } else {
        shares_of_parts(a, b.drop_last(), id, engine, slot);
        assert((a + b).drop_last() =~= a + b.drop_last());
        assert((a + b).last() == b.last());
        assert(engine_shares(a + b, id, engine) =~= engine_shares(a, id, engine)
            + engine_shares(b, id, engine));
        assert(npu_shares(a + b, slot) =~= npu_shares(a, slot) + npu_shares(b, slot));
    }
}

/// Every process that has a share of an NPU counts, once.
pub proof fn every_npu_share_counts(pairs: Seq<(i32, ProcessView)>, slot: PciSlot)
    ensures
        npu_sharing(pairs, slot).finite(),
        npu_shares(pairs, slot).len() == npu_sharing(pairs, slot).len(),
        forall|i: int|
            0 <= i < pairs.len() && npu_share((#[trigger] pairs[i]).1, slot) is Some
                ==> npu_shares(pairs, slot).contains(npu_share(pairs[i].1, slot)->0),
    decreases pairs.len(),
{
    if pairs.len() == 0 {
        assert(npu_sharing(pairs, slot) =~= Set::<int>::empty());
    } else {
        let head = pairs.drop_last();
        let last = pairs.len() - 1;
        let before = npu_shares(head, slot);
        let all = npu_shares(pairs, slot);
        every_npu_share_counts(head, slot);
        assert forall|i: int| 0 <= i < head.len() implies #[trigger] head[i] == pairs[i] by {}
        if let Some(f) = npu_share(pairs[last].1, slot) {
            assert(npu_sharing(pairs, slot) =~= npu_sharing(head, slot).insert(last));
            assert(all[before.len() as int] == f);
        } else {
            assert(npu_sharing(pairs, slot) =~= npu_sharing(head, slot));
        }
        assert forall|i: int|
            0 <= i < pairs.len() && npu_share((#[trigger] pairs[i]).1, slot) is Some
            implies all.contains(npu_share(pairs[i].1, slot)->0) by {
            if i < last {
                assert(head[i] == pairs[i]);
                let f = npu_share(head[i].1, slot)->0;
                assert(before.contains(f));
                let k = choose|k: int| 0 <= k < before.len() && before[k] == f;
                assert(all[k] == f);
            }
        }
    }
}

/// The memory of a GPU or an NPU that several processes use adds up, modulo 2^64.
pub proof fn device_memory_adds_up(
    a: Seq<(i32, ProcessView)>,
    b: Seq<(i32, ProcessView)>,
    id: GpuIdentifier,
    slot: PciSlot,
)
    ensures
        vram_sum(a + b, id) == (vram_sum(a, id) + vram_sum(b, id)) % 0x1_0000_0000_0000_0000,
        npu_mem_total(a + b, slot) == (npu_mem_total(a, slot) + npu_mem_total(b, slot))
            % 0x1_0000_0000_0000_0000,
{
    lemma_vram_sum(a, b, id);
    lemma_npu_mem_total(a, b, slot);
}

proof fn lemma_vram_sum(a: Seq<(i32, ProcessView)>, b: Seq<(i32, ProcessView)>, id: GpuIdentifier)
    ensures
        vram_sum(a + b, id) == number::wrapped_sum(vram_sum(a, id), vram_sum(b, id)),
    decreases b.len(),
{
    if b.len() == 0 {
        assert(a + b =~= a);
        number::wrapped_sum_associates(vram_sum(a, id), 0, 0);
    } else {
        let head = b.drop_last();
        lemma_vram_sum(a, head, id);
        assert((a + b).drop_last() =~= a + head);
        assert((a + b).last() == b.last());
        let stats = b.last().1.data.gpu_usage_stats;
        if stats.contains_key(id) {
            if let Some(m) = gpu_usage::mem_of(stats[id]) {
                number::wrapped_sum_associates(vram_sum(a, id), vram_sum(head, id), m);
            }
        }
    }
}

proof fn lemma_npu_mem_total(a: Seq<(i32, ProcessView)>, b: Seq<(i32, ProcessView)>, slot: PciSlot)
    ensures
        npu_mem_total(a + b, slot) == number::wrapped_sum(
            npu_mem_total(a, slot),
            npu_mem_total(b, slot),
        ),
    decreases b.len(),
{
    if b.len() == 0 {
        assert(a + b =~= a);
        number::wrapped_sum_associates(npu_mem_total(a, slot), 0, 0);
    } else {
        let head = b.drop_last();
        lemma_npu_mem_total(a, head, slot);
        assert((a + b).drop_last() =~= a + head);
        assert((a + b).last() == b.last());
        if let Some(stats) = npu_stats_at(b.last().1.data.npu_usage_stats, slot) {
            if let Some(m) = npu_usage::mem_of(stats) {
                number::wrapped_sum_associates(
                    npu_mem_total(a, slot),
                    npu_mem_total(head, slot),
                    m,
                );
            }
        }
    }
}

/// A process uses as much memory of a GPU or an NPU as its own reading of that reports.
pub proof fn device_memory_of_one(p: ProcessView, id: GpuIdentifier, slot: PciSlot)
    ensures
        vram_sum(seq![(p.data.pid, p)], id) == if p.data.gpu_usage_stats.contains_key(id) {
            match gpu_usage::mem_of(p.data.gpu_usage_stats[id]) {
                Some(m) => m,
                None => 0,
            }
        } else {
            0
        },
        npu_mem_total(seq![(p.data.pid, p)], slot) == ({
            let zero = PciSlot { domain: 0, bus: 0, number: 0, function: 0 };
            if p.data.npu_usage_stats.contains_key(slot) {
                p.data.npu_usage_stats[slot]->mem_bytes
            } else if p.data.npu_usage_stats.contains_key(zero) {
                p.data.npu_usage_stats[zero]->mem_bytes
            } else {
                0
            }
        }),
{
    let one = seq![(p.data.pid, p)];
    assert(one.drop_last() =~= Seq::<(i32, ProcessView)>::empty());
    assert(one.last().1 == p);
    assert(vram_sum(one.drop_last(), id) == 0);
    assert(npu_mem_total(one.drop_last(), slot) == 0);
}

/// The processes of an application are exactly those whose identifier it holds.
pub proof fn app_has_its_processes(pids: Seq<i32>, pairs: Seq<(i32, ProcessView)>)
    ensures
        forall|i: int|
            0 <= i < pairs.len() && pids.contains((#[trigger] pairs[i]).1.data.pid)
                ==> processes_of(pids, pairs).contains(pairs[i].1),
        forall|p: ProcessView| #[trigger]
            processes_of(pids, pairs).contains(p) ==> pids.contains(p.data.pid) && exists|i: int|
                0 <= i < pairs.len() && (#[trigger] pairs[i]).1 == p,
    decreases pairs.len(),
{
    if pairs.len() > 0 {
        let head = pairs.drop_last();
        let last = pairs.len() - 1;
        let before = processes_of(pids, head);
        let all = processes_of(pids, pairs);
        app_has_its_processes(pids, head);
        assert forall|i: int|
            0 <= i < pairs.len() && pids.contains((#[trigger] pairs[i]).1.data.pid)
            implies all.contains(pairs[i].1) by {
            if i < last {
                assert(head[i] == pairs[i]);
                assert(before.contains(head[i].1));
                let k = choose|k: int| 0 <= k < before.len() && before[k] == head[i].1;
                assert(all[k] == pairs[i].1);
            } else {
                assert(all[before.len() as int] == pairs[i].1);
            }
        }
        assert forall|p: ProcessView| #[trigger] all.contains(p) implies pids.contains(p.data.pid)
            && exists|i: int| 0 <= i < pairs.len() && (#[trigger] pairs[i]).1 == p by {
            let k = choose|k: int| 0 <= k < all.len() && all[k] == p;
            if k < before.len() {
                assert(before[k] == p);
                assert(before.contains(p));
                let i = choose|i: int| 0 <= i < head.len() && (#[trigger] head[i]).1 == p;
                assert(pairs[i] == head[i]);
            } else {
                assert(pairs[last].1 == p);
            }
        }
    }
}

/// The processes of an application among several are those among the ones followed by
/// those among the others.
pub proof fn app_processes_of_parts(
    pids: Seq<i32>,
    a: Seq<(i32, ProcessView)>,
    b: Seq<(i32, ProcessView)>,
    p: ProcessView,
)
    ensures
        processes_of(pids, a + b) == processes_of(pids, a) + processes_of(pids, b),
        processes_of(pids, seq![(p.data.pid, p)]) == if pids.contains(p.data.pid) {
            seq![p]
        } else {
            Seq::<ProcessView>::empty()
        },
    decreases b.len(),
{
    let one = seq![(p.data.pid, p)];
    assert(one.drop_last() =~= Seq::<(i32, ProcessView)>::empty());
    assert(processes_of(pids, one.drop_last()) =~= Seq::<ProcessView>::empty());
    assert(one.last().1 == p);
    assert(Seq::<ProcessView>::empty().push(p) =~= seq![p]);
    if b.len() == 0 {
        assert(a + b =~= a);
        assert(processes_of(pids, a) + processes_of(pids, b) =~= processes_of(pids, a));
    } else {
        app_processes_of_parts(pids, a, b.drop_last(), p);
        assert((a + b).drop_last() =~= a + b.drop_last());
        assert((a + b).last() == b.last());
        assert(processes_of(pids, a + b) =~= processes_of(pids, a) + processes_of(pids, b));
    }
}

/// What an application uses adds up over its processes, modulo 2^64.
pub proof fn totals_add_up(a: Seq<ProcessView>, b: Seq<ProcessView>, q: Quantity)
    ensures
        total(a + b, q) == (total(a, q) + total(b, q)) % 0x1_0000_0000_0000_0000,
    decreases b.len(),
{
    if b.len() == 0 {
        assert(a + b =~= a);
    } else {
        let head = b.drop_last();
        totals_add_up(a, head, q);
        assert((a + b).drop_last() =~= a + head);
        assert((a + b).last() == b.last());
        number::wrapped_sum_associates(total(a, q), total(head, q), quantity_of(b.last(), q));
    }
}

proof fn lemma_total_of_one(p: ProcessView, q: Quantity)
    ensures
        total(seq![p], q) == quantity_of(p, q),
{
    assert(seq![p].drop_last() =~= Seq::<ProcessView>::empty());
    assert(seq![p].last() == p);
    assert(total(seq![p].drop_last(), q) == 0);
}

/// Each quantity of a process is what its name says; what is not known counts as nothing.
pub proof fn quantity_is_what_it_says(p: ProcessView, metric: MemoryMetric)
    ensures
        total(seq![p], Quantity::Memory(metric)) == process::memory_of(p.data, metric),
        total(seq![p], Quantity::Swap) == p.data.swap_usage,
        total(seq![p], Quantity::Read) == match p.data.read_bytes {
            Some(n) => n,
            None => 0,
        },
        total(seq![p], Quantity::Written) == match p.data.write_bytes {
            Some(n) => n,
            None => 0,
        },
        total(seq![p], Quantity::GpuMemory) == process::gpu_mem_sum(
            sorted_map::sorted_pairs(p.data.gpu_usage_stats),
        ),
        total(seq![p], Quantity::NpuMemory) == process::npu_mem_sum(
            sorted_map::sorted_pairs(p.data.npu_usage_stats),
        ),
{
    lemma_total_of_one(p, Quantity::Memory(metric));
    lemma_total_of_one(p, Quantity::Swap);
    lemma_total_of_one(p, Quantity::Read);
    lemma_total_of_one(p, Quantity::Written);
    lemma_total_of_one(p, Quantity::GpuMemory);
    lemma_total_of_one(p, Quantity::NpuMemory);
    process::lemma_gpu_mem_range(sorted_map::sorted_pairs(p.data.gpu_usage_stats));
    process::lemma_npu_mem_range(sorted_map::sorted_pairs(p.data.npu_usage_stats));
}

/// What an application has read and written in all is what its dead processes had, and
/// what those that are alive have, as far as that fits.
pub proof fn totals_are_of_dead_and_living(a: AppView, c: ContextView)
    ensures
        ({
            let living = total(app_processes(a, c), Quantity::Read);
            a.read_bytes_from_dead_processes + living <= u64::MAX ==> read_total_of(a, c)
                == a.read_bytes_from_dead_processes + living
        }),
        ({
            let living = total(app_processes(a, c), Quantity::Written);
            a.write_bytes_from_dead_processes + living <= u64::MAX ==> write_total_of(a, c)
                == a.write_bytes_from_dead_processes + living
        }),
{
}

} // verus!
