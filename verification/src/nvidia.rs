//! What processes use of NVIDIA GPUs.

use vstd::prelude::*;

use crate::gpu_usage::{GpuIdentifier, GpuUsageStats};
use crate::number;
use crate::pci_slot::PciSlot;
use crate::sorted_map::SortedMap;
use crate::units::IntegerPercentage;

verus! {

/// How busy a process kept the units of a GPU for a moment, in percent.
#[derive(Debug, Clone, Copy, PartialEq, Eq, Structural)]
pub struct UtilizationSample {
    pub pid: u32,
    pub sm_util: u32,
    pub enc_util: u32,
    pub dec_util: u32,
}

/// The memory that a process uses of a GPU, where it is known.
#[derive(Debug, Clone, Copy, PartialEq, Eq, Structural)]
pub struct MemoryUse {
    pub pid: u32,
    pub bytes: Option<u64>,
}

/// What was read from one GPU.
pub struct NvidiaReading {
    pub slot: PciSlot,
    pub samples: Vec<UtilizationSample>,
    /// The graphics processes, then the compute processes.
    pub memory: Vec<MemoryUse>,
}

/// What an `NvidiaReading` holds.
#[verifier::ext_equal]
pub struct ReadingView {
    pub slot: PciSlot,
    pub samples: Seq<UtilizationSample>,
    pub memory: Seq<MemoryUse>,
}

impl View for NvidiaReading {
    type V = ReadingView;

    open spec fn view(&self) -> ReadingView {
        ReadingView { slot: self.slot, samples: self.samples@, memory: self.memory@ }
    }
}

/// What was read from all GPUs, one after the other.
pub struct NvidiaSnapshot {
    readings: Vec<NvidiaReading>,
}

impl View for NvidiaSnapshot {
    type V = Seq<ReadingView>;

    closed spec fn view(&self) -> Seq<ReadingView> {
        Seq::new(self.readings@.len(), |i: int| self.readings@[i]@)
    }
}

/// Why a process has no statistics on a GPU.
#[derive(Debug, Clone, Copy, PartialEq, Eq, Structural)]
pub enum SlotError {
    /// There is no GPU at the address.
    UnknownGpu,
    /// A share is above 100 percent.
    ShareTooLarge,
}

/// The identifier of a process as NVIDIA's library counts it.
pub open spec fn unsigned_pid(pid: i32) -> u32 {
    if pid >= 0 {
        pid as u32
    } else {
        (pid + 0x1_0000_0000) as u32
    }
}

/// The shares of a process, added up modulo 2^32.
pub open spec fn utilization(samples: Seq<UtilizationSample>, pid: u32) -> (int, int, int)
    decreases samples.len(),
{
    if samples.len() == 0 {
        (0, 0, 0)
    } else {
        let before = utilization(samples.drop_last(), pid);
        let s = samples.last();
        if s.pid == pid {
            (
                (before.0 + s.sm_util) % 0x1_0000_0000,
                (before.1 + s.enc_util) % 0x1_0000_0000,
                (before.2 + s.dec_util) % 0x1_0000_0000,
            )
        } else {
            before
        }
    }
}

/// The memory of a process, added up modulo 2^64. Memory that is not known does
/// not count.
pub open spec fn memory_of(memory: Seq<MemoryUse>, pid: u32) -> int
    decreases memory.len(),
{
    if memory.len() == 0 {
        0
    } else {
        let before = memory_of(memory.drop_last(), pid);
        let m = memory.last();
        if m.pid == pid {
            (before + match m.bytes {
                Some(bytes) => bytes as int,
                None => 0,
            }) % 0x1_0000_0000_0000_0000
        } else {
            before
        }
    }
}

/// The reading of the GPU at an address; the last one where there are several.
pub open spec fn reading_at(readings: Seq<ReadingView>, slot: PciSlot) -> Option<ReadingView>
    decreases readings.len(),
{
    if readings.len() == 0 {
        None
    } else if readings.last().slot == slot {
        Some(readings.last())
    } else {
        reading_at(readings.drop_last(), slot)
    }
}

/// What a process uses of a GPU: of each share the lowest eight bits.
pub open spec fn stats_of(reading: ReadingView, pid: u32) -> GpuUsageStats {
    let shares = utilization(reading.samples, pid);
    GpuUsageStats::NvidiaStats {
        gfx_percentage: IntegerPercentage::of((shares.0 % 256) as u8),
        enc_percentage: IntegerPercentage::of((shares.1 % 256) as u8),
        dec_percentage: IntegerPercentage::of((shares.2 % 256) as u8),
        mem_bytes: memory_of(reading.memory, pid) as u64,
    }
}

/// Whether the shares of a process are percentages.
pub open spec fn shares_valid(reading: ReadingView, pid: u32) -> bool {
    let shares = utilization(reading.samples, pid);
    shares.0 % 256 <= 100 && shares.1 % 256 <= 100 && shares.2 % 256 <= 100
}

/// Whether the GPU at an address has statistics on a process.
pub open spec fn has_stats(readings: Seq<ReadingView>, slot: PciSlot, pid: u32) -> bool {
    reading_at(readings, slot) matches Some(reading) && shares_valid(reading, pid)
}

/// What a process uses of each GPU that has statistics on it.
pub open spec fn nvidia_map(readings: Seq<ReadingView>, pid: u32) -> Map<
    GpuIdentifier,
    GpuUsageStats,
> {
    Map::new(
        |id: GpuIdentifier| id matches GpuIdentifier::PciSlot(slot) && has_stats(readings, slot, pid),
        |id: GpuIdentifier| stats_of(reading_at(readings, id->PciSlot_0)->0, pid),
    )
}

fn unsigned(pid: i32) -> (r: u32)
    ensures
        r == unsigned_pid(pid),
{
    if pid >= 0 {
        pid as u32
    } else {
        (pid as i64 + 0x1_0000_0000) as u32
    }
}

fn sum_utilization(samples: &Vec<UtilizationSample>, pid: u32) -> (r: (u32, u32, u32))
    ensures
        (r.0 as int, r.1 as int, r.2 as int) == utilization(samples@, pid),
{
    let mut sums: (u32, u32, u32) = (0, 0, 0);
    let mut i: usize = 0;
    proof {
        assert(samples@.take(0) =~= Seq::<UtilizationSample>::empty());
    }
    while i < samples.len()
        invariant
            i <= samples.len(),
            (sums.0 as int, sums.1 as int, sums.2 as int) == utilization(
                samples@.take(i as int),
                pid,
            ),
        decreases samples.len() - i,
    {
        let s: UtilizationSample = samples[i];
        proof {
            assert(samples@.take(i + 1).drop_last() =~= samples@.take(i as int));
            assert(samples@.take(i + 1).last() == s);
        }
        if s.pid == pid {
            sums = (
                sums.0.wrapping_add(s.sm_util),
                sums.1.wrapping_add(s.enc_util),
                sums.2.wrapping_add(s.dec_util),
            );
        }
        i += 1;
    }
    proof {
        assert(samples@.take(i as int) =~= samples@);
    }
    sums
}

fn sum_memory(memory: &Vec<MemoryUse>, pid: u32) -> (r: u64)
    ensures
        r == memory_of(memory@, pid),
{
    let mut sum: u64 = 0;
    let mut i: usize = 0;
    proof {
        assert(memory@.take(0) =~= Seq::<MemoryUse>::empty());
    }
    while i < memory.len()
        invariant
            i <= memory.len(),
            sum == memory_of(memory@.take(i as int), pid),
        decreases memory.len() - i,
    {
        let m: MemoryUse = memory[i];
        proof {
            assert(memory@.take(i + 1).drop_last() =~= memory@.take(i as int));
            assert(memory@.take(i + 1).last() == m);
        }
        if m.pid == pid {
            let bytes: u64 = match m.bytes {
                Some(bytes) => bytes,
                None => 0,
            };
            sum = sum.wrapping_add(bytes);
        }
        i += 1;
    }
    proof {
        assert(memory@.take(i as int) =~= memory@);
    }
    sum
}

impl NvidiaSnapshot {
    /// A snapshot of what was read from the GPUs.
    pub fn new(readings: Vec<NvidiaReading>) -> (r: Self)
        ensures
            r@ == Seq::new(readings@.len(), |i: int| readings@[i]@),
    {
        NvidiaSnapshot { readings }
    }

    fn find(&self, slot: PciSlot) -> (r: Option<&NvidiaReading>)
        ensures
            match r {
                Some(reading) => reading_at(self@, slot) == Some(reading@),
                None => reading_at(self@, slot) is None,
            },
    {
        let ghost all = self@;
        let mut left: usize = self.readings.len();
        proof {
            assert(all.take(left as int) =~= all);
        }
        while left > 0
            invariant
                left <= self.readings.len(),
                all == self@,
                reading_at(all.take(left as int), slot) == reading_at(all, slot),
            decreases left,
        {
            proof {
                assert(all.take(left as int).last() == self.readings@[left - 1]@);
                assert(all.take(left as int).drop_last() =~= all.take(left - 1));
            }
            if self.readings[left - 1].slot == slot {
                return Some(&self.readings[left - 1]);
            }
            left -= 1;
        }
        None
    }

    /// What a process uses of the GPU at an address.
    pub fn gpu_stats_for_slot(&self, pid: i32, slot: PciSlot) -> (r: Result<
        GpuUsageStats,
        SlotError,
    >)
        ensures
            match r {
                Ok(stats) => reading_at(self@, slot) matches Some(reading) && shares_valid(
                    reading,
                    unsigned_pid(pid),
                ) && stats == stats_of(reading, unsigned_pid(pid)),
                Err(SlotError::UnknownGpu) => reading_at(self@, slot) is None,
                Err(SlotError::ShareTooLarge) => reading_at(self@, slot) matches Some(reading)
                    && !shares_valid(reading, unsigned_pid(pid)),
            },
    {
        let Some(reading) = self.find(slot) else {
            return Err(SlotError::UnknownGpu);
        };
        let pid: u32 = unsigned(pid);
        let (sm, enc, dec): (u32, u32, u32) = sum_utilization(&reading.samples, pid);
        let mem_bytes: u64 = sum_memory(&reading.memory, pid);
        let Ok(gfx_percentage) = IntegerPercentage::try_new((sm % 256) as u8) else {
            return Err(SlotError::ShareTooLarge);
        };
        let Ok(enc_percentage) = IntegerPercentage::try_new((enc % 256) as u8) else {
            return Err(SlotError::ShareTooLarge);
        };
        let Ok(dec_percentage) = IntegerPercentage::try_new((dec % 256) as u8) else {
            return Err(SlotError::ShareTooLarge);
        };
        Ok(
            GpuUsageStats::NvidiaStats {
                gfx_percentage,
                enc_percentage,
                dec_percentage,
                mem_bytes,
            },
        )
    }

    /// What a process uses of each GPU that has statistics on it.
    pub fn gpu_usage_stats_all(&self, pid: i32) -> (r: SortedMap<GpuIdentifier, GpuUsageStats>)
        ensures
            r@ == nvidia_map(self@, unsigned_pid(pid)),
    {
        let ghost all = self@;
        let mut map: SortedMap<GpuIdentifier, GpuUsageStats> = SortedMap::new();
        let mut i: usize = 0;
        while i < self.readings.len()
            invariant
                i <= self.readings.len(),
                all == self@,
                forall|id: GpuIdentifier| #[trigger]
                    map@.contains_key(id) ==> (id matches GpuIdentifier::PciSlot(slot) && has_stats(
                        all,
                        slot,
                        unsigned_pid(pid),
                    )),
                forall|j: int|
                    0 <= j < i && has_stats(all, (#[trigger] all[j]).slot, unsigned_pid(pid))
                        ==> map@.contains_key(GpuIdentifier::PciSlot(all[j].slot)),
                forall|slot: PciSlot|
                    map@.contains_key(GpuIdentifier::PciSlot(slot)) ==> (
                    #[trigger] map@[GpuIdentifier::PciSlot(slot)]) == stats_of(
                        reading_at(all, slot)->0,
                        unsigned_pid(pid),
                    ),
            decreases self.readings.len() - i,
        {
            let slot: PciSlot = self.readings[i].slot;
            proof {
                assert(all[i as int] == self.readings@[i as int]@);
            }
            if let Ok(stats) = self.gpu_stats_for_slot(pid, slot) {
                map.insert(GpuIdentifier::PciSlot(slot), stats);
            }
            i += 1;
        }
        proof {
            assert forall|id: GpuIdentifier| #[trigger]
                map@.contains_key(id) == (id matches GpuIdentifier::PciSlot(slot) && has_stats(
                    all,
                    slot,
                    unsigned_pid(pid),
                )) by {
                if let GpuIdentifier::PciSlot(slot) = id {
                    if has_stats(all, slot, unsigned_pid(pid)) {
                        lemma_reading_found(all, slot);
                        let j = choose|j: int|
                            0 <= j < all.len() && (#[trigger] all[j]).slot == slot;
                        assert(has_stats(all, all[j].slot, unsigned_pid(pid)));
                    }
                }
            }
            assert(map@ =~= nvidia_map(all, unsigned_pid(pid)));
        }
        map
    }
}

/// From when on samples are asked for, in microseconds since the epoch: five seconds
/// before now.
pub open spec fn samples_since(now_millis: u64) -> int {
    let now = number::saturating_product(now_millis as int, 1000, u64::MAX as int);
    if now >= 5_000_000 {
        now - 5_000_000
    } else {
        0
    }
}

/// From when on samples are asked for, in microseconds since the epoch.
pub fn utilization_since(now_millis: u64) -> (r: u64)
    ensures
        r == samples_since(now_millis),
{
    number::saturating_mul_u64(now_millis, 1000).saturating_sub(5_000_000)
}

proof fn lemma_reading_found(readings: Seq<ReadingView>, slot: PciSlot)
    requires
        reading_at(readings, slot) is Some,
    ensures
        exists|j: int| 0 <= j < readings.len() && (#[trigger] readings[j]).slot == slot,
    decreases readings.len(),
{
    if readings.last().slot == slot {
        assert(readings[readings.len() - 1].slot == slot);
    } else {
        lemma_reading_found(readings.drop_last(), slot);
        let j = choose|j: int|
            0 <= j < readings.drop_last().len() && (#[trigger] readings.drop_last()[j]).slot == slot;
        assert(readings[j].slot == slot);
    }
}

/// The shares of a process add up over the samples, and only those of the process count.
pub proof fn shares_add_up(
    a: Seq<UtilizationSample>,
    b: Seq<UtilizationSample>,
    s: UtilizationSample,
    pid: u32,
)
    ensures
        utilization(a + b, pid) == (
            (utilization(a, pid).0 + utilization(b, pid).0) % 0x1_0000_0000,
            (utilization(a, pid).1 + utilization(b, pid).1) % 0x1_0000_0000,
            (utilization(a, pid).2 + utilization(b, pid).2) % 0x1_0000_0000,
        ),
        s.pid == pid ==> utilization(seq![s], pid) == (
            s.sm_util as int,
            s.enc_util as int,
            s.dec_util as int,
        ),
        s.pid != pid ==> utilization(seq![s], pid) == (0int, 0int, 0int),
    decreases b.len(),
{
    lemma_utilization_range(a, pid);
    lemma_utilization_range(b, pid);
    let one = seq![s];
    assert(one.drop_last() =~= Seq::<UtilizationSample>::empty());
    assert(one.last() == s);
    assert(utilization(one.drop_last(), pid) == (0int, 0int, 0int));
    if b.len() == 0 {
        assert(a + b =~= a);
    } else {
        shares_add_up(a, b.drop_last(), s, pid);
        assert((a + b).drop_last() =~= a + b.drop_last());
        assert((a + b).last() == b.last());
        let x = utilization(a, pid);
        let y = utilization(b.drop_last(), pid);
        let l = b.last();
        lemma_sums_wrap(x.0, y.0, l.sm_util as int);
        lemma_sums_wrap(x.1, y.1, l.enc_util as int);
        lemma_sums_wrap(x.2, y.2, l.dec_util as int);
    }
}

proof fn lemma_sums_wrap(x: int, y: int, z: int)
    ensures
        ((x + y) % 0x1_0000_0000 + z) % 0x1_0000_0000 == (x + (y + z) % 0x1_0000_0000)
            % 0x1_0000_0000,
{
}

proof fn lemma_utilization_range(samples: Seq<UtilizationSample>, pid: u32)
    ensures
        0 <= utilization(samples, pid).0 < 0x1_0000_0000,
        0 <= utilization(samples, pid).1 < 0x1_0000_0000,
        0 <= utilization(samples, pid).2 < 0x1_0000_0000,
    decreases samples.len(),
{
    if samples.len() > 0 {
        lemma_utilization_range(samples.drop_last(), pid);
    }
}

proof fn lemma_memory_range(memory: Seq<MemoryUse>, pid: u32)
    ensures
        0 <= memory_of(memory, pid) <= u64::MAX,
    decreases memory.len(),
{
    if memory.len() > 0 {
        lemma_memory_range(memory.drop_last(), pid);
    }
}

/// The memory of a process adds up, and only that of the process counts.
pub proof fn memory_adds_up(a: Seq<MemoryUse>, b: Seq<MemoryUse>, m: MemoryUse, pid: u32)
    ensures
        memory_of(a + b, pid) == (memory_of(a, pid) + memory_of(b, pid))
            % 0x1_0000_0000_0000_0000,
        m.pid == pid && m.bytes is Some ==> memory_of(seq![m], pid) == m.bytes->0,
        m.pid != pid || m.bytes is None ==> memory_of(seq![m], pid) == 0,
    decreases b.len(),
{
    lemma_memory_range(a, pid);
    lemma_memory_range(b, pid);
    let one = seq![m];
    assert(one.drop_last() =~= Seq::<MemoryUse>::empty());
    assert(one.last() == m);
    assert(memory_of(one.drop_last(), pid) == 0);
    if b.len() == 0 {
        assert(a + b =~= a);
    } else {
        memory_adds_up(a, b.drop_last(), m, pid);
        lemma_memory_range(b.drop_last(), pid);
        assert((a + b).drop_last() =~= a + b.drop_last());
        assert((a + b).last() == b.last());
    }
}

/// Whether a reading is the last one at an address.
pub open spec fn last_at(readings: Seq<ReadingView>, slot: PciSlot, i: int) -> bool {
    0 <= i < readings.len() && readings[i].slot == slot && forall|j: int|
        i < j < readings.len() ==> (#[trigger] readings[j]).slot != slot
}

/// Of several readings of the GPU at an address the last one counts.
pub proof fn last_reading_counts(readings: Seq<ReadingView>, slot: PciSlot, i: int)
    ensures
        last_at(readings, slot, i) ==> reading_at(readings, slot) == Some(readings[i]),
        (forall|j: int| 0 <= j < readings.len() ==> (#[trigger] readings[j]).slot != slot)
            ==> reading_at(readings, slot) is None,
    decreases readings.len(),
{
    if readings.len() > 0 {
        let head = readings.drop_last();
        assert(readings[readings.len() - 1] == readings.last());
        if last_at(readings, slot, i) && i < head.len() {
            assert forall|j: int| i < j < head.len() implies (#[trigger] head[j]).slot != slot by {
                assert(head[j] == readings[j]);
            }
            assert(head[i] == readings[i]);
            assert(last_at(head, slot, i));
        }
        if forall|j: int| 0 <= j < readings.len() ==> (#[trigger] readings[j]).slot != slot {
            assert forall|j: int| 0 <= j < head.len() implies (#[trigger] head[j]).slot
                != slot by {
                assert(head[j] == readings[j]);
            }
        }
        last_reading_counts(head, slot, i);
    }
}

/// A GPU has statistics on a process exactly where there is a reading of it and each share
/// of the process is a percentage, by its lowest eight bits; and they are those shares and
/// the memory of the process.
pub proof fn statistics_are_shares(readings: Seq<ReadingView>, pid: u32, slot: PciSlot, i: int)
    requires
        last_at(readings, slot, i),
    ensures
        ({
            let shares = utilization(readings[i].samples, pid);
            let id = GpuIdentifier::PciSlot(slot);
            &&& nvidia_map(readings, pid).contains_key(id) <==> shares.0 % 256 <= 100 && shares.1
                % 256 <= 100 && shares.2 % 256 <= 100
            &&& nvidia_map(readings, pid).contains_key(id) ==> match nvidia_map(
                readings,
                pid,
            )[id] {
                GpuUsageStats::NvidiaStats {
                    gfx_percentage,
                    enc_percentage,
                    dec_percentage,
                    mem_bytes,
                } => {
                    &&& gfx_percentage.value() == shares.0 % 256
                    &&& enc_percentage.value() == shares.1 % 256
                    &&& dec_percentage.value() == shares.2 % 256
                    &&& mem_bytes == memory_of(readings[i].memory, pid)
                },
                _ => false,
            }
        }),
{
    last_reading_counts(readings, slot, i);
    lemma_utilization_range(readings[i].samples, pid);
    lemma_memory_range(readings[i].memory, pid);
    let shares = utilization(readings[i].samples, pid);
    IntegerPercentage::value_of_percentage((shares.0 % 256) as u8);
    IntegerPercentage::value_of_percentage((shares.1 % 256) as u8);
    IntegerPercentage::value_of_percentage((shares.2 % 256) as u8);
}

/// A GPU without a reading has no statistics, nor has one that is known by its number only.
pub proof fn no_statistics_without_reading(
    readings: Seq<ReadingView>,
    pid: u32,
    slot: PciSlot,
    number: usize,
)
    requires
        forall|j: int| 0 <= j < readings.len() ==> (#[trigger] readings[j]).slot != slot,
    ensures
        !nvidia_map(readings, pid).contains_key(GpuIdentifier::PciSlot(slot)),
        !nvidia_map(readings, pid).contains_key(GpuIdentifier::Enumerator(number)),
{
    last_reading_counts(readings, slot, 0);
}

/// Samples are asked for from five seconds before now on, in microseconds; from the epoch on
/// where that is later.
pub proof fn samples_of_five_seconds(now_millis: u64)
    ensures
        now_millis * 1000 <= u64::MAX && now_millis >= 5000 ==> samples_since(now_millis)
            == now_millis * 1000 - 5000 * 1000,
        now_millis < 5000 ==> samples_since(now_millis) == 0,
{
}

/// A process goes by the same number with NVIDIA's library, where that is not negative; and
/// no two processes go by the same one.
pub proof fn process_numbers_stay_apart(a: i32, b: i32)
    ensures
        a >= 0 ==> unsigned_pid(a) == a,
        unsigned_pid(a) == unsigned_pid(b) ==> a == b,
{
}

} // verus!
