//! What a process has used of an NPU.

use vstd::prelude::*;

use crate::number;
use crate::units;
use crate::units::Fraction;

verus! {

/// The counters that a driver reports of a process.
#[derive(Debug, Clone, Copy, PartialEq, Eq, Hash, Structural)]
pub enum NpuUsageStats {
    AmdxdnaStats { usage_ns: u64, mem_bytes: u64 },
}

/// The share of NPU time between two readings.
pub open spec fn usage_share(
    new: NpuUsageStats,
    old: NpuUsageStats,
    time_delta_ms: u64,
) -> Option<Fraction> {
    units::ns_fraction(new->usage_ns, old->usage_ns, time_delta_ms)
}

/// The memory of a reading.
pub open spec fn mem_of(stats: NpuUsageStats) -> Option<u64> {
    Some(stats->mem_bytes)
}

/// Counter by counter the larger of two readings.
pub open spec fn greater_of(a: NpuUsageStats, b: NpuUsageStats) -> NpuUsageStats {
    NpuUsageStats::AmdxdnaStats {
        usage_ns: number::larger(a->usage_ns, b->usage_ns),
        mem_bytes: number::larger(a->mem_bytes, b->mem_bytes),
    }
}

impl NpuUsageStats {
    /// The share of NPU time since the reading `old`.
    pub fn usage_fraction(&self, old: &Self, time_delta_ms: u64) -> (r: Option<Fraction>)
        ensures
            r == usage_share(*self, *old, time_delta_ms),
    {
        match (*self, *old) {
            (
                NpuUsageStats::AmdxdnaStats { usage_ns: a, .. },
                NpuUsageStats::AmdxdnaStats { usage_ns: b, .. },
            ) => units::ns_delta_to_usage_fraction(a, b, time_delta_ms),
        }
    }

    /// The NPU memory in use.
    pub fn mem(&self) -> (r: Option<u64>)
        ensures
            r == mem_of(*self),
    {
        match *self {
            NpuUsageStats::AmdxdnaStats { mem_bytes, .. } => Some(mem_bytes),
        }
    }

    /// Counter by counter the larger of two readings.
    pub fn greater(&self, other: &Self) -> (r: Self)
        ensures
            r == greater_of(*self, *other),
    {
        match (*self, *other) {
            (
                NpuUsageStats::AmdxdnaStats { usage_ns: a_ns, mem_bytes: a_mem },
                NpuUsageStats::AmdxdnaStats { usage_ns: b_ns, mem_bytes: b_mem },
            ) => NpuUsageStats::AmdxdnaStats {
                usage_ns: number::max_u64(a_ns, b_ns),
                mem_bytes: number::max_u64(a_mem, b_mem),
            },
        }
    }
}

/// Merging readings is idempotent, commutative and associative.
pub proof fn greater_laws(a: NpuUsageStats, b: NpuUsageStats, c: NpuUsageStats)
    ensures
        greater_of(a, a) == a,
        greater_of(a, b) == greater_of(b, a),
        greater_of(greater_of(a, b), c) == greater_of(a, greater_of(b, c)),
{
}

/// An NPU is as busy as its counter has grown in the time that went by, and merging two
/// readings takes the larger value of each counter.
pub proof fn npu_by_its_counter(ns: (u64, u64), mem: (u64, u64), ms: u64)
    ensures
        ({
            let new = NpuUsageStats::AmdxdnaStats { usage_ns: ns.0, mem_bytes: mem.0 };
            let old = NpuUsageStats::AmdxdnaStats { usage_ns: ns.1, mem_bytes: mem.1 };
            &&& usage_share(new, old, ms) == if ms == 0 {
                None
            } else if ns.0 < ns.1 {
                Some(Fraction { num: 0, den: (ms * 1_000_000) as u128 })
            } else {
                Some(Fraction { num: (ns.0 - ns.1) as u64, den: (ms * 1_000_000) as u128 })
            }
            &&& mem_of(new) == Some(mem.0)
            &&& greater_of(new, old)->usage_ns >= ns.0 && greater_of(new, old)->usage_ns >= ns.1
            &&& greater_of(new, old)->usage_ns == ns.0 || greater_of(new, old)->usage_ns == ns.1
            &&& greater_of(new, old)->mem_bytes >= mem.0 && greater_of(new, old)->mem_bytes
                >= mem.1
            &&& greater_of(new, old)->mem_bytes == mem.0 || greater_of(new, old)->mem_bytes
                == mem.1
        }),
{
}

} // verus!
