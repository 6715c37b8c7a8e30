//! What a process has used of a GPU.

use vstd::prelude::*;

use crate::number;
use crate::pci_slot;
use crate::pci_slot::PciSlot;
use crate::sorted_map::MapKey;
use crate::units;
use crate::units::{Fraction, IntegerPercentage};

verus! {

/// What tells one GPU from another: its PCI address, or its place in an
/// enumeration where it has none.
#[derive(Debug, Clone, Copy, PartialEq, Eq, PartialOrd, Ord, Hash, Structural)]
pub enum GpuIdentifier {
    PciSlot(PciSlot),
    Enumerator(usize),
}

impl Default for GpuIdentifier {
    fn default() -> (r: Self)
        ensures
            r == GpuIdentifier::Enumerator(0),
    {
        GpuIdentifier::Enumerator(0)
    }
}

/// How an identifier is written.
pub open spec fn identifier_text(id: GpuIdentifier) -> Seq<char> {
    match id {
        GpuIdentifier::PciSlot(slot) => pci_slot::slot_text(slot),
        GpuIdentifier::Enumerator(e) => number::number_text(e as int, 10),
    }
}

impl GpuIdentifier {
    /// Writes the identifier.
    pub fn to_string(&self) -> (r: String)
        ensures
            r@ == identifier_text(*self),
    {
        match self {
            GpuIdentifier::PciSlot(slot) => slot.to_string(),
            GpuIdentifier::Enumerator(e) => number::decimal(*e as u64),
        }
    }
}

impl MapKey for GpuIdentifier {
    open spec fn rank(self) -> int {
        match self {
            GpuIdentifier::PciSlot(slot) => slot.rank(),
            GpuIdentifier::Enumerator(e) => 0x1_0000_0000_0000_0000 + e,
        }
    }

    fn rank_of(&self) -> (r: u128) {
        match self {
            GpuIdentifier::PciSlot(slot) => slot.rank_of(),
            GpuIdentifier::Enumerator(e) => 0x1_0000_0000_0000_0000 + *e as u128,
        }
    }

    proof fn rank_distinct(a: GpuIdentifier, b: GpuIdentifier) {
        if let GpuIdentifier::PciSlot(x) = a {
            if let GpuIdentifier::PciSlot(y) = b {
                PciSlot::rank_distinct(x, y);
            }
        }
    }
}

/// The counters that a driver reports of a process.
#[derive(Debug, Clone, Copy, PartialEq, Eq, PartialOrd, Ord, Hash, Structural)]
pub enum GpuUsageStats {
    AmdgpuStats { gfx_ns: u64, enc_ns: u64, dec_ns: u64, mem_bytes: u64 },
    I915Stats { gfx_ns: u64, video_ns: u64 },
    NvidiaStats {
        gfx_percentage: IntegerPercentage,
        enc_percentage: IntegerPercentage,
        dec_percentage: IntegerPercentage,
        mem_bytes: u64,
    },
    V3dStats { gfx_ns: u64, mem_bytes: u64 },
    XeStats {
        gfx_cycles: u64,
        gfx_total_cycles: u64,
        compute_cycles: u64,
        compute_total_cycles: u64,
        video_cycles: u64,
        video_total_cycles: u64,
        mem_bytes: u64,
    },
}

/// The share of graphics time between two readings. Intel's `xe` counts graphics
/// and compute separately; the larger share counts. None for readings of
/// different drivers.
pub open spec fn gfx_share(
    new: GpuUsageStats,
    old: GpuUsageStats,
    time_delta_ms: u64,
) -> Option<Fraction> {
    match (new, old) {
        (
            GpuUsageStats::AmdgpuStats { gfx_ns: a, .. },
            GpuUsageStats::AmdgpuStats { gfx_ns: b, .. },
        ) => units::ns_fraction(a, b, time_delta_ms),
        (
            GpuUsageStats::I915Stats { gfx_ns: a, .. },
            GpuUsageStats::I915Stats { gfx_ns: b, .. },
        ) => units::ns_fraction(a, b, time_delta_ms),
        (
            GpuUsageStats::V3dStats { gfx_ns: a, .. },
            GpuUsageStats::V3dStats { gfx_ns: b, .. },
        ) => units::ns_fraction(a, b, time_delta_ms),
        (
            GpuUsageStats::NvidiaStats { gfx_percentage, .. },
            GpuUsageStats::NvidiaStats { .. },
        ) => Some(units::percent_fraction(gfx_percentage)),
        (
            GpuUsageStats::XeStats {
                gfx_cycles: a_gfx,
                gfx_total_cycles: a_gfx_total,
                compute_cycles: a_compute,
                compute_total_cycles: a_compute_total,
                ..
            },
            GpuUsageStats::XeStats {
                gfx_cycles: b_gfx,
                gfx_total_cycles: b_gfx_total,
                compute_cycles: b_compute,
                compute_total_cycles: b_compute_total,
                ..
            },
        ) => units::larger_fraction(
            units::cycles_fraction(a_gfx, b_gfx, a_gfx_total, b_gfx_total),
            units::cycles_fraction(a_compute, b_compute, a_compute_total, b_compute_total),
        ),
        _ => None,
    }
}

/// The share of video encoding time between two readings. Intel's drivers count
/// encoding and decoding together, under video.
pub open spec fn enc_share(
    new: GpuUsageStats,
    old: GpuUsageStats,
    time_delta_ms: u64,
) -> Option<Fraction> {
    match (new, old) {
        (
            GpuUsageStats::AmdgpuStats { enc_ns: a, .. },
            GpuUsageStats::AmdgpuStats { enc_ns: b, .. },
        ) => units::ns_fraction(a, b, time_delta_ms),
        (
            GpuUsageStats::I915Stats { video_ns: a, .. },
            GpuUsageStats::I915Stats { video_ns: b, .. },
        ) => units::ns_fraction(a, b, time_delta_ms),
        (
            GpuUsageStats::NvidiaStats { enc_percentage, .. },
            GpuUsageStats::NvidiaStats { .. },
        ) => Some(units::percent_fraction(enc_percentage)),
        (
            GpuUsageStats::XeStats { video_cycles: a, video_total_cycles: a_total, .. },
            GpuUsageStats::XeStats { video_cycles: b, video_total_cycles: b_total, .. },
        ) => units::cycles_fraction(a, b, a_total, b_total),
        _ => None,
    }
}

/// The share of video decoding time between two readings.
pub open spec fn dec_share(
    new: GpuUsageStats,
    old: GpuUsageStats,
    time_delta_ms: u64,
) -> Option<Fraction> {
    match (new, old) {
        (
            GpuUsageStats::AmdgpuStats { dec_ns: a, .. },
            GpuUsageStats::AmdgpuStats { dec_ns: b, .. },
        ) => units::ns_fraction(a, b, time_delta_ms),
        (
            GpuUsageStats::NvidiaStats { dec_percentage, .. },
            GpuUsageStats::NvidiaStats { .. },
        ) => Some(units::percent_fraction(dec_percentage)),
        (
            GpuUsageStats::XeStats { video_cycles: a, video_total_cycles: a_total, .. },
            GpuUsageStats::XeStats { video_cycles: b, video_total_cycles: b_total, .. },
        ) => units::cycles_fraction(a, b, a_total, b_total),
        _ => None,
    }
}

/// The memory of a reading; `i915` reports none.
pub open spec fn mem_of(stats: GpuUsageStats) -> Option<u64> {
    match stats {
        GpuUsageStats::AmdgpuStats { mem_bytes, .. } => Some(mem_bytes),
        GpuUsageStats::NvidiaStats { mem_bytes, .. } => Some(mem_bytes),
        GpuUsageStats::V3dStats { mem_bytes, .. } => Some(mem_bytes),
        GpuUsageStats::XeStats { mem_bytes, .. } => Some(mem_bytes),
        GpuUsageStats::I915Stats { .. } => None,
    }
}

/// Whether two readings come from the same driver.
pub open spec fn same_driver(a: GpuUsageStats, b: GpuUsageStats) -> bool {
    ||| (a is AmdgpuStats && b is AmdgpuStats)
    ||| (a is I915Stats && b is I915Stats)
    ||| (a is NvidiaStats && b is NvidiaStats)
    ||| (a is V3dStats && b is V3dStats)
    ||| (a is XeStats && b is XeStats)
}

/// Counter by counter the larger of two readings of the same driver; the first
/// where the drivers differ.
pub open spec fn greater_of(a: GpuUsageStats, b: GpuUsageStats) -> GpuUsageStats {
    match (a, b) {
        (
            GpuUsageStats::AmdgpuStats {
                gfx_ns: a_gfx,
                enc_ns: a_enc,
                dec_ns: a_dec,
                mem_bytes: a_mem,
            },
            GpuUsageStats::AmdgpuStats {
                gfx_ns: b_gfx,
                enc_ns: b_enc,
                dec_ns: b_dec,
                mem_bytes: b_mem,
            },
        ) => GpuUsageStats::AmdgpuStats {
            gfx_ns: number::larger(a_gfx, b_gfx),
            enc_ns: number::larger(a_enc, b_enc),
            dec_ns: number::larger(a_dec, b_dec),
            mem_bytes: number::larger(a_mem, b_mem),
        },
        (
            GpuUsageStats::I915Stats { gfx_ns: a_gfx, video_ns: a_video },
            GpuUsageStats::I915Stats { gfx_ns: b_gfx, video_ns: b_video },
        ) => GpuUsageStats::I915Stats {
            gfx_ns: number::larger(a_gfx, b_gfx),
            video_ns: number::larger(a_video, b_video),
        },
        (
            GpuUsageStats::NvidiaStats {
                gfx_percentage: a_gfx,
                enc_percentage: a_enc,
                dec_percentage: a_dec,
                mem_bytes: a_mem,
            },
            GpuUsageStats::NvidiaStats {
                gfx_percentage: b_gfx,
                enc_percentage: b_enc,
                dec_percentage: b_dec,
                mem_bytes: b_mem,
            },
        ) => GpuUsageStats::NvidiaStats {
            gfx_percentage: units::larger_percentage(a_gfx, b_gfx),
            enc_percentage: units::larger_percentage(a_enc, b_enc),
            dec_percentage: units::larger_percentage(a_dec, b_dec),
            mem_bytes: number::larger(a_mem, b_mem),
        },
        (
            GpuUsageStats::V3dStats { gfx_ns: a_gfx, mem_bytes: a_mem },
            GpuUsageStats::V3dStats { gfx_ns: b_gfx, mem_bytes: b_mem },
        ) => GpuUsageStats::V3dStats {
            gfx_ns: number::larger(a_gfx, b_gfx),
            mem_bytes: number::larger(a_mem, b_mem),
        },
        (
            GpuUsageStats::XeStats {
                gfx_cycles: a_gfx,
                gfx_total_cycles: a_gfx_total,
                compute_cycles: a_compute,
                compute_total_cycles: a_compute_total,
                video_cycles: a_video,
                video_total_cycles: a_video_total,
                mem_bytes: a_mem,
            },
            GpuUsageStats::XeStats {
                gfx_cycles: b_gfx,
                gfx_total_cycles: b_gfx_total,
                compute_cycles: b_compute,
                compute_total_cycles: b_compute_total,
                video_cycles: b_video,
                video_total_cycles: b_video_total,
                mem_bytes: b_mem,
            },
        ) => GpuUsageStats::XeStats {
            gfx_cycles: number::larger(a_gfx, b_gfx),
            gfx_total_cycles: number::larger(a_gfx_total, b_gfx_total),
            compute_cycles: number::larger(a_compute, b_compute),
            compute_total_cycles: number::larger(a_compute_total, b_compute_total),
            video_cycles: number::larger(a_video, b_video),
            video_total_cycles: number::larger(a_video_total, b_video_total),
            mem_bytes: number::larger(a_mem, b_mem),
        },
        _ => a,
    }
}

/// A reading of a GPU whose media engine encodes and decodes alike: the two
/// counters of `amdgpu` are the larger of both.
pub open spec fn combined_media(stats: GpuUsageStats) -> GpuUsageStats {
    match stats {
        GpuUsageStats::AmdgpuStats { gfx_ns, enc_ns, dec_ns, mem_bytes } => {
            GpuUsageStats::AmdgpuStats {
                gfx_ns,
                enc_ns: number::larger(enc_ns, dec_ns),
                dec_ns: number::larger(enc_ns, dec_ns),
                mem_bytes,
            }
        },
        _ => stats,
    }
}

impl GpuUsageStats {
    /// The share of graphics time since the reading `old`.
    pub fn gfx_fraction(&self, old: &Self, time_delta_ms: u64) -> (r: Option<Fraction>)
        ensures
            r == gfx_share(*self, *old, time_delta_ms),
    {
        match (*self, *old) {
            (
                GpuUsageStats::AmdgpuStats { gfx_ns: a, .. },
                GpuUsageStats::AmdgpuStats { gfx_ns: b, .. },
            ) => units::ns_delta_to_usage_fraction(a, b, time_delta_ms),
            (
                GpuUsageStats::I915Stats { gfx_ns: a, .. },
                GpuUsageStats::I915Stats { gfx_ns: b, .. },
            ) => units::ns_delta_to_usage_fraction(a, b, time_delta_ms),
            (
                GpuUsageStats::V3dStats { gfx_ns: a, .. },
                GpuUsageStats::V3dStats { gfx_ns: b, .. },
            ) => units::ns_delta_to_usage_fraction(a, b, time_delta_ms),
            (
                GpuUsageStats::NvidiaStats { gfx_percentage, .. },
                GpuUsageStats::NvidiaStats { .. },
            ) => Some(gfx_percentage.fraction()),
            (
                GpuUsageStats::XeStats {
                    gfx_cycles: a_gfx,
                    gfx_total_cycles: a_gfx_total,
                    compute_cycles: a_compute,
                    compute_total_cycles: a_compute_total,
                    ..
                },
                GpuUsageStats::XeStats {
                    gfx_cycles: b_gfx,
                    gfx_total_cycles: b_gfx_total,
                    compute_cycles: b_compute,
                    compute_total_cycles: b_compute_total,
                    ..
                },
            ) => units::max_option(
                units::cycles_delta_to_usage_fraction(a_gfx, b_gfx, a_gfx_total, b_gfx_total),
                units::cycles_delta_to_usage_fraction(
                    a_compute,
                    b_compute,
                    a_compute_total,
                    b_compute_total,
                ),
            ),
            _ => None,
        }
    }

    /// The share of video encoding time since the reading `old`.
    pub fn enc_fraction(&self, old: &Self, time_delta_ms: u64) -> (r: Option<Fraction>)
        ensures
            r == enc_share(*self, *old, time_delta_ms),
    {
        match (*self, *old) {
            (
                GpuUsageStats::AmdgpuStats { enc_ns: a, .. },
                GpuUsageStats::AmdgpuStats { enc_ns: b, .. },
            ) => units::ns_delta_to_usage_fraction(a, b, time_delta_ms),
            (
                GpuUsageStats::I915Stats { video_ns: a, .. },
                GpuUsageStats::I915Stats { video_ns: b, .. },
            ) => units::ns_delta_to_usage_fraction(a, b, time_delta_ms),
            (
                GpuUsageStats::NvidiaStats { enc_percentage, .. },
                GpuUsageStats::NvidiaStats { .. },
            ) => Some(enc_percentage.fraction()),
            (
                GpuUsageStats::XeStats { video_cycles: a, video_total_cycles: a_total, .. },
                GpuUsageStats::XeStats { video_cycles: b, video_total_cycles: b_total, .. },
            ) => units::cycles_delta_to_usage_fraction(a, b, a_total, b_total),
            _ => None,
        }
    }

    /// The share of video decoding time since the reading `old`.
    pub fn dec_fraction(&self, old: &Self, time_delta_ms: u64) -> (r: Option<Fraction>)
        ensures
            r == dec_share(*self, *old, time_delta_ms),
    {
        match (*self, *old) {
            (
                GpuUsageStats::AmdgpuStats { dec_ns: a, .. },
                GpuUsageStats::AmdgpuStats { dec_ns: b, .. },
            ) => units::ns_delta_to_usage_fraction(a, b, time_delta_ms),
            (
                GpuUsageStats::NvidiaStats { dec_percentage, .. },
                GpuUsageStats::NvidiaStats { .. },
            ) => Some(dec_percentage.fraction()),
            (
                GpuUsageStats::XeStats { video_cycles: a, video_total_cycles: a_total, .. },
                GpuUsageStats::XeStats { video_cycles: b, video_total_cycles: b_total, .. },
            ) => units::cycles_delta_to_usage_fraction(a, b, a_total, b_total),
            _ => None,
        }
    }

    /// The GPU memory in use, where the driver reports it.
    pub fn mem(&self) -> (r: Option<u64>)
        ensures
            r == mem_of(*self),
    {
        match *self {
            GpuUsageStats::AmdgpuStats { mem_bytes, .. } => Some(mem_bytes),
            GpuUsageStats::NvidiaStats { mem_bytes, .. } => Some(mem_bytes),
            GpuUsageStats::V3dStats { mem_bytes, .. } => Some(mem_bytes),
            GpuUsageStats::XeStats { mem_bytes, .. } => Some(mem_bytes),
            GpuUsageStats::I915Stats { .. } => None,
        }
    }

    /// Counter by counter the larger of two readings.
    pub fn greater(&self, other: &Self) -> (r: Self)
        ensures
            r == greater_of(*self, *other),
    {
        match (*self, *other) {
            (
                GpuUsageStats::AmdgpuStats {
                    gfx_ns: a_gfx,
                    enc_ns: a_enc,
                    dec_ns: a_dec,
                    mem_bytes: a_mem,
                },
                GpuUsageStats::AmdgpuStats {
                    gfx_ns: b_gfx,
                    enc_ns: b_enc,
                    dec_ns: b_dec,
                    mem_bytes: b_mem,
                },
            ) => GpuUsageStats::AmdgpuStats {
                gfx_ns: number::max_u64(a_gfx, b_gfx),
                enc_ns: number::max_u64(a_enc, b_enc),
                dec_ns: number::max_u64(a_dec, b_dec),
                mem_bytes: number::max_u64(a_mem, b_mem),
            },
            (
                GpuUsageStats::I915Stats { gfx_ns: a_gfx, video_ns: a_video },
                GpuUsageStats::I915Stats { gfx_ns: b_gfx, video_ns: b_video },
            ) => GpuUsageStats::I915Stats {
                gfx_ns: number::max_u64(a_gfx, b_gfx),
                video_ns: number::max_u64(a_video, b_video),
            },
            (
                GpuUsageStats::NvidiaStats {
                    gfx_percentage: a_gfx,
                    enc_percentage: a_enc,
                    dec_percentage: a_dec,
                    mem_bytes: a_mem,
                },
                GpuUsageStats::NvidiaStats {
                    gfx_percentage: b_gfx,
                    enc_percentage: b_enc,
                    dec_percentage: b_dec,
                    mem_bytes: b_mem,
                },
            ) => GpuUsageStats::NvidiaStats {
                gfx_percentage: a_gfx.max_of(b_gfx),
                enc_percentage: a_enc.max_of(b_enc),
                dec_percentage: a_dec.max_of(b_dec),
                mem_bytes: number::max_u64(a_mem, b_mem),
            },
            (
                GpuUsageStats::V3dStats { gfx_ns: a_gfx, mem_bytes: a_mem },
                GpuUsageStats::V3dStats { gfx_ns: b_gfx, mem_bytes: b_mem },
            ) => GpuUsageStats::V3dStats {
                gfx_ns: number::max_u64(a_gfx, b_gfx),
                mem_bytes: number::max_u64(a_mem, b_mem),
            },
            (
                GpuUsageStats::XeStats {
                    gfx_cycles: a_gfx,
                    gfx_total_cycles: a_gfx_total,
                    compute_cycles: a_compute,
                    compute_total_cycles: a_compute_total,
                    video_cycles: a_video,
                    video_total_cycles: a_video_total,
                    mem_bytes: a_mem,
                },
                GpuUsageStats::XeStats {
                    gfx_cycles: b_gfx,
                    gfx_total_cycles: b_gfx_total,
                    compute_cycles: b_compute,
                    compute_total_cycles: b_compute_total,
                    video_cycles: b_video,
                    video_total_cycles: b_video_total,
                    mem_bytes: b_mem,
                },
            ) => GpuUsageStats::XeStats {
                gfx_cycles: number::max_u64(a_gfx, b_gfx),
                gfx_total_cycles: number::max_u64(a_gfx_total, b_gfx_total),
                compute_cycles: number::max_u64(a_compute, b_compute),
                compute_total_cycles: number::max_u64(a_compute_total, b_compute_total),
                video_cycles: number::max_u64(a_video, b_video),
                video_total_cycles: number::max_u64(a_video_total, b_video_total),
                mem_bytes: number::max_u64(a_mem, b_mem),
            },
            _ => *self,
        }
    }

    /// The reading with the video counters of a combined media engine made equal.
    pub fn with_combined_media(&self) -> (r: Self)
        ensures
            r == combined_media(*self),
    {
        match *self {
            GpuUsageStats::AmdgpuStats { gfx_ns, enc_ns, dec_ns, mem_bytes } => {
                let video_ns: u64 = number::max_u64(enc_ns, dec_ns);
                GpuUsageStats::AmdgpuStats { gfx_ns, enc_ns: video_ns, dec_ns: video_ns, mem_bytes }
            },
            _ => *self,
        }
    }
}

/// Merging a reading with itself changes nothing.
pub proof fn greater_idempotent(a: GpuUsageStats)
    ensures
        greater_of(a, a) == a,
{
}

/// Readings of the same driver merge in either order.
pub proof fn greater_commutes(a: GpuUsageStats, b: GpuUsageStats)
    requires
        same_driver(a, b),
    ensures
        greater_of(a, b) == greater_of(b, a),
{
    if let GpuUsageStats::NvidiaStats {
        gfx_percentage: a_gfx,
        enc_percentage: a_enc,
        dec_percentage: a_dec,
        ..
    } = a {
        if let GpuUsageStats::NvidiaStats {
            gfx_percentage: b_gfx,
            enc_percentage: b_enc,
            dec_percentage: b_dec,
            ..
        } = b {
            if a_gfx.value() == b_gfx.value() {
                IntegerPercentage::lemma_same_value(a_gfx, b_gfx);
            }
            if a_enc.value() == b_enc.value() {
                IntegerPercentage::lemma_same_value(a_enc, b_enc);
            }
            if a_dec.value() == b_dec.value() {
                IntegerPercentage::lemma_same_value(a_dec, b_dec);
            }
        }
    }
}

/// Several readings merge the same however they are grouped.
pub proof fn greater_associates(a: GpuUsageStats, b: GpuUsageStats, c: GpuUsageStats)
    requires
        same_driver(a, b),
        same_driver(b, c),
    ensures
        greater_of(greater_of(a, b), c) == greater_of(a, greater_of(b, c)),
{
}

/// A merged reading has the memory of the one that used more.
pub proof fn greater_mem(a: GpuUsageStats, b: GpuUsageStats)
    requires
        same_driver(a, b),
    ensures
        mem_of(greater_of(a, b)) == match (mem_of(a), mem_of(b)) {
            (Some(x), Some(y)) => Some(number::larger(x, y)),
            _ => None,
        },
{
}

/// Adjusting a reading for a combined media engine twice is the same as once, and makes
/// no difference to graphics or memory.
pub proof fn combined_media_idempotent(a: GpuUsageStats)
    ensures
        combined_media(combined_media(a)) == combined_media(a),
        same_driver(combined_media(a), a),
        mem_of(combined_media(a)) == mem_of(a),
        combined_media(a) matches GpuUsageStats::AmdgpuStats { enc_ns, dec_ns, .. } ==> enc_ns
            == dec_ns,
{
}

/// The part of the time that went by in which an engine was busy, by the counter of its
/// busy nanoseconds; none where no time went by.
pub open spec fn busy_part(new_ns: u64, old_ns: u64, time_delta_ms: u64) -> Option<Fraction> {
    if time_delta_ms == 0 {
        None
    } else if new_ns < old_ns {
        Some(Fraction { num: 0, den: (time_delta_ms * 1_000_000) as u128 })
    } else {
        Some(
            Fraction {
                num: (new_ns - old_ns) as u64,
                den: (time_delta_ms * 1_000_000) as u128,
            },
        )
    }
}

/// The part of the cycles that went by that were busy ones; none where no cycle went by.
pub open spec fn busy_cycles(new: u64, old: u64, new_total: u64, old_total: u64) -> Option<
    Fraction,
> {
    if new_total <= old_total {
        None
    } else if new < old {
        Some(Fraction { num: 0, den: (new_total - old_total) as u128 })
    } else {
        Some(Fraction { num: (new - old) as u64, den: (new_total - old_total) as u128 })
    }
}

/// Each engine of an AMD GPU is as busy as its own counter has grown in the time that went
/// by.
pub proof fn amdgpu_engines_by_their_counters(
    gfx: (u64, u64),
    enc: (u64, u64),
    dec: (u64, u64),
    mem: (u64, u64),
    ms: u64,
)
    ensures
        ({
            let new = GpuUsageStats::AmdgpuStats {
                gfx_ns: gfx.0,
                enc_ns: enc.0,
                dec_ns: dec.0,
                mem_bytes: mem.0,
            };
            let old = GpuUsageStats::AmdgpuStats {
                gfx_ns: gfx.1,
                enc_ns: enc.1,
                dec_ns: dec.1,
                mem_bytes: mem.1,
            };
            &&& gfx_share(new, old, ms) == busy_part(gfx.0, gfx.1, ms)
            &&& enc_share(new, old, ms) == busy_part(enc.0, enc.1, ms)
            &&& dec_share(new, old, ms) == busy_part(dec.0, dec.1, ms)
            &&& mem_of(new) == Some(mem.0)
        }),
{
}

/// Intel's `i915` and `v3d` count the time of graphics; the former that of video as well,
/// under encoding.
pub proof fn i915_and_v3d_engines_by_their_counters(
    gfx: (u64, u64),
    video: (u64, u64),
    mem: (u64, u64),
    ms: u64,
)
    ensures
        ({
            let new = GpuUsageStats::I915Stats { gfx_ns: gfx.0, video_ns: video.0 };
            let old = GpuUsageStats::I915Stats { gfx_ns: gfx.1, video_ns: video.1 };
            &&& gfx_share(new, old, ms) == busy_part(gfx.0, gfx.1, ms)
            &&& enc_share(new, old, ms) == busy_part(video.0, video.1, ms)
            &&& dec_share(new, old, ms) is None
            &&& mem_of(new) is None
        }),
        ({
            let new = GpuUsageStats::V3dStats { gfx_ns: gfx.0, mem_bytes: mem.0 };
            let old = GpuUsageStats::V3dStats { gfx_ns: gfx.1, mem_bytes: mem.1 };
            &&& gfx_share(new, old, ms) == busy_part(gfx.0, gfx.1, ms)
            &&& enc_share(new, old, ms) is None
            &&& dec_share(new, old, ms) is None
            &&& mem_of(new) == Some(mem.0)
        }),
{
}

/// NVIDIA's library tells percentages, which stand for themselves.
pub proof fn nvidia_engines_by_their_percentages(
    gfx: (IntegerPercentage, IntegerPercentage),
    enc: (IntegerPercentage, IntegerPercentage),
    dec: (IntegerPercentage, IntegerPercentage),
    mem: (u64, u64),
    ms: u64,
)
    ensures
        ({
            let new = GpuUsageStats::NvidiaStats {
                gfx_percentage: gfx.0,
                enc_percentage: enc.0,
                dec_percentage: dec.0,
                mem_bytes: mem.0,
            };
            let old = GpuUsageStats::NvidiaStats {
                gfx_percentage: gfx.1,
                enc_percentage: enc.1,
                dec_percentage: dec.1,
                mem_bytes: mem.1,
            };
            &&& gfx_share(new, old, ms) == Some(Fraction { num: gfx.0.value() as u64, den: 100 })
            &&& enc_share(new, old, ms) == Some(Fraction { num: enc.0.value() as u64, den: 100 })
            &&& dec_share(new, old, ms) == Some(Fraction { num: dec.0.value() as u64, den: 100 })
            &&& mem_of(new) == Some(mem.0)
        }),
{
}

/// Intel's `xe` counts cycles. The larger part of graphics and compute counts as graphics,
/// and video counts both as encoding and as decoding.
pub proof fn xe_engines_by_their_cycles(
    gfx: (u64, u64),
    gfx_total: (u64, u64),
    compute: (u64, u64),
    compute_total: (u64, u64),
    video: (u64, u64),
    video_total: (u64, u64),
    mem: (u64, u64),
    ms: u64,
)
    ensures
        ({
            let new = GpuUsageStats::XeStats {
                gfx_cycles: gfx.0,
                gfx_total_cycles: gfx_total.0,
                compute_cycles: compute.0,
                compute_total_cycles: compute_total.0,
                video_cycles: video.0,
                video_total_cycles: video_total.0,
                mem_bytes: mem.0,
            };
            let old = GpuUsageStats::XeStats {
                gfx_cycles: gfx.1,
                gfx_total_cycles: gfx_total.1,
                compute_cycles: compute.1,
                compute_total_cycles: compute_total.1,
                video_cycles: video.1,
                video_total_cycles: video_total.1,
                mem_bytes: mem.1,
            };
            let gfx_part = busy_cycles(gfx.0, gfx.1, gfx_total.0, gfx_total.1);
            let compute_part = busy_cycles(compute.0, compute.1, compute_total.0, compute_total.1);
            &&& match (gfx_part, compute_part) {
                (Some(x), Some(y)) => {
                    &&& gfx_share(new, old, ms) == gfx_part || gfx_share(new, old, ms) == compute_part
                    &&& gfx_share(new, old, ms) matches Some(f) && f.num * x.den >= x.num * f.den
                        && f.num * y.den >= y.num * f.den
                },
                (Some(_), None) => gfx_share(new, old, ms) == gfx_part,
                (None, _) => gfx_share(new, old, ms) == compute_part,
            }
            &&& enc_share(new, old, ms) == busy_cycles(
                video.0,
                video.1,
                video_total.0,
                video_total.1,
            )
            &&& dec_share(new, old, ms) == busy_cycles(
                video.0,
                video.1,
                video_total.0,
                video_total.1,
            )
            &&& mem_of(new) == Some(mem.0)
        }),
{
}

/// Readings of different drivers cannot be compared.
pub proof fn drivers_are_not_compared(new: GpuUsageStats, old: GpuUsageStats, ms: u64)
    requires
        !same_driver(new, old),
    ensures
        gfx_share(new, old, ms) is None,
        enc_share(new, old, ms) is None,
        dec_share(new, old, ms) is None,
        greater_of(new, old) == new,
{
}

/// Whether a number is the larger of two.
pub open spec fn is_larger(r: u64, a: u64, b: u64) -> bool {
    r >= a && r >= b && (r == a || r == b)
}

/// Whether a percentage is the larger of two.
pub open spec fn is_larger_percentage(
    r: IntegerPercentage,
    a: IntegerPercentage,
    b: IntegerPercentage,
) -> bool {
    r.value() >= a.value() && r.value() >= b.value() && (r == a || r == b)
}

/// Of two readings of the same driver each counter counts with the larger value.
pub proof fn greater_counts_every_counter(a: GpuUsageStats, b: GpuUsageStats)
    ensures
        a is AmdgpuStats && b is AmdgpuStats ==> {
            &&& greater_of(a, b) is AmdgpuStats
            &&& is_larger(
                greater_of(a, b)->AmdgpuStats_gfx_ns,
                a->AmdgpuStats_gfx_ns,
                b->AmdgpuStats_gfx_ns,
            )
            &&& is_larger(
                greater_of(a, b)->AmdgpuStats_enc_ns,
                a->AmdgpuStats_enc_ns,
                b->AmdgpuStats_enc_ns,
            )
            &&& is_larger(
                greater_of(a, b)->AmdgpuStats_dec_ns,
                a->AmdgpuStats_dec_ns,
                b->AmdgpuStats_dec_ns,
            )
            &&& is_larger(
                greater_of(a, b)->AmdgpuStats_mem_bytes,
                a->AmdgpuStats_mem_bytes,
                b->AmdgpuStats_mem_bytes,
            )
        },
        a is I915Stats && b is I915Stats ==> {
            &&& greater_of(a, b) is I915Stats
            &&& is_larger(
                greater_of(a, b)->I915Stats_gfx_ns,
                a->I915Stats_gfx_ns,
                b->I915Stats_gfx_ns,
            )
            &&& is_larger(
                greater_of(a, b)->I915Stats_video_ns,
                a->I915Stats_video_ns,
                b->I915Stats_video_ns,
            )
        },
        a is V3dStats && b is V3dStats ==> {
            &&& greater_of(a, b) is V3dStats
            &&& is_larger(
                greater_of(a, b)->V3dStats_gfx_ns,
                a->V3dStats_gfx_ns,
                b->V3dStats_gfx_ns,
            )
            &&& is_larger(
                greater_of(a, b)->V3dStats_mem_bytes,
                a->V3dStats_mem_bytes,
                b->V3dStats_mem_bytes,
            )
        },
        a is NvidiaStats && b is NvidiaStats ==> {
            &&& greater_of(a, b) is NvidiaStats
            &&& is_larger_percentage(
                greater_of(a, b)->NvidiaStats_gfx_percentage,
                a->NvidiaStats_gfx_percentage,
                b->NvidiaStats_gfx_percentage,
            )
            &&& is_larger_percentage(
                greater_of(a, b)->NvidiaStats_enc_percentage,
                a->NvidiaStats_enc_percentage,
                b->NvidiaStats_enc_percentage,
            )
            &&& is_larger_percentage(
                greater_of(a, b)->NvidiaStats_dec_percentage,
                a->NvidiaStats_dec_percentage,
                b->NvidiaStats_dec_percentage,
            )
            &&& is_larger(
                greater_of(a, b)->NvidiaStats_mem_bytes,
                a->NvidiaStats_mem_bytes,
                b->NvidiaStats_mem_bytes,
            )
        },
{
}

/// Of two readings of `xe` each counter counts with the larger value.
pub proof fn greater_counts_every_cycle(a: GpuUsageStats, b: GpuUsageStats)
    requires
        a is XeStats,
        b is XeStats,
    ensures
        greater_of(a, b) is XeStats,
        is_larger(
            greater_of(a, b)->XeStats_gfx_cycles,
            a->XeStats_gfx_cycles,
            b->XeStats_gfx_cycles,
        ),
        is_larger(
            greater_of(a, b)->XeStats_gfx_total_cycles,
            a->XeStats_gfx_total_cycles,
            b->XeStats_gfx_total_cycles,
        ),
        is_larger(
            greater_of(a, b)->XeStats_compute_cycles,
            a->XeStats_compute_cycles,
            b->XeStats_compute_cycles,
        ),
        is_larger(
            greater_of(a, b)->XeStats_compute_total_cycles,
            a->XeStats_compute_total_cycles,
            b->XeStats_compute_total_cycles,
        ),
        is_larger(
            greater_of(a, b)->XeStats_video_cycles,
            a->XeStats_video_cycles,
            b->XeStats_video_cycles,
        ),
        is_larger(
            greater_of(a, b)->XeStats_video_total_cycles,
            a->XeStats_video_total_cycles,
            b->XeStats_video_total_cycles,
        ),
        is_larger(
            greater_of(a, b)->XeStats_mem_bytes,
            a->XeStats_mem_bytes,
            b->XeStats_mem_bytes,
        ),
{
}

/// A combined media engine is as busy encoding and decoding as the larger of its two
/// counters says; readings of other drivers stay as they are.
pub proof fn combined_media_takes_larger_counter(a: GpuUsageStats)
    ensures
        a is AmdgpuStats ==> {
            &&& combined_media(a) is AmdgpuStats
            &&& combined_media(a)->AmdgpuStats_gfx_ns == a->AmdgpuStats_gfx_ns
            &&& combined_media(a)->AmdgpuStats_mem_bytes == a->AmdgpuStats_mem_bytes
            &&& is_larger(
                combined_media(a)->AmdgpuStats_enc_ns,
                a->AmdgpuStats_enc_ns,
                a->AmdgpuStats_dec_ns,
            )
            &&& combined_media(a)->AmdgpuStats_dec_ns == combined_media(a)->AmdgpuStats_enc_ns
        },
        !(a is AmdgpuStats) ==> combined_media(a) == a,
{
}

/// A GPU is called by its address, or by its number where it has none.
pub proof fn gpu_called_by_address_or_number(slot: PciSlot, number: usize)
    ensures
        identifier_text(GpuIdentifier::PciSlot(slot)) == pci_slot::slot_text(slot),
        identifier_text(GpuIdentifier::Enumerator(number)) == number::number_text(
            number as int,
            10,
        ),
{
}

} // verus!
