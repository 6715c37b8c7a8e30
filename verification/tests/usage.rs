use resources::gpu_usage::{GpuIdentifier, GpuUsageStats};
use resources::npu_usage::NpuUsageStats;
use resources::nvidia::{
    utilization_since, MemoryUse, NvidiaReading, NvidiaSnapshot, SlotError, UtilizationSample,
};
use resources::pci_slot::PciSlot;
use resources::units::{Fraction, IntegerPercentage};

fn percent(n: u8) -> IntegerPercentage {
    IntegerPercentage::try_new(n).unwrap()
}

fn amd(gfx_ns: u64, enc_ns: u64, dec_ns: u64, mem_bytes: u64) -> GpuUsageStats {
    GpuUsageStats::AmdgpuStats { gfx_ns, enc_ns, dec_ns, mem_bytes }
}

fn xe(gfx: (u64, u64), compute: (u64, u64), video: (u64, u64), mem_bytes: u64) -> GpuUsageStats {
    GpuUsageStats::XeStats {
        gfx_cycles: gfx.0,
        gfx_total_cycles: gfx.1,
        compute_cycles: compute.0,
        compute_total_cycles: compute.1,
        video_cycles: video.0,
        video_total_cycles: video.1,
        mem_bytes,
    }
}

fn nvidia(gfx: u8, enc: u8, dec: u8, mem_bytes: u64) -> GpuUsageStats {
    GpuUsageStats::NvidiaStats {
        gfx_percentage: percent(gfx),
        enc_percentage: percent(enc),
        dec_percentage: percent(dec),
        mem_bytes,
    }
}

#[test]
fn gpus_are_named_by_address_or_number() {
    let slot = PciSlot { domain: 0, bus: 1, number: 2, function: 3 };
    assert_eq!(GpuIdentifier::PciSlot(slot).to_string(), "0000:01:02.3");
    assert_eq!(GpuIdentifier::Enumerator(12).to_string(), "12");
    assert_eq!(GpuIdentifier::default(), GpuIdentifier::Enumerator(0));
}

#[test]
fn graphics_time_of_each_driver() {
    let ms = Some(Fraction { num: 5, den: 2_000_000 });
    assert_eq!(amd(15, 0, 0, 0).gfx_fraction(&amd(10, 0, 0, 0), 2), ms);
    let i915 = |gfx_ns, video_ns| GpuUsageStats::I915Stats { gfx_ns, video_ns };
    assert_eq!(i915(15, 0).gfx_fraction(&i915(10, 0), 2), ms);
    let v3d = |gfx_ns| GpuUsageStats::V3dStats { gfx_ns, mem_bytes: 0 };
    assert_eq!(v3d(15).gfx_fraction(&v3d(10), 2), ms);
    assert_eq!(nvidia(40, 0, 0, 0).gfx_fraction(&nvidia(90, 0, 0, 0), 0), Some(Fraction { num: 40, den: 100 }));
    let new = xe((20, 100), (70, 100), (0, 0), 0);
    let old = xe((10, 0), (10, 0), (0, 0), 0);
    assert_eq!(new.gfx_fraction(&old, 0), Some(Fraction { num: 60, den: 100 }));
    assert_eq!(amd(15, 0, 0, 0).gfx_fraction(&v3d(1), 2), None);
}

#[test]
fn video_time_of_each_driver() {
    assert_eq!(amd(0, 7, 9, 0).enc_fraction(&amd(0, 2, 3, 0), 1), Some(Fraction { num: 5, den: 1_000_000 }));
    assert_eq!(amd(0, 7, 9, 0).dec_fraction(&amd(0, 2, 3, 0), 1), Some(Fraction { num: 6, den: 1_000_000 }));
    let i915 = |gfx_ns, video_ns| GpuUsageStats::I915Stats { gfx_ns, video_ns };
    assert_eq!(i915(0, 8).enc_fraction(&i915(0, 1), 1), Some(Fraction { num: 7, den: 1_000_000 }));
    assert_eq!(i915(0, 8).dec_fraction(&i915(0, 1), 1), None);
    let v3d = GpuUsageStats::V3dStats { gfx_ns: 1, mem_bytes: 1 };
    assert_eq!(v3d.enc_fraction(&v3d, 1), None);
    assert_eq!(v3d.dec_fraction(&v3d, 1), None);
    assert_eq!(nvidia(0, 1, 2, 0).enc_fraction(&nvidia(0, 0, 0, 0), 9), Some(Fraction { num: 1, den: 100 }));
    assert_eq!(nvidia(0, 1, 2, 0).dec_fraction(&nvidia(0, 0, 0, 0), 9), Some(Fraction { num: 2, den: 100 }));
    let new = xe((0, 0), (0, 0), (9, 30), 0);
    let old = xe((0, 0), (0, 0), (4, 10), 0);
    assert_eq!(new.enc_fraction(&old, 0), Some(Fraction { num: 5, den: 20 }));
    assert_eq!(new.dec_fraction(&old, 0), Some(Fraction { num: 5, den: 20 }));
}

#[test]
fn memory_is_known_but_for_i915() {
    assert_eq!(amd(0, 0, 0, 5).mem(), Some(5));
    assert_eq!(nvidia(0, 0, 0, 6).mem(), Some(6));
    assert_eq!(GpuUsageStats::V3dStats { gfx_ns: 0, mem_bytes: 7 }.mem(), Some(7));
    assert_eq!(xe((0, 0), (0, 0), (0, 0), 8).mem(), Some(8));
    assert_eq!(GpuUsageStats::I915Stats { gfx_ns: 1, video_ns: 1 }.mem(), None);
}

#[test]
fn merging_takes_the_larger_of_each_counter() {
    assert_eq!(amd(1, 20, 3, 40).greater(&amd(10, 2, 30, 4)), amd(10, 20, 30, 40));
    assert_eq!(nvidia(1, 20, 3, 40).greater(&nvidia(10, 2, 30, 4)), nvidia(10, 20, 30, 40));
    assert_eq!(
        xe((1, 20), (3, 40), (5, 60), 7).greater(&xe((10, 2), (30, 4), (50, 6), 70)),
        xe((10, 20), (30, 40), (50, 60), 70)
    );
    let i915 = |gfx_ns, video_ns| GpuUsageStats::I915Stats { gfx_ns, video_ns };
    assert_eq!(i915(1, 2).greater(&i915(2, 1)), i915(2, 2));
    let v3d = |gfx_ns, mem_bytes| GpuUsageStats::V3dStats { gfx_ns, mem_bytes };
    assert_eq!(v3d(1, 2).greater(&v3d(2, 1)), v3d(2, 2));
    assert_eq!(amd(1, 1, 1, 1).greater(&v3d(9, 9)), amd(1, 1, 1, 1));
}

#[test]
fn merging_is_idempotent_commutative_and_associative() {
    let a = amd(1, 20, 3, 40);
    let b = amd(10, 2, 30, 4);
    let c = amd(5, 5, 50, 5);
    assert_eq!(a.greater(&a), a);
    assert_eq!(a.greater(&b), b.greater(&a));
    assert_eq!(a.greater(&b).greater(&c), a.greater(&b.greater(&c)));
    let n = |usage_ns, mem_bytes| NpuUsageStats::AmdxdnaStats { usage_ns, mem_bytes };
    assert_eq!(n(1, 4).greater(&n(3, 2)), n(3, 4));
    assert_eq!(n(1, 4).greater(&n(3, 2)), n(3, 2).greater(&n(1, 4)));
}

#[test]
fn a_combined_media_engine_counts_once() {
    assert_eq!(amd(1, 2, 3, 4).with_combined_media(), amd(1, 3, 3, 4));
    assert_eq!(amd(1, 3, 2, 4).with_combined_media().with_combined_media(), amd(1, 3, 3, 4));
    assert_eq!(nvidia(1, 2, 3, 4).with_combined_media(), nvidia(1, 2, 3, 4));
}

#[test]
fn npu_time_and_memory() {
    let n = |usage_ns, mem_bytes| NpuUsageStats::AmdxdnaStats { usage_ns, mem_bytes };
    assert_eq!(n(30, 9).usage_fraction(&n(10, 9), 1), Some(Fraction { num: 20, den: 1_000_000 }));
    assert_eq!(n(30, 9).usage_fraction(&n(10, 9), 0), None);
    assert_eq!(n(30, 9).mem(), Some(9));
}

fn slot(bus: u8) -> PciSlot {
    PciSlot { domain: 0, bus, number: 0, function: 0 }
}

fn snapshot() -> NvidiaSnapshot {
    let sample = |pid, sm_util, enc_util, dec_util| UtilizationSample { pid, sm_util, enc_util, dec_util };
    NvidiaSnapshot::new(vec![
        NvidiaReading {
            slot: slot(1),
            samples: vec![sample(7, 10, 1, 2), sample(8, 90, 90, 90), sample(7, 20, 3, 4)],
            memory: vec![
                MemoryUse { pid: 7, bytes: Some(1000) },
                MemoryUse { pid: 7, bytes: None },
                MemoryUse { pid: 7, bytes: Some(24) },
                MemoryUse { pid: 9, bytes: Some(5) },
            ],
        },
        NvidiaReading { slot: slot(2), samples: vec![sample(7, 101, 0, 0)], memory: vec![] },
    ])
}

#[test]
fn nvidia_samples_of_a_process_add_up() {
    assert_eq!(snapshot().gpu_stats_for_slot(7, slot(1)), Ok(nvidia(30, 4, 6, 1024)));
    assert_eq!(snapshot().gpu_stats_for_slot(9, slot(1)), Ok(nvidia(0, 0, 0, 5)));
    assert_eq!(snapshot().gpu_stats_for_slot(7, slot(2)), Err(SlotError::ShareTooLarge));
    assert_eq!(snapshot().gpu_stats_for_slot(7, slot(3)), Err(SlotError::UnknownGpu));
}

#[test]
fn nvidia_gpus_with_statistics_are_listed() {
    let all = snapshot().gpu_usage_stats_all(7);
    assert_eq!(all.len(), 1);
    assert_eq!(all.get(&GpuIdentifier::PciSlot(slot(1))), Some(&nvidia(30, 4, 6, 1024)));
    let other = snapshot().gpu_usage_stats_all(1);
    assert_eq!(other.get(&GpuIdentifier::PciSlot(slot(2))), Some(&nvidia(0, 0, 0, 0)));
}

#[test]
fn nvidia_samples_reach_five_seconds_back() {
    assert_eq!(utilization_since(10_000), 5_000_000);
    assert_eq!(utilization_since(4_000), 0);
    assert_eq!(utilization_since(u64::MAX), u64::MAX - 5_000_000);
}
