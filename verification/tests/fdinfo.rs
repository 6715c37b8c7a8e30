use resources::fd_scan::{collect_fdinfos, fd_number, is_device_path, FdCaches, FdEntry, FdListing, FdScan, FdScanError};
use resources::fdinfo::{
    extract_gpu_usage_from_fdinfo, extract_npu_usage_from_fdinfo, merge_gpu_usage, merge_npu_usage,
    npu_usage_stats, other_gpu_usage_stats, parse_fdinfo, sum_captured, FdKey, Fdinfo, FdinfoError,
};
use resources::gpu_usage::{GpuIdentifier, GpuUsageStats};
use resources::npu_usage::NpuUsageStats;
use resources::pci_slot::PciSlot;
use resources::sorted_map::SortedMap;

#[test]
fn test_npu_fdinfo_parsing() {
    let sample_fdinfo = "pos:\t0\nflags:\t02000002\nmnt_id:\t29\nino:\t512\ndrm-driver:\tamdxdna\ndrm-pdev:\t0000:c6:00.1\ndrm-engine-npu-amdxdna:\t123456789 ns\ndrm-total-memory:\t1048576 KiB\n";

    let parsed = parse_fdinfo(sample_fdinfo);
    let fdinfo = Fdinfo {
        pid: 1234,
        fdinfo_num: 3,
        content: parsed,
    };

    let (slot, stats) = extract_npu_usage_from_fdinfo(&fdinfo).unwrap();
    assert_eq!(slot.to_string(), "0000:c6:00.1");

    match stats {
        NpuUsageStats::AmdxdnaStats { usage_ns, mem_bytes } => {
            assert_eq!(usage_ns, 123456789);
            assert_eq!(mem_bytes, 1048576 * 1024);
        }
    }
}

fn fdinfo(pid: i32, fd: usize, content: &str) -> Fdinfo {
    Fdinfo { pid, fdinfo_num: fd, content: parse_fdinfo(content) }
}

#[test]
fn fields_are_trimmed_and_the_last_one_counts() {
    let fields = parse_fdinfo("pos:\t0\n drm-driver : xe \nno colon\na:b:c\npos: 1\n");
    assert_eq!(fields.get("pos").map(|s| s.as_str()), Some("1"));
    assert_eq!(fields.get("drm-driver").map(|s| s.as_str()), Some("xe"));
    assert_eq!(fields.get("a").map(|s| s.as_str()), Some("b:c"));
    assert!(fields.get("no colon").is_none());
}

#[test]
fn gpu_counters_of_amdgpu() {
    let f = fdinfo(1, 2, "drm-driver:\tamdgpu\ndrm-pdev:\t0000:03:00.0\ndrm-engine-gfx:\t100 ns\ndrm-engine-compute:\t20 ns\ndrm-engine-enc:\t3 ns\ndrm-engine-dec:\t4 ns\ndrm-memory-vram:\t10 KiB\ndrm-memory-gtt:\t2 KiB\n");
    let slot = PciSlot { domain: 0, bus: 3, number: 0, function: 0 };
    assert_eq!(
        extract_gpu_usage_from_fdinfo(&f),
        Ok((
            GpuIdentifier::PciSlot(slot),
            GpuUsageStats::AmdgpuStats { gfx_ns: 120, enc_ns: 3, dec_ns: 4, mem_bytes: 12 * 1024 }
        ))
    );
    assert_eq!(extract_npu_usage_from_fdinfo(&f), Err(FdinfoError::UnknownDriver));
}

#[test]
fn gpu_counters_of_the_other_drivers() {
    let i915 = fdinfo(1, 2, "drm-driver: i915\ndrm-engine-render: 5 ns\ndrm-engine-video: 6 ns\n");
    assert_eq!(
        extract_gpu_usage_from_fdinfo(&i915),
        Ok((GpuIdentifier::Enumerator(0), GpuUsageStats::I915Stats { gfx_ns: 5, video_ns: 6 }))
    );
    let v3d = fdinfo(1, 2, "drm-driver: v3d\ndrm-engine-render: 5 ns\ndrm-total-memory: 7 KiB\n");
    assert_eq!(
        extract_gpu_usage_from_fdinfo(&v3d),
        Ok((GpuIdentifier::Enumerator(0), GpuUsageStats::V3dStats { gfx_ns: 5, mem_bytes: 7168 }))
    );
    let xe = fdinfo(1, 2, "drm-driver: xe\ndrm-cycles-rcs: 1\ndrm-total-cycles-rcs: 2\ndrm-cycles-ccs: 3\ndrm-total-cycles-ccs: 4\ndrm-cycles-vcs: 5\ndrm-total-cycles-vcs: 6\ndrm-total-vram0: 1 KiB\ndrm-total-gtt: 1 KiB\n");
    assert_eq!(
        extract_gpu_usage_from_fdinfo(&xe).unwrap().1,
        GpuUsageStats::XeStats {
            gfx_cycles: 1,
            gfx_total_cycles: 2,
            compute_cycles: 3,
            compute_total_cycles: 4,
            video_cycles: 5,
            video_total_cycles: 6,
            mem_bytes: 2048,
        }
    );
}

#[test]
fn a_driver_must_be_named_and_known() {
    assert_eq!(extract_gpu_usage_from_fdinfo(&fdinfo(1, 2, "pos: 0\n")), Err(FdinfoError::NoDriver));
    assert_eq!(extract_npu_usage_from_fdinfo(&fdinfo(1, 2, "pos: 0\n")), Err(FdinfoError::NoDriver));
    assert_eq!(
        extract_gpu_usage_from_fdinfo(&fdinfo(1, 2, "drm-driver: nouveau\n")),
        Err(FdinfoError::UnknownDriver)
    );
    let npu = fdinfo(1, 2, "drm-driver: amdxdna_accel_driver\n");
    assert_eq!(extract_gpu_usage_from_fdinfo(&npu), Err(FdinfoError::UnknownDriver));
    assert_eq!(
        extract_npu_usage_from_fdinfo(&npu),
        Ok((PciSlot::default(), NpuUsageStats::AmdxdnaStats { usage_ns: 0, mem_bytes: 0 }))
    );
}

#[test]
fn captured_numbers_add_up() {
    let some = |s: &str| Some(s.to_string());
    assert_eq!(sum_captured(&vec![some("1"), None, some("x"), some("41")]), 42);
    assert_eq!(sum_captured(&vec![some("18446744073709551615"), some("2")]), 1);
    assert_eq!(sum_captured(&vec![]), 0);
}

#[test]
fn readings_of_one_gpu_are_merged() {
    let list = vec![
        fdinfo(1, 2, "drm-driver: v3d\ndrm-engine-render: 5 ns\ndrm-total-memory: 1 KiB\n"),
        fdinfo(1, 3, "pos: 0\n"),
        fdinfo(1, 4, "drm-driver: v3d\ndrm-engine-render: 3 ns\ndrm-total-memory: 2 KiB\n"),
        fdinfo(1, 5, "drm-driver: amdxdna\n"),
    ];
    let mut known: SortedMap<FdKey, ()> = SortedMap::new();
    let stats = other_gpu_usage_stats(&list, &mut known);
    assert_eq!(stats.len(), 1);
    assert_eq!(
        stats.get(&GpuIdentifier::Enumerator(0)),
        Some(&GpuUsageStats::V3dStats { gfx_ns: 5, mem_bytes: 2048 })
    );
    assert!(known.contains_key(&FdKey { pid: 1, fd: 3 }));
    assert!(known.contains_key(&FdKey { pid: 1, fd: 5 }));
    assert_eq!(known.len(), 2);

    let mut known: SortedMap<FdKey, ()> = SortedMap::new();
    let stats = npu_usage_stats(&list, &mut known);
    assert_eq!(stats.len(), 1);
    assert_eq!(known.len(), 3);
    assert!(!known.contains_key(&FdKey { pid: 1, fd: 5 }));
}

#[test]
fn the_order_of_descriptors_does_not_matter_for_npus() {
    let list = |order: [usize; 5]| -> Vec<Fdinfo> {
        let contents = [
            "drm-driver: amdxdna\ndrm-pdev: 0000:c6:00.1\ndrm-engine-npu: 5 ns\ndrm-total-memory: 1 KiB\n",
            "drm-driver: amdxdna\ndrm-pdev: 0000:c6:00.1\ndrm-engine-npu: 3 ns\ndrm-total-memory: 2 KiB\n",
            "drm-driver: amdxdna\ndrm-engine-npu: 4 ns\n",
            "pos: 0\n",
            "drm-driver: v3d\n",
        ];
        order.iter().map(|i| fdinfo(1, *i, contents[*i])).collect()
    };
    let mut known: SortedMap<FdKey, ()> = SortedMap::new();
    let stats = npu_usage_stats(&list([0, 1, 2, 3, 4]), &mut known);
    assert_eq!(
        stats.get(&PciSlot::from_str("0000:c6:00.1").unwrap()),
        Some(&NpuUsageStats::AmdxdnaStats { usage_ns: 5, mem_bytes: 2048 })
    );
    assert_eq!(stats.len(), 2);
    for order in [[4, 3, 2, 1, 0], [1, 0, 2, 3, 4], [2, 4, 1, 0, 3]] {
        let mut other: SortedMap<FdKey, ()> = SortedMap::new();
        assert_eq!(npu_usage_stats(&list(order), &mut other).entries(), stats.entries());
        assert_eq!(other.entries(), known.entries());
    }
}

#[test]
fn the_order_of_descriptors_of_one_driver_does_not_matter_for_gpus() {
    let contents = [
        "drm-driver: v3d\ndrm-engine-render: 5 ns\ndrm-total-memory: 1 KiB\n",
        "drm-driver: v3d\ndrm-engine-render: 3 ns\ndrm-total-memory: 2 KiB\n",
        "pos: 0\n",
    ];
    for order in [[0, 1, 2], [1, 0, 2], [2, 1, 0]] {
        let list: Vec<Fdinfo> = order.iter().map(|i| fdinfo(1, *i, contents[*i])).collect();
        let mut known: SortedMap<FdKey, ()> = SortedMap::new();
        assert_eq!(
            other_gpu_usage_stats(&list, &mut known).entries(),
            &vec![(GpuIdentifier::Enumerator(0), GpuUsageStats::V3dStats { gfx_ns: 5, mem_bytes: 2048 })]
        );
    }
}

#[test]
fn merging_a_reading_again_changes_nothing() {
    let id = GpuIdentifier::Enumerator(0);
    let stats = GpuUsageStats::V3dStats { gfx_ns: 5, mem_bytes: 7 };
    let mut map = SortedMap::new();
    merge_gpu_usage(&mut map, id, stats);
    merge_gpu_usage(&mut map, id, stats);
    assert_eq!(map.entries(), &vec![(id, stats)]);
    let slot = PciSlot::default();
    let stats = NpuUsageStats::AmdxdnaStats { usage_ns: 5, mem_bytes: 7 };
    let mut map = SortedMap::new();
    merge_npu_usage(&mut map, slot, stats);
    merge_npu_usage(&mut map, slot, NpuUsageStats::AmdxdnaStats { usage_ns: 6, mem_bytes: 1 });
    assert_eq!(map.entries(), &vec![(slot, NpuUsageStats::AmdxdnaStats { usage_ns: 6, mem_bytes: 7 })]);
}

fn entry(name: &str, link: Option<&str>, content: Option<&str>) -> FdEntry {
    FdEntry {
        file_name: Some(name.to_string()),
        link: link.map(|l| l.as_bytes().to_vec()),
        content: content.map(String::from),
    }
}

#[test]
fn descriptors_of_one_device_are_read_once() {
    let mut caches = FdCaches::new();
    let entries = vec![
        entry("3", Some("/dev/dri/renderD128"), Some("a: 1\n")),
        entry("4", Some("/dev/dri/renderD128"), Some("a: 2\n")),
        entry("5", Some("/dev/null"), Some("a: 3\n")),
        entry("6", None, Some("a: 4\n")),
        entry("7", Some("/tmp/x"), None),
    ];
    let found = collect_fdinfos(9, &FdListing { entries, complete: true }, &mut caches).unwrap();
    let fds: Vec<usize> = found.iter().map(|f| f.fdinfo_num).collect();
    assert_eq!(fds, vec![3, 5, 6]);
    assert!(found.iter().all(|f| f.pid == 9));
    assert_eq!(found[1].content.get("a").map(|s| s.as_str()), Some("3"));
    let unread = FdKey { pid: 9, fd: 7 };
    assert!(caches.non_gpu.contains_key(&unread) && caches.non_npu.contains_key(&unread));
    assert_eq!(caches.cached_target(FdKey { pid: 9, fd: 3 }), Some(b"/dev/dri/renderD128".to_vec()));
    assert_eq!(caches.cached_target(FdKey { pid: 9, fd: 4 }), None);
}

#[test]
fn one_target_may_be_spelled_in_several_ways() {
    let mut caches = FdCaches::new();
    let entries = vec![
        entry("3", Some("/dev/dri/renderD128"), Some("a: 1\n")),
        entry("4", Some("/dev//dri/renderD128"), Some("a: 2\n")),
        entry("5", Some("/dev/./dri/renderD128/"), Some("a: 3\n")),
        entry("6", Some("dev/dri/renderD128"), Some("a: 4\n")),
        entry("7", Some("/dev/dri/../renderD128"), Some("a: 5\n")),
    ];
    let found = collect_fdinfos(9, &FdListing { entries, complete: true }, &mut caches).unwrap();
    let fds: Vec<usize> = found.iter().map(|f| f.fdinfo_num).collect();
    assert_eq!(fds, vec![3, 6, 7]);
    assert_eq!(caches.cached_target(FdKey { pid: 9, fd: 4 }), None);
    assert_eq!(caches.cached_target(FdKey { pid: 9, fd: 7 }), Some(b"/dev/dri/../renderD128".to_vec()));
}

#[test]
fn a_listing_that_breaks_off_tells_nothing_but_fills_the_caches() {
    let mut caches = FdCaches::new();
    let entries = vec![
        entry("3", Some("/dev/dri/renderD128"), Some("a: 1\n")),
        entry("4", Some("/tmp/x"), None),
    ];
    let r = collect_fdinfos(9, &FdListing { entries, complete: false }, &mut caches);
    assert_eq!(r.err(), Some(FdScanError::Incomplete));
    assert_eq!(caches.cached_target(FdKey { pid: 9, fd: 3 }), Some(b"/dev/dri/renderD128".to_vec()));
    let unread = FdKey { pid: 9, fd: 4 };
    assert!(caches.non_gpu.contains_key(&unread) && caches.non_npu.contains_key(&unread));
}

#[test]
fn a_known_descriptor_is_passed_over_until_it_is_a_device() {
    let mut caches = FdCaches::new();
    let key = FdKey { pid: 9, fd: 3 };
    caches.non_gpu.insert(key, ());
    caches.non_npu.insert(key, ());
    assert!(!caches.worth_reading(key, &Some(b"/tmp/x".to_vec())));
    assert!(caches.worth_reading(key, &Some(b"/dev/accel/accel0".to_vec())));
    assert!(caches.worth_reading(key, &None));
    assert!(caches.worth_reading(FdKey { pid: 9, fd: 4 }, &Some(b"/tmp/x".to_vec())));
    let mut scan = FdScan::new(9);
    assert!(!scan.visit(&mut caches, 3, Some(b"/tmp/x".to_vec())));
    assert!(caches.non_gpu.contains_key(&key));
    assert!(scan.visit(&mut caches, 3, Some(b"/dev/accel/accel0".to_vec())));
    assert!(!caches.non_gpu.contains_key(&key) && !caches.non_npu.contains_key(&key));
    assert!(!scan.visit(&mut caches, 4, Some(b"/dev/accel/accel0".to_vec())));
    scan.record(&mut caches, 3, &Some(" drm-driver: amdxdna\n".to_string()));
    assert_eq!(scan.found.len(), 1);
    scan.record(&mut caches, 4, &None);
    assert!(caches.non_gpu.contains_key(&FdKey { pid: 9, fd: 4 }));
}

#[test]
fn descriptors_and_device_paths() {
    assert_eq!(fd_number(&Some("17".to_string())), 17);
    assert_eq!(fd_number(&Some("x".to_string())), 0);
    assert_eq!(fd_number(&None), 0);
    assert!(is_device_path(&b"/dev/dri/card0".to_vec()));
    assert!(is_device_path(&b"/run/host/dev/accel/accel0".to_vec()));
    assert!(!is_device_path(&b"/dev/drive".to_vec()));
    assert!(!is_device_path(&Vec::new()));
}
