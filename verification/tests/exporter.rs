use resources::exporter::{
    fd_usage, is_temperature_file, power_state, scan_fdinfo, scan_fdinfos, scan_named_process,
    scan_process_fallback, select_temperature, sensor_rank, temporary_name, Exporter, FdUsage,
    NpuScan, ProcSnapshot, ProcessNpuInfo, SensorRank, TemperatureReading,
};

fn some(s: &str) -> Option<String> {
    Some(s.to_string())
}

const NPU: &str = "drm-driver:\tamdxdna\ndrm-engine-npu-amdxdna:\t500 ns\ndrm-total-memory:\t2 KiB\n";

fn snapshot(dir: &str, comm: &str, fdinfos: &[&str]) -> ProcSnapshot {
    ProcSnapshot {
        dir_name: dir.to_string(),
        fdinfos: Some(fdinfos.iter().map(|s| some(s)).collect()),
        comm: Some(format!("{comm}\n")),
        cmdline: some("/opt/x\0"),
        stat: some("9 (x) S 1 9 9 0 -1 0 0 0 0 0 11 22 0 0"),
        status: some("Name: x\nVmRSS:\t   3 kB\n"),
    }
}

fn info(pid: i32, memory_bytes: u64, proc_ns: u64) -> ProcessNpuInfo {
    ProcessNpuInfo { pid, comm: "x".to_string(), user: "unknown".to_string(), memory_bytes, proc_ns }
}

#[test]
fn descriptors_of_an_npu_are_read() {
    assert_eq!(fd_usage(NPU), FdUsage { is_npu: true, ns: 500, mem: 2048 });
    assert_eq!(
        fd_usage(" drm-driver : amdxdna_accel_driver\ndrm-engine-accel: x ns\ndrm-memory-vram: 1 KiB"),
        FdUsage { is_npu: true, ns: 0, mem: 1024 }
    );
    assert_eq!(fd_usage("drm-driver: amdgpu\ndrm-memory-vram: 1 KiB"), FdUsage { is_npu: false, ns: 0, mem: 1024 });
    assert_eq!(fd_usage("drm-engine-npu:\ndrm-engine-npu: 3\ndrm-engine-accel: 4").ns, 4);
}

#[test]
fn a_process_counts_its_largest_descriptor() {
    let p = snapshot("9", "x", &[NPU, "drm-driver: amdxdna\ndrm-engine-npu: 900 ns\n", "pos: 0"]);
    let found = scan_fdinfo(&p).unwrap();
    assert_eq!((found.pid, found.proc_ns, found.memory_bytes), (9, 900, 2048));
    assert_eq!((found.comm.as_str(), found.user.as_str()), ("x", "unknown"));
    assert!(scan_fdinfo(&snapshot("9", "x", &["pos: 0"])).is_none());
    assert!(scan_fdinfo(&snapshot("self", "x", &[NPU])).is_none());
    assert!(scan_fdinfo(&ProcSnapshot { fdinfos: None, ..snapshot("9", "x", &[]) }).is_none());
}

#[test]
fn watchers_are_not_listed() {
    assert!(scan_fdinfo(&snapshot("9", "npu-data-exporter", &[NPU])).is_none());
    assert!(scan_fdinfo(&snapshot("9", "resources", &[NPU])).is_none());
    let watcher = ProcSnapshot { cmdline: some("/opt/resources\0flm-real"), ..snapshot("9", "flm-real", &[]) };
    assert!(scan_named_process(&watcher).is_none());
}

#[test]
fn totals_are_the_sums_over_the_processes() {
    let scan = scan_fdinfos(&vec![snapshot("1", "x", &[NPU]), snapshot("2", "x", &["pos: 0"]), snapshot("3", "x", &[NPU])]);
    assert_eq!((scan.total_ns, scan.total_mem), (1000, 4096));
    assert_eq!(scan.processes.iter().map(|p| p.pid).collect::<Vec<_>>(), vec![1, 3]);
    assert!(!scan.needs_fallback());
    let empty = scan_fdinfos(&vec![]);
    assert!(empty.needs_fallback());
}

#[test]
fn workers_are_found_by_name() {
    let found = scan_named_process(&snapshot("9", "flm-real", &[])).unwrap();
    assert_eq!((found.pid, found.proc_ns, found.memory_bytes), (9, 330_000_000, 3072));
    let bare = ProcSnapshot { stat: None, status: None, ..snapshot("9", "xrt", &[]) };
    let found = scan_named_process(&bare).unwrap();
    assert_eq!((found.proc_ns, found.memory_bytes), (0, 0));
    assert!(scan_named_process(&snapshot("9", "bash", &[])).is_none());
    let by_path = ProcSnapshot { cmdline: some("/npu/run\0"), ..snapshot("9", "bash", &[]) };
    assert!(scan_named_process(&by_path).is_some());
    let scan = scan_process_fallback(&vec![snapshot("9", "flm-real", &[]), snapshot("10", "bash", &[])]);
    assert_eq!((scan.total_ns, scan.total_mem, scan.processes.len()), (330_000_000, 3072, 1));
}

fn scan_of(list: Vec<ProcessNpuInfo>) -> NpuScan {
    let mut scan = NpuScan::new();
    for p in list {
        scan.take_in(Some(p));
    }
    scan.take_in(None);
    scan
}

#[test]
fn samples_are_differences() {
    let mut e = Exporter::new();
    let first = e.sample(scan_of(vec![info(1, 10, 100)]), NpuScan::new());
    assert_eq!((first.delta_ns, first.used_memory_bytes), (None, 10));
    let second = e.sample(scan_of(vec![info(1, 20, 150)]), NpuScan::new());
    assert_eq!((second.delta_ns, second.used_memory_bytes), (Some(50), 20));
    let third = e.sample(scan_of(vec![info(1, 20, 120)]), NpuScan::new());
    assert_eq!(third.delta_ns, None);
    assert_eq!(e.last_ns, 120);
}

#[test]
fn descriptors_count_before_names() {
    let mut e = Exporter { last_ns: 1 };
    let names = scan_of(vec![info(7, 70, 700)]);
    let s = e.sample(scan_of(vec![info(1, 10, 100)]), names);
    assert_eq!((s.delta_ns, s.used_memory_bytes), (Some(99), 10));
    assert_eq!(s.processes.iter().map(|p| p.pid).collect::<Vec<_>>(), vec![1]);
    let mut e = Exporter { last_ns: 1 };
    let s = e.sample(NpuScan::new(), scan_of(vec![info(7, 70, 700)]));
    assert_eq!((s.delta_ns, s.used_memory_bytes), (Some(699), 70));
    assert_eq!(s.processes.iter().map(|p| p.pid).collect::<Vec<_>>(), vec![7]);
    let idle = scan_of(vec![info(1, 10, 0)]);
    let s = e.sample(idle, scan_of(vec![info(7, 70, 800)]));
    assert_eq!((s.delta_ns, s.used_memory_bytes), (Some(100), 10));
    assert_eq!(s.processes[0].pid, 1);
}

#[test]
fn the_preferred_sensor_comes_first() {
    assert_eq!(sensor_rank(&some("amdxdna\n")), SensorRank::Preferred);
    assert_eq!(sensor_rank(&some("k10temp")), SensorRank::Preferred);
    assert_eq!(sensor_rank(&some("amdgpu")), SensorRank::Usable);
    assert_eq!(sensor_rank(&some("acpitz")), SensorRank::Usable);
    assert_eq!(sensor_rank(&some("nvme")), SensorRank::Ignored);
    assert_eq!(sensor_rank(&None), SensorRank::Ignored);
    let r = |rank, readable| TemperatureReading { rank, readable };
    let list = vec![
        r(SensorRank::Ignored, true),
        r(SensorRank::Usable, false),
        r(SensorRank::Usable, true),
        r(SensorRank::Usable, true),
        r(SensorRank::Preferred, false),
        r(SensorRank::Preferred, true),
    ];
    assert_eq!(select_temperature(&list), Some(5));
    assert_eq!(select_temperature(&list[..5].to_vec()), Some(2));
    assert_eq!(select_temperature(&list[..2].to_vec()), None);
}

#[test]
fn names_and_states() {
    assert!(is_temperature_file("temp1_input"));
    assert!(!is_temperature_file("temp1_label"));
    assert!(!is_temperature_file("in1_input"));
    assert_eq!(power_state(&some(" suspended\n")), "suspended");
    assert_eq!(power_state(&None), "active");
    assert_eq!(temporary_name("amdxdna_npu.json"), ".amdxdna_npu.json.tmp");
}
