use resources::fd_scan::{FdCaches, FdEntry, FdListing};
use resources::fdinfo::FdKey;
use resources::gpu_usage::{GpuIdentifier, GpuUsageStats};
use resources::npu_usage::NpuUsageStats;
use resources::nvidia::NvidiaSnapshot;
use resources::pci_slot::PciSlot;
use resources::proc_files::{StatError, StatusError};
use resources::process_data::{
    environment_value, fill_pss, is_npu_process, is_process_dir, pids_with_mapped_rss, pss_plans,
    username_for_uid, Containerization, ProcFiles, ProcessData, ProcessDataError, ProcessHead,
    ProcessSnapshot, PssMode,
};
use resources::pss::{pid_mappings, MappedProcess, Weighting};
use resources::sorted_map::SortedMap;
use resources::telemetry::{cpu_time_ns, estimate_usage, Telemetry, TelemetryProcess};
use resources::text::to_chars;

fn some(s: &str) -> Option<String> {
    Some(s.to_string())
}

fn files(pid: &str, comm: &str, cmdline: &str) -> ProcFiles {
    ProcFiles {
        dir_name: some(pid),
        stat: Some(format!("{pid} ({comm}) S 7 42 42 0 -1 4194304 100 0 0 0 11 22 0 0 20 5 1 0 3333 1000 200\n")),
        status: some("Uid:\t1000\t1000\t1000\t1000\nVmRSS:\t4000 kB\nRssAnon:\t1000 kB\nRssFile:\t2000 kB\nRssShmem:\t500 kB\nCpus_allowed:\t3\n"),
        comm: Some(format!("{comm}\n")),
        cmdline: Some(cmdline.to_string()),
        io: some("read_bytes: 10\nwrite_bytes: 20\n"),
        smaps_rollup: some("Pss:   9 kB\n"),
        cgroup: some("0::/user.slice/app.slice/app-flatpak-org.gnome.Maps-77.scope\n"),
        environ: some("HOME=/root\0SteamAppId=440\0APPIMAGE=/opt/a.AppImage\0"),
        portable_file: false,
        flatpak_file: false,
    }
}

fn users() -> SortedMap<u32, String> {
    let mut users = SortedMap::new();
    users.insert(1000, "anna".to_string());
    users
}

fn all(entries: Vec<FdEntry>) -> FdListing {
    FdListing { entries, complete: true }
}

fn read(files: &ProcFiles, listing: &FdListing, telemetry: &Option<Telemetry>) -> Result<ProcessData, ProcessDataError> {
    ProcessData::try_from_path(
        files,
        listing,
        &mut FdCaches::new(),
        &users(),
        2,
        true,
        &NvidiaSnapshot::new(vec![]),
        telemetry,
        100,
        5555,
    )
}

#[test]
fn a_process_is_read() {
    let listing = all(vec![FdEntry {
        file_name: some("3"),
        link: Some(b"/dev/dri/renderD128".to_vec()),
        content: some("drm-driver: v3d\ndrm-engine-render: 5 ns\ndrm-total-memory: 1 KiB\n"),
    }]);
    let p = read(&files("42", "maps", "/usr/bin/maps\0--all\0"), &listing, &None).unwrap();
    assert_eq!((p.pid, p.parent_pid), (42, 7));
    assert_eq!(p.user, "anna");
    assert_eq!(p.comm, "maps");
    assert_eq!(p.commandline, "/usr/bin/maps\0--all\0");
    assert_eq!((p.user_cpu_time, p.system_cpu_time, p.starttime), (11, 22, 3333));
    assert_eq!(p.niceness.into_inner(), 5);
    assert_eq!(p.affinity, vec![true, true]);
    assert_eq!((p.rss, p.rss_anon, p.rss_file, p.rss_shmem), (4096000, 1024000, 2048000, 512000));
    assert_eq!(p.pss, Some(9216));
    assert_eq!(p.cgroup, some("org.gnome.Maps"));
    assert_eq!(p.containerization, Containerization::Flatpak);
    assert_eq!((p.read_bytes, p.write_bytes), (Some(10), Some(20)));
    assert_eq!(p.timestamp, 5555);
    assert_eq!(p.appimage_path, some("/opt/a.AppImage"));
    assert_eq!(p.steam_appid, Some(440));
    assert_eq!(
        p.gpu_usage_stats.get(&GpuIdentifier::Enumerator(0)),
        Some(&GpuUsageStats::V3dStats { gfx_ns: 5, mem_bytes: 1024 })
    );
    assert!(p.npu_usage_stats.is_empty());
}

#[test]
fn every_obstacle_has_an_error() {
    let base = || files("42", "maps", "maps");
    let error = |f: ProcFiles| read(&f, &all(vec![]), &None).err().unwrap();
    assert_eq!(error(ProcFiles { dir_name: None, ..base() }), ProcessDataError::NoName);
    assert_eq!(error(ProcFiles { dir_name: some("self"), ..base() }), ProcessDataError::InvalidPid);
    assert_eq!(error(ProcFiles { stat: None, ..base() }), ProcessDataError::Unreadable);
    assert_eq!(error(ProcFiles { status: None, ..base() }), ProcessDataError::Unreadable);
    assert_eq!(error(ProcFiles { comm: None, ..base() }), ProcessDataError::Unreadable);
    assert_eq!(error(ProcFiles { cmdline: None, ..base() }), ProcessDataError::Unreadable);
    assert_eq!(error(ProcFiles { stat: some("42"), ..base() }), ProcessDataError::Stat(StatError::WrongFormat));
    assert_eq!(
        error(ProcFiles { status: some("Uid:\t99999999999\n"), ..base() }),
        ProcessDataError::Status(StatusError::InvalidUid)
    );
}

#[test]
fn an_unreadable_process_leaves_the_caches() {
    let mut caches = FdCaches::new();
    caches.non_gpu.insert(FdKey { pid: 1, fd: 1 }, ());
    let listing = all(vec![FdEntry { file_name: some("3"), link: Some(b"/tmp/x".to_vec()), content: None }]);
    let f = ProcFiles { stat: None, ..files("42", "maps", "maps") };
    let nvidia = NvidiaSnapshot::new(vec![]);
    let r = ProcessData::try_from_path(&f, &listing, &mut caches, &users(), 2, true, &nvidia, &None, 100, 5555);
    assert!(r.is_err());
    assert_eq!(caches.non_gpu.len(), 1);
    assert!(caches.non_npu.is_empty() && caches.symlinks.is_empty());
}

#[test]
fn descriptors_that_cannot_be_listed_to_the_end_tell_nothing() {
    let gpu = FdEntry {
        file_name: some("3"),
        link: Some(b"/dev/dri/renderD128".to_vec()),
        content: some("drm-driver: v3d\ndrm-engine-render: 5 ns\n"),
    };
    let mut caches = FdCaches::new();
    let listing = FdListing { entries: vec![gpu], complete: false };
    let nvidia = NvidiaSnapshot::new(vec![]);
    let f = files("42", "maps", "maps");
    let p = ProcessData::try_from_path(&f, &listing, &mut caches, &users(), 2, true, &nvidia, &None, 100, 5555);
    assert!(p.unwrap().gpu_usage_stats.is_empty());
    assert_eq!(caches.cached_target(FdKey { pid: 42, fd: 3 }), Some(b"/dev/dri/renderD128".to_vec()));
    assert!(caches.non_npu.is_empty());
}

#[test]
fn a_useless_descriptor_is_not_read_again() {
    let mut caches = FdCaches::new();
    let link = Some(b"/tmp/x".to_vec());
    let listing = all(vec![FdEntry { file_name: some("3"), link: link.clone(), content: some("pos: 0\n") }]);
    let key = FdKey { pid: 42, fd: 3 };
    assert!(caches.worth_reading(key, &link));
    let nvidia = NvidiaSnapshot::new(vec![]);
    let f = files("42", "maps", "maps");
    let r = ProcessData::try_from_path(&f, &listing, &mut caches, &users(), 2, true, &nvidia, &None, 100, 5555);
    assert!(r.is_ok());
    assert!(!caches.worth_reading(key, &link));
}

#[test]
fn what_is_optional_may_be_missing() {
    let f = ProcFiles {
        io: None,
        smaps_rollup: None,
        cgroup: None,
        environ: None,
        ..files("42", "maps", "")
    };
    let head = ProcessHead::read(&f, &SortedMap::new(), 2, true).unwrap();
    assert_eq!(head.user, "1000");
    assert_eq!(head.pss, None);
    assert_eq!(head.cgroup, None);
    assert_eq!(head.io.read_bytes, None);
    assert_eq!(head.appimage_path, None);
    assert_eq!(head.containerization, Containerization::Host);
    let unasked = ProcessHead::read(&files("42", "maps", ""), &users(), 2, false).unwrap();
    assert_eq!(unasked.pss, None);
}

#[test]
fn containers_are_recognised() {
    let detect = Containerization::detect;
    assert_eq!(detect(true, true, "/snap/x", "flatpak", true), Containerization::Snap);
    assert_eq!(detect(true, true, "x", "snap", true), Containerization::Snap);
    assert_eq!(detect(true, true, "x", "", true), Containerization::Portable);
    assert_eq!(detect(false, true, "x", "portable", true), Containerization::Portable);
    assert_eq!(detect(false, true, "x", "", true), Containerization::Flatpak);
    assert_eq!(detect(false, false, "x", "flatpak", true), Containerization::Flatpak);
    assert_eq!(detect(false, false, "x", "", true), Containerization::AppImage);
    assert_eq!(detect(false, false, "x", "", false), Containerization::Host);
    assert_eq!(Containerization::default(), Containerization::Host);
}

#[test]
fn users_without_a_name_go_by_number() {
    assert_eq!(username_for_uid(&users(), 1000), "anna");
    assert_eq!(username_for_uid(&users(), 0), "0");
}

#[test]
fn the_last_value_of_a_variable_counts() {
    let entries = vec![to_chars("A=1"), to_chars("B"), to_chars("A=2=3"), to_chars("AB=4")];
    assert_eq!(environment_value(&entries, "A"), some("2=3"));
    assert_eq!(environment_value(&entries, "B"), None);
    assert_eq!(environment_value(&entries, "C"), None);
}

#[test]
fn npu_processes_are_known_by_name() {
    assert!(is_npu_process("flm-real", ""));
    assert!(is_npu_process("x", "/opt/npu/run"));
    assert!(is_npu_process("xrt", ""));
    assert!(is_npu_process("x", "lemonade_test"));
    assert!(is_npu_process("x", "xrt_smi"));
    assert!(!is_npu_process("bash", "bash"));
    assert!(!is_npu_process("flm-real", "npu-data-exporter"));
    assert!(!is_npu_process("resources", "/opt/npu/run"));
}

const JSON: &str = r#"{"timestamp": 97, "processes": [{"pid": 1}, {"pid": 42, "memory_bytes": 123, "proc_ns": 456}, {"pid": 43, "proc_ns": "x"}]}"#;

#[test]
fn telemetry_is_read() {
    let t = Telemetry::parse(JSON);
    assert_eq!(t.timestamp, Some(97));
    assert_eq!(
        t.processes,
        vec![
            TelemetryProcess { pid: Some(1), memory_bytes: None, proc_ns: None },
            TelemetryProcess { pid: Some(42), memory_bytes: Some(123), proc_ns: Some(456) },
            TelemetryProcess { pid: Some(43), memory_bytes: None, proc_ns: None },
        ]
    );
    let broken = Telemetry::parse("{");
    assert_eq!(broken.timestamp, None);
    assert!(broken.processes.is_empty());
}

#[test]
fn the_estimate_takes_fresh_telemetry() {
    let npu = |usage_ns, mem_bytes| NpuUsageStats::AmdxdnaStats { usage_ns, mem_bytes };
    let t = Some(Telemetry::parse(JSON));
    assert_eq!(estimate_usage(&t, 42, 102, 1, 2), npu(456, 123));
    assert_eq!(estimate_usage(&t, 42, 90, 1, 2), npu(456, 123));
    assert_eq!(estimate_usage(&t, 43, 100, 1, 2), npu(1, 2));
    assert_eq!(estimate_usage(&t, 44, 100, 1, 2), npu(1, 2));
    assert_eq!(estimate_usage(&None, 42, 100, 1, 2), npu(1, 2));
}

#[test]
fn stale_telemetry_has_no_part_in_the_estimate() {
    let t = Some(Telemetry::parse(JSON));
    let npu = NpuUsageStats::AmdxdnaStats { usage_ns: 1, mem_bytes: 2 };
    assert_eq!(estimate_usage(&t, 42, 103, 1, 2), npu);
}

#[test]
fn clock_ticks_are_ten_milliseconds() {
    assert_eq!(cpu_time_ns(11, 22), 330_000_000);
    assert_eq!(cpu_time_ns(u64::MAX, 2), 10_000_000);
    assert_eq!(cpu_time_ns(u64::MAX / 2, 0), u64::MAX);
}

#[test]
fn a_process_without_descriptors_is_estimated() {
    let t = Some(Telemetry::parse(JSON));
    let p = read(&files("42", "flm-real", "/opt/flm-real"), &all(vec![]), &t).unwrap();
    assert_eq!(
        p.npu_usage_stats.entries(),
        &vec![(PciSlot::default(), NpuUsageStats::AmdxdnaStats { usage_ns: 456, mem_bytes: 123 })]
    );
    let p = read(&files("50", "flm-real", "/opt/flm-real"), &all(vec![]), &t).unwrap();
    assert_eq!(
        p.npu_usage_stats.entries(),
        &vec![(PciSlot::default(), NpuUsageStats::AmdxdnaStats { usage_ns: 330_000_000, mem_bytes: 4096000 })]
    );
}

#[test]
fn a_monitor_uses_no_npu() {
    let p = read(&files("42", "resources", "/opt/npu/x"), &all(vec![]), &None).unwrap();
    assert!(p.npu_usage_stats.is_empty());
}

#[test]
fn nvidia_counts_before_the_descriptors() {
    let id = GpuIdentifier::Enumerator(0);
    let own = GpuUsageStats::V3dStats { gfx_ns: 5, mem_bytes: 9 };
    let theirs = GpuUsageStats::V3dStats { gfx_ns: 1, mem_bytes: 1 };
    let mut gpu = SortedMap::new();
    gpu.insert(id, own);
    gpu.insert(GpuIdentifier::Enumerator(1), own);
    let mut nvidia = SortedMap::new();
    nvidia.insert(id, theirs);
    let head = ProcessHead::read(&files("42", "maps", ""), &users(), 2, false).unwrap();
    let p = ProcessData::from_usage(head, gpu, &nvidia, SortedMap::new(), &None, 0, 1);
    assert_eq!(p.gpu_usage_stats.get(&id), Some(&theirs));
    assert_eq!(p.gpu_usage_stats.get(&GpuIdentifier::Enumerator(1)), Some(&own));
}

fn snapshot(files: ProcFiles, timestamp: u64) -> ProcessSnapshot {
    ProcessSnapshot { files, listing: all(vec![]), now_secs: 100, timestamp }
}

fn sweep(list: &Vec<ProcessSnapshot>, mode: PssMode) -> Vec<ProcessData> {
    let nvidia = NvidiaSnapshot::new(vec![]);
    ProcessData::all_process_data(list, &mut FdCaches::new(), &users(), 2, mode, &nvidia, &None)
}

#[test]
fn unreadable_processes_are_left_out() {
    let list = vec![
        snapshot(files("42", "maps", ""), 1),
        snapshot(ProcFiles { stat: None, ..files("43", "maps", "") }, 2),
        snapshot(files("self", "maps", ""), 3),
        snapshot(files("44", "maps", ""), 4),
        snapshot(files("-45", "maps", ""), 5),
    ];
    let found = sweep(&list, PssMode::Exact);
    assert_eq!(found.iter().map(|p| (p.pid, p.timestamp)).collect::<Vec<_>>(), vec![(42, 1), (44, 4)]);
    assert_eq!(found[0].pss, Some(9216));
    assert_eq!(sweep(&list, PssMode::Approximate)[0].pss, None);
}

#[test]
fn every_process_gets_a_value() {
    let list = vec![
        snapshot(files("42", "maps", ""), 1),
        snapshot(ProcFiles { smaps_rollup: None, ..files("43", "maps", "") }, 2),
    ];
    let maps = || pid_mappings(&some("7f00-8000 r--p 0 103:2 77 /usr/lib/libc.so.6"));
    let mapped = || vec![
        MappedProcess { pid: 42, mappings: maps() },
        MappedProcess { pid: 43, mappings: maps() },
    ];
    let mut found = sweep(&list, PssMode::Exact);
    let plans = pss_plans(PssMode::Exact, &found, mapped());
    assert!(plans[0].is_none());
    let plan = plans[1].as_ref().unwrap();
    assert_eq!(plan.rss_anon, 1024000);
    match &plan.file {
        Weighting::Shared { raw, total, shares } => {
            assert_eq!((*raw, *total), (2048000, 0x100));
            assert_eq!(shares, &vec![(0x100, 2)]);
        }
        Weighting::Raw(_) => panic!("expected shares"),
    }
    fill_pss(&mut found, &vec![None, Some(7)]);
    assert!(found.iter().all(|p| p.pss.is_some()));
    let open = sweep(&list, PssMode::Approximate);
    assert!(pss_plans(PssMode::Approximate, &open, mapped()).iter().all(|p| p.is_some()));
    assert!(pss_plans(PssMode::Disabled, &open, mapped()).iter().all(|p| p.is_none()));
}

#[test]
fn process_directories_are_numbers() {
    assert!(is_process_dir("1"));
    assert!(is_process_dir("4294967295"));
    assert!(!is_process_dir("self"));
    assert!(!is_process_dir("-1"));
    assert!(!is_process_dir(""));
}

#[test]
fn an_exact_value_is_kept() {
    let exact = read(&files("42", "maps", ""), &all(vec![]), &None).unwrap();
    let f = ProcFiles { smaps_rollup: None, ..files("43", "maps", "") };
    let open = read(&f, &all(vec![]), &None).unwrap();
    let no_rss = ProcFiles { smaps_rollup: None, status: some("Uid:\t0\n"), ..files("44", "maps", "") };
    let empty = read(&no_rss, &all(vec![]), &None).unwrap();
    let mut list = vec![exact, open, empty];
    assert_eq!(pids_with_mapped_rss(&list), vec![42, 43]);
    assert!(list[0].pss_plan(&SortedMap::new(), &SortedMap::new()).is_none());
    assert_eq!(list[1].pss_plan(&SortedMap::new(), &SortedMap::new()).unwrap().rss_anon, 1024000);
    fill_pss(&mut list, &vec![Some(1), Some(2)]);
    assert_eq!(list[0].pss, Some(9216));
    assert_eq!(list[1].pss, Some(2));
    assert_eq!(list[2].pss, None);
}
