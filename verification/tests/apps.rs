use resources::app::App;
use resources::apps::AppsContext;
use resources::association::{
    app_associated_with_process, exact_executable_match, fallback_commandline_match, find_answer,
    known_executable_name, parent_app_match, try_appimage_match, try_cgroup_match, try_snap_match,
    try_steam_appid_match, AppAssociation, SnapAnswer, SnapQuery,
};
use resources::gpu_usage::{GpuIdentifier, GpuUsageStats};
use resources::npu_usage::NpuUsageStats;
use resources::pci_slot::PciSlot;
use resources::process::{AppIcon, Process};
use resources::process_data::{Containerization, Niceness, ProcessData};
use resources::settings::MemoryMetric;
use resources::sorted_map::SortedMap;
use resources::units::Fraction;

fn some(s: &str) -> Option<String> {
    Some(s.to_string())
}

fn data(pid: i32, commandline: &str) -> ProcessData {
    ProcessData {
        pid,
        parent_pid: 1,
        user: "anna".to_string(),
        comm: "comm".to_string(),
        commandline: commandline.to_string(),
        user_cpu_time: 1,
        system_cpu_time: 2,
        niceness: Niceness::default(),
        affinity: vec![],
        rss: 1000,
        rss_shmem: 100,
        rss_anon: 300,
        rss_file: 600,
        vm_size: 5000,
        pss: None,
        swap_usage: 7,
        starttime: 50,
        cgroup: None,
        containerization: Containerization::Host,
        read_bytes: Some(10),
        write_bytes: Some(20),
        timestamp: 1000,
        gpu_usage_stats: SortedMap::new(),
        npu_usage_stats: SortedMap::new(),
        appimage_path: None,
        steam_appid: None,
    }
}

fn app(id: &str, commandline: Option<&str>, executable_name: Option<&str>) -> App {
    App {
        processes: vec![],
        commandline: commandline.map(String::from),
        executable_name: executable_name.map(String::from),
        display_name: id.to_string(),
        description: None,
        icon: AppIcon::Themed(id.to_string()),
        id: some(id),
        read_bytes_from_dead_processes: 0,
        write_bytes_from_dead_processes: 0,
        containerization: Containerization::Host,
    }
}

fn installed() -> Vec<App> {
    vec![
        app("org.maps", Some("/usr/bin/maps"), Some("maps")),
        app("firefox_firefox", Some("/snap/bin/firefox"), Some("firefox")),
        app("steam", Some("/usr/bin/steam"), Some("steam")),
        app("hl2", Some("steam"), Some("steam_440")),
        App { containerization: Containerization::AppImage, ..app("image", Some("/opt/a.AppImage"), None) },
        App::system("System".to_string()),
    ]
}

fn context() -> AppsContext {
    let mut apps = installed();
    apps.pop();
    AppsContext::new(apps, "System".to_string(), vec![])
}

fn home_of(a: AppAssociation) -> Option<String> {
    match a {
        AppAssociation::Resolved(id) => id,
        AppAssociation::Pending(_) => panic!("still pending"),
    }
}

fn process(d: ProcessData) -> Process {
    Process::from_process_data(d)
}

fn pids_of(c: &AppsContext, id: Option<&str>) -> Vec<i32> {
    c.get_app(&id.map(String::from)).unwrap().processes.clone()
}

#[test]
fn processes_know_their_executable() {
    let p = process(data(5, "/usr/bin/maps\0--all\0"));
    assert_eq!(p.executable_path, "/usr/bin/maps");
    assert_eq!(p.executable_name, "maps");
    assert_eq!(p.cpu_time_last, 3);
    assert!(matches!(&p.icon, AppIcon::Themed(name) if name == "generic-process"));
    let bare = process(data(5, ""));
    assert_eq!((bare.executable_path.as_str(), bare.executable_name.as_str()), ("", ""));
}

#[test]
fn an_update_remembers_what_was_before() {
    let mut first = data(5, "/usr/bin/maps");
    first.npu_usage_stats.insert(PciSlot::default(), NpuUsageStats::AmdxdnaStats { usage_ns: 1, mem_bytes: 2 });
    let mut second = data(5, "ignored");
    second.timestamp = 3000;
    second.user_cpu_time = 100;
    let p = process(first).updated(second);
    assert_eq!(p.executable_path, "/usr/bin/maps");
    assert_eq!((p.timestamp_last, p.data.timestamp), (1000, 3000));
    assert_eq!(p.cpu_time_last, 3);
    assert_eq!((p.read_bytes_last, p.write_bytes_last), (Some(10), Some(20)));
    assert_eq!(p.npu_usage_stats_last.len(), 1);
    assert!(p.data.npu_usage_stats.is_empty());
}

#[test]
fn memory_by_metric() {
    let mut p = process(data(5, ""));
    assert_eq!(p.mem_usage(MemoryMetric::VmSize), 5000);
    assert_eq!(p.mem_usage(MemoryMetric::Rss), 1000);
    assert_eq!(p.mem_usage(MemoryMetric::RssNoSharedMemory), 900);
    assert_eq!(p.mem_usage(MemoryMetric::RssAnon), 300);
    assert_eq!(p.mem_usage(MemoryMetric::Pss), 900);
    p.data.pss = Some(42);
    assert_eq!(p.mem_usage(MemoryMetric::Pss), 42);
    assert_eq!(p.mem_usage(MemoryMetric::ApproximatePss), 42);
}

#[test]
fn adding_and_removing_a_process() {
    let mut a = app("org.maps", None, None);
    let mut p = process(data(5, ""));
    a.processes = vec![3];
    a.add_process(&mut p);
    assert!(matches!(&p.icon, AppIcon::Themed(name) if name == "org.maps"));
    assert_eq!(a.processes, vec![3, 5]);
    assert_eq!(a.running_processes(), 2);
    a.remove_process(&p);
    assert_eq!(a.processes, vec![3]);
    assert!(a.is_running());
    a.processes.clear();
    assert!(!a.is_running());
}

#[test]
fn steam_games_go_by_their_number() {
    let mut d = data(5, "/x");
    d.steam_appid = Some(440);
    d.cgroup = some("steam");
    let p = process(d);
    assert_eq!(try_steam_appid_match(&installed(), &p).map(home_of), Some(some("hl2")));
    assert!(try_cgroup_match(&installed(), &p).is_none());
    assert_eq!(home_of(app_associated_with_process(&installed(), &p, &vec![])), some("hl2"));
    let mut other = data(5, "/x");
    other.steam_appid = Some(1);
    assert!(try_steam_appid_match(&installed(), &process(other)).is_none());
}

#[test]
fn control_groups_name_the_application() {
    let mut d = data(5, "/x");
    d.cgroup = some("steam");
    let p = process(d);
    assert_eq!(try_cgroup_match(&installed(), &p).map(home_of), Some(some("steam")));
    assert!(try_cgroup_match(&installed(), &process(data(5, "/x"))).is_none());
}

#[test]
fn app_images_go_by_their_path() {
    let mut d = data(5, "/x");
    d.appimage_path = some("/opt/a.AppImage");
    assert_eq!(try_appimage_match(&installed(), &process(d)).map(home_of), Some(some("image")));
    let mut d = data(5, "/x");
    d.appimage_path = some("/usr/bin/maps");
    assert!(try_appimage_match(&installed(), &process(d)).is_none());
}

fn snap(pid: i32) -> ProcessData {
    let mut d = data(pid, "/x");
    d.containerization = Containerization::Snap;
    d.cgroup = some("firefox.firefox");
    d
}

fn answer(id: Option<&str>) -> Vec<SnapAnswer> {
    vec![SnapAnswer {
        query: SnapQuery { snap: "firefox".to_string(), app: "firefox".to_string() },
        desktop_id: id.map(String::from),
    }]
}

#[test]
fn snaps_wait_for_an_answer() {
    let p = process(snap(5));
    match try_snap_match(&installed(), &p, &vec![]) {
        Some(AppAssociation::Pending(q)) => assert_eq!((q.snap.as_str(), q.app.as_str()), ("firefox", "firefox")),
        _ => panic!("expected a question"),
    }
    assert_eq!(try_snap_match(&installed(), &p, &answer(Some("org.maps"))).map(home_of), Some(some("org.maps")));
    assert!(try_snap_match(&installed(), &p, &answer(Some("missing"))).is_none());
    assert_eq!(try_snap_match(&installed(), &p, &answer(None)).map(home_of), Some(some("firefox_firefox")));
    assert!(try_snap_match(&installed(), &process(data(5, "/x")), &answer(None)).is_none());
    let q = SnapQuery { snap: "firefox".to_string(), app: "other".to_string() };
    assert!(find_answer(&answer(None), &q).is_none());
}

#[test]
fn executables_are_matched_by_path_and_name() {
    let mut apps = installed();
    apps.push(app("/usr/bin/tool", None, None));
    apps.push(app("tool", None, None));
    assert_eq!(exact_executable_match(&apps, &process(data(5, "/usr/bin/tool"))).map(home_of), Some(some("/usr/bin/tool")));
    assert_eq!(exact_executable_match(&apps, &process(data(5, "/opt/tool"))).map(home_of), Some(some("tool")));
    assert!(exact_executable_match(&apps, &process(data(5, "/opt/x"))).is_none());
}

#[test]
fn children_follow_their_parent() {
    let mut apps = installed();
    apps[0].processes = vec![1];
    assert_eq!(parent_app_match(&apps, &process(data(5, "/x"))).map(home_of), Some(some("org.maps")));
    apps[0].processes.clear();
    apps[5].processes = vec![1];
    assert!(parent_app_match(&apps, &process(data(5, "/x"))).is_none());
}

#[test]
fn command_lines_and_known_names_come_last() {
    assert_eq!(fallback_commandline_match(&installed(), &process(data(5, "/usr/bin/maps"))), some("org.maps"));
    assert_eq!(fallback_commandline_match(&installed(), &process(data(5, "/usr/lib/firefox-bin"))), some("firefox_firefox"));
    assert_eq!(fallback_commandline_match(&installed(), &process(data(5, "/usr/bin/unknown"))), None);
    assert_eq!(known_executable_name("soffice.bin"), Some("libreoffice"));
    assert_eq!(known_executable_name("oosplash"), Some("libreoffice"));
    assert_eq!(known_executable_name("resources-processes"), Some("resources"));
    assert_eq!(known_executable_name("gnome-terminal-server"), Some("gnome-terminal"));
    assert_eq!(known_executable_name("chrome"), Some("google-chrome-stable"));
    assert_eq!(known_executable_name("bash"), None);
}

#[test]
fn of_two_applications_with_one_identifier_the_last_counts() {
    let c = AppsContext::new(
        vec![app("a", Some("one"), None), app("b", None, None), app("a", Some("two"), None)],
        "System".to_string(),
        vec![],
    );
    assert_eq!(c.apps_iter().len(), 3);
    assert_eq!(c.get_app(&some("a")).unwrap().commandline, some("two"));
    assert_eq!(c.get_app(&None).unwrap().display_name, "System");
    assert!(c.get_app(&some("c")).is_none());
}

#[test]
fn every_process_finds_a_home() {
    let mut c = context();
    let mut child = data(7, "/x");
    child.parent_pid = 5;
    c.refresh(vec![data(5, "/usr/bin/maps"), data(6, "/sbin/init"), child], &vec![]);
    assert_eq!(pids_of(&c, Some("org.maps")), vec![5, 7]);
    assert_eq!(pids_of(&c, None), vec![6]);
    assert!(matches!(&c.get_process(7).unwrap().icon, AppIcon::Themed(name) if name == "org.maps"));
    assert_eq!(c.processes_iter().len(), 3);
    assert!(c.get_process(8).is_none());
    let running: Vec<Option<String>> = c.running_apps_iter().iter().map(|a| a.id.clone()).collect();
    assert_eq!(running, vec![some("org.maps"), None]);
}

#[test]
fn portals_are_not_listed_as_running() {
    let mut c = AppsContext::new(vec![app("xdg-desktop-portal-gnome", Some("/p"), None)], "System".to_string(), vec![]);
    c.refresh(vec![data(5, "/p")], &vec![]);
    assert_eq!(pids_of(&c, Some("xdg-desktop-portal-gnome")), vec![5]);
    assert!(c.running_apps_iter().is_empty());
}

#[test]
fn a_snap_is_placed_when_the_answer_has_come() {
    let mut c = context();
    c.refresh(vec![snap(5)], &vec![]);
    assert_eq!(c.pending_queries().len(), 1);
    assert_eq!(c.pending_queries()[0].snap, "firefox");
    assert!(c.running_apps_iter().is_empty());
    c.refresh(vec![snap(5)], &vec![]);
    assert_eq!(c.pending_queries().len(), 1);
    assert!(c.get_process(5).is_some());
    assert!(c.running_apps_iter().is_empty());
    c.refresh(vec![snap(5)], &answer(Some("org.maps")));
    assert!(c.pending_queries().is_empty());
    assert_eq!(pids_of(&c, Some("org.maps")), vec![5]);
    assert!(matches!(&c.get_process(5).unwrap().icon, AppIcon::Themed(name) if name == "org.maps"));
    c.refresh(vec![snap(5)], &answer(Some("org.maps")));
    assert_eq!(pids_of(&c, Some("org.maps")), vec![5]);
}

#[test]
fn a_waiting_process_may_die() {
    let mut c = context();
    c.refresh(vec![snap(5)], &vec![]);
    c.refresh(vec![], &vec![]);
    assert!(c.pending_queries().is_empty());
    assert!(c.processes_iter().is_empty());
}

#[test]
fn totals_outlive_processes() {
    let mut c = context();
    c.refresh(vec![data(5, "/usr/bin/maps"), data(6, "/usr/bin/maps")], &vec![]);
    let maps = c.get_app(&some("org.maps")).unwrap();
    assert_eq!((maps.read_total(&c), maps.write_total(&c)), (20, 40));
    c.refresh(vec![data(5, "/usr/bin/maps")], &vec![]);
    let maps = c.get_app(&some("org.maps")).unwrap();
    assert_eq!(maps.processes, vec![5]);
    assert_eq!((maps.read_total(&c), maps.write_total(&c)), (20, 40));
}

#[test]
fn a_stopped_application_starts_over() {
    let mut c = context();
    c.refresh(vec![data(5, "/usr/bin/maps")], &vec![]);
    c.refresh(vec![], &vec![]);
    let maps = c.get_app(&some("org.maps")).unwrap();
    assert!(!maps.is_running());
    assert_eq!((maps.read_total(&c), maps.write_total(&c)), (0, 0));
    c.refresh(vec![data(6, "/usr/bin/maps")], &vec![]);
    assert_eq!(c.get_app(&some("org.maps")).unwrap().read_total(&c), 10);
}

#[test]
fn totals_outlive_processes_of_other_users() {
    let mut c = context();
    let mut foreign = data(6, "/usr/bin/maps");
    foreign.read_bytes = None;
    foreign.write_bytes = None;
    let half = || ProcessData { write_bytes: None, ..data(7, "/usr/bin/maps") };
    c.refresh(vec![data(4, "/usr/bin/maps"), data(5, "/usr/bin/maps"), foreign, half()], &vec![]);
    let maps = c.get_app(&some("org.maps")).unwrap();
    assert_eq!((maps.read_total(&c), maps.write_total(&c)), (30, 40));
    c.refresh(vec![data(5, "/usr/bin/maps"), half()], &vec![]);
    let maps = c.get_app(&some("org.maps")).unwrap();
    assert_eq!(maps.processes, vec![5, 7]);
    assert_eq!((maps.read_total(&c), maps.write_total(&c)), (30, 40));
}

#[test]
fn unknown_totals_of_the_dead_do_not_count() {
    let mut c = context();
    let mut hidden = data(6, "/usr/bin/maps");
    hidden.write_bytes = None;
    c.refresh(vec![data(5, "/usr/bin/maps"), hidden], &vec![]);
    c.refresh(vec![data(5, "/usr/bin/maps")], &vec![]);
    let maps = c.get_app(&some("org.maps")).unwrap();
    assert_eq!((maps.read_bytes_from_dead_processes, maps.write_bytes_from_dead_processes), (0, 0));
}

#[test]
fn sums_over_an_application() {
    let mut c = context();
    let id = GpuIdentifier::Enumerator(0);
    let slot = PciSlot::default();
    let mut a = data(5, "/usr/bin/maps");
    a.gpu_usage_stats.insert(id, GpuUsageStats::V3dStats { gfx_ns: 1, mem_bytes: 11 });
    a.npu_usage_stats.insert(slot, NpuUsageStats::AmdxdnaStats { usage_ns: 1, mem_bytes: 13 });
    a.starttime = 40;
    let mut b = data(6, "/usr/bin/maps");
    b.gpu_usage_stats.insert(id, GpuUsageStats::V3dStats { gfx_ns: 1, mem_bytes: 100 });
    c.refresh(vec![a, b, data(7, "/sbin/init")], &vec![]);
    let maps = c.get_app(&some("org.maps")).unwrap();
    assert_eq!(maps.processes_iter(&c).iter().map(|p| p.data.pid).collect::<Vec<_>>(), vec![5, 6]);
    assert_eq!(maps.memory_usage(&c, MemoryMetric::Rss), 2000);
    assert_eq!(maps.swap_usage(&c), 14);
    assert_eq!(maps.gpu_mem_usage(&c), 111);
    assert_eq!(maps.npu_mem_usage(&c), 13);
    assert_eq!(maps.starttime(&c), 40);
    assert_eq!(c.get_app(&some("steam")).unwrap().starttime(&c), 0);
    assert_eq!(c.vram_usage(id), 111);
    assert_eq!(c.vram_usage(GpuIdentifier::Enumerator(1)), 0);
    assert_eq!(c.npu_mem(slot), 13);
    assert_eq!(c.npu_mem(PciSlot { domain: 0, bus: 1, number: 0, function: 0 }), 13);
}

#[test]
fn shares_come_with_the_second_refresh() {
    let id = GpuIdentifier::Enumerator(0);
    let slot = PciSlot { domain: 0, bus: 1, number: 0, function: 0 };
    let reading = |timestamp, gfx_ns, enc_ns, dec_ns, usage_ns| {
        let mut d = data(5, "/usr/bin/maps");
        d.timestamp = timestamp;
        d.gpu_usage_stats.insert(id, GpuUsageStats::AmdgpuStats { gfx_ns, enc_ns, dec_ns, mem_bytes: 0 });
        d.npu_usage_stats.insert(PciSlot::default(), NpuUsageStats::AmdxdnaStats { usage_ns, mem_bytes: 0 });
        d
    };
    let mut c = context();
    c.refresh(vec![reading(1000, 1, 2, 3, 4)], &vec![]);
    assert!(c.gpu_fraction(id).is_empty());
    assert!(c.npu_fraction(slot).is_empty());
    c.refresh(vec![reading(1002, 11, 22, 33, 44)], &vec![]);
    assert_eq!(c.gpu_fraction(id), vec![Fraction { num: 10, den: 2_000_000 }]);
    assert_eq!(c.encoder_fraction(id), vec![Fraction { num: 20, den: 2_000_000 }]);
    assert_eq!(c.decoder_fraction(id), vec![Fraction { num: 30, den: 2_000_000 }]);
    assert_eq!(c.npu_fraction(slot), vec![Fraction { num: 40, den: 2_000_000 }]);
}

#[test]
fn combined_media_engines_are_adjusted() {
    let id = GpuIdentifier::Enumerator(0);
    let mut c = AppsContext::new(vec![], "System".to_string(), vec![id]);
    let mut d = data(5, "/x");
    let stats = GpuUsageStats::AmdgpuStats { gfx_ns: 1, enc_ns: 2, dec_ns: 3, mem_bytes: 4 };
    d.gpu_usage_stats.insert(id, stats);
    d.gpu_usage_stats.insert(GpuIdentifier::Enumerator(1), stats);
    c.refresh(vec![d], &vec![]);
    let shown = &c.get_process(5).unwrap().data.gpu_usage_stats;
    assert_eq!(shown.get(&id), Some(&GpuUsageStats::AmdgpuStats { gfx_ns: 1, enc_ns: 3, dec_ns: 3, mem_bytes: 4 }));
    assert_eq!(shown.get(&GpuIdentifier::Enumerator(1)), Some(&stats));
}
