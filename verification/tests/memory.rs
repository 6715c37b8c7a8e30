use resources::pss::{
    approx_pss, collect_file_mappings, is_shmem_backed, parse_dev, parse_mapping, pid_mappings,
    pss_sum, read_exact_pss, weighted_rss, MappedProcess, Mapping, MappingKey, Weighting,
};
use resources::sorted_map::SortedMap;
use resources::text::to_chars;

const LIBC: MappingKey = MappingKey { dev: 0x0103_0002, inode: 77 };
const SHM: MappingKey = MappingKey { dev: 1, inode: 5 };

const MAPS: &str = "7f00-8000 r--p 00000000 103:2 77 /usr/lib/libc.so.6\n8000-8100 r-xp 00000000 103:02 77 /usr/lib/libc.so.6\n9000-9200 rw-s 00000000 00:01 5 /memfd:x (deleted)\na000-b000 rw-p 00000000 00:00 0 [heap]\nmalformed\n";

#[test]
fn the_exact_value_is_read() {
    let rollup = "55d0-7ffd ---p 00000000 00:00 0 [rollup]\nRss:  900 kB\nPss:                 123 kB\nPss_Dirty:  7 kB\n".to_string();
    assert_eq!(read_exact_pss(&Some(rollup)), Some(123 * 1024));
    assert_eq!(read_exact_pss(&Some("Rss: 1 kB".to_string())), Some(0));
    assert_eq!(read_exact_pss(&None), None);
}

#[test]
fn devices_are_two_hexadecimal_numbers() {
    assert_eq!(parse_dev(&to_chars("103:02")), Some(0x0103_0002));
    assert_eq!(parse_dev(&to_chars("fe:1a")), Some(0x00fe_001a));
    assert_eq!(parse_dev(&to_chars("12345:1")), Some(0x2345_0001));
    assert_eq!(parse_dev(&to_chars("103")), None);
    assert_eq!(parse_dev(&to_chars("g:1")), None);
}

#[test]
fn shared_memory_is_told_from_files() {
    for path in ["", "/dev/shm/x", "/memfd:x", "/SYSV00000000"] {
        assert!(is_shmem_backed(path), "{path:?}");
    }
    assert!(!is_shmem_backed("/usr/lib/libc.so.6"));
    assert!(!is_shmem_backed("/dev/shm"));
}

#[test]
fn a_line_holds_a_mapping() {
    assert_eq!(
        parse_mapping(&to_chars("7f00-8000 r--p 00000000 103:02 77 /usr/lib/libc.so.6")),
        Some(Mapping { key: LIBC, size: 0x100, shmem: false })
    );
    assert_eq!(
        parse_mapping(&to_chars("8000-7f00 r--p 0 00:01 5")),
        Some(Mapping { key: SHM, size: 0, shmem: true })
    );
    for line in ["a000-b000 rw-p 0 00:00 0 [heap]", "a000 rw-p 0 00:01 5", "a000-b000 rw-p 0 00:01", "x-b000 rw-p 0 00:01 5", "a000-b000 rw-p 0 0001 5"] {
        assert_eq!(parse_mapping(&to_chars(line)), None, "{line:?}");
    }
}

#[test]
fn mappings_of_one_file_add_up() {
    let m = pid_mappings(&Some(MAPS.to_string()));
    assert_eq!(m.file.entries(), &vec![(LIBC, 0x200)]);
    assert_eq!(m.shmem.entries(), &vec![(SHM, 0x200)]);
    let none = pid_mappings(&None);
    assert!(none.file.is_empty() && none.shmem.is_empty());
}

#[test]
fn every_mapper_is_a_sharer() {
    let maps = |s: &str| pid_mappings(&Some(s.to_string()));
    let (by_pid, counts) = collect_file_mappings(vec![
        MappedProcess { pid: 1, mappings: maps(MAPS) },
        MappedProcess { pid: 2, mappings: maps("7f00-8000 r--p 0 103:2 77 /usr/lib/libc.so.6") },
        MappedProcess { pid: 3, mappings: maps("") },
    ]);
    assert_eq!(counts.entries(), &vec![(SHM, 1), (LIBC, 2)]);
    assert_eq!(by_pid.get(&2).unwrap().file.entries(), &vec![(LIBC, 0x100)]);
    assert_eq!(by_pid.len(), 2);
    assert!(!by_pid.contains_key(&3));
}

#[test]
fn memory_is_weighted_by_sharers() {
    let mut sizes = SortedMap::new();
    sizes.insert(SHM, 300);
    sizes.insert(LIBC, 100);
    let mut counts = SortedMap::new();
    counts.insert(LIBC, 4);
    match weighted_rss(1000, Some(&sizes), &counts) {
        Weighting::Shared { raw, total, shares } => {
            assert_eq!((raw, total), (1000, 400));
            assert_eq!(shares, vec![(300, 1), (100, 4)]);
        }
        Weighting::Raw(_) => panic!("expected shares"),
    }
    assert!(matches!(weighted_rss(0, Some(&sizes), &counts), Weighting::Raw(0)));
    assert!(matches!(weighted_rss(5, None, &counts), Weighting::Raw(5)));
    assert!(matches!(weighted_rss(5, Some(&SortedMap::new()), &counts), Weighting::Raw(5)));
}

#[test]
fn weighted_memory_is_at_most_what_is_weighted() {
    let mut sizes = SortedMap::new();
    sizes.insert(SHM, 300);
    sizes.insert(LIBC, 100);
    let mut counts = SortedMap::new();
    counts.insert(SHM, 3);
    counts.insert(LIBC, 4);
    let Weighting::Shared { raw, total, shares } = weighted_rss(1000, Some(&sizes), &counts) else {
        panic!("expected shares");
    };
    let den: u64 = shares.iter().map(|(_, n)| *n as u64).product();
    let num: u64 = shares.iter().map(|(size, n)| size * den / *n as u64).sum();
    let plain: u64 = shares.iter().map(|(size, _)| size).sum();
    assert_eq!((num, den, plain, total), (1500, 12, 400, 400));
    assert!(num <= den * plain);
    assert!(raw as u64 * num <= raw as u64 * den * total);
}

#[test]
fn private_memory_counts_in_full() {
    let m = pid_mappings(&Some(MAPS.to_string()));
    let counts = SortedMap::new();
    let plan = approx_pss(10, 20, 0, Some(&m), &counts);
    assert_eq!(plan.rss_anon, 10);
    assert!(matches!(plan.file, Weighting::Shared { raw: 20, total: 0x200, .. }));
    assert!(matches!(plan.shmem, Weighting::Raw(0)));
    let plan = approx_pss(10, 20, 30, None, &counts);
    assert!(matches!(plan.file, Weighting::Raw(20)));
    assert!(matches!(plan.shmem, Weighting::Raw(30)));
    assert_eq!(pss_sum(1, 2, 3), 6);
    assert_eq!(pss_sum(usize::MAX, 2, 3), 4);
}
