use resources::proc_files::{
    kb_text_bytes, IoFields, StatError, StatFields, StatusCaptures, StatusError, StatusFields,
};
use resources::process_data::{Niceness, NicenessError};

fn stat(comm: &str, nice: &str) -> String {
    format!("42 ({comm}) S 7 42 42 0 -1 4194304 100 0 0 0 11 22 0 0 20 {nice} 1 0 3333 1000 200")
}

#[test]
fn stat_is_read_behind_the_name() {
    let fields = StatFields::parse(&stat("bash", "0")).unwrap();
    assert_eq!(fields.parent_pid, 7);
    assert_eq!(fields.user_cpu_time, 11);
    assert_eq!(fields.system_cpu_time, 22);
    assert_eq!(fields.niceness.into_inner(), 0);
    assert_eq!(fields.starttime, 3333);
}

#[test]
fn the_name_in_stat_may_hold_brackets_and_spaces() {
    assert_eq!(StatFields::parse(&stat("a) R (b c", "-5")), StatFields::parse(&stat("x", "-5")));
}

#[test]
fn malformed_stat_is_refused() {
    assert_eq!(StatFields::parse(""), Err(StatError::WrongFormat));
    assert_eq!(StatFields::parse("42 (bash) S 7"), Err(StatError::WrongFormat));
    assert_eq!(StatFields::parse("42 (bash) S x"), Err(StatError::NotANumber));
    assert_eq!(StatFields::parse(&stat("bash", "20")), Err(StatError::NotANumber));
    assert_eq!(StatFields::parse(&stat("bash", "nice")), Err(StatError::NotANumber));
}

#[test]
fn niceness_has_bounds() {
    assert_eq!(Niceness::try_new(-20).unwrap().into_inner(), -20);
    assert_eq!(Niceness::try_new(19).unwrap().into_inner(), 19);
    assert_eq!(Niceness::try_new(20), Err(NicenessError));
    assert_eq!(Niceness::try_new(-21), Err(NicenessError));
    assert_eq!(Niceness::default().into_inner(), 0);
}

const STATUS: &str = "Name:\tbash\nUid:\t1000\t1000\t1000\t1000\nVmSize:\t   10000 kB\nVmRSS:\t    4000 kB\nRssAnon:\t    1000 kB\nRssFile:\t    2000 kB\nRssShmem:\t     500 kB\nVmSwap:\t      12 kB\nCpus_allowed:\t5f\nCpus_allowed_list:\t0-4,6\n";

#[test]
fn status_is_read() {
    let s = StatusFields::parse(STATUS, 6).unwrap();
    assert_eq!(s.uid, 1000);
    assert_eq!(s.affinity, vec![true, true, true, true, true, false]);
    assert_eq!(s.rss, 4000 * 1024);
    assert_eq!(s.rss_anon, 1000 * 1024);
    assert_eq!(s.rss_file, 2000 * 1024);
    assert_eq!(s.rss_shmem, 500 * 1024);
    assert_eq!(s.vm_size, 10000 * 1024);
    assert_eq!(s.swap_usage, 12 * 1024);
}

#[test]
fn what_status_lacks_is_zero() {
    let s = StatusFields::parse("Name:\tkthreadd\n", 8).unwrap();
    assert_eq!(s.uid, 0);
    assert_eq!(s.affinity, Vec::<bool>::new());
    assert_eq!((s.rss, s.rss_anon, s.rss_file, s.rss_shmem, s.vm_size, s.swap_usage), (0, 0, 0, 0, 0, 0));
}

#[test]
fn the_user_must_fit() {
    assert_eq!(StatusFields::parse("Uid:\t4294967296\n", 1).err(), Some(StatusError::InvalidUid));
    assert_eq!(StatusFields::get_uid(&Some(vec![Some("Uid:".to_string())])), Err(StatusError::NoUid));
    assert_eq!(StatusFields::get_uid(&Some(vec![None, Some("33".to_string())])), Ok(33));
    assert_eq!(StatusFields::get_uid(&None), Ok(0));
}

#[test]
fn masks_are_read_from_the_last_digit() {
    assert_eq!(StatusFields::parse_affinity("1", 4), vec![true, false, false, false]);
    assert_eq!(StatusFields::parse_affinity("81", 8), vec![true, false, false, false, false, false, false, true]);
    assert_eq!(StatusFields::parse_affinity("ff", 3), vec![true, true, true]);
    assert_eq!(StatusFields::parse_affinity("", 3), Vec::<bool>::new());
    assert_eq!(StatusFields::parse_affinity("f,3", 12).len(), 12);
}

#[test]
fn captured_status_fields() {
    let captures = StatusCaptures {
        uid: Some(vec![None, Some("5".to_string())]),
        affinity: "2".to_string(),
        swap_usage: "1".to_string(),
        rss: "2".to_string(),
        rss_anon: "".to_string(),
        rss_shmem: "x".to_string(),
        rss_file: "99999999999999999999".to_string(),
        vm_size: "18446744073709551615".to_string(),
    };
    let s = StatusFields::from_captures(&captures, 2).unwrap();
    assert_eq!(s.uid, 5);
    assert_eq!(s.affinity, vec![false, true]);
    assert_eq!((s.swap_usage, s.rss, s.rss_anon, s.rss_shmem, s.rss_file), (1024, 2048, 0, 0, 0));
    assert_eq!(s.vm_size, usize::MAX);
    assert_eq!(kb_text_bytes("3"), 3072);
}

#[test]
fn input_and_output_are_read() {
    let io = IoFields::parse(&Some("rchar: 1\nread_bytes: 4096\nwrite_bytes: 8192\ncancelled_write_bytes: 5\n".to_string()));
    assert_eq!(io, IoFields { read_bytes: Some(4096), write_bytes: Some(8192) });
    assert_eq!(IoFields::parse(&None), IoFields { read_bytes: None, write_bytes: None });
    assert_eq!(IoFields::parse(&Some("read_bytes: 99999999999999999999".to_string())).read_bytes, None);
    assert_eq!(
        IoFields::from_captures(&Some("7".to_string()), &None),
        IoFields { read_bytes: Some(7), write_bytes: None }
    );
}
