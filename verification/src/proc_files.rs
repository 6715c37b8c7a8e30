//! The files `stat`, `status` and `io` of a process.

use vstd::prelude::*;

use crate::number;
use crate::pattern;
use crate::process_data;
use crate::process_data::Niceness;
use crate::text;

verus! {

// /proc/<pid>/stat -----------------------------------------------------------------

/// The fields of `stat` are counted behind the name of the executable, which is
/// the second one.
pub const STAT_PARENT_PID: usize = 1;

pub const STAT_USER_CPU_TIME: usize = 11;

pub const STAT_SYSTEM_CPU_TIME: usize = 12;

pub const STAT_NICE: usize = 16;

pub const STAT_STARTTIME: usize = 19;

/// What is read from `stat`.
#[derive(Debug, Clone, Copy, PartialEq, Eq, Structural)]
pub struct StatFields {
    pub parent_pid: i32,
    pub user_cpu_time: u64,
    pub system_cpu_time: u64,
    pub niceness: Niceness,
    /// In clock ticks.
    pub starttime: u64,
}

/// What `StatFields` holds.
#[verifier::ext_equal]
pub struct StatView {
    pub parent_pid: i32,
    pub user_cpu_time: u64,
    pub system_cpu_time: u64,
    pub niceness: i8,
    pub starttime: u64,
}

impl View for StatFields {
    type V = StatView;

    open spec fn view(&self) -> StatView {
        StatView {
            parent_pid: self.parent_pid,
            user_cpu_time: self.user_cpu_time,
            system_cpu_time: self.system_cpu_time,
            niceness: self.niceness.value(),
            starttime: self.starttime,
        }
    }
}

/// Why `stat` cannot be read.
#[derive(Debug, Clone, Copy, PartialEq, Eq, Structural)]
pub enum StatError {
    /// A field is missing.
    WrongFormat,
    /// A field is no number of its type.
    NotANumber,
}

/// The fields of `stat` behind the name of the executable. The name stands in
/// brackets and may hold brackets itself, so it ends at the last one; the space
/// behind it is no field.
pub open spec fn stat_fields(raw: Seq<char>) -> Seq<Seq<char>> {
    text::split(text::split(raw, ')').last(), ' ').skip(1)
}

/// Reads field `index` with the given reader: a missing field counts before one
/// that is no number.
pub open spec fn stat_field<T>(
    fields: Seq<Seq<char>>,
    index: usize,
    read: spec_fn(Seq<char>) -> Option<T>,
) -> Result<T, StatError> {
    if index >= fields.len() {
        Err(StatError::WrongFormat)
    } else {
        match read(fields[index as int]) {
            Some(v) => Ok(v),
            None => Err(StatError::NotANumber),
        }
    }
}

/// Reads an `i32`.
pub open spec fn read_i32(s: Seq<char>) -> Option<i32> {
    match number::parse_signed(s, i32::MIN as int, i32::MAX as int) {
        Some(v) => Some(v as i32),
        None => None,
    }
}

/// Reads a `u64`.
pub open spec fn read_u64(s: Seq<char>) -> Option<u64> {
    match number::parse_unsigned(s, 10, u64::MAX as int) {
        Some(v) => Some(v as u64),
        None => None,
    }
}

/// What the fields of `stat` say. They are read in this order, and the first one
/// that cannot be read decides.
pub open spec fn stat_of(fields: Seq<Seq<char>>) -> Result<StatView, StatError> {
    match stat_field(fields, STAT_PARENT_PID, |s: Seq<char>| read_i32(s)) {
        Err(e) => Err(e),
        Ok(parent_pid) => match stat_field(
            fields,
            STAT_USER_CPU_TIME,
            |s: Seq<char>| read_u64(s),
        ) {
            Err(e) => Err(e),
            Ok(user_cpu_time) => match stat_field(
                fields,
                STAT_SYSTEM_CPU_TIME,
                |s: Seq<char>| read_u64(s),
            ) {
                Err(e) => Err(e),
                Ok(system_cpu_time) => match stat_field(
                    fields,
                    STAT_NICE,
                    |s: Seq<char>| process_data::parse_niceness(s),
                ) {
                    Err(e) => Err(e),
                    Ok(niceness) => match stat_field(
                        fields,
                        STAT_STARTTIME,
                        |s: Seq<char>| read_u64(s),
                    ) {
                        Err(e) => Err(e),
                        Ok(starttime) => Ok(
                            StatView {
                                parent_pid,
                                user_cpu_time,
                                system_cpu_time,
                                niceness,
                                starttime,
                            },
                        ),
                    },
                },
            },
        },
    }
}

fn u64_field(fields: &Vec<Vec<char>>, index: usize) -> (r: Result<u64, StatError>)
    requires
        index < usize::MAX,
        fields.len() >= 1,
    ensures
        r == stat_field(text::texts(fields@).skip(1), index, |s: Seq<char>| read_u64(s)),
{
    if index + 1 >= fields.len() {
        return Err(StatError::WrongFormat);
    }
    match number::parse_u64_chars(&fields[index + 1], 10) {
        Some(v) => Ok(v),
        None => Err(StatError::NotANumber),
    }
}

impl StatFields {
    /// Reads the contents of `stat`.
    pub fn parse(raw: &str) -> (r: Result<Self, StatError>)
        ensures
            match r {
                Ok(stat) => stat_of(stat_fields(raw@)) == Ok::<StatView, StatError>(stat@),
                Err(e) => stat_of(stat_fields(raw@)) == Err::<StatView, StatError>(e),
            },
    {
        let pieces: Vec<Vec<char>> = text::split_chars(&text::to_chars(raw), ')');
        proof {
            text::lemma_split_nonempty(raw@, ')');
            assert(text::texts(pieces@).last() == pieces@[pieces@.len() - 1]@);
        }
        let last: &Vec<char> = &pieces[pieces.len() - 1];
        let fields: Vec<Vec<char>> = text::split_chars(last, ' ');
        proof {
            text::lemma_split_nonempty(last@, ' ');
        }
        let ghost all = text::texts(fields@);
        let parent_pid: i32 = if STAT_PARENT_PID + 1 >= fields.len() {
            return Err(StatError::WrongFormat);
        } else {
            match number::parse_i32_chars(&fields[STAT_PARENT_PID + 1]) {
                Some(v) => v,
                None => {
                    return Err(StatError::NotANumber);
                },
            }
        };
        let user_cpu_time: u64 = match u64_field(&fields, STAT_USER_CPU_TIME) {
            Ok(v) => v,
            Err(e) => {
                return Err(e);
            },
        };
        let system_cpu_time: u64 = match u64_field(&fields, STAT_SYSTEM_CPU_TIME) {
            Ok(v) => v,
            Err(e) => {
                return Err(e);
            },
        };
        let niceness: Niceness = if STAT_NICE + 1 >= fields.len() {
            return Err(StatError::WrongFormat);
        } else {
            match Niceness::from_chars(&fields[STAT_NICE + 1]) {
                Ok(v) => v,
                Err(_) => {
                    return Err(StatError::NotANumber);
                },
            }
        };
        let starttime: u64 = match u64_field(&fields, STAT_STARTTIME) {
            Ok(v) => v,
            Err(e) => {
                return Err(e);
            },
        };
        Ok(StatFields { parent_pid, user_cpu_time, system_cpu_time, niceness, starttime })
    }
}

// /proc/<pid>/status -----------------------------------------------------------------

pub const RE_UID: &'static str = r"Uid:\s*(\d+)";

pub const RE_AFFINITY: &'static str = r"Cpus_allowed:\s*([0-9A-Fa-f]+)";

pub const RE_RSS_ANON: &'static str = r"RssAnon:\s*([0-9]+)\s*kB";

pub const RE_RSS_SHMEM: &'static str = r"RssShmem:\s*([0-9]+)\s*kB";

pub const RE_RSS_FILE: &'static str = r"RssFile:\s*([0-9]+)\s*kB";

pub const RE_VM_RSS: &'static str = r"VmRSS:\s*([0-9]+)\s*kB";

pub const RE_VM_SIZE: &'static str = r"VmSize:\s*([0-9]+)\s*kB";

pub const RE_SWAP_USAGE: &'static str = r"VmSwap:\s*([0-9]+)\s*kB";

/// What is read from `status`.
pub struct StatusFields {
    pub uid: u32,
    /// On which logical CPUs the process may run.
    pub affinity: Vec<bool>,
    pub rss: usize,
    pub rss_anon: usize,
    pub rss_shmem: usize,
    pub rss_file: usize,
    pub vm_size: usize,
    pub swap_usage: usize,
}

/// What `StatusFields` holds.
#[verifier::ext_equal]
pub struct StatusView {
    pub uid: u32,
    pub affinity: Seq<bool>,
    pub rss: usize,
    pub rss_anon: usize,
    pub rss_shmem: usize,
    pub rss_file: usize,
    pub vm_size: usize,
    pub swap_usage: usize,
}

impl View for StatusFields {
    type V = StatusView;

    open spec fn view(&self) -> StatusView {
        StatusView {
            uid: self.uid,
            affinity: self.affinity@,
            rss: self.rss,
            rss_anon: self.rss_anon,
            rss_shmem: self.rss_shmem,
            rss_file: self.rss_file,
            vm_size: self.vm_size,
            swap_usage: self.swap_usage,
        }
    }
}

/// Why `status` cannot be read.
#[derive(Debug, Clone, Copy, PartialEq, Eq, Structural)]
pub enum StatusError {
    /// There is a user, but it is not given.
    NoUid,
    /// The user is no `u32`.
    InvalidUid,
}

/// The user that was found; 0 where there is none.
pub open spec fn uid_of(captures: Option<Seq<Option<Seq<char>>>>) -> Result<u32, StatusError> {
    if captures is None {
        Ok(0)
    } else {
        match pattern::group(captures, 1) {
            None => Err(StatusError::NoUid),
            Some(s) => match number::parse_unsigned(s, 10, u32::MAX as int) {
                Some(v) => Ok(v as u32),
                None => Err(StatusError::InvalidUid),
            },
        }
    }
}

/// Bit `i` of a hexadecimal digit.
pub open spec fn digit_bit(d: int, i: int) -> bool {
    if i == 0 {
        d % 2 == 1
    } else if i == 1 {
        d / 2 % 2 == 1
    } else if i == 2 {
        d / 4 % 2 == 1
    } else {
        d / 8 % 2 == 1
    }
}

/// The value of a hexadecimal digit; 0 for any other character.
pub open spec fn nibble(c: char) -> int {
    match number::digit(c, 16) {
        Some(v) => v,
        None => 0,
    }
}

/// The CPUs that a mask in hexadecimal allows: four to a digit, counted from the
/// last digit and from the lowest bit, and no more than there are.
pub open spec fn affinity_of(mask: Seq<char>, num_cpus: usize) -> Seq<bool> {
    let bits = mask.len() * 4;
    let n = if bits < num_cpus {
        bits as nat
    } else {
        num_cpus as nat
    };
    Seq::new(n, |i: int| digit_bit(nibble(mask[mask.len() - 1 - i / 4]), i % 4))
}

/// The bytes of a number of kibibytes that is given as text; 0 for a text that is
/// no number.
pub open spec fn kb_bytes(s: Seq<char>) -> usize {
    match number::parse_unsigned(s, 10, usize::MAX as int) {
        Some(v) => number::saturating_product(v, 1024, usize::MAX as int) as usize,
        None => 0,
    }
}

/// The bytes of a number of kibibytes that is given as text.
pub fn kb_text_bytes(s: &str) -> (r: usize)
    ensures
        r == kb_bytes(s@),
{
    match number::parse_usize(s) {
        Some(v) => number::saturating_mul_usize(v, 1024),
        None => 0,
    }
}

/// What the patterns find in `status`.
pub struct StatusCaptures {
    pub uid: Option<Vec<Option<String>>>,
    pub affinity: String,
    pub swap_usage: String,
    pub rss: String,
    pub rss_anon: String,
    pub rss_shmem: String,
    pub rss_file: String,
    pub vm_size: String,
}

/// What `StatusCaptures` holds.
#[verifier::ext_equal]
pub struct StatusCapturesView {
    pub uid: Option<Seq<Option<Seq<char>>>>,
    pub affinity: Seq<char>,
    pub swap_usage: Seq<char>,
    pub rss: Seq<char>,
    pub rss_anon: Seq<char>,
    pub rss_shmem: Seq<char>,
    pub rss_file: Seq<char>,
    pub vm_size: Seq<char>,
}

impl View for StatusCaptures {
    type V = StatusCapturesView;

    open spec fn view(&self) -> StatusCapturesView {
        StatusCapturesView {
            uid: pattern::captured(self.uid),
            affinity: self.affinity@,
            swap_usage: self.swap_usage@,
            rss: self.rss@,
            rss_anon: self.rss_anon@,
            rss_shmem: self.rss_shmem@,
            rss_file: self.rss_file@,
            vm_size: self.vm_size@,
        }
    }
}

/// What the patterns find in `status`.
pub open spec fn status_captures(status: Seq<char>) -> StatusCapturesView {
    StatusCapturesView {
        uid: pattern::captures_of(RE_UID@, status),
        affinity: pattern::or_empty(pattern::group(pattern::captures_of(RE_AFFINITY@, status), 1)),
        swap_usage: pattern::or_empty(
            pattern::group(pattern::captures_of(RE_SWAP_USAGE@, status), 1),
        ),
        rss: pattern::or_empty(pattern::group(pattern::captures_of(RE_VM_RSS@, status), 1)),
        rss_anon: pattern::or_empty(pattern::group(pattern::captures_of(RE_RSS_ANON@, status), 1)),
        rss_shmem: pattern::or_empty(
            pattern::group(pattern::captures_of(RE_RSS_SHMEM@, status), 1),
        ),
        rss_file: pattern::or_empty(pattern::group(pattern::captures_of(RE_RSS_FILE@, status), 1)),
        vm_size: pattern::or_empty(pattern::group(pattern::captures_of(RE_VM_SIZE@, status), 1)),
    }
}

/// What the captured texts say.
pub open spec fn status_of(c: StatusCapturesView, num_cpus: usize) -> Result<
    StatusView,
    StatusError,
> {
    match uid_of(c.uid) {
        Err(e) => Err(e),
        Ok(uid) => Ok(
            StatusView {
                uid,
                affinity: affinity_of(c.affinity, num_cpus),
                rss: kb_bytes(c.rss),
                rss_anon: kb_bytes(c.rss_anon),
                rss_shmem: kb_bytes(c.rss_shmem),
                rss_file: kb_bytes(c.rss_file),
                vm_size: kb_bytes(c.vm_size),
                swap_usage: kb_bytes(c.swap_usage),
            },
        ),
    }
}

impl StatusFields {
    /// The user that was found.
    pub fn get_uid(captures: &Option<Vec<Option<String>>>) -> (r: Result<u32, StatusError>)
        ensures
            r == uid_of(pattern::captured(*captures)),
    {
        if captures.is_none() {
            return Ok(0);
        }
        match pattern::group_text(captures, 1) {
            None => Err(StatusError::NoUid),
            Some(s) => match number::parse_u32(s.as_str()) {
                Some(v) => Ok(v),
                None => Err(StatusError::InvalidUid),
            },
        }
    }

    /// The CPUs that a mask in hexadecimal allows.
    pub fn parse_affinity(mask: &str, num_cpus: usize) -> (r: Vec<bool>)
        ensures
            r@ == affinity_of(mask@, num_cpus),
    {
        let chars: Vec<char> = text::to_chars(mask);
        let mut affinity: Vec<bool> = Vec::new();
        let ghost expected = affinity_of(mask@, num_cpus);
        let mut left: usize = chars.len();
        while left > 0 && affinity.len() < num_cpus
            invariant
                left <= chars.len(),
                chars@ == mask@,
                expected == affinity_of(mask@, num_cpus),
                affinity.len() <= num_cpus,
                affinity.len() < num_cpus ==> affinity.len() == (chars.len() - left) * 4,
                affinity.len() <= (chars.len() - left) * 4,
                forall|j: int|
                    0 <= j < affinity.len() ==> #[trigger] affinity@[j] == digit_bit(
                        nibble(mask@[mask@.len() - 1 - j / 4]),
                        j % 4,
                    ),
            decreases left,
        {
            let d: u32 = match number::digit_of(chars[left - 1], 16) {
                Some(v) => v,
                None => 0,
            };
            let ghost k = chars.len() - left;
            left -= 1;
            let bits: [bool; 4] = [d % 2 == 1, d / 2 % 2 == 1, d / 4 % 2 == 1, d / 8 % 2 == 1];
            let mut i: usize = 0;
            while i < 4
                invariant
                    i <= 4,
                    chars@ == mask@,
                    k == chars.len() - left - 1,
                    left < chars.len(),
                    bits@.len() == 4,
                    forall|b: int|
                        0 <= b < 4 ==> #[trigger] bits@[b] == digit_bit(
                            nibble(mask@[mask@.len() - 1 - k]),
                            b,
                        ),
                    affinity.len() <= num_cpus,
                    affinity.len() < num_cpus ==> affinity.len() == k * 4 + i,
                    affinity.len() <= k * 4 + i,
                    forall|j: int|
                        0 <= j < affinity.len() ==> #[trigger] affinity@[j] == digit_bit(
                            nibble(mask@[mask@.len() - 1 - j / 4]),
                            j % 4,
                        ),
                decreases 4 - i,
            {
                if affinity.len() < num_cpus {
                    proof {
                        assert((k * 4 + i) / 4 == k);
                        assert((k * 4 + i) % 4 == i);
                    }
                    affinity.push(bits[i]);
                }
                i += 1;
            }
        }
        proof {
            assert(affinity@ =~= expected);
        }
        affinity
    }

    /// What the captured texts say.
    pub fn from_captures(c: &StatusCaptures, num_cpus: usize) -> (r: Result<Self, StatusError>)
        ensures
            match r {
                Ok(status) => status_of(c@, num_cpus) == Ok::<StatusView, StatusError>(status@),
                Err(e) => status_of(c@, num_cpus) == Err::<StatusView, StatusError>(e),
            },
    {
        match Self::get_uid(&c.uid) {
            Err(e) => Err(e),
            Ok(uid) => Ok(
                StatusFields {
                    uid,
                    affinity: Self::parse_affinity(c.affinity.as_str(), num_cpus),
                    rss: kb_text_bytes(c.rss.as_str()),
                    rss_anon: kb_text_bytes(c.rss_anon.as_str()),
                    rss_shmem: kb_text_bytes(c.rss_shmem.as_str()),
                    rss_file: kb_text_bytes(c.rss_file.as_str()),
                    vm_size: kb_text_bytes(c.vm_size.as_str()),
                    swap_usage: kb_text_bytes(c.swap_usage.as_str()),
                },
            ),
        }
    }

    /// Reads the contents of `status`, on a machine with `num_cpus` logical CPUs.
    pub fn parse(status: &str, num_cpus: usize) -> (r: Result<Self, StatusError>)
        ensures
            match r {
                Ok(fields) => status_of(status_captures(status@), num_cpus) == Ok::<
                    StatusView,
                    StatusError,
                >(fields@),
                Err(e) => status_of(status_captures(status@), num_cpus) == Err::<
                    StatusView,
                    StatusError,
                >(e),
            },
    {
        let captures = StatusCaptures {
            uid: pattern::find_captures(RE_UID, status),
            affinity: pattern::extract_from_regex(RE_AFFINITY, status),
            swap_usage: pattern::extract_from_regex(RE_SWAP_USAGE, status),
            rss: pattern::extract_from_regex(RE_VM_RSS, status),
            rss_anon: pattern::extract_from_regex(RE_RSS_ANON, status),
            rss_shmem: pattern::extract_from_regex(RE_RSS_SHMEM, status),
            rss_file: pattern::extract_from_regex(RE_RSS_FILE, status),
            vm_size: pattern::extract_from_regex(RE_VM_SIZE, status),
        };
        Self::from_captures(&captures, num_cpus)
    }
}

// /proc/<pid>/io -----------------------------------------------------------------------

pub const RE_IO_READ: &'static str = r"read_bytes:\s*(\d+)";

pub const RE_IO_WRITE: &'static str = r"write_bytes:\s*(\d+)";

/// What is read from `io`.
#[derive(Debug, Clone, Copy, PartialEq, Eq, Structural)]
pub struct IoFields {
    pub read_bytes: Option<u64>,
    pub write_bytes: Option<u64>,
}

/// The number that a captured text denotes.
pub open spec fn captured_u64(s: Option<Seq<char>>) -> Option<u64> {
    match s {
        Some(s) => read_u64(s),
        None => None,
    }
}

/// What the captured texts say.
pub open spec fn io_of(read: Option<Seq<char>>, write: Option<Seq<char>>) -> IoFields {
    IoFields { read_bytes: captured_u64(read), write_bytes: captured_u64(write) }
}

/// What the pattern captures in `io`, where it could be read.
pub open spec fn io_capture(pattern: Seq<char>, io: Option<Seq<char>>) -> Option<Seq<char>> {
    match io {
        Some(s) => pattern::group(pattern::captures_of(pattern, s), 1),
        None => None,
    }
}

impl IoFields {
    /// What the captured texts say.
    pub fn from_captures(read: &Option<String>, write: &Option<String>) -> (r: Self)
        ensures
            r == io_of(text::opt_text(*read), text::opt_text(*write)),
    {
        IoFields {
            read_bytes: match read {
                Some(s) => number::parse_u64(s.as_str()),
                None => None,
            },
            write_bytes: match write {
                Some(s) => number::parse_u64(s.as_str()),
                None => None,
            },
        }
    }

    /// Reads the contents of `io`, where it could be read.
    pub fn parse(io: &Option<String>) -> (r: Self)
        ensures
            r == io_of(
                io_capture(RE_IO_READ@, text::opt_text(*io)),
                io_capture(RE_IO_WRITE@, text::opt_text(*io)),
            ),
    {
        let read: Option<String> = match io {
            Some(io) => pattern::first_group(RE_IO_READ, io.as_str()),
            None => None,
        };
        let write: Option<String> = match io {
            Some(io) => pattern::first_group(RE_IO_WRITE, io.as_str()),
            None => None,
        };
        Self::from_captures(&read, &write)
    }
}

/// Whatever stands before the last bracket, the name of the executable among it,
/// has no part in what is read from `stat`.
pub proof fn stat_name_ignored(before: Seq<char>, rest: Seq<char>)
    requires
        forall|i: int| 0 <= i < rest.len() ==> rest[i] != ')',
    ensures
        stat_fields(before + seq![')'] + rest) == text::split(rest, ' ').skip(1),
{
    text::lemma_split_last(before, ')', rest);
}

/// The mask never speaks of more CPUs than there are.
pub proof fn affinity_within_cpus(mask: Seq<char>, num_cpus: usize)
    ensures
        affinity_of(mask, num_cpus).len() <= num_cpus,
        mask.len() * 4 >= num_cpus ==> affinity_of(mask, num_cpus).len() == num_cpus,
        mask.len() * 4 < num_cpus ==> affinity_of(mask, num_cpus).len() == mask.len() * 4,
{
}

/// Whether a number of bytes is that of the kibibytes that a pattern captures in a text:
/// 1024 times the number, as far as that fits, and nothing where the pattern finds none.
pub open spec fn shows_kib(value: usize, pattern: Seq<char>, text: Seq<char>) -> bool {
    match pattern::group(pattern::captures_of(pattern, text), 1) {
        Some(s) => match number::parse_unsigned(s, 10, usize::MAX as int) {
            Some(n) => if n * 1024 <= usize::MAX {
                value == n * 1024
            } else {
                value == usize::MAX
            },
            None => value == 0,
        },
        None => value == 0,
    }
}

/// Whether a number is the one that a pattern captures in a text, where that could be
/// read.
pub open spec fn shows_number(value: Option<u64>, pattern: Seq<char>, text: Option<Seq<char>>) -> bool {
    match text {
        None => value is None,
        Some(text) => match pattern::group(pattern::captures_of(pattern, text), 1) {
            Some(s) => match number::parse_unsigned(s, 10, u64::MAX as int) {
                Some(n) => value == Some(n as u64),
                None => value is None,
            },
            None => value is None,
        },
    }
}

pub proof fn lemma_shows_kib(pattern: Seq<char>, text: Seq<char>)
    ensures
        shows_kib(
            kb_bytes(pattern::or_empty(pattern::group(pattern::captures_of(pattern, text), 1))),
            pattern,
            text,
        ),
{
    assert(number::parse_unsigned(Seq::<char>::empty(), 10, usize::MAX as int) is None);
    if let Some(s) = pattern::group(pattern::captures_of(pattern, text), 1) {
        number::number_is_within_bounds(s, 10, 0, usize::MAX as int, usize::MAX as int);
    }
}

/// Each amount of memory in `status` is the number of kibibytes behind its own name.
pub proof fn memory_by_its_name(status: Seq<char>, num_cpus: usize)
    ensures
        status_of(status_captures(status), num_cpus) matches Ok(v) ==> {
            &&& shows_kib(v.rss, r"VmRSS:\s*([0-9]+)\s*kB"@, status)
            &&& shows_kib(v.rss_anon, r"RssAnon:\s*([0-9]+)\s*kB"@, status)
            &&& shows_kib(v.rss_shmem, r"RssShmem:\s*([0-9]+)\s*kB"@, status)
            &&& shows_kib(v.rss_file, r"RssFile:\s*([0-9]+)\s*kB"@, status)
            &&& shows_kib(v.vm_size, r"VmSize:\s*([0-9]+)\s*kB"@, status)
            &&& shows_kib(v.swap_usage, r"VmSwap:\s*([0-9]+)\s*kB"@, status)
        },
{
    lemma_shows_kib(r"VmRSS:\s*([0-9]+)\s*kB"@, status);
    lemma_shows_kib(r"RssAnon:\s*([0-9]+)\s*kB"@, status);
    lemma_shows_kib(r"RssShmem:\s*([0-9]+)\s*kB"@, status);
    lemma_shows_kib(r"RssFile:\s*([0-9]+)\s*kB"@, status);
    lemma_shows_kib(r"VmSize:\s*([0-9]+)\s*kB"@, status);
    lemma_shows_kib(r"VmSwap:\s*([0-9]+)\s*kB"@, status);
}

/// The user is the number behind `Uid` in `status`; without one it is 0, and with one that
/// is none there is nothing to tell.
pub proof fn user_by_its_number(status: Seq<char>, num_cpus: usize, uid: u32)
    ensures
        ({
            let found = pattern::captures_of(r"Uid:\s*(\d+)"@, status);
            let r = status_of(status_captures(status), num_cpus);
            &&& found is None ==> (r matches Ok(v) && v.uid == 0)
            &&& (pattern::group(found, 1) matches Some(s) && number::parse_unsigned(
                s,
                10,
                u32::MAX as int,
            ) == Some(uid as int)) ==> (r matches Ok(v) && v.uid == uid)
            &&& (pattern::group(found, 1) matches Some(s) && number::parse_unsigned(
                s,
                10,
                u32::MAX as int,
            ) is None) ==> r is Err
        }),
{
}

/// The bits of a hexadecimal digit make up its value.
pub proof fn bits_make_up_the_digit(d: int)
    requires
        0 <= d < 16,
    ensures
        d == (if digit_bit(d, 0) {
            1int
        } else {
            0
        }) + (if digit_bit(d, 1) {
            2int
        } else {
            0
        }) + (if digit_bit(d, 2) {
            4int
        } else {
            0
        }) + (if digit_bit(d, 3) {
            8int
        } else {
            0
        }),
{
}

/// The last digit of the mask stands for the first four CPUs, from its lowest bit on, and
/// the digits before it for the CPUs behind these.
pub proof fn mask_read_from_its_end(mask: Seq<char>, c: char, num_cpus: usize, i: int)
    requires
        number::digit(c, 16) is Some,
        0 <= i < affinity_of(mask.push(c), num_cpus).len(),
    ensures
        affinity_of(Seq::<char>::empty(), num_cpus).len() == 0,
        i < 4 ==> affinity_of(mask.push(c), num_cpus)[i] == digit_bit(
            number::digit(c, 16)->0,
            i,
        ),
        i >= 4 ==> i - 4 < affinity_of(mask, (num_cpus - 4) as usize).len() && affinity_of(
            mask.push(c),
            num_cpus,
        )[i] == affinity_of(mask, (num_cpus - 4) as usize)[i - 4],
{
    let all = mask.push(c);
    if i >= 4 {
        assert(i / 4 == (i - 4) / 4 + 1);
        assert(i % 4 == (i - 4) % 4);
        assert(all[all.len() - 1 - i / 4] == mask[mask.len() - 1 - (i - 4) / 4]);
    } else {
        assert(i / 4 == 0);
        assert(i % 4 == i);
    }
}

/// The fields of `stat` that are read stand at their places behind the name of the
/// executable: the parent, the time in user and in system mode, the niceness and the start
/// time.
pub proof fn stat_fields_by_their_places(raw: Seq<char>)
    ensures
        ({
            let f = text::split(text::split(raw, ')').last(), ' ');
            match stat_of(stat_fields(raw)) {
                Ok(v) => {
                    &&& f.len() > 20
                    &&& number::parse_signed(f[2], i32::MIN as int, i32::MAX as int) == Some(
                        v.parent_pid as int,
                    )
                    &&& number::parse_unsigned(f[12], 10, u64::MAX as int) == Some(
                        v.user_cpu_time as int,
                    )
                    &&& number::parse_unsigned(f[13], 10, u64::MAX as int) == Some(
                        v.system_cpu_time as int,
                    )
                    &&& number::parse_signed(f[17], i8::MIN as int, i8::MAX as int) == Some(
                        v.niceness as int,
                    )
                    &&& -20 <= v.niceness <= 19
                    &&& number::parse_unsigned(f[20], 10, u64::MAX as int) == Some(
                        v.starttime as int,
                    )
                },
                Err(_) => {
                    ||| f.len() <= 20
                    ||| number::parse_signed(f[2], i32::MIN as int, i32::MAX as int) is None
                    ||| number::parse_unsigned(f[12], 10, u64::MAX as int) is None
                    ||| number::parse_unsigned(f[13], 10, u64::MAX as int) is None
                    ||| number::parse_unsigned(f[20], 10, u64::MAX as int) is None
                    ||| !(number::parse_signed(f[17], i8::MIN as int, i8::MAX as int) matches Some(
                        n,
                    ) && -20 <= n <= 19)
                },
            }
        }),
{
    let f = text::split(text::split(raw, ')').last(), ' ');
    let g = stat_fields(raw);
    text::lemma_split_nonempty(text::split(raw, ')').last(), ' ');
    assert forall|i: int| 0 <= i < g.len() implies #[trigger] g[i] == f[i + 1] by {}
    if f.len() > 20 {
        assert(g[1] == f[2] && g[11] == f[12] && g[12] == f[13] && g[16] == f[17] && g[19]
            == f[20]);
        number::number_is_within_bounds(f[2], 10, i32::MIN as int, i32::MAX as int, i32::MAX as int);
        number::number_is_within_bounds(f[17], 10, i8::MIN as int, i8::MAX as int, i8::MAX as int);
        number::number_is_within_bounds(f[12], 10, 0, u64::MAX as int, u64::MAX as int);
        number::number_is_within_bounds(f[13], 10, 0, u64::MAX as int, u64::MAX as int);
        number::number_is_within_bounds(f[20], 10, 0, u64::MAX as int, u64::MAX as int);
    }
}

/// What a process has read is the number behind `read_bytes` in `io`, and what it has
/// written the one behind `write_bytes`.
pub proof fn io_by_its_name(io: Option<Seq<char>>)
    ensures
        ({
            let r = io_of(io_capture(RE_IO_READ@, io), io_capture(RE_IO_WRITE@, io));
            &&& shows_number(r.read_bytes, r"read_bytes:\s*(\d+)"@, io)
            &&& shows_number(r.write_bytes, r"write_bytes:\s*(\d+)"@, io)
        }),
{
}

} // verus!
