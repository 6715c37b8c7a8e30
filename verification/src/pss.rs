//! The memory of a process with shared memory counted in proportion.

use vstd::prelude::*;

use crate::number;
use crate::pattern;
use crate::proc_files;
use crate::sorted_map;
use crate::sorted_map::{MapKey, SortedMap};
use crate::text;

verus! {

pub const RE_PSS: &'static str = r"Pss:\s*([0-9]+)\s*kB";

/// A file on a device.
#[derive(Debug, Clone, Copy, PartialEq, Eq, Hash, Structural)]
pub struct MappingKey {
    /// The major number in the upper half, the minor number in the lower one.
    pub dev: u32,
    pub inode: u64,
}

impl MapKey for MappingKey {
    open spec fn rank(self) -> int {
        self.dev * 0x1_0000_0000_0000_0000 + self.inode
    }

    fn rank_of(&self) -> (r: u128) {
        self.dev as u128 * 0x1_0000_0000_0000_0000 + self.inode as u128
    }

    proof fn rank_distinct(a: MappingKey, b: MappingKey) {
    }
}

/// How many bytes of which files a process maps.
pub struct PidMappings {
    pub file: SortedMap<MappingKey, u64>,
    pub shmem: SortedMap<MappingKey, u64>,
}

/// What `PidMappings` holds.
#[verifier::ext_equal]
pub struct MappingsView {
    pub file: Map<MappingKey, u64>,
    pub shmem: Map<MappingKey, u64>,
}

impl View for PidMappings {
    type V = MappingsView;

    open spec fn view(&self) -> MappingsView {
        MappingsView { file: self.file@, shmem: self.shmem@ }
    }
}

// The exact value ------------------------------------------------------------------

/// The contents of a file without the white space around them, where it could be
/// read.
pub open spec fn trimmed_content(content: Option<Seq<char>>) -> Option<Seq<char>> {
    match content {
        Some(s) => Some(text::trim(s)),
        None => None,
    }
}

/// The exact value, from the contents of `/proc/<pid>/smaps_rollup` where it could
/// be read.
pub open spec fn exact_pss(smaps_rollup: Option<Seq<char>>) -> Option<usize> {
    match trimmed_content(smaps_rollup) {
        Some(s) => Some(
            proc_files::kb_bytes(
                pattern::or_empty(pattern::group(pattern::captures_of(RE_PSS@, s), 1)),
            ),
        ),
        None => None,
    }
}

/// The exact value, from the contents of `/proc/<pid>/smaps_rollup` where it could
/// be read.
pub fn read_exact_pss(smaps_rollup: &Option<String>) -> (r: Option<usize>)
    ensures
        r == exact_pss(text::opt_text(*smaps_rollup)),
{
    match smaps_rollup {
        Some(s) => {
            let content: String = text::trimmed(s.as_str());
            let found: String = pattern::extract_from_regex(RE_PSS, content.as_str());
            Some(proc_files::kb_text_bytes(found.as_str()))
        },
        None => None,
    }
}

// The mappings of a process ----------------------------------------------------------

/// The device that a text denotes: two hexadecimal numbers with a colon between
/// them. Of each number the lower sixteen bits count.
pub open spec fn dev_of(s: Seq<char>) -> Option<u32> {
    match text::split_once(s, ':') {
        None => None,
        Some((major, minor)) => match (
            number::parse_unsigned(major, 16, u32::MAX as int),
            number::parse_unsigned(minor, 16, u32::MAX as int),
        ) {
            (Some(a), Some(b)) => Some(((a % 0x1_0000) * 0x1_0000 + b % 0x1_0000) as u32),
            _ => None,
        },
    }
}

/// The device that a text denotes.
pub fn parse_dev(s: &Vec<char>) -> (r: Option<u32>)
    ensures
        r == dev_of(s@),
{
    let Some((major, minor)) = text::split_once_chars(s, ':') else {
        return None;
    };
    match (number::parse_u32_chars(&major, 16), number::parse_u32_chars(&minor, 16)) {
        (Some(a), Some(b)) => Some((a % 0x1_0000) * 0x1_0000 + b % 0x1_0000),
        _ => None,
    }
}

/// Whether a mapping is of shared memory rather than of a file on disk.
pub open spec fn shmem_path(path: Seq<char>) -> bool {
    ||| path.len() == 0
    ||| text::starts_with(path, "/dev/shm/"@)
    ||| text::starts_with(path, "/memfd:"@)
    ||| text::starts_with(path, "/SYSV"@)
}

/// Whether a mapping is of shared memory rather than of a file on disk.
pub fn is_shmem_backed(path: &str) -> (r: bool)
    ensures
        r == shmem_path(path@),
{
    let empty: bool = text::to_chars(path).len() == 0;
    empty || text::has_prefix(path, "/dev/shm/") || text::has_prefix(path, "/memfd:")
        || text::has_prefix(path, "/SYSV")
}

/// One line of `/proc/<pid>/maps`.
#[derive(Debug, Clone, Copy, PartialEq, Eq, Structural)]
pub struct Mapping {
    pub key: MappingKey,
    pub size: u64,
    pub shmem: bool,
}

/// The mapping in a line: an address range, permissions, an offset, a device, an
/// inode and perhaps a path. None where one of them is missing or malformed, or
/// where the inode is 0.
pub open spec fn mapping_of(line: Seq<char>) -> Option<Mapping> {
    let words = text::words(line);
    if words.len() < 5 {
        None
    } else {
        match text::split_once(words[0], '-') {
            None => None,
            Some((start, end)) => match (
                number::parse_unsigned(words[4], 10, u64::MAX as int),
                number::parse_unsigned(start, 16, u64::MAX as int),
                number::parse_unsigned(end, 16, u64::MAX as int),
                dev_of(words[3]),
            ) {
                (Some(inode), Some(a), Some(b), Some(dev)) => if inode == 0 {
                    None
                } else {
                    let size = if b >= a {
                        b - a
                    } else {
                        0
                    };
                    let path = if words.len() > 5 {
                        words[5]
                    } else {
                        Seq::<char>::empty()
                    };
                    Some(
                        Mapping {
                            key: MappingKey { dev, inode: inode as u64 },
                            size: size as u64,
                            shmem: shmem_path(path),
                        },
                    )
                },
                _ => None,
            },
        }
    }
}

/// The mapping in a line of `/proc/<pid>/maps`.
pub fn parse_mapping(line: &Vec<char>) -> (r: Option<Mapping>)
    ensures
        r == mapping_of(line@),
{
    let words: Vec<Vec<char>> = text::words_chars(line);
    let ghost all = text::texts(words@);
    if words.len() < 5 {
        return None;
    }
    let Some(inode) = number::parse_u64_chars(&words[4], 10) else {
        return None;
    };
    if inode == 0 {
        return None;
    }
    let Some((start, end)) = text::split_once_chars(&words[0], '-') else {
        return None;
    };
    let Some(start) = number::parse_u64_chars(&start, 16) else {
        return None;
    };
    let Some(end) = number::parse_u64_chars(&end, 16) else {
        return None;
    };
    let Some(dev) = parse_dev(&words[3]) else {
        return None;
    };
    let path: String = if words.len() > 5 {
        text::to_text(&words[5])
    } else {
        String::new()
    };
    let size: u64 = end.saturating_sub(start);
    proof {
        assert(all[0] == words@[0]@ && all[3] == words@[3]@ && all[4] == words@[4]@);
        assert(path@ =~= if all.len() > 5 {
            all[5]
        } else {
            Seq::<char>::empty()
        });
    }
    Some(Mapping { key: MappingKey { dev, inode }, size, shmem: is_shmem_backed(path.as_str()) })
}

/// The map with `size` more bytes at a key, modulo 2^64.
pub open spec fn grown(m: Map<MappingKey, u64>, key: MappingKey, size: u64) -> Map<MappingKey, u64> {
    let before = if m.contains_key(key) {
        m[key]
    } else {
        0
    };
    m.insert(key, ((before + size) % 0x1_0000_0000_0000_0000) as u64)
}

/// The mappings in the lines: of several of the same file the sizes add up.
pub open spec fn mappings_of(lines: Seq<Seq<char>>) -> MappingsView
    decreases lines.len(),
{
    if lines.len() == 0 {
        MappingsView { file: Map::empty(), shmem: Map::empty() }
    } else {
        let before = mappings_of(lines.drop_last());
        match mapping_of(lines.last()) {
            None => before,
            Some(m) => if m.shmem {
                MappingsView { shmem: grown(before.shmem, m.key, m.size), ..before }
            } else {
                MappingsView { file: grown(before.file, m.key, m.size), ..before }
            },
        }
    }
}

/// The mappings of a process, from the contents of `/proc/<pid>/maps` where it
/// could be read.
pub open spec fn pid_mappings_of(content: Option<Seq<char>>) -> MappingsView {
    match trimmed_content(content) {
        Some(s) => mappings_of(text::lines(s)),
        None => MappingsView { file: Map::empty(), shmem: Map::empty() },
    }
}

fn grow(map: &mut SortedMap<MappingKey, u64>, key: MappingKey, size: u64)
    ensures
        final(map)@ == grown(old(map)@, key, size),
{
    let before: u64 = match map.get(&key) {
        Some(v) => *v,
        None => 0,
    };
    map.insert(key, before.wrapping_add(size));
}

/// The mappings of a process, from the contents of `/proc/<pid>/maps` where it
/// could be read.
pub fn pid_mappings(content: &Option<String>) -> (r: PidMappings)
    ensures
        r@ == pid_mappings_of(text::opt_text(*content)),
{
    let mut file: SortedMap<MappingKey, u64> = SortedMap::new();
    let mut shmem: SortedMap<MappingKey, u64> = SortedMap::new();
    let Some(content) = content else {
        return PidMappings { file, shmem };
    };
    let lines: Vec<Vec<char>> = text::lines_chars(&text::trim_chars(&text::to_chars(content.as_str())));
    let ghost all = text::texts(lines@);
    let mut i: usize = 0;
    proof {
        assert(all.take(0) =~= Seq::<Seq<char>>::empty());
    }
    while i < lines.len()
        invariant
            i <= lines.len(),
            all == text::texts(lines@),
            file@ == mappings_of(all.take(i as int)).file,
            shmem@ == mappings_of(all.take(i as int)).shmem,
        decreases lines.len() - i,
    {
        proof {
            assert(all.take(i + 1).drop_last() =~= all.take(i as int));
            assert(all.take(i + 1).last() == lines@[i as int]@);
        }
        if let Some(m) = parse_mapping(&lines[i]) {
            if m.shmem {
                grow(&mut shmem, m.key, m.size);
            } else {
                grow(&mut file, m.key, m.size);
            }
        }
        i += 1;
    }
    proof {
        assert(all.take(i as int) =~= all);
    }
    PidMappings { file, shmem }
}

// Sharers ------------------------------------------------------------------------------

/// A process and its mappings.
pub struct MappedProcess {
    pub pid: i32,
    pub mappings: PidMappings,
}

/// The processes with their mappings.
pub open spec fn mapped_views(list: Seq<MappedProcess>) -> Seq<(i32, MappingsView)> {
    Seq::new(list.len(), |i: int| (list[i].pid, list[i].mappings@))
}

/// How often a process maps a file: once as a file and once as shared memory.
pub open spec fn times_mapped(m: MappingsView, key: MappingKey) -> int {
    (if m.file.contains_key(key) {
        1int
    } else {
        0
    }) + (if m.shmem.contains_key(key) {
        1int
    } else {
        0
    })
}

/// How often the processes map a file.
pub open spec fn sharers(list: Seq<(i32, MappingsView)>, key: MappingKey) -> int
    decreases list.len(),
{
    if list.len() == 0 {
        0
    } else {
        sharers(list.drop_last(), key) + times_mapped(list.last().1, key)
    }
}

/// How often each file is mapped that is mapped at all.
pub open spec fn sharer_counts(list: Seq<(i32, MappingsView)>) -> Map<MappingKey, usize> {
    Map::new(|k: MappingKey| sharers(list, k) > 0, |k: MappingKey| sharers(list, k) as usize)
}

/// Whether a process maps nothing.
pub open spec fn maps_nothing(m: MappingsView) -> bool {
    m.file == Map::<MappingKey, u64>::empty() && m.shmem == Map::<MappingKey, u64>::empty()
}

/// The mappings by process; those of a process that maps nothing are left out.
pub open spec fn mappings_by_pid(list: Seq<(i32, MappingsView)>) -> Map<i32, MappingsView>
    decreases list.len(),
{
    if list.len() == 0 {
        Map::empty()
    } else {
        let before = mappings_by_pid(list.drop_last());
        if maps_nothing(list.last().1) {
            before
        } else {
            before.insert(list.last().0, list.last().1)
        }
    }
}

/// A map of mappings as a map of their views.
pub open spec fn mapping_views(m: Map<i32, PidMappings>) -> Map<i32, MappingsView> {
    Map::new(|k: i32| m.contains_key(k), |k: i32| m[k]@)
}

proof fn lemma_sharers_bound(list: Seq<(i32, MappingsView)>, key: MappingKey)
    ensures
        0 <= sharers(list, key) <= list.len() * 2,
    decreases list.len(),
{
    if list.len() > 0 {
        lemma_sharers_bound(list.drop_last(), key);
    }
}

/// Counts every key of a map once more.
fn count_keys(
    counts: &mut SortedMap<MappingKey, usize>,
    map: &SortedMap<MappingKey, u64>,
    limit: Ghost<int>,
)
    requires
        forall|k: MappingKey| old(counts)@.contains_key(k) ==> #[trigger] old(counts)@[k] < limit@,
        0 < limit@ <= usize::MAX,
    ensures
        forall|k: MappingKey| #[trigger]
            final(counts)@.contains_key(k) == (old(counts)@.contains_key(k) || map@.contains_key(k)),
        forall|k: MappingKey|
            final(counts)@.contains_key(k) ==> #[trigger] final(counts)@[k] == (if old(
                counts,
            )@.contains_key(k) {
                old(counts)@[k] as int
            } else {
                0
            }) + (if map@.contains_key(k) {
                1int
            } else {
                0
            }),
{
    let entries: &Vec<(MappingKey, u64)> = map.entries();
    let ghost before = counts@;
    let mut i: usize = 0;
    while i < entries.len()
        invariant
            i <= entries.len(),
            sorted_map::map_of(entries@) == map@,
            sorted_map::ascending(entries@),
            0 < limit@ <= usize::MAX,
            forall|k: MappingKey| before.contains_key(k) ==> #[trigger] before[k] < limit@,
            forall|k: MappingKey| #[trigger]
                counts@.contains_key(k) == (before.contains_key(k) || sorted_map::has_key(
                    entries@.take(i as int),
                    k,
                )),
            forall|k: MappingKey|
                counts@.contains_key(k) ==> #[trigger] counts@[k] == (if before.contains_key(k) {
                    before[k] as int
                } else {
                    0
                }) + (if sorted_map::has_key(entries@.take(i as int), k) {
                    1int
                } else {
                    0
                }),
        decreases entries.len() - i,
    {
        let key: MappingKey = entries[i].0;
        let ghost seen = entries@.take(i as int);
        let ghost mid = counts@;
        proof {
            assert(!sorted_map::has_key(seen, key)) by {
                if sorted_map::has_key(seen, key) {
                    let j = choose|j: int| sorted_map::key_at(seen, key, j);
                    assert(entries@[j].0.rank() < entries@[i as int].0.rank());
                }
            }
        }
        let n: usize = match counts.get(&key) {
            Some(n) => *n,
            None => 0,
        };
        counts.insert(key, n + 1);
        i += 1;
        proof {
            let next = entries@.take(i as int);
            assert(next[i - 1].0 == key);
            assert(sorted_map::key_at(next, key, i - 1));
            assert forall|k: MappingKey| #[trigger] sorted_map::has_key(next, k) == (
            sorted_map::has_key(seen, k) || k == key) by {
                if sorted_map::has_key(next, k) {
                    let j = choose|j: int| sorted_map::key_at(next, k, j);
                    if j < i - 1 {
                        assert(sorted_map::key_at(seen, k, j));
                    }
                }
                if sorted_map::has_key(seen, k) {
                    let j = choose|j: int| sorted_map::key_at(seen, k, j);
                    assert(sorted_map::key_at(next, k, j));
                }
            }
            assert forall|k: MappingKey| #[trigger]
                counts@.contains_key(k) == (before.contains_key(k) || sorted_map::has_key(
                    next,
                    k,
                )) by {
                assert(sorted_map::has_key(next, k) == (sorted_map::has_key(seen, k) || k == key));
                assert(mid.contains_key(k) == (before.contains_key(k) || sorted_map::has_key(
                    seen,
                    k,
                )));
            }
            assert forall|k: MappingKey| counts@.contains_key(k) implies #[trigger] counts@[k] == (
            if before.contains_key(k) {
                before[k] as int
            } else {
                0
            }) + (if sorted_map::has_key(next, k) {
                1int
            } else {
                0
            }) by {
                assert(sorted_map::has_key(next, k) == (sorted_map::has_key(seen, k) || k == key));
                assert(mid.contains_key(k) == (before.contains_key(k) || sorted_map::has_key(
                    seen,
                    k,
                )));
                if k != key {
                    assert(counts@[k] == mid[k]);
                }
            }
        }
    }
    proof {
        assert(entries@.take(i as int) =~= entries@);
    }
}

/// The mappings by process, and how often each file is mapped.
pub fn collect_file_mappings(mapped: Vec<MappedProcess>) -> (r: (
    SortedMap<i32, PidMappings>,
    SortedMap<MappingKey, usize>,
))
    requires
        mapped.len() < usize::MAX / 2,
    ensures
        mapping_views(r.0@) == mappings_by_pid(mapped_views(mapped@)),
        forall|k: MappingKey| #[trigger]
            r.1@.contains_key(k) == (sharers(mapped_views(mapped@), k) > 0),
        forall|k: MappingKey|
            r.1@.contains_key(k) ==> #[trigger] r.1@[k] == sharers(mapped_views(mapped@), k),
{
    let ghost all = mapped_views(mapped@);
    let ghost total = mapped@.len() as int;
    let mut left: Vec<MappedProcess> = mapped;
    let mut by_pid: SortedMap<i32, PidMappings> = SortedMap::new();
    let mut counts: SortedMap<MappingKey, usize> = SortedMap::new();
    let ghost mut done: int = 0;
    proof {
        assert(all.take(0) =~= Seq::<(i32, MappingsView)>::empty());
        assert(mapping_views(by_pid@) =~= Map::<i32, MappingsView>::empty());
    }
    while left.len() > 0
        invariant
            0 <= done <= all.len(),
            all.len() == total,
            total < usize::MAX / 2,
            left@.len() == all.len() - done,
            mapped_views(left@) == all.skip(done),
            mapping_views(by_pid@) == mappings_by_pid(all.take(done)),
            forall|k: MappingKey| #[trigger]
                counts@.contains_key(k) == (sharers(all.take(done), k) > 0),
            forall|k: MappingKey|
                counts@.contains_key(k) ==> #[trigger] counts@[k] == sharers(all.take(done), k),
        decreases left.len(),
    {
        let ghost before = left@;
        let process: MappedProcess = left.remove(0);
        proof {
            assert(mapped_views(before)[0] == (process.pid, process.mappings@));
            assert(all.skip(done)[0] == all[done]);
            assert(mapped_views(left@) =~= all.skip(done + 1)) by {
                assert forall|i: int| 0 <= i < left@.len() implies mapped_views(left@)[i]
                    == all.skip(done + 1)[i] by {
                    assert(left@[i] == before[i + 1]);
                    assert(mapped_views(before)[i + 1] == all.skip(done)[i + 1]);
                }
            }
            assert(all.take(done + 1).drop_last() =~= all.take(done));
            assert(all.take(done + 1).last() == all[done]);
        }
        let ghost view = process.mappings@;
        let ghost old_counts = counts@;
        if !process.mappings.file.is_empty() || !process.mappings.shmem.is_empty() {
            proof {
                assert forall|k: MappingKey| counts@.contains_key(k) implies #[trigger] counts@[k]
                    < usize::MAX - 1 by {
                    lemma_sharers_bound(all.take(done), k);
                }
            }
            count_keys(&mut counts, &process.mappings.file, Ghost(usize::MAX - 1));
            let ghost mid_counts = counts@;
            proof {
                assert forall|k: MappingKey| counts@.contains_key(k) implies #[trigger] counts@[k]
                    < usize::MAX by {
                    lemma_sharers_bound(all.take(done), k);
                    if old_counts.contains_key(k) {
                        assert(old_counts[k] == sharers(all.take(done), k));
                    }
                }
            }
            count_keys(&mut counts, &process.mappings.shmem, Ghost(usize::MAX as int));
            proof {
                assert forall|k: MappingKey| #[trigger]
                    counts@.contains_key(k) == (sharers(all.take(done + 1), k) > 0) by {
                    lemma_sharers_bound(all.take(done), k);
                    assert(mid_counts.contains_key(k) == (old_counts.contains_key(k)
                        || view.file.contains_key(k)));
                    assert(old_counts.contains_key(k) == (sharers(all.take(done), k) > 0));
                }
                assert forall|k: MappingKey| counts@.contains_key(k) implies #[trigger] counts@[k]
                    == sharers(all.take(done + 1), k) by {
                    lemma_sharers_bound(all.take(done), k);
                    assert(mid_counts.contains_key(k) == (old_counts.contains_key(k)
                        || view.file.contains_key(k)));
                    assert(old_counts.contains_key(k) == (sharers(all.take(done), k) > 0));
                    if mid_counts.contains_key(k) {
                        assert(mid_counts[k] == (if old_counts.contains_key(k) {
                            old_counts[k] as int
                        } else {
                            0
                        }) + (if view.file.contains_key(k) {
                            1int
                        } else {
                            0
                        }));
                    }
                    if old_counts.contains_key(k) {
                        assert(old_counts[k] == sharers(all.take(done), k));
                    }
                }
            }
            let ghost old_map = by_pid@;
            let pid: i32 = process.pid;
            by_pid.insert(pid, process.mappings);
            proof {
                assert(mapping_views(by_pid@) =~= mapping_views(old_map).insert(pid, view));
            }
        } else {
            proof {
                assert(maps_nothing(view));
                assert forall|k: MappingKey| sharers(all.take(done + 1), k) == sharers(
                    all.take(done),
                    k,
                ) by {}
            }
        }
        proof {
            done = done + 1;
        }
    }
    proof {
        assert(all.take(done) =~= all);
    }
    (by_pid, counts)
}

// Weighting ------------------------------------------------------------------------------

/// How the resident memory of one kind is weighted: not at all, or by the shares
/// of the mappings. The weighted value is `raw` times the sum of
/// `size / total / sharers` over the shares, but never more than `raw`.
#[derive(Debug)]
pub enum Weighting {
    Raw(usize),
    Shared { raw: usize, total: u64, shares: Vec<(u64, usize)> },
}

/// What a `Weighting` holds.
#[verifier::ext_equal]
pub enum WeightingView {
    Raw(usize),
    Shared { raw: usize, total: u64, shares: Seq<(u64, usize)> },
}

impl View for Weighting {
    type V = WeightingView;

    open spec fn view(&self) -> WeightingView {
        match self {
            Weighting::Raw(raw) => WeightingView::Raw(*raw),
            Weighting::Shared { raw, total, shares } => WeightingView::Shared {
                raw: *raw,
                total: *total,
                shares: shares@,
            },
        }
    }
}

/// The size of all mappings, modulo 2^64.
pub open spec fn total_size(pairs: Seq<(MappingKey, u64)>) -> int
    decreases pairs.len(),
{
    if pairs.len() == 0 {
        0
    } else {
        (total_size(pairs.drop_last()) + pairs.last().1) % 0x1_0000_0000_0000_0000
    }
}

/// How often a file is mapped; once where it was not counted.
pub open spec fn sharers_of(counts: Map<MappingKey, usize>, key: MappingKey) -> usize {
    if counts.contains_key(key) {
        counts[key]
    } else {
        1
    }
}

/// The sizes of the mappings, each with how often its file is mapped.
pub open spec fn shares_of(
    pairs: Seq<(MappingKey, u64)>,
    counts: Map<MappingKey, usize>,
) -> Seq<(u64, usize)> {
    Seq::new(pairs.len(), |i: int| (pairs[i].1, sharers_of(counts, pairs[i].0)))
}

/// How the resident memory is weighted. It stays as it is where there is none, or
/// where nothing is known to weight it by.
pub open spec fn weighting_of(
    raw: usize,
    mappings: Option<Map<MappingKey, u64>>,
    counts: Map<MappingKey, usize>,
) -> WeightingView {
    match mappings {
        Some(mappings) => {
            let pairs = sorted_map::sorted_pairs(mappings);
            if raw > 0 && total_size(pairs) != 0 {
                WeightingView::Shared {
                    raw,
                    total: total_size(pairs) as u64,
                    shares: shares_of(pairs, counts),
                }
            } else {
                WeightingView::Raw(raw)
            }
        },
        None => WeightingView::Raw(raw),
    }
}

/// How the resident memory is weighted.
pub fn weighted_rss(
    raw: usize,
    mappings: Option<&SortedMap<MappingKey, u64>>,
    sharer_counts: &SortedMap<MappingKey, usize>,
) -> (r: Weighting)
    ensures
        r@ == weighting_of(
            raw,
            match mappings {
                Some(m) => Some(m@),
                None => None,
            },
            sharer_counts@,
        ),
{
    let Some(mappings) = mappings else {
        return Weighting::Raw(raw);
    };
    if raw == 0 {
        return Weighting::Raw(raw);
    }
    let entries: &Vec<(MappingKey, u64)> = mappings.entries();
    let ghost pairs = sorted_map::sorted_pairs(mappings@);
    let mut total: u64 = 0;
    let mut shares: Vec<(u64, usize)> = Vec::new();
    let mut i: usize = 0;
    proof {
        assert(pairs.take(0) =~= Seq::<(MappingKey, u64)>::empty());
    }
    while i < entries.len()
        invariant
            i <= entries.len(),
            entries@ == pairs,
            total == total_size(pairs.take(i as int)),
            shares.len() == i,
            forall|j: int|
                0 <= j < i ==> #[trigger] shares@[j] == shares_of(pairs, sharer_counts@)[j],
        decreases entries.len() - i,
    {
        let (key, size): (MappingKey, u64) = entries[i];
        let n: usize = match sharer_counts.get(&key) {
            Some(n) => *n,
            None => 1,
        };
        total = total.wrapping_add(size);
        shares.push((size, n));
        i += 1;
        proof {
            assert(pairs.take(i as int).drop_last() =~= pairs.take(i - 1));
            assert(pairs.take(i as int).last() == pairs[i - 1]);
        }
    }
    proof {
        assert(pairs.take(i as int) =~= pairs);
        assert(shares@ =~= shares_of(pairs, sharer_counts@));
    }
    if total == 0 {
        Weighting::Raw(raw)
    } else {
        Weighting::Shared { raw, total, shares }
    }
}

/// What the parts of the approximation are made of.
pub struct ApproxPss {
    pub rss_anon: usize,
    pub file: Weighting,
    pub shmem: Weighting,
}

/// What an `ApproxPss` holds.
#[verifier::ext_equal]
pub struct ApproxPssView {
    pub rss_anon: usize,
    pub file: WeightingView,
    pub shmem: WeightingView,
}

impl View for ApproxPss {
    type V = ApproxPssView;

    open spec fn view(&self) -> ApproxPssView {
        ApproxPssView { rss_anon: self.rss_anon, file: self.file@, shmem: self.shmem@ }
    }
}

/// How the memory of a process is approximated: what it has for itself counts in
/// full, files and shared memory are weighted.
pub open spec fn approximation(
    rss_anon: usize,
    rss_file: usize,
    rss_shmem: usize,
    mappings: Option<MappingsView>,
    counts: Map<MappingKey, usize>,
) -> ApproxPssView {
    ApproxPssView {
        rss_anon,
        file: weighting_of(
            rss_file,
            match mappings {
                Some(m) => Some(m.file),
                None => None,
            },
            counts,
        ),
        shmem: weighting_of(
            rss_shmem,
            match mappings {
                Some(m) => Some(m.shmem),
                None => None,
            },
            counts,
        ),
    }
}

/// The mappings of a process, where they are known.
pub open spec fn mappings_at(by_pid: Map<i32, MappingsView>, pid: i32) -> Option<MappingsView> {
    if by_pid.contains_key(pid) {
        Some(by_pid[pid])
    } else {
        None
    }
}

/// How the memory of a process is approximated.
pub fn approx_pss(
    rss_anon: usize,
    rss_file: usize,
    rss_shmem: usize,
    mappings: Option<&PidMappings>,
    sharer_counts: &SortedMap<MappingKey, usize>,
) -> (r: ApproxPss)
    ensures
        r@ == approximation(
            rss_anon,
            rss_file,
            rss_shmem,
            match mappings {
                Some(m) => Some(m@),
                None => None,
            },
            sharer_counts@,
        ),
{
    match mappings {
        Some(m) => ApproxPss {
            rss_anon,
            file: weighted_rss(rss_file, Some(&m.file), sharer_counts),
            shmem: weighted_rss(rss_shmem, Some(&m.shmem), sharer_counts),
        },
        None => ApproxPss {
            rss_anon,
            file: weighted_rss(rss_file, None, sharer_counts),
            shmem: weighted_rss(rss_shmem, None, sharer_counts),
        },
    }
}

/// The approximation from its weighted parts, modulo the range of `usize`.
pub fn pss_sum(rss_anon: usize, weighted_file: usize, weighted_shmem: usize) -> (r: usize)
    ensures
        r == number::wrapped_sum_usize(
            number::wrapped_sum_usize(rss_anon, weighted_file),
            weighted_shmem,
        ),
        rss_anon + weighted_file + weighted_shmem <= usize::MAX ==> r == rss_anon + weighted_file
            + weighted_shmem,
{
    rss_anon.wrapping_add(weighted_file).wrapping_add(weighted_shmem)
}

// Laws ---------------------------------------------------------------------------------------

/// The sum over the shares of `size`.
pub open spec fn plain_sizes(shares: Seq<(u64, usize)>) -> int
    decreases shares.len(),
{
    if shares.len() == 0 {
        0
    } else {
        plain_sizes(shares.drop_last()) + shares.last().0
    }
}

/// Whoever maps a file counts among its sharers, and there are at most two per
/// process.
pub proof fn mapper_is_sharer(list: Seq<(i32, MappingsView)>, i: int, key: MappingKey)
    requires
        0 <= i < list.len(),
        list[i].1.file.contains_key(key) || list[i].1.shmem.contains_key(key),
    ensures
        1 <= sharers(list, key) <= 2 * list.len(),
    decreases list.len(),
{
    lemma_sharers_bound(list, key);
    lemma_sharers_bound(list.drop_last(), key);
    if i < list.len() - 1 {
        mapper_is_sharer(list.drop_last(), i, key);
    }
}

/// A common denominator of the sharers: their product.
pub open spec fn common_denominator(shares: Seq<(u64, usize)>) -> int
    decreases shares.len(),
{
    if shares.len() == 0 {
        1
    } else {
        common_denominator(shares.drop_last()) * shares.last().1
    }
}

/// The sum over the shares of `size / sharers`, times the common denominator.
pub open spec fn weighted_numerator(shares: Seq<(u64, usize)>) -> int
    decreases shares.len(),
{
    if shares.len() == 0 {
        0
    } else {
        weighted_numerator(shares.drop_last()) * shares.last().1 + shares.last().0
            * common_denominator(shares.drop_last())
    }
}

/// The exact weighted value as a fraction, by its numerator and its denominator: `raw`
/// times the sum of `size / total / sharers`, which counts as one where it is more.
pub open spec fn weighted_value(w: WeightingView) -> (int, int) {
    match w {
        WeightingView::Raw(raw) => (raw as int, 1),
        WeightingView::Shared { raw, total, shares } => {
            let num = weighted_numerator(shares);
            let den = common_denominator(shares) * total;
            (raw * if num <= den {
                num
            } else {
                den
            }, den)
        },
    }
}

/// Whether every mapping has at least one sharer.
pub open spec fn all_shared(shares: Seq<(u64, usize)>) -> bool {
    forall|i: int| 0 <= i < shares.len() ==> (#[trigger] shares[i]).1 >= 1
}

/// Weighting by sharers never makes the mappings larger: the sum of `size / sharers` is
/// at most the sum of the sizes. Both are taken times the common denominator, so
/// nothing is rounded.
pub proof fn weighting_shrinks(shares: Seq<(u64, usize)>)
    requires
        all_shared(shares),
    ensures
        common_denominator(shares) >= 1,
        0 <= weighted_numerator(shares) <= common_denominator(shares) * plain_sizes(shares),
    decreases shares.len(),
{
    if shares.len() > 0 {
        let rest = shares.drop_last();
        assert forall|i: int| 0 <= i < rest.len() implies (#[trigger] rest[i]).1 >= 1 by {
            assert(rest[i] == shares[i]);
        }
        weighting_shrinks(rest);
        let size = shares.last().0 as int;
        let n = shares.last().1 as int;
        let num = weighted_numerator(rest);
        let den = common_denominator(rest);
        let sum = plain_sizes(rest);
        assert(shares[shares.len() - 1].1 >= 1);
        assert(den * n >= 1 && 0 <= num * n + size * den <= den * n * (sum + size))
            by (nonlinear_arith)
            requires
                n >= 1,
                size >= 0,
                den >= 1,
                0 <= num <= den * sum,
        ;
    }
}

proof fn lemma_total_size(pairs: Seq<(MappingKey, u64)>, counts: Map<MappingKey, usize>)
    ensures
        total_size(pairs) == plain_sizes(shares_of(pairs, counts)) % 0x1_0000_0000_0000_0000,
        0 <= plain_sizes(shares_of(pairs, counts)),
    decreases pairs.len(),
{
    if pairs.len() > 0 {
        let shares = shares_of(pairs, counts);
        lemma_total_size(pairs.drop_last(), counts);
        assert(shares.drop_last() =~= shares_of(pairs.drop_last(), counts));
        assert(shares.last().0 == pairs.last().1);
    }
}

/// The exact weighted value is at most the resident memory that is weighted. Where the
/// sizes of the mappings add up within 64 bits it is exactly `raw` times the sum of
/// `size / total / sharers`, which is then never more than one.
pub proof fn weighted_at_most_raw(
    raw: usize,
    mappings: Option<Map<MappingKey, u64>>,
    counts: Map<MappingKey, usize>,
)
    requires
        forall|key: MappingKey| #[trigger] counts.contains_key(key) ==> counts[key] >= 1,
    ensures
        ({
            let (num, den) = weighted_value(weighting_of(raw, mappings, counts));
            den >= 1 && 0 <= num <= raw * den
        }),
        weighting_of(raw, mappings, counts) matches WeightingView::Shared { raw: r, total, shares }
            ==> {
            &&& all_shared(shares)
            &&& r == raw
            &&& plain_sizes(shares) <= u64::MAX ==> {
                &&& total == plain_sizes(shares)
                &&& weighted_numerator(shares) <= common_denominator(shares) * total
                &&& weighted_value(weighting_of(raw, mappings, counts)) == (
                    raw * weighted_numerator(shares),
                    common_denominator(shares) * total,
                )
            }
        },
{
    let w = weighting_of(raw, mappings, counts);
    if let WeightingView::Shared { raw: r, total, shares } = w {
        let pairs = sorted_map::sorted_pairs(mappings->0);
        lemma_total_size(pairs, counts);
        assert forall|i: int| 0 <= i < shares.len() implies (#[trigger] shares[i]).1 >= 1 by {
            assert(shares[i].1 == sharers_of(counts, pairs[i].0));
        }
        weighting_shrinks(shares);
        let den = common_denominator(shares) * total;
        let num = if weighted_numerator(shares) <= den {
            weighted_numerator(shares)
        } else {
            den
        };
        assert(den >= 1) by (nonlinear_arith)
            requires
                den == common_denominator(shares) * total,
                common_denominator(shares) >= 1,
                total >= 1,
        ;
        assert(0 <= raw * num <= raw * den) by (nonlinear_arith)
            requires
                raw >= 0,
                0 <= num <= den,
        ;
    }
}

/// Every mapping has its own share in the weighting, with its size and with how often its
/// file is mapped; a file that was not counted is mapped once.
pub proof fn every_mapping_has_its_share(
    raw: usize,
    mappings: Map<MappingKey, u64>,
    counts: Map<MappingKey, usize>,
)
    requires
        mappings.dom().finite(),
    ensures
        weighting_of(raw, Some(mappings), counts) matches WeightingView::Shared {
            raw: r,
            total,
            shares,
        } ==> {
            &&& r == raw
            &&& shares.len() == mappings.dom().len()
            &&& forall|key: MappingKey| #[trigger]
                mappings.contains_key(key) ==> shares.contains(
                    (
                        mappings[key],
                        if counts.contains_key(key) {
                            counts[key]
                        } else {
                            1
                        },
                    ),
                )
        },
        raw == 0 ==> weighting_of(raw, Some(mappings), counts) == WeightingView::Raw(0),
        weighting_of(raw, None, counts) == WeightingView::Raw(raw),
{
    sorted_map::finite_map_is_listed(mappings);
    let pairs = sorted_map::sorted_pairs(mappings);
    let shares = shares_of(pairs, counts);
    assert forall|key: MappingKey| #[trigger] mappings.contains_key(key) implies shares.contains(
        (
            mappings[key],
            if counts.contains_key(key) {
                counts[key]
            } else {
                1
            },
        ),
    ) by {
        let i = choose|i: int| 0 <= i < pairs.len() && pairs[i] == (key, mappings[key]);
        assert(shares[i] == (mappings[key], sharers_of(counts, key)));
    }
}

/// Memory that is resident through a single mapping is split evenly among all who map its
/// file: the weighted value is the resident memory divided by their number, so that the
/// values of all of them together count the memory once.
pub proof fn sole_mapping_split_evenly(
    raw: usize,
    key: MappingKey,
    size: u64,
    counts: Map<MappingKey, usize>,
)
    requires
        size > 0,
        counts.contains_key(key),
        counts[key] > 0,
    ensures
        ({
            let (num, den) = weighted_value(
                weighting_of(
                    raw,
                    Some(Map::<MappingKey, u64>::empty().insert(key, size)),
                    counts,
                ),
            );
            den > 0 && num * counts[key] == raw * den
        }),
{
    let m = Map::<MappingKey, u64>::empty().insert(key, size);
    let n = counts[key];
    sorted_map::one_pair_is_listed(key, size);
    let pairs = sorted_map::sorted_pairs(m);
    let none = Seq::<(MappingKey, u64)>::empty();
    assert(pairs.drop_last() =~= none);
    assert(total_size(none) == 0);
    assert(total_size(pairs) == size);
    let shares = shares_of(pairs, counts);
    assert(shares =~= seq![(size, n)]);
    let empty = Seq::<(u64, usize)>::empty();
    assert(shares.drop_last() =~= empty);
    assert(weighted_numerator(empty) == 0 && common_denominator(empty) == 1);
    assert(0 * n == 0 && size * 1 == size && 1 * n == n) by (nonlinear_arith);
    assert(weighted_numerator(shares) == size);
    assert(common_denominator(shares) == n);
    if raw > 0 {
        assert(size <= n * size && n * size > 0) by (nonlinear_arith)
            requires
                n > 0,
                size > 0,
        ;
        assert((raw * size) * n == raw * (n * size)) by (nonlinear_arith);
    } else {
        assert(0 * n == 0 && 0 * 1 == 0) by (nonlinear_arith);
    }
}

/// In the approximation private memory counts in full, files are weighted by the mapped
/// files, and shared memory by the mapped shared memory.
pub proof fn parts_of_the_approximation(
    rss_anon: usize,
    rss_file: usize,
    rss_shmem: usize,
    m: MappingsView,
    counts: Map<MappingKey, usize>,
)
    ensures
        ({
            let a = approximation(rss_anon, rss_file, rss_shmem, Some(m), counts);
            &&& a.rss_anon == rss_anon
            &&& weighted_value(a.file) == weighted_value(
                weighting_of(rss_file, Some(m.file), counts),
            )
            &&& weighted_value(a.shmem) == weighted_value(
                weighting_of(rss_shmem, Some(m.shmem), counts),
            )
        }),
        ({
            let a = approximation(rss_anon, rss_file, rss_shmem, None, counts);
            &&& a.rss_anon == rss_anon
            &&& weighted_value(a.file) == (rss_file as int, 1int)
            &&& weighted_value(a.shmem) == (rss_shmem as int, 1int)
        }),
{
}

/// Where the only shared memory that a process maps is mapped by several processes, it
/// counts with its resident shared memory divided by their number; and likewise for the
/// only file that it maps.
pub proof fn sole_segment_split_evenly(
    rss_anon: usize,
    rss_file: usize,
    rss_shmem: usize,
    m: MappingsView,
    counts: Map<MappingKey, usize>,
    key: MappingKey,
    size: u64,
)
    requires
        size > 0,
        counts.contains_key(key),
        counts[key] > 0,
    ensures
        m.shmem == Map::<MappingKey, u64>::empty().insert(key, size) ==> {
            let (num, den) = weighted_value(
                approximation(rss_anon, rss_file, rss_shmem, Some(m), counts).shmem,
            );
            den > 0 && num * counts[key] == rss_shmem * den
        },
        m.file == Map::<MappingKey, u64>::empty().insert(key, size) ==> {
            let (num, den) = weighted_value(
                approximation(rss_anon, rss_file, rss_shmem, Some(m), counts).file,
            );
            den > 0 && num * counts[key] == rss_file * den
        },
{
    sole_mapping_split_evenly(rss_shmem, key, size, counts);
    sole_mapping_split_evenly(rss_file, key, size, counts);
}

/// Who maps a file is counted over all processes: those of a list are the ones of its
/// parts together, and a process counts once as mapping a file and once as mapping shared
/// memory.
pub proof fn sharers_add_up(
    a: Seq<(i32, MappingsView)>,
    b: Seq<(i32, MappingsView)>,
    pid: i32,
    m: MappingsView,
    key: MappingKey,
)
    ensures
        sharers(a + b, key) == sharers(a, key) + sharers(b, key),
        sharers(seq![(pid, m)], key) == if m.file.contains_key(key) && m.shmem.contains_key(key) {
            2int
        } else if m.file.contains_key(key) || m.shmem.contains_key(key) {
            1
        } else {
            0
        },
    decreases b.len(),
{
    let one = seq![(pid, m)];
    assert(one.drop_last() =~= Seq::<(i32, MappingsView)>::empty());
    assert(one.last().1 == m);
    assert(sharers(one.drop_last(), key) == 0);
    if b.len() == 0 {
        assert(a + b =~= a);
    } else {
        sharers_add_up(a, b.drop_last(), pid, m, key);
        assert((a + b).drop_last() =~= a + b.drop_last());
        assert((a + b).last() == b.last());
    }
}

/// What a process of a list maps is found under its identifier, unless it maps nothing.
pub proof fn mappings_found_by_process(list: Seq<(i32, MappingsView)>, i: int)
    requires
        0 <= i < list.len(),
        list[i].1.file.dom() != Set::<MappingKey>::empty() || list[i].1.shmem.dom() != Set::<
            MappingKey,
        >::empty(),
        forall|j: int| 0 <= j < list.len() && j != i ==> (#[trigger] list[j]).0 != list[i].0,
    ensures
        mappings_at(mappings_by_pid(list), list[i].0) == Some(list[i].1),
    decreases list.len(),
{
    let head = list.drop_last();
    if i < head.len() {
        assert forall|j: int| 0 <= j < head.len() && j != i implies (#[trigger] head[j]).0
            != head[i].0 by {
            assert(list[j].0 != list[i].0);
        }
        mappings_found_by_process(head, i);
        assert(list[list.len() - 1].0 != list[i].0);
    } else {
        assert(Map::<MappingKey, u64>::empty().dom() =~= Set::<MappingKey>::empty());
    }
}

/// What a line of `maps` tells: the file by its device and its inode, the size of the range
/// of addresses, and whether it is shared memory by its path. A line of no file tells
/// nothing.
pub proof fn maps_line_tells(
    line: Seq<char>,
    start: Seq<char>,
    end: Seq<char>,
    major: Seq<char>,
    minor: Seq<char>,
    inode: u64,
)
    requires
        text::words(line).len() >= 5,
        forall|i: int| 0 <= i < start.len() ==> start[i] != '-',
        text::words(line)[0] == start + seq!['-'] + end,
        forall|i: int| 0 <= i < major.len() ==> major[i] != ':',
        text::words(line)[3] == major + seq![':'] + minor,
        number::parse_unsigned(text::words(line)[4], 10, u64::MAX as int) == Some(inode as int),
        number::parse_unsigned(start, 16, u64::MAX as int) is Some,
        number::parse_unsigned(end, 16, u64::MAX as int) is Some,
        number::parse_unsigned(major, 16, 0xffff) is Some,
        number::parse_unsigned(minor, 16, 0xffff) is Some,
    ensures
        inode == 0 ==> mapping_of(line) is None,
        inode != 0 ==> ({
            let a = number::parse_unsigned(start, 16, u64::MAX as int)->0;
            let b = number::parse_unsigned(end, 16, u64::MAX as int)->0;
            let path = text::words(line)[5];
            &&& mapping_of(line) is Some
            &&& mapping_of(line)->0.key.inode == inode
            &&& mapping_of(line)->0.key.dev == number::parse_unsigned(major, 16, 0xffff)->0
                * 0x1_0000 + number::parse_unsigned(minor, 16, 0xffff)->0
            &&& a <= b ==> mapping_of(line)->0.size == b - a
            &&& b < a ==> mapping_of(line)->0.size == 0
            &&& mapping_of(line)->0.shmem == (text::words(line).len() == 5 || path
                == Seq::<char>::empty() || text::starts_with(path, "/dev/shm/"@)
                || text::starts_with(path, "/memfd:"@) || text::starts_with(path, "/SYSV"@))
        }),
{
    text::lemma_split_once_joined(start, '-', end);
    text::lemma_split_once_joined(major, ':', minor);
    number::number_is_within_bounds(start, 16, 0, u64::MAX as int, u64::MAX as int);
    number::number_is_within_bounds(end, 16, 0, u64::MAX as int, u64::MAX as int);
    number::number_is_within_bounds(major, 16, 0, 0xffff, u32::MAX as int);
    number::number_is_within_bounds(minor, 16, 0, 0xffff, u32::MAX as int);
    if text::words(line).len() > 5 {
        let path = text::words(line)[5];
        assert((path.len() == 0) == (path =~= Seq::<char>::empty()));
    }
}

proof fn lemma_grown(map: Map<MappingKey, u64>, at: MappingKey, size: u64, key: MappingKey)
    ensures
        grown(map, at, size).contains_key(at),
        !map.contains_key(at) ==> grown(map, at, size)[at] == size,
        map.contains_key(at) && map[at] + size <= u64::MAX ==> grown(map, at, size)[at] == map[at]
            + size,
        key != at ==> grown(map, at, size).contains_key(key) == map.contains_key(key) && (
        map.contains_key(key) ==> grown(map, at, size)[key] == map[key]),
{
}

/// The lines of `maps` add up: one that tells of a file adds its size to what is mapped of
/// that already, as shared memory or as a file, and leaves all else as it is.
#[verifier::spinoff_prover]
#[verifier::rlimit(50)]
pub proof fn maps_lines_add_up(lines: Seq<Seq<char>>, line: Seq<char>, key: MappingKey)
    ensures
        ({
            let before = mappings_of(lines);
            let after = mappings_of(lines.push(line));
            match mapping_of(line) {
                None => after == before,
                Some(m) => {
                    let (grows, stays, grown, stayed) = if m.shmem {
                        (before.shmem, before.file, after.shmem, after.file)
                    } else {
                        (before.file, before.shmem, after.file, after.shmem)
                    };
                    &&& stayed == stays
                    &&& grown.contains_key(m.key)
                    &&& !grows.contains_key(m.key) ==> grown[m.key] == m.size
                    &&& grows.contains_key(m.key) && grows[m.key] + m.size <= u64::MAX
                        ==> grown[m.key] == grows[m.key] + m.size
                    &&& key != m.key ==> grown.contains_key(key) == grows.contains_key(key) && (
                    grows.contains_key(key) ==> grown[key] == grows[key])
                },
            }
        }),
        mappings_of(Seq::<Seq<char>>::empty()).file == Map::<MappingKey, u64>::empty(),
        mappings_of(Seq::<Seq<char>>::empty()).shmem == Map::<MappingKey, u64>::empty(),
{
    assert(lines.push(line).drop_last() =~= lines);
    assert(lines.push(line).last() == line);
    if let Some(m) = mapping_of(line) {
        lemma_grown(mappings_of(lines).shmem, m.key, m.size, key);
        lemma_grown(mappings_of(lines).file, m.key, m.size, key);
    }
}

/// The exact value is the number of kibibytes behind `Pss` in `smaps_rollup`; it is not
/// known where that cannot be read.
pub proof fn exact_value_from_kernel(content: Seq<char>, kib: usize)
    ensures
        exact_pss(None) is None,
        exact_pss(Some(content)) is Some,
        pattern::group(
            pattern::captures_of(r"Pss:\s*([0-9]+)\s*kB"@, text::trim(content)),
            1,
        ) == Some(number::number_text(kib as int, 10)) && kib * 1024 <= usize::MAX ==> exact_pss(
            Some(content),
        ) == Some((kib * 1024) as usize),
{
    number::number_round_trip(kib as int, 10, 0, usize::MAX as int);
    let s = number::number_text(kib as int, 10);
    number::lemma_number_text(kib as int, 10);
    assert(number::pad_zeros(s, 0) == s);
}

/// Of a process that is not listed no mappings are known.
pub proof fn unlisted_process_has_no_mappings(list: Seq<(i32, MappingsView)>, pid: i32)
    requires
        forall|j: int| 0 <= j < list.len() ==> (#[trigger] list[j]).0 != pid,
    ensures
        mappings_at(mappings_by_pid(list), pid) is None,
    decreases list.len(),
{
    if list.len() > 0 {
        let head = list.drop_last();
        assert forall|j: int| 0 <= j < head.len() implies (#[trigger] head[j]).0 != pid by {
            assert(head[j] == list[j]);
        }
        assert(list[list.len() - 1].0 != pid);
        unlisted_process_has_no_mappings(head, pid);
    }
}

} // verus!
