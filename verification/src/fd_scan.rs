//! Which file descriptors of a process are worth reading.
//!
//! Most descriptors have nothing to do with a GPU or an NPU. Those are remembered
//! and skipped the next time, as are those that point where another one of the
//! same process points to.

use vstd::prelude::*;

use crate::fdinfo;
use crate::fdinfo::{FdKey, Fdinfo, FdinfoView};
use crate::number;
use crate::path;
use crate::path::{ComponentsView, PathComponents};
use crate::sorted_map::SortedMap;
use crate::text;

verus! {

/// What is remembered of descriptors from one scan to the next.
pub struct FdCaches {
    /// Descriptors that tell nothing of a GPU.
    pub non_gpu: SortedMap<FdKey, ()>,
    /// Descriptors that tell nothing of an NPU.
    pub non_npu: SortedMap<FdKey, ()>,
    /// What a descriptor points to, as the bytes of a path.
    pub symlinks: SortedMap<FdKey, Vec<u8>>,
}

/// What `FdCaches` holds.
#[verifier::ext_equal]
pub struct FdCachesView {
    pub non_gpu: Set<FdKey>,
    pub non_npu: Set<FdKey>,
    pub symlinks: Map<FdKey, Seq<u8>>,
}

/// A map of byte vectors as a map of byte sequences.
pub open spec fn link_bytes(m: Map<FdKey, Vec<u8>>) -> Map<FdKey, Seq<u8>> {
    Map::new(|k: FdKey| m.contains_key(k), |k: FdKey| m[k]@)
}

impl View for FdCaches {
    type V = FdCachesView;

    open spec fn view(&self) -> FdCachesView {
        FdCachesView {
            non_gpu: self.non_gpu@.dom(),
            non_npu: self.non_npu@.dom(),
            symlinks: link_bytes(self.symlinks@),
        }
    }
}

/// An optional byte vector as an optional byte sequence.
pub open spec fn opt_bytes(b: Option<Vec<u8>>) -> Option<Seq<u8>> {
    match b {
        Some(v) => Some(v@),
        None => None,
    }
}

impl FdCaches {
    /// Caches in which nothing is remembered.
    pub fn new() -> (r: Self)
        ensures
            r@.non_gpu == Set::<FdKey>::empty(),
            r@.non_npu == Set::<FdKey>::empty(),
            r@.symlinks == Map::<FdKey, Seq<u8>>::empty(),
    {
        let r = FdCaches {
            non_gpu: SortedMap::new(),
            non_npu: SortedMap::new(),
            symlinks: SortedMap::new(),
        };
        proof {
            assert(r@.non_gpu =~= Set::<FdKey>::empty());
            assert(r@.non_npu =~= Set::<FdKey>::empty());
            assert(r@.symlinks =~= Map::<FdKey, Seq<u8>>::empty());
        }
        r
    }

    /// Whether the file of a descriptor is worth reading: not where it is known to
    /// tell nothing and does not point to a device.
    pub fn worth_reading(&self, key: FdKey, link: &Option<Vec<u8>>) -> (r: bool)
        ensures
            r == !passed_over(self@, key, opt_bytes(*link)),
    {
        let known: bool = self.non_gpu.contains_key(&key) && self.non_npu.contains_key(&key);
        let target: Option<Vec<u8>> = match self.cached_target(key) {
            Some(target) => Some(target),
            None => copy_target(link),
        };
        match target {
            Some(target) => !known || is_device_path(&target),
            None => true,
        }
    }

    /// Where the descriptor was last seen to point to.
    pub fn cached_target(&self, key: FdKey) -> (r: Option<Vec<u8>>)
        ensures
            opt_bytes(r) == if self@.symlinks.contains_key(key) {
                Some(self@.symlinks[key])
            } else {
                None
            },
    {
        match self.symlinks.get(&key) {
            Some(target) => Some(path::copy_bytes(target)),
            None => None,
        }
    }
}

/// The descriptor that a file in `/proc/<pid>/fdinfo` is named after; 0 where the
/// name is no number.
pub open spec fn fd_of(file_name: Option<Seq<char>>) -> usize {
    match file_name {
        Some(s) => match number::parse_unsigned(s, 10, usize::MAX as int) {
            Some(v) => v as usize,
            None => 0,
        },
        None => 0,
    }
}

/// The descriptor that a file is named after.
pub fn fd_number(file_name: &Option<String>) -> (r: usize)
    ensures
        r == fd_of(text::opt_text(*file_name)),
{
    match file_name {
        Some(s) => match number::parse_usize(s.as_str()) {
            Some(v) => v,
            None => 0,
        },
        None => 0,
    }
}

/// Whether `needle` stands in `s` at position `i`.
pub open spec fn bytes_at(s: Seq<u8>, needle: Seq<u8>, i: int) -> bool {
    0 <= i <= s.len() - needle.len() && s.subrange(i, i + needle.len()) == needle
}

/// Whether `needle` stands somewhere in `s`.
pub open spec fn bytes_contain(s: Seq<u8>, needle: Seq<u8>) -> bool {
    exists|i: int| bytes_at(s, needle, i)
}

/// The bytes of `/dev/dri/`.
pub open spec fn dri_dir() -> Seq<u8> {
    seq![0x2fu8, 0x64, 0x65, 0x76, 0x2f, 0x64, 0x72, 0x69, 0x2f]
}

/// The bytes of `/dev/accel/`.
pub open spec fn accel_dir() -> Seq<u8> {
    seq![0x2fu8, 0x64, 0x65, 0x76, 0x2f, 0x61, 0x63, 0x63, 0x65, 0x6c, 0x2f]
}

/// Whether a path looks like one of a GPU or an NPU.
pub open spec fn device_path(target: Seq<u8>) -> bool {
    bytes_contain(target, dri_dir()) || bytes_contain(target, accel_dir())
}

fn has_bytes(s: &Vec<u8>, needle: &Vec<u8>) -> (r: bool)
    ensures
        r == bytes_contain(s@, needle@),
{
    if needle.len() > s.len() {
        return false;
    }
    let last: usize = s.len() - needle.len();
    let mut i: usize = 0;
    loop
        invariant
            i <= last,
            last + needle.len() == s.len(),
            forall|k: int| 0 <= k < i ==> !bytes_at(s@, needle@, k),
        decreases last - i,
    {
        let mut j: usize = 0;
        while j < needle.len() && s[i + j] == needle[j]
            invariant
                i <= last,
                last + needle.len() == s.len(),
                j <= needle.len(),
                forall|k: int| 0 <= k < j ==> s@[i + k] == needle@[k],
            decreases needle.len() - j,
        {
            j += 1;
        }
        if j == needle.len() {
            proof {
                assert(s@.subrange(i as int, i + needle@.len()) =~= needle@);
                assert(bytes_at(s@, needle@, i as int));
            }
            return true;
        }
        proof {
            assert(s@.subrange(i as int, i + needle@.len())[j as int] != needle@[j as int]);
        }
        if i == last {
            return false;
        }
        i += 1;
    }
}

/// Whether a path looks like one of a GPU or an NPU.
pub fn is_device_path(target: &Vec<u8>) -> (r: bool)
    ensures
        r == device_path(target@),
{
    let dri: Vec<u8> = vec![0x2f, 0x64, 0x65, 0x76, 0x2f, 0x64, 0x72, 0x69, 0x2f];
    let accel: Vec<u8> = vec![0x2f, 0x64, 0x65, 0x76, 0x2f, 0x61, 0x63, 0x63, 0x65, 0x6c, 0x2f];
    proof {
        assert(dri@ =~= dri_dir());
        assert(accel@ =~= accel_dir());
    }
    has_bytes(target, &dri) || has_bytes(target, &accel)
}

/// A scan of the descriptors of one process.
pub struct FdScan {
    pub pid: i32,
    /// Where the descriptors that were taken up point to.
    pub seen: Vec<PathComponents>,
    /// What was read.
    pub found: Vec<Fdinfo>,
}

/// A scan together with the caches that it works on.
#[verifier::ext_equal]
pub struct ScanView {
    pub pid: i32,
    pub seen: Seq<ComponentsView>,
    pub found: Seq<FdinfoView>,
    pub caches: FdCachesView,
}

/// The state of a scan and its caches.
pub open spec fn scan_view(scan: FdScan, caches: FdCaches) -> ScanView {
    ScanView {
        pid: scan.pid,
        seen: path::component_views(scan.seen@),
        found: fdinfo::fdinfo_views(scan.found@),
        caches: caches@,
    }
}

/// Whether the scan takes a descriptor up. A descriptor that is known to tell
/// nothing is skipped unless it points to a device, and so is one that points
/// where another one does.
pub open spec fn taken_up(s: ScanView, fd: usize, target: Option<Seq<u8>>) -> bool {
    let key = FdKey { pid: s.pid, fd };
    let known = s.caches.non_gpu.contains(key) && s.caches.non_npu.contains(key);
    match target {
        Some(t) => (known ==> device_path(t)) && !s.seen.contains(path::components(t)),
        None => true,
    }
}

/// The state behind a visit: a known descriptor that points to a device is no
/// longer known, and the target of one that is taken up is remembered.
pub open spec fn visited(s: ScanView, fd: usize, target: Option<Seq<u8>>) -> ScanView {
    let key = FdKey { pid: s.pid, fd };
    let known = s.caches.non_gpu.contains(key) && s.caches.non_npu.contains(key);
    match target {
        Some(t) => if known && !device_path(t) {
            s
        } else {
            let non_gpu = if known {
                s.caches.non_gpu.remove(key)
            } else {
                s.caches.non_gpu
            };
            let non_npu = if known {
                s.caches.non_npu.remove(key)
            } else {
                s.caches.non_npu
            };
            if s.seen.contains(path::components(t)) {
                ScanView { caches: FdCachesView { non_gpu, non_npu, ..s.caches }, ..s }
            } else {
                ScanView {
                    seen: s.seen.push(path::components(t)),
                    caches: FdCachesView {
                        non_gpu,
                        non_npu,
                        symlinks: s.caches.symlinks.insert(key, t),
                    },
                    ..s
                }
            }
        },
        None => s,
    }
}

/// The state behind the reading of a descriptor: what was read is kept, and a
/// descriptor that cannot be read is known to tell nothing.
pub open spec fn recorded(s: ScanView, fd: usize, content: Option<Seq<char>>) -> ScanView {
    let key = FdKey { pid: s.pid, fd };
    match content {
        Some(c) => ScanView {
            found: s.found.push(
                FdinfoView {
                    pid: s.pid,
                    fdinfo_num: fd,
                    content: fdinfo::fields_of(text::lines(text::trim(c))),
                },
            ),
            ..s
        },
        None => ScanView {
            caches: FdCachesView {
                non_gpu: s.caches.non_gpu.insert(key),
                non_npu: s.caches.non_npu.insert(key),
                ..s.caches
            },
            ..s
        },
    }
}

impl FdScan {
    /// Begins a scan.
    pub fn new(pid: i32) -> (r: Self)
        ensures
            r.pid == pid,
            r.seen@.len() == 0,
            r.found@.len() == 0,
    {
        FdScan { pid, seen: Vec::new(), found: Vec::new() }
    }

    fn has_seen(&self, target: &PathComponents) -> (r: bool)
        ensures
            r == path::component_views(self.seen@).contains(target@),
    {
        let ghost list = path::component_views(self.seen@);
        let mut i: usize = 0;
        while i < self.seen.len()
            invariant
                i <= self.seen.len(),
                list == path::component_views(self.seen@),
                forall|j: int| 0 <= j < i ==> list[j] != target@,
            decreases self.seen.len() - i,
        {
            if self.seen[i].same(target) {
                proof {
                    assert(list[i as int] == target@);
                }
                return true;
            }
            i += 1;
        }
        false
    }

    /// Visits a descriptor that points to `target`, and says whether its file is
    /// to be read.
    pub fn visit(&mut self, caches: &mut FdCaches, fd: usize, target: Option<Vec<u8>>) -> (r: bool)
        ensures
            r == taken_up(scan_view(*old(self), *old(caches)), fd, opt_bytes(target)),
            scan_view(*final(self), *final(caches)) == visited(
                scan_view(*old(self), *old(caches)),
                fd,
                opt_bytes(target),
            ),
    {
        let ghost before = scan_view(*self, *caches);
        let key = FdKey { pid: self.pid, fd };
        let known: bool = caches.non_gpu.contains_key(&key) && caches.non_npu.contains_key(&key);
        match target {
            Some(target) => {
                if known {
                    if !is_device_path(&target) {
                        return false;
                    }
                    let _ = caches.non_gpu.remove(&key);
                    let _ = caches.non_npu.remove(&key);
                    proof {
                        assert(caches@.non_gpu =~= before.caches.non_gpu.remove(key));
                        assert(caches@.non_npu =~= before.caches.non_npu.remove(key));
                    }
                }
                let place: PathComponents = PathComponents::of(&target);
                if self.has_seen(&place) {
                    return false;
                }
                let ghost t = target@;
                let ghost links = caches.symlinks@;
                self.seen.push(place);
                caches.symlinks.insert(key, target);
                proof {
                    assert(path::component_views(self.seen@) =~= before.seen.push(
                        path::components(t),
                    ));
                    assert(link_bytes(caches.symlinks@) =~= link_bytes(links).insert(key, t));
                    assert(scan_view(*self, *caches) =~= visited(before, fd, Some(t)));
                }
                true
            },
            None => true,
        }
    }

    /// Takes in what was read of a descriptor, or that it could not be read.
    pub fn record(&mut self, caches: &mut FdCaches, fd: usize, content: &Option<String>)
        ensures
            scan_view(*final(self), *final(caches)) == recorded(
                scan_view(*old(self), *old(caches)),
                fd,
                text::opt_text(*content),
            ),
    {
        let ghost before = scan_view(*self, *caches);
        let key = FdKey { pid: self.pid, fd };
        match content {
            Some(content) => {
                let trimmed: String = text::trimmed(content.as_str());
                let fdinfo = Fdinfo {
                    pid: self.pid,
                    fdinfo_num: fd,
                    content: fdinfo::parse_fdinfo(trimmed.as_str()),
                };
                let ghost view = fdinfo@;
                self.found.push(fdinfo);
                proof {
                    assert(fdinfo::fdinfo_views(self.found@) =~= before.found.push(view));
                    assert(scan_view(*self, *caches) =~= recorded(before, fd, Some(content@)));
                }
            },
            None => {
                caches.non_gpu.insert(key, ());
                caches.non_npu.insert(key, ());
                proof {
                    assert(caches@.non_gpu =~= before.caches.non_gpu.insert(key));
                    assert(caches@.non_npu =~= before.caches.non_npu.insert(key));
                    assert(scan_view(*self, *caches) =~= recorded(before, fd, None));
                }
            },
        }
    }
}

/// A descriptor as it stands in `/proc/<pid>`: the name of its file in `fdinfo`,
/// where it points to and the contents of the file, each where it can be read.
pub struct FdEntry {
    pub file_name: Option<String>,
    pub link: Option<Vec<u8>>,
    pub content: Option<String>,
}

/// What an `FdEntry` holds.
#[verifier::ext_equal]
pub struct FdEntryView {
    pub file_name: Option<Seq<char>>,
    pub link: Option<Seq<u8>>,
    pub content: Option<Seq<char>>,
}

impl View for FdEntry {
    type V = FdEntryView;

    open spec fn view(&self) -> FdEntryView {
        FdEntryView {
            file_name: text::opt_text(self.file_name),
            link: opt_bytes(self.link),
            content: text::opt_text(self.content),
        }
    }
}

/// The views of a list.
pub open spec fn entry_views(list: Seq<FdEntry>) -> Seq<FdEntryView> {
    Seq::new(list.len(), |i: int| list[i]@)
}

/// The descriptors of a process, as far as they could be listed.
pub struct FdListing {
    pub entries: Vec<FdEntry>,
    /// Whether they could be listed to the end.
    pub complete: bool,
}

/// What an `FdListing` holds.
#[verifier::ext_equal]
pub struct FdListingView {
    pub entries: Seq<FdEntryView>,
    pub complete: bool,
}

impl View for FdListing {
    type V = FdListingView;

    open spec fn view(&self) -> FdListingView {
        FdListingView { entries: entry_views(self.entries@), complete: self.complete }
    }
}

/// Why the descriptors of a process tell nothing.
#[derive(Debug, Clone, Copy, PartialEq, Eq, Structural)]
pub enum FdScanError {
    /// They could not be listed to the end.
    Incomplete,
}

/// Where a descriptor counts as pointing to: where it was last seen to point to,
/// or else where it points to now.
pub open spec fn target_by_caches(
    caches: FdCachesView,
    key: FdKey,
    link: Option<Seq<u8>>,
) -> Option<Seq<u8>> {
    if caches.symlinks.contains_key(key) {
        Some(caches.symlinks[key])
    } else {
        link
    }
}

/// Where a descriptor of the process counts as pointing to.
pub open spec fn target_of(s: ScanView, fd: usize, link: Option<Seq<u8>>) -> Option<Seq<u8>> {
    target_by_caches(s.caches, FdKey { pid: s.pid, fd }, link)
}

/// Whether a descriptor is known to tell nothing and does not point to a device.
pub open spec fn passed_over(caches: FdCachesView, key: FdKey, link: Option<Seq<u8>>) -> bool {
    &&& caches.non_gpu.contains(key)
    &&& caches.non_npu.contains(key)
    &&& target_by_caches(caches, key, link) matches Some(t) && !device_path(t)
}

/// The state behind one descriptor.
pub open spec fn entry_scanned(s: ScanView, e: FdEntryView) -> ScanView {
    let fd = fd_of(e.file_name);
    let target = target_of(s, fd, e.link);
    if taken_up(s, fd, target) {
        recorded(visited(s, fd, target), fd, e.content)
    } else {
        visited(s, fd, target)
    }
}

/// The state behind all descriptors, in order.
pub open spec fn all_scanned(s: ScanView, entries: Seq<FdEntryView>) -> ScanView
    decreases entries.len(),
{
    if entries.len() == 0 {
        s
    } else {
        entry_scanned(all_scanned(s, entries.drop_last()), entries.last())
    }
}

/// The state in which a scan begins.
pub open spec fn scan_begin(pid: i32, caches: FdCachesView) -> ScanView {
    ScanView {
        pid,
        seen: Seq::<ComponentsView>::empty(),
        found: Seq::<FdinfoView>::empty(),
        caches,
    }
}

fn copy_target(link: &Option<Vec<u8>>) -> (r: Option<Vec<u8>>)
    ensures
        opt_bytes(r) == opt_bytes(*link),
{
    match link {
        Some(bytes) => Some(path::copy_bytes(bytes)),
        None => None,
    }
}

/// What a scan found: nothing where the descriptors could not be listed to the end.
pub open spec fn scan_result(listing: FdListingView, s: ScanView) -> Result<
    Seq<FdinfoView>,
    FdScanError,
> {
    if listing.complete {
        Ok(s.found)
    } else {
        Err(FdScanError::Incomplete)
    }
}

/// A result by the views of what it holds.
pub open spec fn fdinfos_result(r: Result<Vec<Fdinfo>, FdScanError>) -> Result<
    Seq<FdinfoView>,
    FdScanError,
> {
    match r {
        Ok(list) => Ok(fdinfo::fdinfo_views(list@)),
        Err(e) => Err(e),
    }
}

/// Reads the descriptors of a process that are worth reading. What the caches learn
/// of them stays, also where they could not be listed to the end.
pub fn collect_fdinfos(pid: i32, listing: &FdListing, caches: &mut FdCaches) -> (r: Result<
    Vec<Fdinfo>,
    FdScanError,
>)
    ensures
        fdinfos_result(r) == scan_result(
            listing@,
            all_scanned(scan_begin(pid, old(caches)@), listing@.entries),
        ),
        final(caches)@ == all_scanned(scan_begin(pid, old(caches)@), listing@.entries).caches,
{
    let found: Vec<Fdinfo> = scan_entries(pid, &listing.entries, caches);
    if listing.complete {
        Ok(found)
    } else {
        Err(FdScanError::Incomplete)
    }
}

/// Reads the listed descriptors that are worth reading.
fn scan_entries(pid: i32, entries: &Vec<FdEntry>, caches: &mut FdCaches) -> (r: Vec<Fdinfo>)
    ensures
        fdinfo::fdinfo_views(r@) == all_scanned(
            scan_begin(pid, old(caches)@),
            entry_views(entries@),
        ).found,
        final(caches)@ == all_scanned(
            scan_begin(pid, old(caches)@),
            entry_views(entries@),
        ).caches,
{
    let ghost start = scan_begin(pid, caches@);
    let ghost all = entry_views(entries@);
    let mut scan: FdScan = FdScan::new(pid);
    let mut i: usize = 0;
    proof {
        assert(scan_view(scan, *caches) =~= start);
        assert(all.take(0) =~= Seq::<FdEntryView>::empty());
    }
    while i < entries.len()
        invariant
            i <= entries.len(),
            all == entry_views(entries@),
            scan.pid == pid,
            scan_view(scan, *caches) == all_scanned(start, all.take(i as int)),
        decreases entries.len() - i,
    {
        let entry: &FdEntry = &entries[i];
        let ghost before = scan_view(scan, *caches);
        let fd: usize = fd_number(&entry.file_name);
        let target: Option<Vec<u8>> = match caches.cached_target(FdKey { pid, fd }) {
            Some(target) => Some(target),
            None => copy_target(&entry.link),
        };
        proof {
            assert(opt_bytes(target) == target_of(before, fd, entry@.link));
        }
        if scan.visit(caches, fd, target) {
            scan.record(caches, fd, &entry.content);
        }
        i += 1;
        proof {
            assert(all.take(i as int).drop_last() =~= all.take(i - 1));
            assert(all.take(i as int).last() == entry@);
        }
    }
    proof {
        assert(all.take(i as int) =~= all);
    }
    scan.found
}

// Laws ---------------------------------------------------------------------------

/// Whether a scan state is sound: nothing that was taken up points where another
/// one does, and everything that was read belongs to the process.
pub open spec fn scan_sound(s: ScanView) -> bool {
    &&& s.seen.no_duplicates()
    &&& forall|i: int| 0 <= i < s.found.len() ==> (#[trigger] s.found[i]).pid == s.pid
}

/// A scan takes up at most one descriptor per target, and what it reads belongs
/// to the process.
pub proof fn scan_stays_sound(s: ScanView, entries: Seq<FdEntryView>)
    requires
        scan_sound(s),
    ensures
        scan_sound(all_scanned(s, entries)),
        all_scanned(s, entries).pid == s.pid,
    decreases entries.len(),
{
    if entries.len() > 0 {
        let before = all_scanned(s, entries.drop_last());
        scan_stays_sound(s, entries.drop_last());
        let e = entries.last();
        let fd = fd_of(e.file_name);
        let target = target_of(before, fd, e.link);
        let mid = visited(before, fd, target);
        assert(scan_sound(mid));
        assert(scan_sound(entry_scanned(before, e)));
    }
}

/// Where the descriptor at position `i` counts as pointing to when it is its turn.
pub open spec fn target_at(s: ScanView, entries: Seq<FdEntryView>, i: int) -> Option<Seq<u8>> {
    target_of(all_scanned(s, entries.take(i)), fd_of(entries[i].file_name), entries[i].link)
}

/// Whether the descriptor at position `i` is taken up.
pub open spec fn taken_at(s: ScanView, entries: Seq<FdEntryView>, i: int) -> bool {
    taken_up(
        all_scanned(s, entries.take(i)),
        fd_of(entries[i].file_name),
        target_at(s, entries, i),
    )
}

proof fn lemma_step(s: ScanView, entries: Seq<FdEntryView>, i: int)
    requires
        0 <= i < entries.len(),
    ensures
        all_scanned(s, entries.take(i + 1)) == entry_scanned(
            all_scanned(s, entries.take(i)),
            entries[i],
        ),
{
    assert(entries.take(i + 1).drop_last() =~= entries.take(i));
    assert(entries.take(i + 1).last() == entries[i]);
}

proof fn lemma_push_keeps(list: Seq<ComponentsView>, new: ComponentsView, c: ComponentsView)
    requires
        list.contains(c) || new == c,
    ensures
        list.push(new).contains(c),
{
    if list.contains(c) {
        let i = choose|i: int| 0 <= i < list.len() && list[i] == c;
        assert(list.push(new)[i] == c);
    } else {
        assert(list.push(new)[list.len() as int] == c);
    }
}

proof fn lemma_seen_stays(s: ScanView, entries: Seq<FdEntryView>, i: int, j: int, c: ComponentsView)
    requires
        0 <= i <= j <= entries.len(),
        all_scanned(s, entries.take(i)).seen.contains(c),
    ensures
        all_scanned(s, entries.take(j)).seen.contains(c),
    decreases j - i,
{
    if i < j {
        lemma_seen_stays(s, entries, i, j - 1, c);
        lemma_step(s, entries, j - 1);
        let before = all_scanned(s, entries.take(j - 1));
        if let Some(t) = target_at(s, entries, j - 1) {
            lemma_push_keeps(before.seen, path::components(t), c);
        }
    }
}

/// Of the descriptors that a scan takes up, no two with known targets have the same
/// target.
pub proof fn taken_up_once_per_target(
    s: ScanView,
    entries: Seq<FdEntryView>,
    i: int,
    j: int,
    a: Seq<u8>,
    b: Seq<u8>,
)
    requires
        0 <= i < j < entries.len(),
        taken_at(s, entries, i),
        taken_at(s, entries, j),
        target_at(s, entries, i) == Some(a),
        target_at(s, entries, j) == Some(b),
    ensures
        path::components(a) != path::components(b),
{
    let before = all_scanned(s, entries.take(i));
    lemma_step(s, entries, i);
    lemma_push_keeps(before.seen, path::components(a), path::components(a));
    lemma_seen_stays(s, entries, i + 1, j, path::components(a));
}

/// The descriptors that a scan takes up and whose files can be read, by their
/// positions.
pub open spec fn read_at(s: ScanView, entries: Seq<FdEntryView>) -> Seq<int>
    decreases entries.len(),
{
    if entries.len() == 0 {
        Seq::<int>::empty()
    } else {
        let before = read_at(s, entries.drop_last());
        let last = entries.len() - 1;
        if taken_at(s, entries, last) && entries[last].content is Some {
            before.push(last)
        } else {
            before
        }
    }
}

/// What is found of a descriptor of a process.
pub open spec fn fdinfo_of(pid: i32, e: FdEntryView) -> FdinfoView {
    FdinfoView {
        pid,
        fdinfo_num: fd_of(e.file_name),
        content: fdinfo::fields_of(text::lines(text::trim(e.content->0))),
    }
}

proof fn lemma_read_at(s: ScanView, entries: Seq<FdEntryView>)
    ensures
        all_scanned(s, entries).pid == s.pid,
        all_scanned(s, entries).found == s.found + read_at(s, entries).map_values(
            |i: int| fdinfo_of(s.pid, entries[i]),
        ),
        forall|k: int|
            0 <= k < read_at(s, entries).len() ==> {
                let i = #[trigger] read_at(s, entries)[k];
                0 <= i < entries.len() && taken_at(s, entries, i) && entries[i].content is Some
            },
        forall|k: int, l: int|
            0 <= k < l < read_at(s, entries).len() ==> #[trigger] read_at(s, entries)[k]
                < #[trigger] read_at(s, entries)[l],
    decreases entries.len(),
{
    let found = |i: int| fdinfo_of(s.pid, entries[i]);
    if entries.len() == 0 {
        assert(all_scanned(s, entries).found =~= s.found + read_at(s, entries).map_values(found));
    } else {
        let head = entries.drop_last();
        let last = entries.len() - 1;
        lemma_read_at(s, head);
        let before = read_at(s, head);
        let all = read_at(s, entries);
        let earlier = |i: int| fdinfo_of(s.pid, head[i]);
        assert forall|k: int| 0 <= k < before.len() implies {
            let i = #[trigger] before[k];
            0 <= i < last && taken_at(s, entries, i) && entries[i].content is Some
        } by {
            let i = before[k];
            assert(head[i] == entries[i]);
            assert(head.take(i) =~= entries.take(i));
        }
        assert(before.map_values(earlier) =~= before.map_values(found)) by {
            assert forall|k: int| 0 <= k < before.len() implies before.map_values(earlier)[k]
                == before.map_values(found)[k] by {
                assert(head[before[k]] == entries[before[k]]);
            }
        }
        assert(entries.take(last) =~= head);
        assert(entries.take(last + 1) =~= entries);
        lemma_step(s, entries, last);
        let mid = all_scanned(s, head);
        if taken_at(s, entries, last) && entries[last].content is Some {
            assert(all.map_values(found) =~= before.map_values(found).push(found(last)));
            assert(all_scanned(s, entries).found =~= mid.found.push(found(last)));
            assert(all_scanned(s, entries).found =~= s.found + all.map_values(found));
        } else {
            assert(all_scanned(s, entries).found =~= mid.found);
        }
        assert forall|k: int, l: int| 0 <= k < l < all.len() implies #[trigger] all[k]
            < #[trigger] all[l] by {
            assert(all[k] == before[k]);
        }
    }
}

/// What a scan finds is what stands in the files at `read_at`, in the order in which
/// they are listed, and no two of these with known targets have the same target.
pub proof fn found_files_have_different_targets(
    pid: i32,
    caches: FdCachesView,
    entries: Seq<FdEntryView>,
)
    ensures
        all_scanned(scan_begin(pid, caches), entries).found == read_at(
            scan_begin(pid, caches),
            entries,
        ).map_values(|i: int| fdinfo_of(pid, entries[i])),
        forall|k: int, l: int|
            0 <= k < l < read_at(scan_begin(pid, caches), entries).len() ==> {
                let i = #[trigger] read_at(scan_begin(pid, caches), entries)[k];
                let j = #[trigger] read_at(scan_begin(pid, caches), entries)[l];
                match (
                    target_at(scan_begin(pid, caches), entries, i),
                    target_at(scan_begin(pid, caches), entries, j),
                ) {
                    (Some(a), Some(b)) => path::components(a) != path::components(b),
                    _ => true,
                }
            },
{
    let s = scan_begin(pid, caches);
    let at = read_at(s, entries);
    lemma_read_at(s, entries);
    assert(all_scanned(s, entries).found =~= at.map_values(
        |i: int| fdinfo_of(pid, entries[i]),
    ));
    assert forall|k: int, l: int| 0 <= k < l < at.len() implies {
        let i = #[trigger] at[k];
        let j = #[trigger] at[l];
        match (target_at(s, entries, i), target_at(s, entries, j)) {
            (Some(a), Some(b)) => path::components(a) != path::components(b),
            _ => true,
        }
    } by {
        let i = at[k];
        let j = at[l];
        if let (Some(a), Some(b)) = (target_at(s, entries, i), target_at(s, entries, j)) {
            taken_up_once_per_target(s, entries, i, j, a, b);
        }
    }
}

/// A descriptor that is known to tell nothing, and that does not point to a
/// device, is not read and leaves the state as it is.
pub proof fn known_descriptor_skipped(s: ScanView, e: FdEntryView)
    requires
        passed_over(s.caches, FdKey { pid: s.pid, fd: fd_of(e.file_name) }, e.link),
    ensures
        entry_scanned(s, e) == s,
{
}

/// A descriptor that points where another one does is not read.
pub proof fn repeated_target_skipped(s: ScanView, e: FdEntryView, t: Seq<u8>)
    requires
        target_of(s, fd_of(e.file_name), e.link) == Some(t),
        s.seen.contains(path::components(t)),
    ensures
        entry_scanned(s, e).found == s.found,
        entry_scanned(s, e).seen == s.seen,
{
}

/// A descriptor of which nothing is known, and which points where no other one
/// does, is read: what it holds is found, and a file that cannot be read is
/// remembered as telling nothing.
pub proof fn new_descriptor_read(s: ScanView, e: FdEntryView)
    requires
        !s.caches.non_gpu.contains(FdKey { pid: s.pid, fd: fd_of(e.file_name) }),
        target_of(s, fd_of(e.file_name), e.link) matches Some(t) ==> !s.seen.contains(path::components(t)),
    ensures
        match e.content {
            Some(c) => entry_scanned(s, e).found == s.found.push(
                FdinfoView {
                    pid: s.pid,
                    fdinfo_num: fd_of(e.file_name),
                    content: fdinfo::fields_of(text::lines(text::trim(c))),
                },
            ),
            None => entry_scanned(s, e).found == s.found && entry_scanned(
                s,
                e,
            ).caches.non_gpu.contains(FdKey { pid: s.pid, fd: fd_of(e.file_name) })
                && entry_scanned(s, e).caches.non_npu.contains(
                FdKey { pid: s.pid, fd: fd_of(e.file_name) },
            ),
        },
{
}

/// A path looks like one of a GPU or an NPU exactly where it leads through `/dev/dri/` or
/// `/dev/accel/`.
pub proof fn devices_stand_below_dev(before: Seq<u8>, after: Seq<u8>, target: Seq<u8>)
    ensures
        ({
            let dri = seq![
                '/' as u8,
                'd' as u8,
                'e' as u8,
                'v' as u8,
                '/' as u8,
                'd' as u8,
                'r' as u8,
                'i' as u8,
                '/' as u8,
            ];
            let accel = seq![
                '/' as u8,
                'd' as u8,
                'e' as u8,
                'v' as u8,
                '/' as u8,
                'a' as u8,
                'c' as u8,
                'c' as u8,
                'e' as u8,
                'l' as u8,
                '/' as u8,
            ];
            &&& device_path(before + dri + after)
            &&& device_path(before + accel + after)
            &&& device_path(target) ==> (exists|a: Seq<u8>, b: Seq<u8>|
                target == #[trigger] (a + dri + b)) || (exists|a: Seq<u8>, b: Seq<u8>|
                target == #[trigger] (a + accel + b))
        }),
{
    let dri = seq![
        '/' as u8,
        'd' as u8,
        'e' as u8,
        'v' as u8,
        '/' as u8,
        'd' as u8,
        'r' as u8,
        'i' as u8,
        '/' as u8,
    ];
    let accel = seq![
        '/' as u8,
        'd' as u8,
        'e' as u8,
        'v' as u8,
        '/' as u8,
        'a' as u8,
        'c' as u8,
        'c' as u8,
        'e' as u8,
        'l' as u8,
        '/' as u8,
    ];
    assert(dri =~= dri_dir());
    assert(accel =~= accel_dir());
    let n = before.len() as int;
    assert((before + dri + after).subrange(n, n + dri.len()) =~= dri);
    assert(bytes_at(before + dri + after, dri, n));
    assert((before + accel + after).subrange(n, n + accel.len()) =~= accel);
    assert(bytes_at(before + accel + after, accel, n));
    if bytes_contain(target, dri) {
        let i = choose|i: int| bytes_at(target, dri, i);
        let a = target.take(i);
        let b = target.skip(i + dri.len());
        assert(target =~= a + dri + b);
    } else if bytes_contain(target, accel) {
        let i = choose|i: int| bytes_at(target, accel, i);
        let a = target.take(i);
        let b = target.skip(i + accel.len());
        assert(target =~= a + accel + b);
    }
}

/// A file of a descriptor is named after it.
pub proof fn file_named_after_descriptor(name: Seq<char>)
    ensures
        number::parse_unsigned(name, 10, usize::MAX as int) matches Some(n) ==> fd_of(Some(name))
            == n,
        number::parse_unsigned(name, 10, usize::MAX as int) is None ==> fd_of(Some(name)) == 0,
        fd_of(None) == 0,
{
    number::number_is_within_bounds(name, 10, 0, usize::MAX as int, usize::MAX as int);
}

/// Each descriptor is looked at in turn: it counts as pointing where it was last seen to, or
/// else where it does. It is read, unless it is known to tell nothing and points to no
/// device, or points where another one does.
pub proof fn every_descriptor_in_its_turn(
    s: ScanView,
    entries: Seq<FdEntryView>,
    e: FdEntryView,
)
    ensures
        all_scanned(s, Seq::<FdEntryView>::empty()) == s,
        ({
            let before = all_scanned(s, entries);
            let after = all_scanned(s, entries.push(e));
            let fd = fd_of(e.file_name);
            let key = FdKey { pid: before.pid, fd };
            let target = if before.caches.symlinks.contains_key(key) {
                Some(before.caches.symlinks[key])
            } else {
                e.link
            };
            let useless = before.caches.non_gpu.contains(key) && before.caches.non_npu.contains(
                key,
            );
            let read = match target {
                Some(t) => (!useless || device_path(t)) && !before.seen.contains(
                    path::components(t),
                ),
                None => true,
            };
            &&& after.pid == before.pid
            &&& read && e.content is Some ==> after.found == before.found.push(
                FdinfoView {
                    pid: before.pid,
                    fdinfo_num: fd,
                    content: fdinfo::fields_of(text::lines(text::trim(e.content->0))),
                },
            )
            &&& !read || e.content is None ==> after.found == before.found
            &&& read && target is Some ==> after.seen == before.seen.push(
                path::components(target->0),
            ) && after.caches.symlinks.contains_key(key) && after.caches.symlinks[key]
                == target->0
            &&& !read || target is None ==> after.seen == before.seen && after.caches.symlinks
                == before.caches.symlinks
            &&& read && e.content is None ==> after.caches.non_gpu.contains(key)
                && after.caches.non_npu.contains(key)
            &&& read && e.content is Some && target is Some && useless
                ==> !after.caches.non_gpu.contains(key) && !after.caches.non_npu.contains(key)
        }),
{
    assert(entries.push(e).drop_last() =~= entries);
    assert(entries.push(e).last() == e);
}

/// What is remembered of other descriptors stays.
pub proof fn other_descriptors_stay(
    s: ScanView,
    entries: Seq<FdEntryView>,
    e: FdEntryView,
    other: FdKey,
)
    requires
        other != (FdKey { pid: all_scanned(s, entries).pid, fd: fd_of(e.file_name) }),
    ensures
        ({
            let before = all_scanned(s, entries).caches;
            let after = all_scanned(s, entries.push(e)).caches;
            &&& after.non_gpu.contains(other) == before.non_gpu.contains(other)
            &&& after.non_npu.contains(other) == before.non_npu.contains(other)
            &&& after.symlinks.contains_key(other) == before.symlinks.contains_key(other)
            &&& after.symlinks[other] == before.symlinks[other]
        }),
{
    assert(entries.push(e).drop_last() =~= entries);
    assert(entries.push(e).last() == e);
}

/// Descriptors that could not be listed to the end tell nothing; else all is told that was
/// found.
pub proof fn incomplete_listing_tells_nothing(listing: FdListingView, s: ScanView)
    ensures
        listing.complete ==> scan_result(listing, s) == Ok::<Seq<FdinfoView>, FdScanError>(s.found),
        !listing.complete ==> scan_result(listing, s) == Err::<Seq<FdinfoView>, FdScanError>(
            FdScanError::Incomplete,
        ),
{
}

} // verus!
