//! What the kernel tells about the open file descriptors of a process: which of
//! them belong to a GPU or an NPU, and what was used through them.

use vstd::hash_map::StringHashMap;
use vstd::prelude::*;

use crate::gpu_usage;
use crate::gpu_usage::{GpuIdentifier, GpuUsageStats};
use crate::npu_usage;
use crate::npu_usage::NpuUsageStats;
use crate::number;
use crate::pattern;
use crate::pci_slot;
use crate::pci_slot::PciSlot;
use crate::sorted_map::{MapKey, SortedMap};
use crate::text;

verus! {

pub const DRM_DRIVER: &'static str = "drm-driver";

pub const DRM_PDEV: &'static str = "drm-pdev";

pub const RE_DRM_KIB: &'static str = r"(\d+)\s*KiB";

pub const RE_DRM_TIME: &'static str = r"(\d+)\s*ns";

pub const RE_DRM_UNITS: &'static str = r"(\d+)";

/// A process and one of its file descriptors.
#[derive(Debug, Clone, Copy, PartialEq, Eq, Hash, Structural)]
pub struct FdKey {
    pub pid: i32,
    pub fd: usize,
}

impl MapKey for FdKey {
    open spec fn rank(self) -> int {
        (self.pid + 0x8000_0000) * 0x1_0000_0000_0000_0000 + self.fd
    }

    fn rank_of(&self) -> (r: u128) {
        (self.pid as i64 + 0x8000_0000) as u128 * 0x1_0000_0000_0000_0000 + self.fd as u128
    }

    proof fn rank_distinct(a: FdKey, b: FdKey) {
    }
}

// The contents of an fdinfo file -----------------------------------------------

/// The fields of the file `fdinfo_num` in `/proc/<pid>/fdinfo`.
pub struct Fdinfo {
    pub pid: i32,
    pub fdinfo_num: usize,
    pub content: StringHashMap<String>,
}

/// What an `Fdinfo` holds.
#[verifier::ext_equal]
pub struct FdinfoView {
    pub pid: i32,
    pub fdinfo_num: usize,
    pub content: Map<Seq<char>, Seq<char>>,
}

/// A map of strings as a map of texts.
pub open spec fn field_texts(content: Map<Seq<char>, String>) -> Map<Seq<char>, Seq<char>> {
    Map::new(|k: Seq<char>| content.contains_key(k), |k: Seq<char>| content[k]@)
}

impl View for Fdinfo {
    type V = FdinfoView;

    open spec fn view(&self) -> FdinfoView {
        FdinfoView {
            pid: self.pid,
            fdinfo_num: self.fdinfo_num,
            content: field_texts(self.content@),
        }
    }
}

/// The views of a list.
pub open spec fn fdinfo_views(list: Seq<Fdinfo>) -> Seq<FdinfoView> {
    Seq::new(list.len(), |i: int| list[i]@)
}

/// The fields that the lines hold: a name and a value with a colon between them,
/// both without the white space around them. Of lines with the same name the last
/// one counts; a line without a colon holds no field.
pub open spec fn fields_of(lines: Seq<Seq<char>>) -> Map<Seq<char>, Seq<char>>
    decreases lines.len(),
{
    if lines.len() == 0 {
        Map::empty()
    } else {
        let before = fields_of(lines.drop_last());
        match text::split_once(lines.last(), ':') {
            Some((name, value)) => before.insert(text::trim(name), text::trim(value)),
            None => before,
        }
    }
}

/// Reads the fields of an fdinfo file.
pub fn parse_fdinfo(file_contents: &str) -> (r: StringHashMap<String>)
    ensures
        field_texts(r@) == fields_of(text::lines(file_contents@)),
{
    let lines: Vec<Vec<char>> = text::lines_chars(&text::to_chars(file_contents));
    let ghost all = text::texts(lines@);
    let mut r: StringHashMap<String> = StringHashMap::new();
    let mut i: usize = 0;
    proof {
        assert(all.take(0) =~= Seq::<Seq<char>>::empty());
        assert(field_texts(r@) =~= Map::<Seq<char>, Seq<char>>::empty());
    }
    while i < lines.len()
        invariant
            i <= lines.len(),
            all == text::texts(lines@),
            field_texts(r@) == fields_of(all.take(i as int)),
        decreases lines.len() - i,
    {
        let ghost before = r@;
        if let Some((name, value)) = text::split_once_chars(&lines[i], ':') {
            let name: String = text::to_text(&text::trim_chars(&name));
            let value: String = text::to_text(&text::trim_chars(&value));
            let ghost (k, v) = (name@, value@);
            r.insert(name, value);
            proof {
                assert(field_texts(r@) =~= field_texts(before).insert(k, v));
            }
        }
        i += 1;
        proof {
            assert(all.take(i as int).drop_last() =~= all.take(i - 1));
            assert(all.take(i as int).last() == lines@[i - 1]@);
        }
    }
    proof {
        assert(all.take(i as int) =~= all);
    }
    r
}

// Counters -----------------------------------------------------------------------

/// The counters that drivers report.
#[derive(Debug, Clone, Copy, PartialEq, Eq, Structural)]
pub enum Counter {
    GfxNs,
    GfxCycles,
    GfxTotalCycles,
    ComputeCycles,
    ComputeTotalCycles,
    EncNs,
    EncCycles,
    EncTotalCycles,
    DecNs,
    NpuNs,
    Mem,
}

/// The fields in which a driver reports a counter. A counter that is spread over
/// several fields is their sum.
pub open spec fn counter_fields(counter: Counter, driver: Seq<char>) -> Seq<Seq<char>> {
    if driver == "amdgpu"@ {
        match counter {
            Counter::GfxNs => seq!["drm-engine-compute"@, "drm-engine-gfx"@],
            Counter::EncNs => seq!["drm-engine-enc"@],
            Counter::DecNs => seq!["drm-engine-dec"@],
            Counter::Mem => seq!["drm-memory-gtt"@, "drm-memory-vram"@],
            _ => Seq::<Seq<char>>::empty(),
        }
    } else if driver == "i915"@ {
        match counter {
            Counter::GfxNs => seq!["drm-engine-render"@],
            Counter::EncNs => seq!["drm-engine-video"@],
            Counter::Mem => seq!["drm-total-local0"@, "drm-total-system0"@],
            _ => Seq::<Seq<char>>::empty(),
        }
    } else if driver == "v3d"@ {
        match counter {
            Counter::GfxNs => seq!["drm-engine-render"@],
            Counter::Mem => seq!["drm-total-memory"@],
            _ => Seq::<Seq<char>>::empty(),
        }
    } else if driver == "xe"@ {
        match counter {
            Counter::GfxCycles => seq!["drm-cycles-rcs"@],
            Counter::GfxTotalCycles => seq!["drm-total-cycles-rcs"@],
            Counter::ComputeCycles => seq!["drm-cycles-ccs"@],
            Counter::ComputeTotalCycles => seq!["drm-total-cycles-ccs"@],
            Counter::EncCycles => seq!["drm-cycles-vcs"@],
            Counter::EncTotalCycles => seq!["drm-total-cycles-vcs"@],
            Counter::Mem => seq!["drm-total-gtt"@, "drm-total-vram0"@],
            _ => Seq::<Seq<char>>::empty(),
        }
    } else if driver == "amdxdna"@ || driver == "amdxdna_accel_driver"@ {
        match counter {
            Counter::NpuNs => seq!["drm-engine-npu-amdxdna"@, "drm-engine-npu"@, "drm-engine-accel"@],
            Counter::Mem => seq!["drm-total-memory"@, "drm-memory-vram"@],
            _ => Seq::<Seq<char>>::empty(),
        }
    } else {
        Seq::<Seq<char>>::empty()
    }
}

/// The texts of a list of string literals.
pub open spec fn literal_texts(list: Seq<&'static str>) -> Seq<Seq<char>> {
    Seq::new(list.len(), |i: int| list[i]@)
}

fn counter_field_names(counter: Counter, driver: &str) -> (r: Vec<&'static str>)
    ensures
        literal_texts(r@) == counter_fields(counter, driver@),
{
    let r: Vec<&'static str> = if text::same_text(driver, "amdgpu") {
        match counter {
            Counter::GfxNs => vec!["drm-engine-compute", "drm-engine-gfx"],
            Counter::EncNs => vec!["drm-engine-enc"],
            Counter::DecNs => vec!["drm-engine-dec"],
            Counter::Mem => vec!["drm-memory-gtt", "drm-memory-vram"],
            _ => Vec::new(),
        }
    } else if text::same_text(driver, "i915") {
        match counter {
            Counter::GfxNs => vec!["drm-engine-render"],
            Counter::EncNs => vec!["drm-engine-video"],
            Counter::Mem => vec!["drm-total-local0", "drm-total-system0"],
            _ => Vec::new(),
        }
    } else if text::same_text(driver, "v3d") {
        match counter {
            Counter::GfxNs => vec!["drm-engine-render"],
            Counter::Mem => vec!["drm-total-memory"],
            _ => Vec::new(),
        }
    } else if text::same_text(driver, "xe") {
        match counter {
            Counter::GfxCycles => vec!["drm-cycles-rcs"],
            Counter::GfxTotalCycles => vec!["drm-total-cycles-rcs"],
            Counter::ComputeCycles => vec!["drm-cycles-ccs"],
            Counter::ComputeTotalCycles => vec!["drm-total-cycles-ccs"],
            Counter::EncCycles => vec!["drm-cycles-vcs"],
            Counter::EncTotalCycles => vec!["drm-total-cycles-vcs"],
            Counter::Mem => vec!["drm-total-gtt", "drm-total-vram0"],
            _ => Vec::new(),
        }
    } else if text::same_text(driver, "amdxdna") || text::same_text(
        driver,
        "amdxdna_accel_driver",
    ) {
        match counter {
            Counter::NpuNs => vec!["drm-engine-npu-amdxdna", "drm-engine-npu", "drm-engine-accel"],
            Counter::Mem => vec!["drm-total-memory", "drm-memory-vram"],
            _ => Vec::new(),
        }
    } else {
        Vec::new()
    };
    proof {
        assert(literal_texts(r@) =~= counter_fields(counter, driver@));
    }
    r
}

/// What a captured text contributes to a sum: the number that it denotes, or
/// nothing.
pub open spec fn contribution(captured: Option<Seq<char>>) -> int {
    match captured {
        Some(s) => match number::parse_unsigned(s, 10, u64::MAX as int) {
            Some(v) => v,
            None => 0,
        },
        None => 0,
    }
}

/// The sum of the numbers that the captured texts denote, modulo 2^64.
pub open spec fn captured_sum(captured: Seq<Option<Seq<char>>>) -> int
    decreases captured.len(),
{
    if captured.len() == 0 {
        0
    } else {
        (captured_sum(captured.drop_last()) + contribution(captured.last()))
            % 0x1_0000_0000_0000_0000
    }
}

/// Sums the numbers that the captured texts denote.
pub fn sum_captured(captured: &Vec<Option<String>>) -> (r: u64)
    ensures
        r == captured_sum(pattern::group_texts(captured@)),
{
    let ghost all = pattern::group_texts(captured@);
    let mut sum: u64 = 0;
    let mut i: usize = 0;
    proof {
        assert(all.take(0) =~= Seq::<Option<Seq<char>>>::empty());
    }
    while i < captured.len()
        invariant
            i <= captured.len(),
            all == pattern::group_texts(captured@),
            sum == captured_sum(all.take(i as int)),
        decreases captured.len() - i,
    {
        let value: u64 = match &captured[i] {
            Some(s) => match number::parse_u64(s.as_str()) {
                Some(v) => v,
                None => 0,
            },
            None => 0,
        };
        sum = sum.wrapping_add(value);
        i += 1;
        proof {
            assert(all.take(i as int).drop_last() =~= all.take(i - 1));
            assert(all.take(i as int).last() == text::opt_text(captured@[i - 1]));
            assert(value == contribution(all[i - 1]));
        }
    }
    proof {
        assert(all.take(i as int) =~= all);
    }
    sum
}

/// The text that the first group of a pattern matches in a field.
pub open spec fn field_capture(
    fields: Map<Seq<char>, Seq<char>>,
    name: Seq<char>,
    pattern: Seq<char>,
) -> Option<Seq<char>> {
    if fields.contains_key(name) {
        pattern::group(pattern::captures_of(pattern, fields[name]), 1)
    } else {
        None
    }
}

/// What a pattern captures in each of several fields.
pub open spec fn field_captures(
    fields: Map<Seq<char>, Seq<char>>,
    names: Seq<Seq<char>>,
    pattern: Seq<char>,
) -> Seq<Option<Seq<char>>> {
    Seq::new(names.len(), |i: int| field_capture(fields, names[i], pattern))
}

/// The sum of the numbers that a pattern captures in several fields.
pub fn parse_drm_fields(fdinfo: &Fdinfo, names: &Vec<&'static str>, pattern: &str) -> (r: u64)
    ensures
        r == captured_sum(field_captures(fdinfo@.content, literal_texts(names@), pattern@)),
{
    let mut captured: Vec<Option<String>> = Vec::new();
    let ghost expected = field_captures(fdinfo@.content, literal_texts(names@), pattern@);
    let mut i: usize = 0;
    while i < names.len()
        invariant
            i <= names.len(),
            captured.len() == i,
            expected == field_captures(fdinfo@.content, literal_texts(names@), pattern@),
            forall|j: int|
                0 <= j < i ==> text::opt_text(#[trigger] captured@[j]) == expected[j],
        decreases names.len() - i,
    {
        let capture: Option<String> = match fdinfo.content.get(names[i]) {
            Some(value) => pattern::first_group(pattern, value.as_str()),
            None => None,
        };
        captured.push(capture);
        i += 1;
    }
    proof {
        assert(pattern::group_texts(captured@) =~= expected);
    }
    sum_captured(&captured)
}

/// The pattern by which a counter is read: nanoseconds, kibibytes or plain units.
pub open spec fn counter_pattern(counter: Counter) -> Seq<char> {
    match counter {
        Counter::GfxNs | Counter::EncNs | Counter::DecNs | Counter::NpuNs => RE_DRM_TIME@,
        Counter::Mem => RE_DRM_KIB@,
        _ => RE_DRM_UNITS@,
    }
}

/// The value of a counter in the fields that a driver reports.
pub open spec fn counter_value(
    counter: Counter,
    driver: Seq<char>,
    fields: Map<Seq<char>, Seq<char>>,
) -> u64 {
    captured_sum(
        field_captures(fields, counter_fields(counter, driver), counter_pattern(counter)),
    ) as u64
}

/// Reads a counter; it is zero where the driver does not report it.
pub fn drm_field(counter: Counter, driver: &str, fdinfo: &Fdinfo) -> (r: u64)
    ensures
        r == counter_value(counter, driver@, fdinfo@.content),
{
    let names: Vec<&'static str> = counter_field_names(counter, driver);
    match counter {
        Counter::GfxNs | Counter::EncNs | Counter::DecNs | Counter::NpuNs => parse_drm_fields(
            fdinfo,
            &names,
            RE_DRM_TIME,
        ),
        Counter::Mem => parse_drm_fields(fdinfo, &names, RE_DRM_KIB),
        _ => parse_drm_fields(fdinfo, &names, RE_DRM_UNITS),
    }
}

/// The memory in bytes of a number of kibibytes.
pub open spec fn kib_bytes(kib: u64) -> u64 {
    number::saturating_product(kib as int, 1024, u64::MAX as int) as u64
}

/// All counters of an fdinfo file.
#[derive(Debug, Clone, Copy, PartialEq, Eq, Structural)]
pub struct DrmCounters {
    pub gfx_ns: u64,
    pub gfx_cycles: u64,
    pub gfx_total_cycles: u64,
    pub compute_cycles: u64,
    pub compute_total_cycles: u64,
    pub enc_ns: u64,
    pub enc_cycles: u64,
    pub enc_total_cycles: u64,
    pub dec_ns: u64,
    pub npu_ns: u64,
    pub mem_bytes: u64,
}

/// The counters in the fields that a driver reports.
pub open spec fn counters_of(driver: Seq<char>, fields: Map<Seq<char>, Seq<char>>) -> DrmCounters {
    DrmCounters {
        gfx_ns: counter_value(Counter::GfxNs, driver, fields),
        gfx_cycles: counter_value(Counter::GfxCycles, driver, fields),
        gfx_total_cycles: counter_value(Counter::GfxTotalCycles, driver, fields),
        compute_cycles: counter_value(Counter::ComputeCycles, driver, fields),
        compute_total_cycles: counter_value(Counter::ComputeTotalCycles, driver, fields),
        enc_ns: counter_value(Counter::EncNs, driver, fields),
        enc_cycles: counter_value(Counter::EncCycles, driver, fields),
        enc_total_cycles: counter_value(Counter::EncTotalCycles, driver, fields),
        dec_ns: counter_value(Counter::DecNs, driver, fields),
        npu_ns: counter_value(Counter::NpuNs, driver, fields),
        mem_bytes: kib_bytes(counter_value(Counter::Mem, driver, fields)),
    }
}

/// The memory that the fields report, in bytes.
pub fn drm_mem_bytes(driver: &str, fdinfo: &Fdinfo) -> (r: u64)
    ensures
        r == kib_bytes(counter_value(Counter::Mem, driver@, fdinfo@.content)),
{
    number::saturating_mul_u64(drm_field(Counter::Mem, driver, fdinfo), 1024)
}

/// Reads all counters.
pub fn drm_counters(driver: &str, fdinfo: &Fdinfo) -> (r: DrmCounters)
    ensures
        r == counters_of(driver@, fdinfo@.content),
{
    DrmCounters {
        gfx_ns: drm_field(Counter::GfxNs, driver, fdinfo),
        gfx_cycles: drm_field(Counter::GfxCycles, driver, fdinfo),
        gfx_total_cycles: drm_field(Counter::GfxTotalCycles, driver, fdinfo),
        compute_cycles: drm_field(Counter::ComputeCycles, driver, fdinfo),
        compute_total_cycles: drm_field(Counter::ComputeTotalCycles, driver, fdinfo),
        enc_ns: drm_field(Counter::EncNs, driver, fdinfo),
        enc_cycles: drm_field(Counter::EncCycles, driver, fdinfo),
        enc_total_cycles: drm_field(Counter::EncTotalCycles, driver, fdinfo),
        dec_ns: drm_field(Counter::DecNs, driver, fdinfo),
        npu_ns: drm_field(Counter::NpuNs, driver, fdinfo),
        mem_bytes: drm_mem_bytes(driver, fdinfo),
    }
}

// Usage --------------------------------------------------------------------------

/// Why an fdinfo file tells nothing of a device.
#[derive(Debug, Clone, Copy, PartialEq, Eq, Structural)]
pub enum FdinfoError {
    /// No driver is named.
    NoDriver,
    /// The driver is none whose counters are known.
    UnknownDriver,
}

/// The GPU usage that the counters of a driver show; none for a driver that is
/// not known as one of a GPU.
pub open spec fn gpu_stats_of(driver: Seq<char>, c: DrmCounters) -> Option<GpuUsageStats> {
    if driver == "amdgpu"@ {
        Some(
            GpuUsageStats::AmdgpuStats {
                gfx_ns: c.gfx_ns,
                enc_ns: c.enc_ns,
                dec_ns: c.dec_ns,
                mem_bytes: c.mem_bytes,
            },
        )
    } else if driver == "i915"@ {
        Some(GpuUsageStats::I915Stats { gfx_ns: c.gfx_ns, video_ns: c.enc_ns })
    } else if driver == "v3d"@ {
        Some(GpuUsageStats::V3dStats { gfx_ns: c.gfx_ns, mem_bytes: c.mem_bytes })
    } else if driver == "xe"@ {
        Some(
            GpuUsageStats::XeStats {
                gfx_cycles: c.gfx_cycles,
                gfx_total_cycles: c.gfx_total_cycles,
                compute_cycles: c.compute_cycles,
                compute_total_cycles: c.compute_total_cycles,
                video_cycles: c.enc_cycles,
                video_total_cycles: c.enc_total_cycles,
                mem_bytes: c.mem_bytes,
            },
        )
    } else {
        None
    }
}

/// The GPU usage that the counters of a driver show.
pub fn gpu_stats_from_counters(driver: &str, c: &DrmCounters) -> (r: Option<GpuUsageStats>)
    ensures
        r == gpu_stats_of(driver@, *c),
{
    if text::same_text(driver, "amdgpu") {
        Some(
            GpuUsageStats::AmdgpuStats {
                gfx_ns: c.gfx_ns,
                enc_ns: c.enc_ns,
                dec_ns: c.dec_ns,
                mem_bytes: c.mem_bytes,
            },
        )
    } else if text::same_text(driver, "i915") {
        Some(GpuUsageStats::I915Stats { gfx_ns: c.gfx_ns, video_ns: c.enc_ns })
    } else if text::same_text(driver, "v3d") {
        Some(GpuUsageStats::V3dStats { gfx_ns: c.gfx_ns, mem_bytes: c.mem_bytes })
    } else if text::same_text(driver, "xe") {
        Some(
            GpuUsageStats::XeStats {
                gfx_cycles: c.gfx_cycles,
                gfx_total_cycles: c.gfx_total_cycles,
                compute_cycles: c.compute_cycles,
                compute_total_cycles: c.compute_total_cycles,
                video_cycles: c.enc_cycles,
                video_total_cycles: c.enc_total_cycles,
                mem_bytes: c.mem_bytes,
            },
        )
    } else {
        None
    }
}

/// The NPU usage that the counters of a driver show; none for a driver that is
/// not known as one of an NPU.
pub open spec fn npu_stats_of(driver: Seq<char>, c: DrmCounters) -> Option<NpuUsageStats> {
    if driver == "amdxdna"@ || driver == "amdxdna_accel_driver"@ {
        Some(NpuUsageStats::AmdxdnaStats { usage_ns: c.npu_ns, mem_bytes: c.mem_bytes })
    } else {
        None
    }
}

/// The NPU usage that the counters of a driver show.
pub fn npu_stats_from_counters(driver: &str, c: &DrmCounters) -> (r: Option<NpuUsageStats>)
    ensures
        r == npu_stats_of(driver@, *c),
{
    if text::same_text(driver, "amdxdna") || text::same_text(driver, "amdxdna_accel_driver") {
        Some(NpuUsageStats::AmdxdnaStats { usage_ns: c.npu_ns, mem_bytes: c.mem_bytes })
    } else {
        None
    }
}

/// The PCI address that the fields name, if they name one.
pub open spec fn pdev_of(fields: Map<Seq<char>, Seq<char>>) -> Option<PciSlot> {
    if fields.contains_key(DRM_PDEV@) {
        pci_slot::parse_slot(fields[DRM_PDEV@])
    } else {
        None
    }
}

fn pdev(fdinfo: &Fdinfo) -> (r: Option<PciSlot>)
    ensures
        r == pdev_of(fdinfo@.content),
{
    match fdinfo.content.get(DRM_PDEV) {
        Some(field) => match PciSlot::from_str(field.as_str()) {
            Ok(slot) => Some(slot),
            Err(_) => None,
        },
        None => None,
    }
}

/// The GPU that the fields speak of and what was used of it. Without a readable
/// address it is the first of the enumeration.
pub open spec fn gpu_usage_of(fields: Map<Seq<char>, Seq<char>>) -> Result<
    (GpuIdentifier, GpuUsageStats),
    FdinfoError,
> {
    if !fields.contains_key(DRM_DRIVER@) {
        Err(FdinfoError::NoDriver)
    } else {
        let driver = fields[DRM_DRIVER@];
        match gpu_stats_of(driver, counters_of(driver, fields)) {
            Some(stats) => Ok(
                (
                    match pdev_of(fields) {
                        Some(slot) => GpuIdentifier::PciSlot(slot),
                        None => GpuIdentifier::Enumerator(0),
                    },
                    stats,
                ),
            ),
            None => Err(FdinfoError::UnknownDriver),
        }
    }
}

/// The GPU that an fdinfo file speaks of and what was used of it.
pub fn extract_gpu_usage_from_fdinfo(fdinfo: &Fdinfo) -> (r: Result<
    (GpuIdentifier, GpuUsageStats),
    FdinfoError,
>)
    ensures
        r == gpu_usage_of(fdinfo@.content),
{
    let Some(driver) = fdinfo.content.get(DRM_DRIVER) else {
        return Err(FdinfoError::NoDriver);
    };
    let identifier: GpuIdentifier = match pdev(fdinfo) {
        Some(slot) => GpuIdentifier::PciSlot(slot),
        None => GpuIdentifier::default(),
    };
    let counters: DrmCounters = drm_counters(driver.as_str(), fdinfo);
    match gpu_stats_from_counters(driver.as_str(), &counters) {
        Some(stats) => Ok((identifier, stats)),
        None => Err(FdinfoError::UnknownDriver),
    }
}

/// The NPU that the fields speak of and what was used of it. Without a readable
/// address its address is all zeros.
pub open spec fn npu_usage_of(fields: Map<Seq<char>, Seq<char>>) -> Result<
    (PciSlot, NpuUsageStats),
    FdinfoError,
> {
    if !fields.contains_key(DRM_DRIVER@) {
        Err(FdinfoError::NoDriver)
    } else {
        let driver = fields[DRM_DRIVER@];
        match npu_stats_of(driver, counters_of(driver, fields)) {
            Some(stats) => Ok(
                (
                    match pdev_of(fields) {
                        Some(slot) => slot,
                        None => pci_slot::zero_slot(),
                    },
                    stats,
                ),
            ),
            None => Err(FdinfoError::UnknownDriver),
        }
    }
}

/// The NPU that an fdinfo file speaks of and what was used of it.
pub fn extract_npu_usage_from_fdinfo(fdinfo: &Fdinfo) -> (r: Result<
    (PciSlot, NpuUsageStats),
    FdinfoError,
>)
    ensures
        r == npu_usage_of(fdinfo@.content),
{
    let Some(driver) = fdinfo.content.get(DRM_DRIVER) else {
        return Err(FdinfoError::NoDriver);
    };
    let identifier: PciSlot = match pdev(fdinfo) {
        Some(slot) => slot,
        None => PciSlot::default(),
    };
    let counters: DrmCounters = drm_counters(driver.as_str(), fdinfo);
    match npu_stats_from_counters(driver.as_str(), &counters) {
        Some(stats) => Ok((identifier, stats)),
        None => Err(FdinfoError::UnknownDriver),
    }
}

/// The map with a reading merged in: counter by counter the larger value counts.
pub open spec fn gpu_merged(
    map: Map<GpuIdentifier, GpuUsageStats>,
    id: GpuIdentifier,
    stats: GpuUsageStats,
) -> Map<GpuIdentifier, GpuUsageStats> {
    if map.contains_key(id) {
        map.insert(id, gpu_usage::greater_of(map[id], stats))
    } else {
        map.insert(id, stats)
    }
}

/// The map with a reading merged in: counter by counter the larger value counts.
pub open spec fn npu_merged(
    map: Map<PciSlot, NpuUsageStats>,
    id: PciSlot,
    stats: NpuUsageStats,
) -> Map<PciSlot, NpuUsageStats> {
    if map.contains_key(id) {
        map.insert(id, npu_usage::greater_of(map[id], stats))
    } else {
        map.insert(id, stats)
    }
}

/// Merges a reading into a map.
pub fn merge_gpu_usage(
    map: &mut SortedMap<GpuIdentifier, GpuUsageStats>,
    id: GpuIdentifier,
    stats: GpuUsageStats,
)
    ensures
        final(map)@ == gpu_merged(old(map)@, id, stats),
{
    let merged: GpuUsageStats = match map.get(&id) {
        Some(existing) => existing.greater(&stats),
        None => stats,
    };
    map.insert(id, merged);
}

/// Merges a reading into a map.
pub fn merge_npu_usage(
    map: &mut SortedMap<PciSlot, NpuUsageStats>,
    id: PciSlot,
    stats: NpuUsageStats,
)
    ensures
        final(map)@ == npu_merged(old(map)@, id, stats),
{
    let merged: NpuUsageStats = match map.get(&id) {
        Some(existing) => existing.greater(&stats),
        None => stats,
    };
    map.insert(id, merged);
}

/// What was used of each GPU, over several fdinfo files.
pub open spec fn gpu_usage_map(list: Seq<FdinfoView>) -> Map<GpuIdentifier, GpuUsageStats>
    decreases list.len(),
{
    if list.len() == 0 {
        Map::empty()
    } else {
        let before = gpu_usage_map(list.drop_last());
        match gpu_usage_of(list.last().content) {
            Ok((id, stats)) => gpu_merged(before, id, stats),
            Err(_) => before,
        }
    }
}

/// What was used of each NPU, over several fdinfo files.
pub open spec fn npu_usage_map(list: Seq<FdinfoView>) -> Map<PciSlot, NpuUsageStats>
    decreases list.len(),
{
    if list.len() == 0 {
        Map::empty()
    } else {
        let before = npu_usage_map(list.drop_last());
        match npu_usage_of(list.last().content) {
            Ok((id, stats)) => npu_merged(before, id, stats),
            Err(_) => before,
        }
    }
}

/// The descriptor of an fdinfo file.
pub open spec fn key_of(fdinfo: FdinfoView) -> FdKey {
    FdKey { pid: fdinfo.pid, fd: fdinfo.fdinfo_num }
}

/// The descriptors of the fdinfo files that tell nothing of a GPU.
pub open spec fn without_gpu(list: Seq<FdinfoView>) -> Set<FdKey> {
    Set::new(
        |key: FdKey|
            exists|i: int|
                0 <= i < list.len() && gpu_usage_of((#[trigger] list[i]).content) is Err && key == key_of(list[i]),
    )
}

/// The descriptors of the fdinfo files that tell nothing of an NPU.
pub open spec fn without_npu(list: Seq<FdinfoView>) -> Set<FdKey> {
    Set::new(
        |key: FdKey|
            exists|i: int|
                0 <= i < list.len() && npu_usage_of((#[trigger] list[i]).content) is Err && key == key_of(list[i]),
    )
}

proof fn lemma_without_gpu_step(list: Seq<FdinfoView>, n: int)
    requires
        0 <= n < list.len(),
    ensures
        without_gpu(list.take(n + 1)) == if gpu_usage_of(list[n].content) is Err {
            without_gpu(list.take(n)).insert(key_of(list[n]))
        } else {
            without_gpu(list.take(n))
        },
{
    let a = without_gpu(list.take(n));
    let b = without_gpu(list.take(n + 1));
    let key = key_of(list[n]);
    assert forall|k: FdKey| a.contains(k) implies b.contains(k) by {
        let i = choose|i: int|
            0 <= i < list.take(n).len() && gpu_usage_of((#[trigger] list.take(n)[i]).content) is Err
                && k == key_of(list.take(n)[i]);
        assert(list.take(n + 1)[i] == list.take(n)[i]);
    }
    assert forall|k: FdKey| b.contains(k) && !a.contains(k) implies k == key && gpu_usage_of(
        list[n].content,
    ) is Err by {
        let i = choose|i: int|
            0 <= i < list.take(n + 1).len() && gpu_usage_of((#[trigger] list.take(n + 1)[i]).content) is Err
                && k == key_of(list.take(n + 1)[i]);
        if i < n {
            assert(list.take(n)[i] == list.take(n + 1)[i]);
        }
    }
    if gpu_usage_of(list[n].content) is Err {
        assert(list.take(n + 1)[n] == list[n]);
        assert(b.contains(key));
        assert(b =~= a.insert(key));
    } else {
        assert(b =~= a);
    }
}

proof fn lemma_without_npu_step(list: Seq<FdinfoView>, n: int)
    requires
        0 <= n < list.len(),
    ensures
        without_npu(list.take(n + 1)) == if npu_usage_of(list[n].content) is Err {
            without_npu(list.take(n)).insert(key_of(list[n]))
        } else {
            without_npu(list.take(n))
        },
{
    let a = without_npu(list.take(n));
    let b = without_npu(list.take(n + 1));
    let key = key_of(list[n]);
    assert forall|k: FdKey| a.contains(k) implies b.contains(k) by {
        let i = choose|i: int|
            0 <= i < list.take(n).len() && npu_usage_of((#[trigger] list.take(n)[i]).content) is Err
                && k == key_of(list.take(n)[i]);
        assert(list.take(n + 1)[i] == list.take(n)[i]);
    }
    assert forall|k: FdKey| b.contains(k) && !a.contains(k) implies k == key && npu_usage_of(
        list[n].content,
    ) is Err by {
        let i = choose|i: int|
            0 <= i < list.take(n + 1).len() && npu_usage_of((#[trigger] list.take(n + 1)[i]).content) is Err
                && k == key_of(list.take(n + 1)[i]);
        if i < n {
            assert(list.take(n)[i] == list.take(n + 1)[i]);
        }
    }
    if npu_usage_of(list[n].content) is Err {
        assert(list.take(n + 1)[n] == list[n]);
        assert(b.contains(key));
        assert(b =~= a.insert(key));
    } else {
        assert(b =~= a);
    }
}

/// What was used of each GPU, over several fdinfo files; those that tell nothing
/// of a GPU are remembered.
pub fn other_gpu_usage_stats(
    fdinfos: &Vec<Fdinfo>,
    non_gpu_fdinfos: &mut SortedMap<FdKey, ()>,
) -> (r: SortedMap<GpuIdentifier, GpuUsageStats>)
    ensures
        r@ == gpu_usage_map(fdinfo_views(fdinfos@)),
        final(non_gpu_fdinfos)@.dom() == old(non_gpu_fdinfos)@.dom().union(
            without_gpu(fdinfo_views(fdinfos@)),
        ),
{
    let ghost list = fdinfo_views(fdinfos@);
    let ghost before = non_gpu_fdinfos@.dom();
    let mut map: SortedMap<GpuIdentifier, GpuUsageStats> = SortedMap::new();
    let mut i: usize = 0;
    proof {
        assert(list.take(0) =~= Seq::<FdinfoView>::empty());
        assert(before.union(without_gpu(list.take(0))) =~= before);
    }
    while i < fdinfos.len()
        invariant
            i <= fdinfos.len(),
            list == fdinfo_views(fdinfos@),
            map@ == gpu_usage_map(list.take(i as int)),
            non_gpu_fdinfos@.dom() == before.union(without_gpu(list.take(i as int))),
        decreases fdinfos.len() - i,
    {
        let fdinfo: &Fdinfo = &fdinfos[i];
        proof {
            assert(list[i as int] == fdinfo@);
            assert(list.take(i + 1).drop_last() =~= list.take(i as int));
            assert(list.take(i + 1).last() == list[i as int]);
            lemma_without_gpu_step(list, i as int);
        }
        match extract_gpu_usage_from_fdinfo(fdinfo) {
            Ok((identifier, stats)) => {
                merge_gpu_usage(&mut map, identifier, stats);
            },
            Err(_) => {
                non_gpu_fdinfos.insert(FdKey { pid: fdinfo.pid, fd: fdinfo.fdinfo_num }, ());
                proof {
                    assert(non_gpu_fdinfos@.dom() =~= before.union(without_gpu(list.take(i + 1))));
                }
            },
        }
        i += 1;
    }
    proof {
        assert(list.take(i as int) =~= list);
    }
    map
}

/// What was used of each NPU, over several fdinfo files; those that tell nothing
/// of an NPU are remembered.
pub fn npu_usage_stats(
    fdinfos: &Vec<Fdinfo>,
    non_npu_fdinfos: &mut SortedMap<FdKey, ()>,
) -> (r: SortedMap<PciSlot, NpuUsageStats>)
    ensures
        r@ == npu_usage_map(fdinfo_views(fdinfos@)),
        final(non_npu_fdinfos)@.dom() == old(non_npu_fdinfos)@.dom().union(
            without_npu(fdinfo_views(fdinfos@)),
        ),
{
    let ghost list = fdinfo_views(fdinfos@);
    let ghost before = non_npu_fdinfos@.dom();
    let mut map: SortedMap<PciSlot, NpuUsageStats> = SortedMap::new();
    let mut i: usize = 0;
    proof {
        assert(list.take(0) =~= Seq::<FdinfoView>::empty());
        assert(before.union(without_npu(list.take(0))) =~= before);
    }
    while i < fdinfos.len()
        invariant
            i <= fdinfos.len(),
            list == fdinfo_views(fdinfos@),
            map@ == npu_usage_map(list.take(i as int)),
            non_npu_fdinfos@.dom() == before.union(without_npu(list.take(i as int))),
        decreases fdinfos.len() - i,
    {
        let fdinfo: &Fdinfo = &fdinfos[i];
        proof {
            assert(list[i as int] == fdinfo@);
            assert(list.take(i + 1).drop_last() =~= list.take(i as int));
            assert(list.take(i + 1).last() == list[i as int]);
            lemma_without_npu_step(list, i as int);
        }
        match extract_npu_usage_from_fdinfo(fdinfo) {
            Ok((identifier, stats)) => {
                merge_npu_usage(&mut map, identifier, stats);
            },
            Err(_) => {
                non_npu_fdinfos.insert(FdKey { pid: fdinfo.pid, fd: fdinfo.fdinfo_num }, ());
                proof {
                    assert(non_npu_fdinfos@.dom() =~= before.union(without_npu(list.take(i + 1))));
                }
            },
        }
        i += 1;
    }
    proof {
        assert(list.take(i as int) =~= list);
    }
    map
}

// Laws ---------------------------------------------------------------------------------

/// A reading that was merged in before changes nothing when it is merged in again.
pub proof fn merging_again_changes_nothing(
    map: Map<GpuIdentifier, GpuUsageStats>,
    id: GpuIdentifier,
    stats: GpuUsageStats,
)
    requires
        map.contains_key(id) ==> gpu_usage::same_driver(map[id], stats),
    ensures
        gpu_merged(gpu_merged(map, id, stats), id, stats) == gpu_merged(map, id, stats),
{
    let once = gpu_merged(map, id, stats);
    gpu_usage::greater_idempotent(stats);
    if map.contains_key(id) {
        gpu_usage::greater_idempotent(map[id]);
        gpu_usage::greater_associates(map[id], stats, stats);
    }
    assert(gpu_merged(once, id, stats) =~= once);
}

/// Whether all files that tell of one GPU do so by the same driver.
pub open spec fn one_driver_each(list: Seq<FdinfoView>) -> bool {
    forall|i: int, j: int|
        0 <= i < list.len() && 0 <= j < list.len() ==> agree(
            #[trigger] list[i],
            #[trigger] list[j],
        )
}

/// Whether two files that tell of the same GPU do so by the same driver.
pub open spec fn agree(f: FdinfoView, g: FdinfoView) -> bool {
    match (gpu_usage_of(f.content), gpu_usage_of(g.content)) {
        (Ok((a, s)), Ok((b, t))) => a == b ==> gpu_usage::same_driver(s, t),
        _ => true,
    }
}

/// Whether what is known of a GPU comes from the driver by which a file tells of it.
spec fn fits(map: Map<GpuIdentifier, GpuUsageStats>, f: FdinfoView) -> bool {
    gpu_usage_of(f.content) matches Ok((id, s)) ==> map.contains_key(id)
        ==> gpu_usage::same_driver(map[id], s)
}

/// The map with what a file tells.
spec fn gpu_told(map: Map<GpuIdentifier, GpuUsageStats>, f: FdinfoView) -> Map<
    GpuIdentifier,
    GpuUsageStats,
> {
    match gpu_usage_of(f.content) {
        Ok((id, stats)) => gpu_merged(map, id, stats),
        Err(_) => map,
    }
}

proof fn lemma_gpu_fits(list: Seq<FdinfoView>, f: FdinfoView)
    requires
        one_driver_each(list),
        forall|i: int| 0 <= i < list.len() ==> agree(#[trigger] list[i], f),
    ensures
        fits(gpu_usage_map(list), f),
    decreases list.len(),
{
    if list.len() > 0 {
        let head = list.drop_last();
        let last = list.last();
        assert(list[list.len() - 1] == last);
        assert forall|i: int| 0 <= i < head.len() implies agree(#[trigger] head[i], f) && agree(
            head[i],
            last,
        ) by {
            assert(head[i] == list[i]);
        }
        assert(one_driver_each(head));
        lemma_gpu_fits(head, f);
        lemma_gpu_fits(head, last);
    }
}

proof fn lemma_gpu_swap(map: Map<GpuIdentifier, GpuUsageStats>, f: FdinfoView, g: FdinfoView)
    requires
        fits(map, f),
        fits(map, g),
        agree(f, g),
    ensures
        gpu_told(gpu_told(map, f), g) == gpu_told(gpu_told(map, g), f),
{
    let a = gpu_told(gpu_told(map, f), g);
    let b = gpu_told(gpu_told(map, g), f);
    if let (Ok((x, s)), Ok((y, t))) = (gpu_usage_of(f.content), gpu_usage_of(g.content)) {
        if x == y {
            gpu_usage::greater_commutes(s, t);
            if map.contains_key(x) {
                gpu_usage::greater_associates(map[x], s, t);
                gpu_usage::greater_associates(map[x], t, s);
            }
        }
        assert(a =~= b);
    }
}

proof fn lemma_gpu_told_last(list: Seq<FdinfoView>, i: int)
    requires
        one_driver_each(list),
        0 <= i < list.len(),
    ensures
        gpu_usage_map(list) == gpu_told(gpu_usage_map(list.remove(i)), list[i]),
    decreases list.len(),
{
    let head = list.drop_last();
    let last = list.last();
    assert(list[list.len() - 1] == last);
    if i == list.len() - 1 {
        assert(list.remove(i) =~= head);
    } else {
        assert forall|j: int, k: int| 0 <= j < head.len() && 0 <= k < head.len() implies agree(
            #[trigger] head[j],
            #[trigger] head[k],
        ) by {
            assert(head[j] == list[j] && head[k] == list[k]);
        }
        lemma_gpu_told_last(head, i);
        let rest = head.remove(i);
        assert(head[i] == list[i]);
        assert(list.remove(i).drop_last() =~= rest);
        assert(list.remove(i).last() == last);
        assert forall|j: int| 0 <= j < rest.len() implies agree(#[trigger] rest[j], last) && agree(
            rest[j],
            list[i],
        ) by {
            let k = if j < i {
                j
            } else {
                j + 1
            };
            assert(rest[j] == list[k]);
        }
        assert forall|j: int, k: int| 0 <= j < rest.len() && 0 <= k < rest.len() implies agree(
            #[trigger] rest[j],
            #[trigger] rest[k],
        ) by {
            let l = if j < i {
                j
            } else {
                j + 1
            };
            let m = if k < i {
                k
            } else {
                k + 1
            };
            assert(rest[j] == list[l] && rest[k] == list[m]);
        }
        lemma_gpu_fits(rest, last);
        lemma_gpu_fits(rest, list[i]);
        lemma_gpu_swap(gpu_usage_map(rest), list[i], last);
    }
}

/// What was used of the GPUs does not depend on the order of the fdinfo files, as long
/// as the files that tell of one GPU do so by the same driver.
pub proof fn gpu_order_irrelevant(a: Seq<FdinfoView>, b: Seq<FdinfoView>)
    requires
        a.to_multiset() == b.to_multiset(),
        one_driver_each(a),
    ensures
        gpu_usage_map(a) == gpu_usage_map(b),
    decreases a.len(),
{
    broadcast use vstd::seq_lib::group_to_multiset_ensures;

    assert(a.to_multiset().len() == a.len() && b.to_multiset().len() == b.len());
    if a.len() > 0 {
        let last = b.last();
        let head = b.drop_last();
        assert(b[b.len() - 1] == last);
        assert(b.contains(last));
        assert(b.to_multiset().contains(last));
        assert(a.contains(last));
        let i = choose|i: int| 0 <= i < a.len() && a[i] == last;
        let rest = a.remove(i);
        assert(b.remove(b.len() - 1) =~= head);
        assert(rest.to_multiset() =~= a.to_multiset().remove(last));
        assert(head.to_multiset() =~= b.to_multiset().remove(last));
        assert forall|j: int, k: int| 0 <= j < rest.len() && 0 <= k < rest.len() implies agree(
            #[trigger] rest[j],
            #[trigger] rest[k],
        ) by {
            let l = if j < i {
                j
            } else {
                j + 1
            };
            let m = if k < i {
                k
            } else {
                k + 1
            };
            assert(rest[j] == a[l] && rest[k] == a[m]);
        }
        gpu_order_irrelevant(rest, head);
        lemma_gpu_told_last(a, i);
    }
}

/// Whether an fdinfo file tells of an NPU that `stats` was used of it.
pub open spec fn tells(fdinfo: FdinfoView, id: PciSlot, stats: NpuUsageStats) -> bool {
    npu_usage_of(fdinfo.content) matches Ok((slot, used)) && slot == id && used == stats
}

/// Every counter of an NPU is the largest that a file tells of it.
proof fn lemma_npu_usage_map(list: Seq<FdinfoView>)
    ensures
        forall|f: FdinfoView, id: PciSlot, s: NpuUsageStats|
            list.contains(f) && #[trigger] tells(f, id, s) ==> npu_usage_map(list).contains_key(id)
                && s->usage_ns <= npu_usage_map(list)[id]->usage_ns && s->mem_bytes
                <= npu_usage_map(list)[id]->mem_bytes,
        forall|id: PciSlot| #[trigger]
            npu_usage_map(list).contains_key(id) ==> {
                &&& exists|f: FdinfoView, s: NpuUsageStats|
                    list.contains(f) && #[trigger] tells(f, id, s) && s->usage_ns
                        == npu_usage_map(list)[id]->usage_ns
                &&& exists|f: FdinfoView, s: NpuUsageStats|
                    list.contains(f) && #[trigger] tells(f, id, s) && s->mem_bytes
                        == npu_usage_map(list)[id]->mem_bytes
            },
    decreases list.len(),
{
    if list.len() > 0 {
        let head = list.drop_last();
        let last = list.last();
        let before = npu_usage_map(head);
        let all = npu_usage_map(list);
        lemma_npu_usage_map(head);
        assert(list[list.len() - 1] == last);
        assert forall|f: FdinfoView| #[trigger]
            list.contains(f) == (head.contains(f) || f == last) by {
            if list.contains(f) {
                let i = choose|i: int| 0 <= i < list.len() && list[i] == f;
                if i < head.len() {
                    assert(head[i] == f);
                }
            }
            if head.contains(f) {
                let i = choose|i: int| 0 <= i < head.len() && head[i] == f;
                assert(list[i] == f);
            }
        }
        assert forall|id: PciSlot| #[trigger] all.contains_key(id) implies {
            &&& exists|f: FdinfoView, s: NpuUsageStats|
                list.contains(f) && #[trigger] tells(f, id, s) && s->usage_ns == all[id]->usage_ns
            &&& exists|f: FdinfoView, s: NpuUsageStats|
                list.contains(f) && #[trigger] tells(f, id, s) && s->mem_bytes
                    == all[id]->mem_bytes
        } by {
            if let Ok((slot, used)) = npu_usage_of(last.content) {
                assert(tells(last, slot, used));
            }
            if before.contains_key(id) {
                let (f, s) = choose|f: FdinfoView, s: NpuUsageStats|
                    head.contains(f) && #[trigger] tells(f, id, s) && s->usage_ns
                        == before[id]->usage_ns;
                assert(list.contains(f) && tells(f, id, s));
                let (g, t) = choose|f: FdinfoView, s: NpuUsageStats|
                    head.contains(f) && #[trigger] tells(f, id, s) && s->mem_bytes
                        == before[id]->mem_bytes;
                assert(list.contains(g) && tells(g, id, t));
            }
        }
    }
}

proof fn lemma_npu_usage_within(a: Seq<FdinfoView>, b: Seq<FdinfoView>)
    requires
        forall|f: FdinfoView| #[trigger] a.contains(f) ==> b.contains(f),
    ensures
        forall|id: PciSlot| #[trigger]
            npu_usage_map(a).contains_key(id) ==> npu_usage_map(b).contains_key(id)
                && npu_usage_map(a)[id]->usage_ns <= npu_usage_map(b)[id]->usage_ns
                && npu_usage_map(a)[id]->mem_bytes <= npu_usage_map(b)[id]->mem_bytes,
        without_npu(a).subset_of(without_npu(b)),
{
    lemma_npu_usage_map(a);
    lemma_npu_usage_map(b);
    assert forall|key: FdKey| without_npu(a).contains(key) implies without_npu(b).contains(key) by {
        let i = choose|i: int|
            0 <= i < a.len() && npu_usage_of((#[trigger] a[i]).content) is Err && key == key_of(
                a[i],
            );
        assert(a.contains(a[i]));
        let j = choose|j: int| 0 <= j < b.len() && b[j] == a[i];
        assert(npu_usage_of(b[j].content) is Err);
    }
}

/// What was used of the NPUs does not depend on the order of the fdinfo files, nor on
/// how often one of them is read.
pub proof fn npu_order_irrelevant(a: Seq<FdinfoView>, b: Seq<FdinfoView>)
    requires
        forall|f: FdinfoView| #[trigger] a.contains(f) <==> #[trigger] b.contains(f),
    ensures
        npu_usage_map(a) == npu_usage_map(b),
        without_npu(a) == without_npu(b),
{
    assert forall|f: FdinfoView| #[trigger] a.contains(f) implies b.contains(f) by {}
    assert forall|f: FdinfoView| #[trigger] b.contains(f) implies a.contains(f) by {
        assert(a.contains(f) <==> b.contains(f));
    }
    lemma_npu_usage_within(a, b);
    lemma_npu_usage_within(b, a);
    assert(npu_usage_map(a).dom() =~= npu_usage_map(b).dom());
    assert(npu_usage_map(a) =~= npu_usage_map(b));
    assert(without_npu(a) =~= without_npu(b));
}

/// An fdinfo file is of a GPU or of an NPU, but never of both.
pub proof fn gpu_or_npu(fields: Map<Seq<char>, Seq<char>>)
    ensures
        gpu_usage_of(fields) is Ok ==> npu_usage_of(fields) is Err,
{
    reveal_strlit("amdgpu");
    reveal_strlit("i915");
    reveal_strlit("v3d");
    reveal_strlit("xe");
    reveal_strlit("amdxdna");
    reveal_strlit("amdxdna_accel_driver");
    assert("amdgpu"@.len() == 6 && "i915"@.len() == 4 && "v3d"@.len() == 3 && "xe"@.len() == 2
        && "amdxdna"@.len() == 7 && "amdxdna_accel_driver"@.len() == 20);
}

/// The fields of a file are those of its lines. A line tells what stands behind its first
/// colon under what stands before it, in place of any line of that name before it; a line
/// without a colon tells nothing.
pub proof fn last_line_of_a_name_counts(
    lines: Seq<Seq<char>>,
    name: Seq<char>,
    value: Seq<char>,
    other: Seq<char>,
)
    requires
        forall|i: int| 0 <= i < name.len() ==> name[i] != ':',
    ensures
        fields_of(Seq::<Seq<char>>::empty()) == Map::<Seq<char>, Seq<char>>::empty(),
        fields_of(lines.push(name)) == fields_of(lines),
        fields_of(lines.push(name + seq![':'] + value)).contains_key(text::trim(name)),
        fields_of(lines.push(name + seq![':'] + value))[text::trim(name)] == text::trim(value),
        other != text::trim(name) ==> {
            let after = fields_of(lines.push(name + seq![':'] + value));
            &&& after.contains_key(other) == fields_of(lines).contains_key(other)
            &&& after[other] == fields_of(lines)[other]
        },
{
    let line = name + seq![':'] + value;
    text::lemma_split_once_joined(name, ':', value);
    text::lemma_first_pos(name, ':');
    assert(lines.push(line).drop_last() =~= lines);
    assert(lines.push(line).last() == line);
    assert(lines.push(name).drop_last() =~= lines);
    assert(lines.push(name).last() == name);
}

/// The number that a pattern captures in a field, or nothing where the field is missing or
/// shows none.
pub open spec fn shown(
    fields: Map<Seq<char>, Seq<char>>,
    name: Seq<char>,
    pattern: Seq<char>,
) -> int {
    if fields.contains_key(name) {
        match pattern::group(pattern::captures_of(pattern, fields[name]), 1) {
            Some(s) => match number::parse_unsigned(s, 10, u64::MAX as int) {
                Some(n) => n,
                None => 0,
            },
            None => 0,
        }
    } else {
        0
    }
}

/// Whether a number of bytes is that of a number of kibibytes, up to what 64 bits hold.
pub open spec fn bytes_of_kib(bytes: u64, kib: int) -> bool {
    if 1024 * kib <= u64::MAX {
        bytes == 1024 * kib
    } else {
        bytes == u64::MAX
    }
}

proof fn lemma_shown(fields: Map<Seq<char>, Seq<char>>, name: Seq<char>, pattern: Seq<char>)
    ensures
        0 <= shown(fields, name, pattern) <= u64::MAX,
        contribution(field_capture(fields, name, pattern)) == shown(fields, name, pattern),
{
    if fields.contains_key(name) {
        if let Some(s) = pattern::group(pattern::captures_of(pattern, fields[name]), 1) {
            number::number_is_within_bounds(s, 10, 0, u64::MAX as int, u64::MAX as int);
        }
    }
}

proof fn lemma_one_field(fields: Map<Seq<char>, Seq<char>>, a: Seq<char>, pattern: Seq<char>)
    ensures
        captured_sum(field_captures(fields, seq![a], pattern)) == shown(fields, a, pattern),
{
    lemma_shown(fields, a, pattern);
    let c = field_captures(fields, seq![a], pattern);
    assert(c.len() == 1);
    assert(c.last() == field_capture(fields, a, pattern));
    assert(c.drop_last().len() == 0);
    assert(captured_sum(c.drop_last()) == 0);
}

proof fn lemma_two_fields(
    fields: Map<Seq<char>, Seq<char>>,
    a: Seq<char>,
    b: Seq<char>,
    pattern: Seq<char>,
)
    ensures
        captured_sum(field_captures(fields, seq![a, b], pattern)) == (shown(fields, a, pattern)
            + shown(fields, b, pattern)) % 0x1_0000_0000_0000_0000,
{
    lemma_one_field(fields, a, pattern);
    lemma_shown(fields, b, pattern);
    let c = field_captures(fields, seq![a, b], pattern);
    assert(c.drop_last() =~= field_captures(fields, seq![a], pattern));
    assert(c.last() == field_capture(fields, b, pattern));
}

/// What a file of the driver `amdgpu` tells: its graphics engine has worked as long as both
/// its graphics and its computing, its memory is that on the card and that of the system.
pub proof fn amdgpu_file_tells(fields: Map<Seq<char>, Seq<char>>)
    requires
        fields.contains_key("drm-driver"@),
        fields["drm-driver"@] == "amdgpu"@,
    ensures
        ({
            let ns = r"(\d+)\s*ns"@;
            let kib = r"(\d+)\s*KiB"@;
            &&& gpu_usage_of(fields) matches Ok(
                (_, GpuUsageStats::AmdgpuStats { gfx_ns, enc_ns, dec_ns, mem_bytes }),
            )
            &&& gfx_ns == (shown(fields, "drm-engine-compute"@, ns) + shown(
                fields,
                "drm-engine-gfx"@,
                ns,
            )) % 0x1_0000_0000_0000_0000
            &&& enc_ns == shown(fields, "drm-engine-enc"@, ns)
            &&& dec_ns == shown(fields, "drm-engine-dec"@, ns)
            &&& bytes_of_kib(
                mem_bytes,
                (shown(fields, "drm-memory-gtt"@, kib) + shown(fields, "drm-memory-vram"@, kib))
                    % 0x1_0000_0000_0000_0000,
            )
        }),
{
    let ns = r"(\d+)\s*ns"@;
    let kib = r"(\d+)\s*KiB"@;
    lemma_two_fields(fields, "drm-engine-compute"@, "drm-engine-gfx"@, ns);
    lemma_one_field(fields, "drm-engine-enc"@, ns);
    lemma_shown(fields, "drm-engine-enc"@, ns);
    lemma_one_field(fields, "drm-engine-dec"@, ns);
    lemma_shown(fields, "drm-engine-dec"@, ns);
    lemma_two_fields(fields, "drm-memory-gtt"@, "drm-memory-vram"@, kib);
}

/// What a file of the driver `i915` tells: how long its render engine and its video engine
/// have worked.
pub proof fn i915_file_tells(fields: Map<Seq<char>, Seq<char>>)
    requires
        fields.contains_key("drm-driver"@),
        fields["drm-driver"@] == "i915"@,
    ensures
        ({
            let ns = r"(\d+)\s*ns"@;
            &&& gpu_usage_of(fields) matches Ok((_, GpuUsageStats::I915Stats { gfx_ns, video_ns }))
            &&& gfx_ns == shown(fields, "drm-engine-render"@, ns)
            &&& video_ns == shown(fields, "drm-engine-video"@, ns)
        }),
{
    let ns = r"(\d+)\s*ns"@;
    reveal_strlit("amdgpu");
    reveal_strlit("i915");
    assert("amdgpu"@.len() == 6 && "i915"@.len() == 4);
    lemma_one_field(fields, "drm-engine-render"@, ns);
    lemma_shown(fields, "drm-engine-render"@, ns);
    lemma_one_field(fields, "drm-engine-video"@, ns);
    lemma_shown(fields, "drm-engine-video"@, ns);
}

/// What a file of the driver `v3d` tells: how long its render engine has worked, and its
/// memory.
pub proof fn v3d_file_tells(fields: Map<Seq<char>, Seq<char>>)
    requires
        fields.contains_key("drm-driver"@),
        fields["drm-driver"@] == "v3d"@,
    ensures
        ({
            &&& gpu_usage_of(fields) matches Ok((_, GpuUsageStats::V3dStats { gfx_ns, mem_bytes }))
            &&& gfx_ns == shown(fields, "drm-engine-render"@, r"(\d+)\s*ns"@)
            &&& bytes_of_kib(mem_bytes, shown(fields, "drm-total-memory"@, r"(\d+)\s*KiB"@))
        }),
{
    let ns = r"(\d+)\s*ns"@;
    let kib = r"(\d+)\s*KiB"@;
    reveal_strlit("amdgpu");
    reveal_strlit("i915");
    reveal_strlit("v3d");
    assert("amdgpu"@.len() == 6 && "i915"@.len() == 4 && "v3d"@.len() == 3);
    lemma_one_field(fields, "drm-engine-render"@, ns);
    lemma_shown(fields, "drm-engine-render"@, ns);
    lemma_one_field(fields, "drm-total-memory"@, kib);
    lemma_shown(fields, "drm-total-memory"@, kib);
}

/// What a file of the driver `xe` tells: of each engine the cycles in which it has worked,
/// and all its cycles; and its memory, that on the card and that of the system.
pub proof fn xe_file_tells(fields: Map<Seq<char>, Seq<char>>)
    requires
        fields.contains_key("drm-driver"@),
        fields["drm-driver"@] == "xe"@,
    ensures
        ({
            let units = r"(\d+)"@;
            let kib = r"(\d+)\s*KiB"@;
            &&& gpu_usage_of(fields) matches Ok(
                (
                    _,
                    GpuUsageStats::XeStats {
                        gfx_cycles,
                        gfx_total_cycles,
                        compute_cycles,
                        compute_total_cycles,
                        video_cycles,
                        video_total_cycles,
                        mem_bytes,
                    },
                ),
            )
            &&& gfx_cycles == shown(fields, "drm-cycles-rcs"@, units)
            &&& gfx_total_cycles == shown(fields, "drm-total-cycles-rcs"@, units)
            &&& compute_cycles == shown(fields, "drm-cycles-ccs"@, units)
            &&& compute_total_cycles == shown(fields, "drm-total-cycles-ccs"@, units)
            &&& video_cycles == shown(fields, "drm-cycles-vcs"@, units)
            &&& video_total_cycles == shown(fields, "drm-total-cycles-vcs"@, units)
            &&& bytes_of_kib(
                mem_bytes,
                (shown(fields, "drm-total-gtt"@, kib) + shown(fields, "drm-total-vram0"@, kib))
                    % 0x1_0000_0000_0000_0000,
            )
        }),
{
    let units = r"(\d+)"@;
    let kib = r"(\d+)\s*KiB"@;
    reveal_strlit("amdgpu");
    reveal_strlit("i915");
    reveal_strlit("v3d");
    reveal_strlit("xe");
    assert("amdgpu"@.len() == 6 && "i915"@.len() == 4 && "v3d"@.len() == 3 && "xe"@.len() == 2);
    lemma_one_field(fields, "drm-cycles-rcs"@, units);
    lemma_shown(fields, "drm-cycles-rcs"@, units);
    lemma_one_field(fields, "drm-total-cycles-rcs"@, units);
    lemma_shown(fields, "drm-total-cycles-rcs"@, units);
    lemma_one_field(fields, "drm-cycles-ccs"@, units);
    lemma_shown(fields, "drm-cycles-ccs"@, units);
    lemma_one_field(fields, "drm-total-cycles-ccs"@, units);
    lemma_shown(fields, "drm-total-cycles-ccs"@, units);
    lemma_one_field(fields, "drm-cycles-vcs"@, units);
    lemma_shown(fields, "drm-cycles-vcs"@, units);
    lemma_one_field(fields, "drm-total-cycles-vcs"@, units);
    lemma_shown(fields, "drm-total-cycles-vcs"@, units);
    lemma_two_fields(fields, "drm-total-gtt"@, "drm-total-vram0"@, kib);
}

/// What a file of the driver `amdxdna` tells: how long the NPU has worked, by whatever name
/// the engine goes, and its memory.
pub proof fn amdxdna_file_tells(fields: Map<Seq<char>, Seq<char>>)
    requires
        fields.contains_key("drm-driver"@),
        fields["drm-driver"@] == "amdxdna"@ || fields["drm-driver"@] == "amdxdna_accel_driver"@,
    ensures
        ({
            let ns = r"(\d+)\s*ns"@;
            let kib = r"(\d+)\s*KiB"@;
            &&& npu_usage_of(fields) matches Ok(
                (_, NpuUsageStats::AmdxdnaStats { usage_ns, mem_bytes }),
            )
            &&& usage_ns == (shown(fields, "drm-engine-npu-amdxdna"@, ns) + shown(
                fields,
                "drm-engine-npu"@,
                ns,
            ) + shown(fields, "drm-engine-accel"@, ns)) % 0x1_0000_0000_0000_0000
            &&& bytes_of_kib(
                mem_bytes,
                (shown(fields, "drm-total-memory"@, kib) + shown(fields, "drm-memory-vram"@, kib))
                    % 0x1_0000_0000_0000_0000,
            )
        }),
{
    let ns = r"(\d+)\s*ns"@;
    let kib = r"(\d+)\s*KiB"@;
    reveal_strlit("amdgpu");
    reveal_strlit("i915");
    reveal_strlit("v3d");
    reveal_strlit("xe");
    reveal_strlit("amdxdna");
    reveal_strlit("amdxdna_accel_driver");
    assert("amdgpu"@.len() == 6 && "i915"@.len() == 4 && "v3d"@.len() == 3 && "xe"@.len() == 2
        && "amdxdna"@.len() == 7 && "amdxdna_accel_driver"@.len() == 20);
    let a = "drm-engine-npu-amdxdna"@;
    let b = "drm-engine-npu"@;
    let last = "drm-engine-accel"@;
    lemma_two_fields(fields, a, b, ns);
    lemma_shown(fields, a, ns);
    lemma_shown(fields, b, ns);
    lemma_shown(fields, last, ns);
    let c = field_captures(fields, seq![a, b, last], ns);
    assert(c.drop_last() =~= field_captures(fields, seq![a, b], ns));
    assert(c.last() == field_capture(fields, last, ns));
    lemma_two_fields(fields, "drm-total-memory"@, "drm-memory-vram"@, kib);
}

/// A file of any other driver, or of none, tells nothing of a GPU or NPU.
pub proof fn other_drivers_tell_nothing(fields: Map<Seq<char>, Seq<char>>)
    ensures
        !fields.contains_key("drm-driver"@) ==> gpu_usage_of(fields) == Err::<
            (GpuIdentifier, GpuUsageStats),
            FdinfoError,
        >(FdinfoError::NoDriver) && npu_usage_of(fields) == Err::<
            (PciSlot, NpuUsageStats),
            FdinfoError,
        >(FdinfoError::NoDriver),
        fields.contains_key("drm-driver"@) ==> {
            let driver = fields["drm-driver"@];
            let gpu = driver == "amdgpu"@ || driver == "i915"@ || driver == "v3d"@ || driver
                == "xe"@;
            let npu = driver == "amdxdna"@ || driver == "amdxdna_accel_driver"@;
            &&& !gpu ==> gpu_usage_of(fields) == Err::<(GpuIdentifier, GpuUsageStats), FdinfoError>(
                FdinfoError::UnknownDriver,
            )
            &&& !npu ==> npu_usage_of(fields) == Err::<(PciSlot, NpuUsageStats), FdinfoError>(
                FdinfoError::UnknownDriver,
            )
        },
{
}

/// A file tells of the device with the address that it names. Without one, that is the first
/// GPU, or the NPU with the address of all zeros.
pub proof fn file_names_its_device(fields: Map<Seq<char>, Seq<char>>)
    ensures
        ({
            let named = if fields.contains_key("drm-pdev"@) {
                pci_slot::parse_slot(fields["drm-pdev"@])
            } else {
                None
            };
            &&& gpu_usage_of(fields) matches Ok((id, _)) ==> match named {
                Some(slot) => id == GpuIdentifier::PciSlot(slot),
                None => id == GpuIdentifier::Enumerator(0),
            }
            &&& npu_usage_of(fields) matches Ok((id, _)) ==> match named {
                Some(slot) => id == slot,
                None => id == (PciSlot { domain: 0, bus: 0, number: 0, function: 0 }),
            }
        }),
{
}

/// Every file that tells of a GPU counts: what was known of that one is joined with it,
/// counter by counter, and what was known of all others stays.
pub proof fn every_gpu_file_counts(list: Seq<FdinfoView>, f: FdinfoView, other: GpuIdentifier)
    ensures
        gpu_usage_map(Seq::<FdinfoView>::empty()) == Map::<GpuIdentifier, GpuUsageStats>::empty(),
        ({
            let before = gpu_usage_map(list);
            let after = gpu_usage_map(list.push(f));
            match gpu_usage_of(f.content) {
                Ok((id, stats)) => {
                    &&& after.contains_key(id)
                    &&& !before.contains_key(id) ==> after[id] == stats
                    &&& before.contains_key(id) ==> after[id] == gpu_usage::greater_of(
                        before[id],
                        stats,
                    )
                    &&& other != id ==> after.contains_key(other) == before.contains_key(other)
                        && after[other] == before[other]
                },
                Err(_) => after == before,
            }
        }),
{
    assert(list.push(f).drop_last() =~= list);
    assert(list.push(f).last() == f);
}

/// Every file that tells of an NPU counts: what was known of that one is joined with it,
/// counter by counter, and what was known of all others stays.
pub proof fn every_npu_file_counts(list: Seq<FdinfoView>, f: FdinfoView, other: PciSlot)
    ensures
        npu_usage_map(Seq::<FdinfoView>::empty()) == Map::<PciSlot, NpuUsageStats>::empty(),
        ({
            let before = npu_usage_map(list);
            let after = npu_usage_map(list.push(f));
            match npu_usage_of(f.content) {
                Ok((id, stats)) => {
                    &&& after.contains_key(id)
                    &&& !before.contains_key(id) ==> after[id] == stats
                    &&& before.contains_key(id) ==> after[id] == npu_usage::greater_of(
                        before[id],
                        stats,
                    )
                    &&& other != id ==> after.contains_key(other) == before.contains_key(other)
                        && after[other] == before[other]
                },
                Err(_) => after == before,
            }
        }),
{
    assert(list.push(f).drop_last() =~= list);
    assert(list.push(f).last() == f);
}

/// A descriptor is remembered as one that tells nothing exactly where a file of it was read
/// that did not.
pub proof fn useless_descriptors_remembered(list: Seq<FdinfoView>, pid: i32, fd: usize)
    ensures
        without_gpu(list).contains(FdKey { pid, fd }) <==> exists|i: int|
            0 <= i < list.len() && (#[trigger] list[i]).pid == pid && list[i].fdinfo_num == fd
                && gpu_usage_of(list[i].content) is Err,
        without_npu(list).contains(FdKey { pid, fd }) <==> exists|i: int|
            0 <= i < list.len() && (#[trigger] list[i]).pid == pid && list[i].fdinfo_num == fd
                && npu_usage_of(list[i].content) is Err,
{
}

} // verus!
