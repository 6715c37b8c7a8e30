//! What the exporter of NPU data tells of the processes.

use vstd::prelude::*;

use crate::npu_usage::NpuUsageStats;
use crate::number;
use crate::text;

verus! {

/// A place in a JSON text: the number there, if it is one that fits, and the
/// length of the array there, if it is one.
#[derive(Debug, Clone, Copy, PartialEq, Eq, Structural)]
pub struct JsonNode {
    pub as_u64: Option<u64>,
    pub as_i64: Option<i64>,
    pub array_len: Option<usize>,
}

/// What `serde_json` finds in a JSON text at the place that a JSON pointer
/// denotes. It depends on the two texts alone.
pub uninterp spec fn json_node_of(json: Seq<char>, pointer: Seq<char>) -> Option<JsonNode>;

/// Calls `serde_json::from_str` and `Value::pointer`, and of what is there
/// `Value::as_u64`, `Value::as_i64` and `Value::as_array`. None where the text is
/// no JSON or has no such place. Claimed is only that the result is determined by
/// the two texts; what a JSON text holds is left unsaid.
#[verifier::external_body]
fn json_node(json: &str, pointer: &str) -> (r: Option<JsonNode>)
    ensures
        r == json_node_of(json@, pointer@),
{
    let value = serde_json::from_str::<serde_json::Value>(json).ok()?;
    let node = value.pointer(pointer)?;
    Some(
        JsonNode {
            as_u64: node.as_u64(),
            as_i64: node.as_i64(),
            array_len: node.as_array().map(|items| items.len()),
        },
    )
}

/// What is told of one process.
#[derive(Debug, Clone, Copy, PartialEq, Eq, Structural)]
pub struct TelemetryProcess {
    pub pid: Option<i64>,
    pub memory_bytes: Option<u64>,
    pub proc_ns: Option<u64>,
}

/// What is told, and when it was written, in seconds since the epoch.
pub struct Telemetry {
    pub timestamp: Option<u64>,
    pub processes: Vec<TelemetryProcess>,
}

/// What a `Telemetry` holds.
#[verifier::ext_equal]
pub struct TelemetryView {
    pub timestamp: Option<u64>,
    pub processes: Seq<TelemetryProcess>,
}

impl View for Telemetry {
    type V = TelemetryView;

    open spec fn view(&self) -> TelemetryView {
        TelemetryView { timestamp: self.timestamp, processes: self.processes@ }
    }
}

/// The `u64` at a place.
pub open spec fn u64_at(json: Seq<char>, pointer: Seq<char>) -> Option<u64> {
    match json_node_of(json, pointer) {
        Some(node) => node.as_u64,
        None => None,
    }
}

/// The `i64` at a place.
pub open spec fn i64_at(json: Seq<char>, pointer: Seq<char>) -> Option<i64> {
    match json_node_of(json, pointer) {
        Some(node) => node.as_i64,
        None => None,
    }
}

/// The length of the array at a place; 0 where there is none.
pub open spec fn len_at(json: Seq<char>, pointer: Seq<char>) -> usize {
    match json_node_of(json, pointer) {
        Some(node) => match node.array_len {
            Some(n) => n,
            None => 0,
        },
        None => 0,
    }
}

/// The pointer to a member of process `i`.
pub open spec fn process_pointer(i: int, member: Seq<char>) -> Seq<char> {
    "/processes/"@ + number::number_text(i, 10) + member
}

/// What is told of process `i`.
pub open spec fn process_at(json: Seq<char>, i: int) -> TelemetryProcess {
    TelemetryProcess {
        pid: i64_at(json, process_pointer(i, "/pid"@)),
        memory_bytes: u64_at(json, process_pointer(i, "/memory_bytes"@)),
        proc_ns: u64_at(json, process_pointer(i, "/proc_ns"@)),
    }
}

/// What a JSON text tells.
pub open spec fn telemetry_of(json: Seq<char>) -> TelemetryView {
    TelemetryView {
        timestamp: u64_at(json, "/timestamp"@),
        processes: Seq::new(len_at(json, "/processes"@) as nat, |i: int| process_at(json, i)),
    }
}

fn u64_node(json: &str, pointer: &str) -> (r: Option<u64>)
    ensures
        r == u64_at(json@, pointer@),
{
    match json_node(json, pointer) {
        Some(node) => node.as_u64,
        None => None,
    }
}

fn member_pointer(i: usize, member: &str) -> (r: String)
    ensures
        r@ == process_pointer(i as int, member@),
{
    let mut chars: Vec<char> = text::to_chars("/processes/");
    text::append_chars(&mut chars, &number::number_chars(i as u64, 10));
    text::append_chars(&mut chars, &text::to_chars(member));
    text::to_text(&chars)
}

impl Telemetry {
    /// Reads what a JSON text tells.
    pub fn parse(json: &str) -> (r: Self)
        ensures
            r@ == telemetry_of(json@),
    {
        let n: usize = match json_node(json, "/processes") {
            Some(node) => match node.array_len {
                Some(n) => n,
                None => 0,
            },
            None => 0,
        };
        let mut processes: Vec<TelemetryProcess> = Vec::new();
        while processes.len() < n
            invariant
                processes.len() <= n,
                forall|j: int|
                    0 <= j < processes.len() ==> #[trigger] processes@[j] == process_at(json@, j),
            decreases n - processes.len(),
        {
            let i: usize = processes.len();
            let pid: Option<i64> = match json_node(json, member_pointer(i, "/pid").as_str()) {
                Some(node) => node.as_i64,
                None => None,
            };
            processes.push(
                TelemetryProcess {
                    pid,
                    memory_bytes: u64_node(json, member_pointer(i, "/memory_bytes").as_str()),
                    proc_ns: u64_node(json, member_pointer(i, "/proc_ns").as_str()),
                },
            );
        }
        let r = Telemetry { timestamp: u64_node(json, "/timestamp"), processes };
        proof {
            assert(r@.processes =~= telemetry_of(json@).processes);
        }
        r
    }
}

/// Whether telemetry is at most five seconds old. A time that lies ahead counts
/// as now.
pub open spec fn is_fresh(timestamp: Option<u64>, now_secs: u64) -> bool {
    timestamp matches Some(ts) && now_secs - ts <= 5
}

/// The first process with the identifier.
pub open spec fn process_of(processes: Seq<TelemetryProcess>, pid: i32) -> Option<TelemetryProcess>
    decreases processes.len(),
{
    if processes.len() == 0 {
        None
    } else if processes[0].pid == Some(pid as i64) {
        Some(processes[0])
    } else {
        process_of(processes.skip(1), pid)
    }
}

/// What fresh telemetry tells of a process.
pub open spec fn fresh_process(
    telemetry: Option<TelemetryView>,
    pid: i32,
    now_secs: u64,
) -> Option<TelemetryProcess> {
    match telemetry {
        Some(t) => if is_fresh(t.timestamp, now_secs) {
            process_of(t.processes, pid)
        } else {
            None
        },
        None => None,
    }
}

/// The time that a number of clock ticks makes up in nanoseconds, at a hundred
/// ticks a second. The ticks of the two counters add up modulo 2^64.
pub open spec fn ticks_ns(user_cpu_time: u64, system_cpu_time: u64) -> u64 {
    number::saturating_product(
        (user_cpu_time + system_cpu_time) % 0x1_0000_0000_0000_0000,
        10_000_000,
        u64::MAX as int,
    ) as u64
}

/// The NPU usage of a process that works with an NPU: what fresh telemetry tells,
/// and what the process used of the CPU and of memory for what it does not.
pub open spec fn estimated_usage(
    told: Option<TelemetryProcess>,
    cpu_ns: u64,
    rss: usize,
) -> NpuUsageStats {
    match told {
        Some(p) => NpuUsageStats::AmdxdnaStats {
            usage_ns: match p.proc_ns {
                Some(ns) => ns,
                None => cpu_ns,
            },
            mem_bytes: match p.memory_bytes {
                Some(bytes) => bytes,
                None => rss as u64,
            },
        },
        None => NpuUsageStats::AmdxdnaStats { usage_ns: cpu_ns, mem_bytes: rss as u64 },
    }
}

/// The time that the clock ticks of the two counters make up.
pub fn cpu_time_ns(user_cpu_time: u64, system_cpu_time: u64) -> (r: u64)
    ensures
        r == ticks_ns(user_cpu_time, system_cpu_time),
{
    number::saturating_mul_u64(user_cpu_time.wrapping_add(system_cpu_time), 10_000_000)
}

/// The views of telemetry that may be missing.
pub open spec fn opt_telemetry(t: Option<Telemetry>) -> Option<TelemetryView> {
    match t {
        Some(t) => Some(t@),
        None => None,
    }
}

/// The NPU usage of a process that works with an NPU.
pub fn estimate_usage(
    telemetry: &Option<Telemetry>,
    pid: i32,
    now_secs: u64,
    cpu_ns: u64,
    rss: usize,
) -> (r: NpuUsageStats)
    ensures
        r == estimated_usage(
            fresh_process(opt_telemetry(*telemetry), pid, now_secs),
            cpu_ns,
            rss,
        ),
{
    if let Some(t) = telemetry {
        let fresh: bool = match t.timestamp {
            Some(ts) => now_secs.saturating_sub(ts) <= 5,
            None => false,
        };
        if fresh {
            let mut i: usize = 0;
            proof {
                assert(t.processes@.skip(0) =~= t.processes@);
            }
            while i < t.processes.len()
                invariant
                    i <= t.processes.len(),
                    process_of(t.processes@.skip(i as int), pid) == process_of(t.processes@, pid),
                    fresh_process(opt_telemetry(*telemetry), pid, now_secs) == process_of(
                        t.processes@,
                        pid,
                    ),
                decreases t.processes.len() - i,
            {
                let p: TelemetryProcess = t.processes[i];
                proof {
                    assert(t.processes@.skip(i as int)[0] == p);
                    assert(t.processes@.skip(i as int).skip(1) =~= t.processes@.skip(i + 1));
                }
                let same: bool = match p.pid {
                    Some(v) => v == pid as i64,
                    None => false,
                };
                if same {
                    return NpuUsageStats::AmdxdnaStats {
                        usage_ns: match p.proc_ns {
                            Some(ns) => ns,
                            None => cpu_ns,
                        },
                        mem_bytes: match p.memory_bytes {
                            Some(bytes) => bytes,
                            None => rss as u64,
                        },
                    };
                }
                i += 1;
            }
        }
    }
    NpuUsageStats::AmdxdnaStats { usage_ns: cpu_ns, mem_bytes: rss as u64 }
}

/// Telemetry that is older than five seconds has no part in the estimate.
pub proof fn stale_telemetry_ignored(
    telemetry: TelemetryView,
    pid: i32,
    now_secs: u64,
    cpu_ns: u64,
    rss: usize,
)
    requires
        telemetry.timestamp matches Some(ts) ==> now_secs - ts > 5,
    ensures
        estimated_usage(fresh_process(Some(telemetry), pid, now_secs), cpu_ns, rss)
            == estimated_usage(None, cpu_ns, rss),
{
}

/// What fresh telemetry tells of a process is its first entry; telemetry is fresh for five
/// seconds.
pub proof fn first_fresh_entry_counts(t: TelemetryView, pid: i32, now_secs: u64, i: int)
    requires
        0 <= i < t.processes.len(),
        t.processes[i].pid == Some(pid as i64),
        forall|j: int| 0 <= j < i ==> (#[trigger] t.processes[j]).pid != Some(pid as i64),
    ensures
        t.timestamp is Some && now_secs <= t.timestamp->0 + 5 ==> fresh_process(
            Some(t),
            pid,
            now_secs,
        ) == Some(t.processes[i]),
        t.timestamp is None ==> fresh_process(Some(t), pid, now_secs) is None,
        t.timestamp is Some && now_secs > t.timestamp->0 + 5 ==> fresh_process(
            Some(t),
            pid,
            now_secs,
        ) is None,
{
    lemma_process_of(t.processes, pid, i);
}

proof fn lemma_process_of(processes: Seq<TelemetryProcess>, pid: i32, i: int)
    requires
        0 <= i < processes.len(),
        processes[i].pid == Some(pid as i64),
        forall|j: int| 0 <= j < i ==> (#[trigger] processes[j]).pid != Some(pid as i64),
    ensures
        process_of(processes, pid) == Some(processes[i]),
    decreases i,
{
    if i > 0 {
        let rest = processes.skip(1);
        assert(processes[0].pid != Some(pid as i64));
        assert forall|j: int| 0 <= j < i - 1 implies (#[trigger] rest[j]).pid != Some(
            pid as i64,
        ) by {
            assert(rest[j] == processes[j + 1]);
        }
        assert(rest[i - 1] == processes[i]);
        lemma_process_of(rest, pid, i - 1);
    }
}

proof fn lemma_no_process(processes: Seq<TelemetryProcess>, pid: i32)
    requires
        forall|j: int| 0 <= j < processes.len() ==> (#[trigger] processes[j]).pid != Some(
            pid as i64,
        ),
    ensures
        process_of(processes, pid) is None,
    decreases processes.len(),
{
    if processes.len() > 0 {
        assert(processes[0].pid != Some(pid as i64));
        let rest = processes.skip(1);
        assert forall|j: int| 0 <= j < rest.len() implies (#[trigger] rest[j]).pid != Some(
            pid as i64,
        ) by {
            assert(rest[j] == processes[j + 1]);
        }
        lemma_no_process(rest, pid);
    }
}

/// Telemetry without an entry of a process tells nothing of it, and neither does telemetry
/// that is missing.
pub proof fn nothing_told_of_others(t: TelemetryView, pid: i32, now_secs: u64)
    requires
        forall|j: int| 0 <= j < t.processes.len() ==> (#[trigger] t.processes[j]).pid != Some(
            pid as i64,
        ),
    ensures
        fresh_process(Some(t), pid, now_secs) is None,
        fresh_process(None, pid, now_secs) is None,
{
    lemma_no_process(t.processes, pid);
}

/// The estimate takes each value from telemetry where that tells it; else the time is that
/// of the CPU and the memory that which is resident.
pub proof fn estimate_takes_what_is_told(told: Option<TelemetryProcess>, cpu_ns: u64, rss: usize)
    ensures
        match estimated_usage(told, cpu_ns, rss) {
            NpuUsageStats::AmdxdnaStats { usage_ns, mem_bytes } => {
                &&& told is Some && told->0.proc_ns is Some ==> Some(usage_ns) == told->0.proc_ns
                &&& told is None || told->0.proc_ns is None ==> usage_ns == cpu_ns
                &&& told is Some && told->0.memory_bytes is Some ==> Some(mem_bytes)
                    == told->0.memory_bytes
                &&& told is None || told->0.memory_bytes is None ==> mem_bytes == rss
            },
        },
{
}

/// A clock tick is a hundredth of a second.
pub proof fn ticks_are_hundredths(user_cpu_time: u64, system_cpu_time: u64)
    ensures
        (user_cpu_time + system_cpu_time) * 10_000_000 <= u64::MAX ==> ticks_ns(
            user_cpu_time,
            system_cpu_time,
        ) == (user_cpu_time + system_cpu_time) * 10_000_000,
        user_cpu_time + system_cpu_time <= u64::MAX && (user_cpu_time + system_cpu_time)
            * 10_000_000 > u64::MAX ==> ticks_ns(user_cpu_time, system_cpu_time) == u64::MAX,
{
}

/// Telemetry is read by the names of its members: when it was written, and for each process
/// its identifier, its memory and its time.
pub proof fn members_by_their_names(json: Seq<char>, i: int)
    ensures
        match json_node_of(json, "/timestamp"@) {
            Some(node) => telemetry_of(json).timestamp == node.as_u64,
            None => telemetry_of(json).timestamp is None,
        },
        json_node_of(json, "/processes"@) is Some && json_node_of(
            json,
            "/processes"@,
        )->0.array_len is Some ==> telemetry_of(json).processes.len() == json_node_of(
            json,
            "/processes"@,
        )->0.array_len->0,
        json_node_of(json, "/processes"@) is None || json_node_of(
            json,
            "/processes"@,
        )->0.array_len is None ==> telemetry_of(json).processes.len() == 0,
        0 <= i < telemetry_of(json).processes.len() ==> {
            let p = telemetry_of(json).processes[i];
            let place = "/processes/"@ + number::number_text(i, 10);
            &&& match json_node_of(json, place + "/pid"@) {
                Some(node) => p.pid == node.as_i64,
                None => p.pid is None,
            }
            &&& match json_node_of(json, place + "/memory_bytes"@) {
                Some(node) => p.memory_bytes == node.as_u64,
                None => p.memory_bytes is None,
            }
            &&& match json_node_of(json, place + "/proc_ns"@) {
                Some(node) => p.proc_ns == node.as_u64,
                None => p.proc_ns is None,
            }
        },
{
}

} // verus!
