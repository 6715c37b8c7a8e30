//! The model of the applications and processes of the system: what a context holds, what
//! always holds of it, and what a refresh makes of it.

use vstd::prelude::*;

use crate::app;
use crate::app::AppView;
use crate::association;
use crate::association::{AssociationView, QueryView, SnapQueryView};
use crate::gpu_usage;
use crate::gpu_usage::{GpuIdentifier, GpuUsageStats};
use crate::number;
use crate::process;
use crate::process::ProcessView;
use crate::process_data::ProcessDataView;
use crate::sorted_map;
use crate::sorted_map::MapKey;
use crate::text;

verus! {

/// What an `AppsContext` holds.
#[verifier::ext_equal]
pub struct ContextView {
    pub apps: Seq<AppView>,
    pub processes: Map<i32, ProcessView>,
    pub combined: Seq<GpuIdentifier>,
    pub deferred: Map<i32, SnapQueryView>,
}

/// The answers of snapd that have come.
pub type Answers = Seq<(SnapQueryView, Option<Seq<char>>)>;

// What always holds ----------------------------------------------------------------------

/// Whether process `pid` stands at place `k` of application `i`.
pub open spec fn placed(apps: Seq<AppView>, pid: i32, i: int, k: int) -> bool {
    0 <= i < apps.len() && 0 <= k < apps[i].processes.len() && apps[i].processes[k] == pid
}

/// Whether a process belongs to an application.
pub open spec fn has_app(apps: Seq<AppView>, pid: i32) -> bool {
    exists|i: int, k: int| placed(apps, pid, i, k)
}

/// Whether no two applications have the same identifier.
pub open spec fn distinct_ids(apps: Seq<AppView>) -> bool {
    forall|i: int, j: int|
        0 <= i < j < apps.len() ==> (#[trigger] apps[i]).id != (#[trigger] apps[j]).id
}

/// Whether every process stands at one place only.
pub open spec fn placed_once(apps: Seq<AppView>) -> bool {
    forall|pid: i32, i: int, k: int, j: int, l: int| #[trigger]
        placed(apps, pid, i, k) && #[trigger] placed(apps, pid, j, l) ==> i == j && k == l
}

/// What holds of the applications and processes at all times: no identifier occurs
/// twice; the system processes are there; a process belongs to at most one
/// application; what belongs to an application, or waits for an answer, is a known
/// process; what belongs to an application has its icon; and what waits belongs to
/// no application yet.
pub open spec fn context_wf(c: ContextView) -> bool {
    &&& distinct_ids(c.apps)
    &&& association::has_id(c.apps, None)
    &&& placed_once(c.apps)
    &&& forall|pid: i32| #[trigger] has_app(c.apps, pid) ==> c.processes.contains_key(pid)
    &&& forall|pid: i32| #[trigger]
        c.deferred.contains_key(pid) ==> c.processes.contains_key(pid) && !has_app(c.apps, pid)
    &&& forall|pid: i32| #[trigger]
        c.processes.contains_key(pid) ==> c.processes[pid].data.pid == pid
    &&& forall|pid: i32, i: int, k: int| #[trigger]
        placed(c.apps, pid, i, k) ==> c.processes[pid].icon == c.apps[i].icon
}

// Making a context -------------------------------------------------------------------------

/// The list with an application in it: in place of the one with the same
/// identifier, or else at the end.
pub open spec fn with_app(apps: Seq<AppView>, app: AppView) -> Seq<AppView> {
    let i = association::first_index(apps, QueryView::Id(app.id));
    if i < apps.len() {
        apps.update(i, app)
    } else {
        apps.push(app)
    }
}

/// The applications of a list; of several with the same identifier the last one
/// counts.
pub open spec fn collected(apps: Seq<AppView>) -> Seq<AppView>
    decreases apps.len(),
{
    if apps.len() == 0 {
        apps
    } else {
        with_app(collected(apps.drop_last()), apps.last())
    }
}

proof fn lemma_with_app(apps: Seq<AppView>, new: AppView)
    requires
        distinct_ids(apps),
        forall|i: int| 0 <= i < apps.len() ==> (#[trigger] apps[i]).processes.len() == 0,
        new.processes.len() == 0,
    ensures
        distinct_ids(with_app(apps, new)),
        forall|i: int|
            0 <= i < with_app(apps, new).len() ==> (#[trigger] with_app(
                apps,
                new,
            )[i]).processes.len() == 0,
        association::has_id(with_app(apps, new), new.id),
{
    let q = QueryView::Id(new.id);
    association::lemma_first_index(apps, q);
    let k = association::first_index(apps, q);
    let r = with_app(apps, new);
    if k < apps.len() {
        assert(apps[k].id == new.id);
        assert forall|i: int, j: int| 0 <= i < j < r.len() implies (#[trigger] r[i]).id != (
        #[trigger] r[j]).id by {
            assert(apps[i].id != apps[j].id);
        }
        assert(association::answers_query(r[k], q));
    } else {
        assert forall|i: int, j: int| 0 <= i < j < r.len() implies (#[trigger] r[i]).id != (
        #[trigger] r[j]).id by {
            assert(!association::answers_query(apps[i], q));
            if j < apps.len() {
                assert(apps[i].id != apps[j].id);
            }
        }
        assert(association::answers_query(r[apps.len() as int], q));
    }
    association::lemma_first_index(r, q);
}

proof fn lemma_collected(apps: Seq<AppView>)
    requires
        forall|i: int| 0 <= i < apps.len() ==> (#[trigger] apps[i]).processes.len() == 0,
    ensures
        distinct_ids(collected(apps)),
        forall|i: int|
            0 <= i < collected(apps).len() ==> (#[trigger] collected(apps)[i]).processes.len()
                == 0,
    decreases apps.len(),
{
    if apps.len() > 0 {
        let head = apps.drop_last();
        assert forall|i: int| 0 <= i < head.len() implies (#[trigger] head[i]).processes.len()
            == 0 by {
            assert(head[i] == apps[i]);
        }
        lemma_collected(head);
        assert(apps[apps.len() - 1].processes.len() == 0);
        lemma_with_app(collected(head), apps.last());
    }
}

/// The context before anything runs.
pub open spec fn new_context(
    installed: Seq<AppView>,
    system_name: Seq<char>,
    combined: Seq<GpuIdentifier>,
) -> ContextView {
    ContextView {
        apps: collected(installed.push(app::system_app(system_name))),
        processes: Map::empty(),
        combined,
        deferred: Map::empty(),
    }
}

pub proof fn lemma_new_context(
    installed: Seq<AppView>,
    system_name: Seq<char>,
    combined: Seq<GpuIdentifier>,
)
    requires
        forall|i: int| 0 <= i < installed.len() ==> (#[trigger] installed[i]).processes.len() == 0,
    ensures
        context_wf(new_context(installed, system_name, combined)),
{
    let all = installed.push(app::system_app(system_name));
    assert(all.drop_last() =~= installed);
    lemma_collected(installed);
    lemma_with_app(collected(installed), app::system_app(system_name));
    let c = new_context(installed, system_name, combined);
    assert(c.apps == with_app(collected(installed), app::system_app(system_name)));
    assert forall|pid: i32, i: int, k: int| !#[trigger] placed(c.apps, pid, i, k) by {}
    assert forall|pid: i32| !#[trigger] has_app(c.apps, pid) by {}
}

// A refresh: processes that waited -----------------------------------------------------------

/// The context with a process in the application with the given identifier. The
/// process takes on the icon of the application.
pub open spec fn attached(c: ContextView, id: Option<Seq<char>>, p: ProcessView) -> ContextView {
    let i = association::first_index(c.apps, QueryView::Id(id));
    ContextView {
        apps: c.apps.update(i, app::with_process(c.apps[i], p.data.pid)),
        processes: c.processes.insert(p.data.pid, app::with_icon(p, c.apps[i].icon)),
        ..c
    }
}

/// The processes whose answer has come, in ascending order.
pub open spec fn answered_pids(pairs: Seq<(i32, SnapQueryView)>, answers: Answers) -> Seq<i32>
    decreases pairs.len(),
{
    if pairs.len() == 0 {
        Seq::<i32>::empty()
    } else {
        let before = answered_pids(pairs.drop_last(), answers);
        if association::answer_to(answers, pairs.last().1) is Some {
            before.push(pairs.last().0)
        } else {
            before
        }
    }
}

/// The processes of a context whose answer has come.
pub open spec fn answered_in(c: ContextView, answers: Answers) -> Seq<i32> {
    answered_pids(sorted_map::sorted_pairs(c.deferred), answers)
}

/// The context after a process no longer waits: it goes to its application, unless
/// that now depends on another answer.
pub open spec fn drained_one(c: ContextView, pid: i32, answers: Answers) -> ContextView {
    let c1 = ContextView { deferred: c.deferred.remove(pid), ..c };
    if c1.processes.contains_key(pid) {
        match association::association(c1.apps, c1.processes[pid], answers) {
            AssociationView::Resolved(id) => attached(c1, id, c1.processes[pid]),
            AssociationView::Pending(_) => c1,
        }
    } else {
        c1
    }
}

/// The context after several processes no longer wait.
pub open spec fn drained(c: ContextView, pids: Seq<i32>, answers: Answers) -> ContextView
    decreases pids.len(),
{
    if pids.len() == 0 {
        c
    } else {
        drained_one(drained(c, pids.drop_last(), answers), pids.last(), answers)
    }
}

// A refresh: new data ---------------------------------------------------------------------------

/// What a process uses of GPUs, with the readings of those adjusted that have a
/// combined media engine.
pub open spec fn adjusted_stats(
    stats: Map<GpuIdentifier, GpuUsageStats>,
    combined: Seq<GpuIdentifier>,
) -> Map<GpuIdentifier, GpuUsageStats> {
    Map::new(
        |id: GpuIdentifier| stats.contains_key(id),
        |id: GpuIdentifier|
            if combined.contains(id) {
                gpu_usage::combined_media(stats[id])
            } else {
                stats[id]
            },
    )
}

/// The data of a process, adjusted for combined media engines.
pub open spec fn adjusted(d: ProcessDataView, combined: Seq<GpuIdentifier>) -> ProcessDataView {
    ProcessDataView { gpu_usage_stats: adjusted_stats(d.gpu_usage_stats, combined), ..d }
}

/// The context with new data of a process. One that was there before is updated; a
/// new one goes to its application, or waits for an answer on which that depends.
pub open spec fn absorbed_one(c: ContextView, d: ProcessDataView, answers: Answers) -> ContextView {
    let data = adjusted(d, c.combined);
    if c.processes.contains_key(data.pid) {
        ContextView {
            processes: c.processes.insert(
                data.pid,
                process::updated_process(c.processes[data.pid], data),
            ),
            ..c
        }
    } else {
        let p = process::new_process(data);
        match association::association(c.apps, p, answers) {
            AssociationView::Resolved(id) => attached(c, id, p),
            AssociationView::Pending(q) => ContextView {
                processes: c.processes.insert(data.pid, p),
                deferred: c.deferred.insert(data.pid, q),
                ..c
            },
        }
    }
}

/// The context with new data of several processes.
pub open spec fn absorbed(c: ContextView, list: Seq<ProcessDataView>, answers: Answers) -> ContextView
    decreases list.len(),
{
    if list.len() == 0 {
        c
    } else {
        absorbed_one(absorbed(c, list.drop_last(), answers), list.last(), answers)
    }
}

// A refresh: what has died ------------------------------------------------------------------------

/// The processes that the data is of.
pub open spec fn pids_of(list: Seq<ProcessDataView>) -> Set<i32> {
    Set::new(|pid: i32| exists|i: int| 0 <= i < list.len() && (#[trigger] list[i]).pid == pid)
}

/// What the dead among the processes have read and written. A process of which one
/// of the two is not known does not count.
pub open spec fn dead_io(
    pids: Seq<i32>,
    processes: Map<i32, ProcessView>,
    alive: Set<i32>,
) -> (u64, u64)
    decreases pids.len(),
{
    if pids.len() == 0 {
        (0, 0)
    } else {
        let before = dead_io(pids.drop_last(), processes, alive);
        let pid = pids.last();
        if !alive.contains(pid) && processes.contains_key(pid) {
            match (processes[pid].data.read_bytes, processes[pid].data.write_bytes) {
                (Some(read), Some(write)) => (
                    number::saturating_sum(before.0, read),
                    number::saturating_sum(before.1, write),
                ),
                _ => before,
            }
        } else {
            before
        }
    }
}

/// The processes that are alive.
pub open spec fn alive_pids(pids: Seq<i32>, alive: Set<i32>) -> Seq<i32>
    decreases pids.len(),
{
    if pids.len() == 0 {
        pids
    } else if alive.contains(pids.last()) {
        alive_pids(pids.drop_last(), alive).push(pids.last())
    } else {
        alive_pids(pids.drop_last(), alive)
    }
}

/// An application without its dead processes. It keeps what they have read and
/// written for as long as it is running.
pub open spec fn survived(
    a: AppView,
    processes: Map<i32, ProcessView>,
    alive: Set<i32>,
) -> AppView {
    let (read, write) = dead_io(a.processes, processes, alive);
    let left = alive_pids(a.processes, alive);
    AppView {
        processes: left,
        read_bytes_from_dead_processes: if left.len() > 0 {
            number::wrapped_sum(a.read_bytes_from_dead_processes, read)
        } else {
            0
        },
        write_bytes_from_dead_processes: if left.len() > 0 {
            number::wrapped_sum(a.write_bytes_from_dead_processes, write)
        } else {
            0
        },
        ..a
    }
}

/// The context without what has died.
pub open spec fn buried(c: ContextView, alive: Set<i32>) -> ContextView {
    ContextView {
        apps: Seq::new(c.apps.len(), |i: int| survived(c.apps[i], c.processes, alive)),
        processes: c.processes.restrict(alive),
        deferred: c.deferred.restrict(alive),
        ..c
    }
}

/// The context after a refresh: processes whose answer has come go to their
/// applications, then the new data is taken in, then what has died is dropped.
pub open spec fn refreshed(
    c: ContextView,
    list: Seq<ProcessDataView>,
    answers: Answers,
) -> ContextView {
    buried(
        absorbed(
            drained(c, answered_in(c, answers), answers),
            list,
            answers,
        ),
        pids_of(list),
    )
}

// The parts of a refresh keep what always holds ------------------------------------------------------

pub proof fn lemma_attached_wf(c: ContextView, id: Option<Seq<char>>, p: ProcessView)
    requires
        context_wf(c),
        association::has_id(c.apps, id),
        !has_app(c.apps, p.data.pid),
        !c.deferred.contains_key(p.data.pid),
    ensures
        context_wf(attached(c, id, p)),
        attached(c, id, p).processes.dom() == c.processes.dom().insert(p.data.pid),
        attached(c, id, p).deferred == c.deferred,
        has_app(attached(c, id, p).apps, p.data.pid),
{
    let pid = p.data.pid;
    let r = attached(c, id, p);
    let q = QueryView::Id(id);
    association::lemma_first_index(c.apps, q);
    let n = association::first_index(c.apps, q);
    let old_len = c.apps[n].processes.len() as int;
    assert forall|i: int, j: int| 0 <= i < j < r.apps.len() implies (#[trigger] r.apps[i]).id != (
    #[trigger] r.apps[j]).id by {
        assert(c.apps[i].id != c.apps[j].id);
    }
    assert(association::has_id(r.apps, None)) by {
        let none = QueryView::Id(None);
        association::lemma_first_index(c.apps, none);
        association::lemma_first_index(r.apps, none);
        let m = association::first_index(c.apps, none);
        assert(r.apps[m].id == c.apps[m].id);
        assert(association::answers_query(r.apps[m], none));
    }
    assert forall|x: i32, i: int, k: int| #[trigger] placed(r.apps, x, i, k) implies placed(
        c.apps,
        x,
        i,
        k,
    ) || (x == pid && i == n && k == old_len) by {
        if i == n && k == old_len {
            assert(r.apps[n].processes[old_len] == pid);
        }
    }
    assert(placed_once(r.apps)) by {
        assert forall|x: i32, i: int, k: int, j: int, l: int| #[trigger]
            placed(r.apps, x, i, k) && #[trigger] placed(r.apps, x, j, l) implies i == j && k
            == l by {
            if placed(c.apps, x, i, k) {
                assert(has_app(c.apps, x));
            }
            if placed(c.apps, x, j, l) {
                assert(has_app(c.apps, x));
            }
        }
    }
    assert forall|x: i32| #[trigger] has_app(r.apps, x) implies has_app(c.apps, x) || x == pid by {
        let (i, k) = choose|i: int, k: int| placed(r.apps, x, i, k);
        assert(placed(r.apps, x, i, k));
        if placed(c.apps, x, i, k) {
            assert(has_app(c.apps, x));
        }
    }
    assert(placed(r.apps, pid, n, old_len));
    assert(r.processes.dom() =~= c.processes.dom().insert(pid));
}

pub proof fn lemma_drained_one_wf(c: ContextView, pid: i32, answers: Answers)
    requires
        context_wf(c),
        c.deferred.contains_key(pid),
    ensures
        context_wf(drained_one(c, pid, answers)),
        drained_one(c, pid, answers).processes.dom() == c.processes.dom(),
        drained_one(c, pid, answers).deferred == c.deferred.remove(pid),
        drained_one(c, pid, answers).combined == c.combined,
{
    let c1 = ContextView { deferred: c.deferred.remove(pid), ..c };
    assert(context_wf(c1));
    assert(c.processes.contains_key(pid));
    association::associated_app_exists(c1.apps, c1.processes[pid], answers);
    if let AssociationView::Resolved(id) = association::association(
        c1.apps,
        c1.processes[pid],
        answers,
    ) {
        lemma_attached_wf(c1, id, c1.processes[pid]);
        assert(c.processes.dom().insert(pid) =~= c.processes.dom());
    }
}

proof fn lemma_answered_pids(pairs: Seq<(i32, SnapQueryView)>, answers: Answers)
    requires
        sorted_map::ascending(pairs),
    ensures
        forall|i: int|
            0 <= i < answered_pids(pairs, answers).len() ==> sorted_map::has_key(
                pairs,
                #[trigger] answered_pids(pairs, answers)[i],
            ),
        answered_pids(pairs, answers).no_duplicates(),
    decreases pairs.len(),
{
    if pairs.len() > 0 {
        let head = pairs.drop_last();
        assert forall|i: int, j: int| 0 <= i < j < head.len() implies (
        #[trigger] head[i]).0.rank() < (#[trigger] head[j]).0.rank() by {
            assert(pairs[i].0.rank() < pairs[j].0.rank());
        }
        lemma_answered_pids(head, answers);
        let before = answered_pids(head, answers);
        let all = answered_pids(pairs, answers);
        let last = pairs.last().0;
        assert forall|i: int| 0 <= i < before.len() implies sorted_map::has_key(
            pairs,
            #[trigger] before[i],
        ) && before[i] != last by {
            let j = choose|j: int| sorted_map::key_at(head, before[i], j);
            assert(sorted_map::key_at(pairs, before[i], j));
            assert(pairs[j].0.rank() < pairs[pairs.len() - 1].0.rank());
        }
        assert(sorted_map::key_at(pairs, last, pairs.len() - 1));
        assert forall|i: int| 0 <= i < all.len() implies sorted_map::has_key(
            pairs,
            #[trigger] all[i],
        ) by {
            if i < before.len() {
                assert(all[i] == before[i]);
            }
        }
        assert forall|i: int, j: int|
            0 <= i < all.len() && 0 <= j < all.len() && i != j implies all[i] != all[j] by {
            if i < before.len() {
                assert(all[i] == before[i]);
            }
            if j < before.len() {
                assert(all[j] == before[j]);
            }
        }
    }
}

pub proof fn lemma_drained_wf(c: ContextView, pids: Seq<i32>, answers: Answers)
    requires
        context_wf(c),
        pids.no_duplicates(),
        forall|i: int| 0 <= i < pids.len() ==> c.deferred.contains_key(#[trigger] pids[i]),
    ensures
        context_wf(drained(c, pids, answers)),
        drained(c, pids, answers).processes.dom() == c.processes.dom(),
        drained(c, pids, answers).combined == c.combined,
        forall|pid: i32| #[trigger]
            drained(c, pids, answers).deferred.contains_key(pid) == (c.deferred.contains_key(pid)
                && !pids.contains(pid)),
    decreases pids.len(),
{
    if pids.len() > 0 {
        let head = pids.drop_last();
        let last = pids.last();
        assert forall|i: int| 0 <= i < head.len() implies c.deferred.contains_key(
            #[trigger] head[i],
        ) by {
            assert(head[i] == pids[i]);
        }
        lemma_drained_wf(c, head, answers);
        let before = drained(c, head, answers);
        assert(!head.contains(last)) by {
            if head.contains(last) {
                let i = choose|i: int| 0 <= i < head.len() && head[i] == last;
                assert(pids[i] == pids[pids.len() - 1]);
            }
        }
        assert(c.deferred.contains_key(pids[pids.len() - 1]));
        assert(before.deferred.contains_key(last));
        lemma_drained_one_wf(before, last, answers);
        assert forall|pid: i32| #[trigger]
            drained(c, pids, answers).deferred.contains_key(pid) == (c.deferred.contains_key(pid)
                && !pids.contains(pid)) by {
            assert(before.deferred.contains_key(pid) == (c.deferred.contains_key(pid)
                && !head.contains(pid)));
            if pids.contains(pid) {
                let i = choose|i: int| 0 <= i < pids.len() && pids[i] == pid;
                if i < head.len() {
                    assert(head[i] == pid);
                }
            }
            if head.contains(pid) {
                let i = choose|i: int| 0 <= i < head.len() && head[i] == pid;
                assert(pids[i] == pid);
            }
            if pid == last {
                assert(pids[pids.len() - 1] == pid);
            }
        }
    }
}

pub proof fn lemma_absorbed_one_wf(c: ContextView, d: ProcessDataView, answers: Answers)
    requires
        context_wf(c),
    ensures
        context_wf(absorbed_one(c, d, answers)),
        absorbed_one(c, d, answers).processes.dom() == c.processes.dom().insert(d.pid),
        absorbed_one(c, d, answers).combined == c.combined,
{
    let data = adjusted(d, c.combined);
    let r = absorbed_one(c, d, answers);
    if c.processes.contains_key(d.pid) {
        assert(r.processes.dom() =~= c.processes.dom().insert(d.pid));
    } else {
        let p = process::new_process(data);
        association::associated_app_exists(c.apps, p, answers);
        match association::association(c.apps, p, answers) {
            AssociationView::Resolved(id) => {
                lemma_attached_wf(c, id, p);
            },
            AssociationView::Pending(q) => {
                assert(r.processes.dom() =~= c.processes.dom().insert(d.pid));
            },
        }
    }
}

pub proof fn lemma_absorbed_wf(c: ContextView, list: Seq<ProcessDataView>, answers: Answers)
    requires
        context_wf(c),
    ensures
        context_wf(absorbed(c, list, answers)),
        absorbed(c, list, answers).processes.dom() == c.processes.dom().union(pids_of(list)),
        absorbed(c, list, answers).combined == c.combined,
    decreases list.len(),
{
    if list.len() == 0 {
        assert(c.processes.dom().union(pids_of(list)) =~= c.processes.dom());
    } else {
        let head = list.drop_last();
        lemma_absorbed_wf(c, head, answers);
        lemma_absorbed_one_wf(absorbed(c, head, answers), list.last(), answers);
        lemma_pids_of(list);
        assert(c.processes.dom().union(pids_of(list)) =~= c.processes.dom().union(
            pids_of(head),
        ).insert(list.last().pid));
    }
}

pub proof fn lemma_pids_of(list: Seq<ProcessDataView>)
    requires
        list.len() > 0,
    ensures
        pids_of(list) == pids_of(list.drop_last()).insert(list.last().pid),
{
    let head = list.drop_last();
    assert forall|pid: i32| pids_of(list).contains(pid) == pids_of(head).insert(
        list.last().pid,
    ).contains(pid) by {
        if pids_of(list).contains(pid) {
            let i = choose|i: int| 0 <= i < list.len() && (#[trigger] list[i]).pid == pid;
            if i < head.len() {
                assert(head[i].pid == pid);
            }
        }
        if pids_of(head).contains(pid) {
            let i = choose|i: int| 0 <= i < head.len() && (#[trigger] head[i]).pid == pid;
            assert(list[i].pid == pid);
        }
        assert(list[list.len() - 1].pid == list.last().pid);
    }
    assert(pids_of(list) =~= pids_of(head).insert(list.last().pid));
}

/// The processes that are left stand in the old order: there is a place for each of
/// them, and places stay apart.
proof fn lemma_alive_pids(pids: Seq<i32>, alive: Set<i32>)
    ensures
        forall|p: i32| #[trigger]
            alive_pids(pids, alive).contains(p) == (pids.contains(p) && alive.contains(p)),
        pids.no_duplicates() ==> alive_pids(pids, alive).no_duplicates(),
        alive_pids(pids, alive).len() <= pids.len(),
    decreases pids.len(),
{
    if pids.len() > 0 {
        let head = pids.drop_last();
        let last = pids.last();
        lemma_alive_pids(head, alive);
        let a = alive_pids(head, alive);
        let r = alive_pids(pids, alive);
        assert forall|p: i32| #[trigger] r.contains(p) == (pids.contains(p) && alive.contains(p)) by {
            assert(a.contains(p) == (head.contains(p) && alive.contains(p)));
            if r.contains(p) {
                let i = choose|i: int| 0 <= i < r.len() && r[i] == p;
                if i < a.len() {
                    assert(a[i] == p);
                    assert(a.contains(p));
                    let j = choose|j: int| 0 <= j < head.len() && head[j] == p;
                    assert(pids[j] == p);
                } else {
                    assert(pids[pids.len() - 1] == p);
                }
            }
            if pids.contains(p) && alive.contains(p) {
                let i = choose|i: int| 0 <= i < pids.len() && pids[i] == p;
                if i < head.len() {
                    assert(head[i] == p);
                    assert(a.contains(p));
                    let j = choose|j: int| 0 <= j < a.len() && a[j] == p;
                    assert(r[j] == p);
                } else {
                    assert(r[r.len() - 1] == p);
                }
            }
        }
        if pids.no_duplicates() {
            assert(head.no_duplicates()) by {
                assert forall|i: int, j: int|
                    0 <= i < head.len() && 0 <= j < head.len() && i != j implies head[i]
                    != head[j] by {
                    assert(pids[i] != pids[j]);
                }
            }
            assert forall|i: int, j: int|
                0 <= i < r.len() && 0 <= j < r.len() && i != j implies r[i] != r[j] by {
                assert forall|k: int| 0 <= k < a.len() implies a[k] != last by {
                    assert(a.contains(a[k]));
                    let j = choose|j: int| 0 <= j < head.len() && head[j] == a[k];
                    assert(pids[j] != pids[pids.len() - 1]);
                }
                if i < a.len() {
                    assert(r[i] == a[i]);
                }
                if j < a.len() {
                    assert(r[j] == a[j]);
                }
            }
        }
    }
}

pub proof fn lemma_buried_wf(c: ContextView, alive: Set<i32>)
    requires
        context_wf(c),
    ensures
        context_wf(buried(c, alive)),
        buried(c, alive).processes.dom() == c.processes.dom().intersect(alive),
        forall|pid: i32| #[trigger]
            has_app(buried(c, alive).apps, pid) == (has_app(c.apps, pid) && alive.contains(pid)),
{
    let r = buried(c, alive);
    assert forall|i: int, j: int| 0 <= i < j < r.apps.len() implies (#[trigger] r.apps[i]).id != (
    #[trigger] r.apps[j]).id by {
        assert(c.apps[i].id != c.apps[j].id);
    }
    assert(association::has_id(r.apps, None)) by {
        let none = QueryView::Id(None);
        association::lemma_first_index(c.apps, none);
        association::lemma_first_index(r.apps, none);
        let m = association::first_index(c.apps, none);
        assert(r.apps[m].id == c.apps[m].id);
        assert(association::answers_query(r.apps[m], none));
    }
    assert forall|x: i32, i: int, k: int| #[trigger] placed(r.apps, x, i, k) implies
        alive.contains(x) && exists|l: int| placed(c.apps, x, i, l) by {
        lemma_alive_pids(c.apps[i].processes, alive);
        assert(r.apps[i].processes.contains(x));
        let l = choose|l: int| 0 <= l < c.apps[i].processes.len() && c.apps[i].processes[l] == x;
        assert(placed(c.apps, x, i, l));
    }
    assert(placed_once(r.apps)) by {
        assert forall|x: i32, i: int, k: int, j: int, l: int| #[trigger]
            placed(r.apps, x, i, k) && #[trigger] placed(r.apps, x, j, l) implies i == j && k
            == l by {
            let k0 = choose|k0: int| placed(c.apps, x, i, k0);
            let l0 = choose|l0: int| placed(c.apps, x, j, l0);
            assert(placed(c.apps, x, i, k0) && placed(c.apps, x, j, l0));
            let pids = c.apps[i].processes;
            assert(pids.no_duplicates()) by {
                assert forall|a: int, b: int|
                    0 <= a < pids.len() && 0 <= b < pids.len() && a != b implies pids[a]
                    != pids[b] by {
                    if pids[a] == pids[b] {
                        assert(placed(c.apps, pids[a], i, a));
                        assert(placed(c.apps, pids[a], i, b));
                    }
                }
            }
            lemma_alive_pids(pids, alive);
        }
    }
    assert forall|pid: i32| #[trigger] has_app(r.apps, pid) == (has_app(c.apps, pid)
        && alive.contains(pid)) by {
        if has_app(r.apps, pid) {
            let (i, k) = choose|i: int, k: int| placed(r.apps, pid, i, k);
            assert(placed(r.apps, pid, i, k));
            let l = choose|l: int| placed(c.apps, pid, i, l);
            assert(placed(c.apps, pid, i, l));
        }
        if has_app(c.apps, pid) && alive.contains(pid) {
            let (i, k) = choose|i: int, k: int| placed(c.apps, pid, i, k);
            assert(placed(c.apps, pid, i, k));
            lemma_alive_pids(c.apps[i].processes, alive);
            assert(c.apps[i].processes.contains(pid));
            assert(r.apps[i].processes.contains(pid));
            let l = choose|l: int|
                0 <= l < r.apps[i].processes.len() && r.apps[i].processes[l] == pid;
            assert(placed(r.apps, pid, i, l));
        }
    }
    assert(r.processes.dom() =~= c.processes.dom().intersect(alive));
    assert forall|pid: i32, i: int, k: int| #[trigger] placed(r.apps, pid, i, k) implies
        r.processes[pid].icon == r.apps[i].icon by {
        let l = choose|l: int| placed(c.apps, pid, i, l);
        assert(placed(c.apps, pid, i, l));
        assert(has_app(c.apps, pid));
    }
}

// Running applications --------------------------------------------------------------------------------

/// Whether an application shows among the running ones. The portals of the desktop
/// run for other applications, and do not.
pub open spec fn shows_running(app: AppView) -> bool {
    app.processes.len() > 0 && !(app.id matches Some(id) && text::starts_with(
        id,
        "xdg-desktop-portal"@,
    ))
}

/// The applications that show among the running ones.
pub open spec fn running_apps(apps: Seq<AppView>) -> Seq<AppView>
    decreases apps.len(),
{
    if apps.len() == 0 {
        apps
    } else if shows_running(apps.last()) {
        running_apps(apps.drop_last()).push(apps.last())
    } else {
        running_apps(apps.drop_last())
    }
}

// Laws ----------------------------------------------------------------------------------------------------

proof fn lemma_answered(pairs: Seq<(i32, SnapQueryView)>, answers: Answers, n: int)
    requires
        0 <= n < answered_pids(pairs, answers).len(),
    ensures
        exists|i: int|
            0 <= i < pairs.len() && (#[trigger] pairs[i]).0 == answered_pids(pairs, answers)[n]
                && association::answer_to(answers, pairs[i].1) is Some,
    decreases pairs.len(),
{
    if pairs.len() > 0 {
        let head = pairs.drop_last();
        let before = answered_pids(head, answers);
        if n < before.len() {
            lemma_answered(head, answers, n);
            let i = choose|i: int|
                0 <= i < head.len() && (#[trigger] head[i]).0 == before[n]
                    && association::answer_to(answers, head[i].1) is Some;
            assert(pairs[i] == head[i]);
        } else {
            assert(pairs[pairs.len() - 1] == pairs.last());
        }
    }
}

proof fn lemma_answered_listed(pairs: Seq<(i32, SnapQueryView)>, answers: Answers, i: int)
    requires
        0 <= i < pairs.len(),
        association::answer_to(answers, pairs[i].1) is Some,
    ensures
        answered_pids(pairs, answers).contains(pairs[i].0),
    decreases pairs.len(),
{
    let head = pairs.drop_last();
    let before = answered_pids(head, answers);
    let all = answered_pids(pairs, answers);
    if i < head.len() {
        assert(head[i] == pairs[i]);
        lemma_answered_listed(head, answers, i);
        let k = choose|k: int| 0 <= k < before.len() && before[k] == pairs[i].0;
        assert(all[k] == pairs[i].0);
    } else {
        assert(all[all.len() - 1] == pairs[i].0);
    }
}

/// The processes whose answer has come are the waiting ones with an answer, each once.
pub proof fn lemma_answered_in(c: ContextView, answers: Answers)
    ensures
        answered_in(c, answers).no_duplicates(),
        forall|pid: i32| #[trigger]
            answered_in(c, answers).contains(pid) == (c.deferred.contains_key(pid)
                && association::answer_to(answers, c.deferred[pid]) is Some),
        forall|i: int|
            0 <= i < answered_in(c, answers).len() ==> c.deferred.contains_key(
                #[trigger] answered_in(c, answers)[i],
            ) && association::answer_to(answers, c.deferred[answered_in(c, answers)[i]]) is Some,
{
    let pairs = sorted_map::sorted_pairs(c.deferred);
    let pids = answered_in(c, answers);
    sorted_map::lemma_listable(c.deferred);
    lemma_answered_pids(pairs, answers);
    assert forall|i: int| 0 <= i < pids.len() implies c.deferred.contains_key(
        #[trigger] pids[i],
    ) && association::answer_to(answers, c.deferred[pids[i]]) is Some by {
        assert(sorted_map::has_key(pairs, pids[i]));
        lemma_answered(pairs, answers, i);
        let j = choose|j: int|
            0 <= j < pairs.len() && (#[trigger] pairs[j]).0 == pids[i] && association::answer_to(
                answers,
                pairs[j].1,
            ) is Some;
        sorted_map::lemma_key_at(pairs, j);
    }
    assert forall|pid: i32| #[trigger] pids.contains(pid) == (c.deferred.contains_key(pid)
        && association::answer_to(answers, c.deferred[pid]) is Some) by {
        if c.deferred.contains_key(pid) && association::answer_to(
            answers,
            c.deferred[pid],
        ) is Some {
            assert(sorted_map::has_key(pairs, pid));
            let at = choose|at: int| sorted_map::key_at(pairs, pid, at);
            sorted_map::lemma_key_at(pairs, at);
            lemma_answered_listed(pairs, answers, at);
        }
    }
}

/// A refresh keeps what always holds, and leaves exactly the processes that the
/// data is of.
pub proof fn refresh_keeps_invariant(
    c: ContextView,
    list: Seq<ProcessDataView>,
    answers: Answers,
)
    requires
        context_wf(c),
    ensures
        context_wf(refreshed(c, list, answers)),
        refreshed(c, list, answers).processes.dom() == pids_of(list),
        refreshed(c, list, answers).combined == c.combined,
{
    let pids = answered_in(c, answers);
    lemma_answered_in(c, answers);
    lemma_drained_wf(c, pids, answers);
    let mid = drained(c, pids, answers);
    lemma_absorbed_wf(mid, list, answers);
    lemma_buried_wf(absorbed(mid, list, answers), pids_of(list));
    assert(mid.processes.dom().union(pids_of(list)).intersect(pids_of(list)) =~= pids_of(list));
}

/// Whether a process belongs to an application or waits for an answer.
pub open spec fn homed(c: ContextView, pid: i32) -> bool {
    has_app(c.apps, pid) || c.deferred.contains_key(pid)
}

proof fn lemma_attached_homes(c: ContextView, id: Option<Seq<char>>, p: ProcessView)
    requires
        association::has_id(c.apps, id),
    ensures
        has_app(attached(c, id, p).apps, p.data.pid),
        homed(attached(c, id, p), p.data.pid),
        forall|pid: i32| #[trigger]
            has_app(c.apps, pid) ==> has_app(attached(c, id, p).apps, pid),
        forall|pid: i32| #[trigger] homed(c, pid) ==> homed(attached(c, id, p), pid),
{
    let r = attached(c, id, p);
    association::lemma_first_index(c.apps, QueryView::Id(id));
    let n = association::first_index(c.apps, QueryView::Id(id));
    assert(placed(r.apps, p.data.pid, n, c.apps[n].processes.len() as int));
    assert forall|pid: i32| #[trigger] has_app(c.apps, pid) implies has_app(r.apps, pid) by {
        let (i, k) = choose|i: int, k: int| placed(c.apps, pid, i, k);
        assert(placed(c.apps, pid, i, k));
        assert(placed(r.apps, pid, i, k));
    }
}

proof fn lemma_absorbed_homes(c: ContextView, list: Seq<ProcessDataView>, answers: Answers)
    requires
        context_wf(c),
    ensures
        forall|pid: i32| #[trigger]
            has_app(c.apps, pid) ==> has_app(absorbed(c, list, answers).apps, pid),
        forall|pid: i32| #[trigger] homed(c, pid) ==> homed(absorbed(c, list, answers), pid),
        forall|i: int|
            0 <= i < list.len() && !c.processes.contains_key((#[trigger] list[i]).pid) ==> homed(
                absorbed(c, list, answers),
                list[i].pid,
            ),
    decreases list.len(),
{
    if list.len() > 0 {
        let head = list.drop_last();
        lemma_absorbed_homes(c, head, answers);
        lemma_absorbed_wf(c, head, answers);
        let mid = absorbed(c, head, answers);
        let d = list.last();
        let r = absorbed(c, list, answers);
        if !mid.processes.contains_key(d.pid) {
            let p = process::new_process(adjusted(d, mid.combined));
            association::associated_app_exists(mid.apps, p, answers);
            if let AssociationView::Resolved(id) = association::association(
                mid.apps,
                p,
                answers,
            ) {
                lemma_attached_homes(mid, id, p);
            }
        }
        assert forall|pid: i32| #[trigger] homed(mid, pid) implies homed(r, pid) by {}
        assert forall|i: int|
            0 <= i < list.len() && !c.processes.contains_key((#[trigger] list[i]).pid) implies homed(
            r,
            list[i].pid,
        ) by {
            if i < head.len() {
                assert(head[i] == list[i]);
                assert(homed(mid, head[i].pid));
            } else if mid.processes.contains_key(d.pid) {
                assert(pids_of(head).contains(d.pid));
                let j = choose|j: int| 0 <= j < head.len() && (#[trigger] head[j]).pid == d.pid;
                assert(homed(mid, head[j].pid));
            }
        }
    }
}

/// Every process that a refresh sees for the first time belongs to an application
/// afterwards, or waits for an answer.
pub proof fn new_process_is_homed(
    c: ContextView,
    list: Seq<ProcessDataView>,
    answers: Answers,
    i: int,
)
    requires
        context_wf(c),
        0 <= i < list.len(),
        !c.processes.contains_key(list[i].pid),
    ensures
        homed(refreshed(c, list, answers), list[i].pid),
{
    let pids = answered_in(c, answers);
    lemma_answered_in(c, answers);
    lemma_drained_wf(c, pids, answers);
    let mid = drained(c, pids, answers);
    lemma_absorbed_wf(mid, list, answers);
    lemma_absorbed_homes(mid, list, answers);
    let full = absorbed(mid, list, answers);
    lemma_buried_wf(full, pids_of(list));
    assert(pids_of(list).contains(list[i].pid));
    assert(homed(full, list[i].pid));
    assert(has_app(buried(full, pids_of(list)).apps, list[i].pid) == (has_app(
        full.apps,
        list[i].pid,
    ) && pids_of(list).contains(list[i].pid)));
}

/// The question that a snap process raises.
pub open spec fn question_of(p: ProcessView) -> Option<SnapQueryView> {
    match p.data.cgroup {
        Some(cgroup) => match text::split_once(cgroup, '.') {
            Some((snap, app)) => Some(SnapQueryView { snap, app }),
            None => None,
        },
        None => None,
    }
}

/// Whether every process that waits does so for the answer to its own question, as
/// it does as long as its control group stays the same.
pub open spec fn waits_for_own_question(c: ContextView) -> bool {
    forall|pid: i32| #[trigger]
        c.deferred.contains_key(pid) ==> question_of(c.processes[pid]) == Some(c.deferred[pid])
}

/// Whether every process belongs to an application or waits for an answer.
pub open spec fn all_homed(c: ContextView) -> bool {
    forall|pid: i32| #[trigger] c.processes.contains_key(pid) ==> homed(c, pid)
}

proof fn lemma_drained_homes(c: ContextView, pids: Seq<i32>, answers: Answers)
    requires
        context_wf(c),
        all_homed(c),
        waits_for_own_question(c),
        pids.no_duplicates(),
        forall|i: int|
            0 <= i < pids.len() ==> c.deferred.contains_key(#[trigger] pids[i])
                && association::answer_to(answers, c.deferred[pids[i]]) is Some,
    ensures
        all_homed(drained(c, pids, answers)),
        forall|pid: i32| #[trigger]
            has_app(c.apps, pid) ==> has_app(drained(c, pids, answers).apps, pid),
        forall|i: int|
            0 <= i < pids.len() ==> has_app(drained(c, pids, answers).apps, #[trigger] pids[i]),
        forall|pid: i32| #[trigger]
            drained(c, pids, answers).deferred.contains_key(pid) ==> drained(
                c,
                pids,
                answers,
            ).deferred[pid] == c.deferred[pid] && question_of(
                drained(c, pids, answers).processes[pid],
            ) == question_of(c.processes[pid]),
    decreases pids.len(),
{
    if pids.len() > 0 {
        let head = pids.drop_last();
        let last = pids.last();
        assert forall|i: int| 0 <= i < head.len() implies c.deferred.contains_key(
            #[trigger] head[i],
        ) && association::answer_to(answers, c.deferred[head[i]]) is Some by {
            assert(head[i] == pids[i]);
        }
        lemma_drained_homes(c, head, answers);
        lemma_drained_wf(c, head, answers);
        let mid = drained(c, head, answers);
        let r = drained(c, pids, answers);
        assert(pids[pids.len() - 1] == last);
        assert(!head.contains(last)) by {
            if head.contains(last) {
                let i = choose|i: int| 0 <= i < head.len() && head[i] == last;
                assert(pids[i] == pids[pids.len() - 1]);
            }
        }
        assert(mid.deferred.contains_key(last));
        let c1 = ContextView { deferred: mid.deferred.remove(last), ..mid };
        let p = mid.processes[last];
        assert(mid.processes.contains_key(last));
        association::associated_app_exists(c1.apps, p, answers);
        association::only_unanswered_snaps_wait(c1.apps, p, answers);
        assert(question_of(p) == Some(c.deferred[last]));
        match association::association(c1.apps, p, answers) {
            AssociationView::Resolved(id) => {
                lemma_attached_homes(c1, id, p);
                assert forall|pid: i32| #[trigger] r.processes.contains_key(pid) implies homed(
                    r,
                    pid,
                ) by {
                    if pid != last {
                        assert(mid.processes.contains_key(pid));
                        assert(homed(mid, pid));
                        assert(homed(c1, pid));
                    }
                }
            },
            AssociationView::Pending(q) => {
                assert(q == c.deferred[last]);
            },
        }
        assert forall|i: int| 0 <= i < pids.len() implies has_app(r.apps, #[trigger] pids[i]) by {
            if i < head.len() {
                assert(head[i] == pids[i]);
                assert(has_app(mid.apps, head[i]));
                assert(has_app(c1.apps, head[i]));
            }
        }
        assert forall|pid: i32| #[trigger] r.deferred.contains_key(pid) implies r.deferred[pid]
            == c.deferred[pid] && question_of(r.processes[pid]) == question_of(
            c.processes[pid],
        ) by {
            assert(mid.deferred.contains_key(pid));
        }
    }
}

/// Where every process belongs to an application or waits for the answer to its own
/// question, every process still does so after a refresh: none is ever lost.
pub proof fn no_process_is_lost(c: ContextView, list: Seq<ProcessDataView>, answers: Answers)
    requires
        context_wf(c),
        all_homed(c),
        waits_for_own_question(c),
    ensures
        all_homed(refreshed(c, list, answers)),
{
    let pids = answered_in(c, answers);
    lemma_answered_in(c, answers);
    lemma_drained_wf(c, pids, answers);
    lemma_drained_homes(c, pids, answers);
    let mid = drained(c, pids, answers);
    lemma_absorbed_wf(mid, list, answers);
    lemma_absorbed_homes(mid, list, answers);
    let full = absorbed(mid, list, answers);
    lemma_buried_wf(full, pids_of(list));
    let r = buried(full, pids_of(list));
    assert forall|pid: i32| #[trigger] r.processes.contains_key(pid) implies homed(r, pid) by {
        assert(pids_of(list).contains(pid));
        let i = choose|i: int| 0 <= i < list.len() && (#[trigger] list[i]).pid == pid;
        if mid.processes.contains_key(pid) {
            assert(homed(mid, pid));
            assert(homed(full, pid));
        } else {
            assert(homed(full, list[i].pid));
        }
        assert(has_app(r.apps, pid) == (has_app(full.apps, pid) && pids_of(list).contains(pid)));
    }
}

proof fn lemma_drained_joined(c: ContextView, a: Seq<i32>, b: Seq<i32>, answers: Answers)
    ensures
        drained(c, a + b, answers) == drained(drained(c, a, answers), b, answers),
    decreases b.len(),
{
    if b.len() == 0 {
        assert(a + b =~= a);
    } else {
        lemma_drained_joined(c, a, b.drop_last(), answers);
        assert((a + b).drop_last() =~= a + b.drop_last());
        assert((a + b).last() == b.last());
    }
}

/// Whether a process has the same place among the applications, and waits for the
/// same answer, in two contexts.
spec fn same_standing(a: ContextView, b: ContextView, pid: i32) -> bool {
    &&& forall|i: int, k: int| #[trigger] placed(a.apps, pid, i, k) == placed(b.apps, pid, i, k)
    &&& a.deferred.contains_key(pid) == b.deferred.contains_key(pid)
    &&& a.deferred[pid] == b.deferred[pid]
}

proof fn lemma_attached_others(
    c: ContextView,
    id: Option<Seq<char>>,
    p: ProcessView,
    pid: i32,
)
    requires
        association::has_id(c.apps, id),
        p.data.pid != pid,
    ensures
        same_standing(c, attached(c, id, p), pid),
        attached(c, id, p).processes[pid] == c.processes[pid],
{
    let r = attached(c, id, p);
    association::lemma_first_index(c.apps, QueryView::Id(id));
    let n = association::first_index(c.apps, QueryView::Id(id));
    assert forall|i: int, k: int| #[trigger] placed(c.apps, pid, i, k) == placed(
        r.apps,
        pid,
        i,
        k,
    ) by {
        if i == n && k == c.apps[n].processes.len() {
            assert(r.apps[n].processes[k] == p.data.pid);
        }
    }
}

/// Processes that go to their applications leave the others where they are.
proof fn lemma_drained_others(c: ContextView, pids: Seq<i32>, answers: Answers, pid: i32)
    requires
        context_wf(c),
        pids.no_duplicates(),
        forall|i: int| 0 <= i < pids.len() ==> c.deferred.contains_key(#[trigger] pids[i]),
        !pids.contains(pid),
    ensures
        same_standing(c, drained(c, pids, answers), pid),
        drained(c, pids, answers).processes[pid] == c.processes[pid],
    decreases pids.len(),
{
    if pids.len() > 0 {
        let head = pids.drop_last();
        let last = pids.last();
        assert(pids[pids.len() - 1] == last);
        assert forall|i: int| 0 <= i < head.len() implies c.deferred.contains_key(
            #[trigger] head[i],
        ) && head[i] != pid && head[i] != last by {
            assert(head[i] == pids[i]);
        }
        lemma_drained_others(c, head, answers, pid);
        lemma_drained_wf(c, head, answers);
        let mid = drained(c, head, answers);
        let c1 = ContextView { deferred: mid.deferred.remove(last), ..mid };
        assert(mid.deferred.contains_key(last));
        assert(same_standing(c, c1, pid));
        let p = c1.processes[last];
        association::associated_app_exists(c1.apps, p, answers);
        if let AssociationView::Resolved(id) = association::association(c1.apps, p, answers) {
            lemma_attached_others(c1, id, p, pid);
            let r = attached(c1, id, p);
            assert forall|i: int, k: int| #[trigger] placed(c.apps, pid, i, k) == placed(
                r.apps,
                pid,
                i,
                k,
            ) by {
                assert(placed(c1.apps, pid, i, k) == placed(r.apps, pid, i, k));
            }
        }
    }
}

/// New data leaves a known process where it is.
proof fn lemma_absorbed_known(
    c: ContextView,
    list: Seq<ProcessDataView>,
    answers: Answers,
    pid: i32,
)
    requires
        context_wf(c),
        c.processes.contains_key(pid),
    ensures
        same_standing(c, absorbed(c, list, answers), pid),
    decreases list.len(),
{
    if list.len() > 0 {
        let head = list.drop_last();
        lemma_absorbed_known(c, head, answers, pid);
        lemma_absorbed_wf(c, head, answers);
        let mid = absorbed(c, head, answers);
        let p = process::new_process(adjusted(list.last(), mid.combined));
        assert(mid.processes.contains_key(pid));
        association::associated_app_exists(mid.apps, p, answers);
        if !mid.processes.contains_key(p.data.pid) {
            if let AssociationView::Resolved(id) = association::association(mid.apps, p, answers) {
                lemma_attached_others(mid, id, p, pid);
                let r = attached(mid, id, p);
                assert forall|i: int, k: int| #[trigger] placed(c.apps, pid, i, k) == placed(
                    r.apps,
                    pid,
                    i,
                    k,
                ) by {
                    assert(placed(mid.apps, pid, i, k) == placed(r.apps, pid, i, k));
                }
            }
        }
    }
}

/// Whether a process stands in the application with the given identifier, with the
/// icon of it.
pub open spec fn stands_in(c: ContextView, pid: i32, id: Option<Seq<char>>) -> bool {
    exists|i: int, k: int| #[trigger]
        placed(c.apps, pid, i, k) && c.apps[i].id == id && c.processes[pid].icon == c.apps[i].icon
}

/// The context in which it is decided to which application a process goes whose answer
/// has come: the processes before it have gone to theirs.
pub open spec fn context_at_turn(c: ContextView, answers: Answers, pid: i32) -> ContextView {
    let pids = answered_in(c, answers);
    drained(c, pids.take(pids.index_of(pid)), answers)
}

/// Where a process that waited stands once all those have gone to their applications
/// whose answer has come.
proof fn lemma_drained_turn(c: ContextView, answers: Answers, pid: i32)
    requires
        context_wf(c),
        c.deferred.contains_key(pid),
        association::answer_to(answers, c.deferred[pid]) is Some,
    ensures
        context_wf(drained(c, answered_in(c, answers), answers)),
        drained(c, answered_in(c, answers), answers).processes.contains_key(pid),
        !drained(c, answered_in(c, answers), answers).deferred.contains_key(pid),
        match association::association(
            context_at_turn(c, answers, pid).apps,
            c.processes[pid],
            answers,
        ) {
            AssociationView::Resolved(id) => stands_in(
                drained(c, answered_in(c, answers), answers),
                pid,
                id,
            ),
            AssociationView::Pending(_) => !has_app(
                drained(c, answered_in(c, answers), answers).apps,
                pid,
            ),
        },
{
    let pids = answered_in(c, answers);
    lemma_answered_in(c, answers);
    assert(pids.contains(pid));
    let at = pids.index_of(pid);
    assert(0 <= at < pids.len() && pids[at] == pid);
    let a = pids.take(at);
    let b = pids.skip(at + 1);
    let before = drained(c, a, answers);
    let after = drained(c, pids.take(at + 1), answers);
    let end = drained(c, pids, answers);
    assert forall|i: int| 0 <= i < a.len() implies c.deferred.contains_key(#[trigger] a[i])
        && a[i] != pid by {
        assert(a[i] == pids[i]);
    }
    assert(a.no_duplicates());
    assert(!a.contains(pid));
    lemma_drained_wf(c, a, answers);
    lemma_drained_others(c, a, answers, pid);
    assert(before.deferred.contains_key(pid));
    assert(pids.take(at + 1).drop_last() =~= a);
    assert(pids.take(at + 1).last() == pid);
    lemma_drained_one_wf(before, pid, answers);
    let c1 = ContextView { deferred: before.deferred.remove(pid), ..before };
    let p = c.processes[pid];
    association::associated_app_exists(c1.apps, p, answers);
    assert(pids =~= pids.take(at + 1) + b);
    lemma_drained_joined(c, pids.take(at + 1), b, answers);
    assert forall|i: int| 0 <= i < b.len() implies after.deferred.contains_key(#[trigger] b[i])
        && b[i] != pid by {
        assert(b[i] == pids[at + 1 + i]);
        assert(!a.contains(b[i]));
        assert(before.deferred.contains_key(b[i]));
    }
    assert(b.no_duplicates()) by {
        assert forall|i: int, j: int| 0 <= i < b.len() && 0 <= j < b.len() && i
            != j implies b[i] != b[j] by {
            assert(b[i] == pids[at + 1 + i] && b[j] == pids[at + 1 + j]);
        }
    }
    assert(!b.contains(pid));
    lemma_drained_wf(after, b, answers);
    lemma_drained_others(after, b, answers, pid);
    match association::association(before.apps, p, answers) {
        AssociationView::Resolved(id) => {
            let n = association::first_index(c1.apps, QueryView::Id(id));
            let k = c1.apps[n].processes.len() as int;
            association::lemma_first_index(c1.apps, QueryView::Id(id));
            assert(placed(after.apps, pid, n, k));
            assert(after.apps[n].id == id);
            lemma_drained_apps(after, b, answers);
            assert(placed(end.apps, pid, n, k));
        },
        AssociationView::Pending(_) => {
            assert(!has_app(after.apps, pid));
            if has_app(end.apps, pid) {
                let (i, k) = choose|i: int, k: int| placed(end.apps, pid, i, k);
                assert(placed(after.apps, pid, i, k));
            }
        },
    }
}

/// A waiting process whose answer has come no longer waits. It stands in the
/// application to which it is associated now, with the icon of it, and in none where it
/// would have to wait for another answer. With the answer to its own question it never
/// has to.
pub proof fn answered_process_is_placed(
    c: ContextView,
    list: Seq<ProcessDataView>,
    answers: Answers,
    pid: i32,
)
    requires
        context_wf(c),
        c.deferred.contains_key(pid),
        association::answer_to(answers, c.deferred[pid]) is Some,
        pids_of(list).contains(pid),
    ensures
        !refreshed(c, list, answers).deferred.contains_key(pid),
        match association::association(
            context_at_turn(c, answers, pid).apps,
            c.processes[pid],
            answers,
        ) {
            AssociationView::Resolved(id) => stands_in(refreshed(c, list, answers), pid, id),
            AssociationView::Pending(_) => !has_app(refreshed(c, list, answers).apps, pid),
        },
        question_of(c.processes[pid]) == Some(c.deferred[pid]) ==> association::association(
            context_at_turn(c, answers, pid).apps,
            c.processes[pid],
            answers,
        ) is Resolved,
{
    lemma_drained_turn(c, answers, pid);
    let mid = drained(c, answered_in(c, answers), answers);
    let full = absorbed(mid, list, answers);
    let alive = pids_of(list);
    let r = refreshed(c, list, answers);
    lemma_absorbed_wf(mid, list, answers);
    lemma_absorbed_known(mid, list, answers, pid);
    lemma_absorbed_apps(mid, list, answers);
    lemma_buried_wf(full, alive);
    let now = context_at_turn(c, answers, pid);
    association::only_unanswered_snaps_wait(now.apps, c.processes[pid], answers);
    match association::association(now.apps, c.processes[pid], answers) {
        AssociationView::Resolved(id) => {
            let (i, k) = choose|i: int, k: int| #[trigger]
                placed(mid.apps, pid, i, k) && mid.apps[i].id == id && mid.processes[pid].icon
                    == mid.apps[i].icon;
            assert(placed(full.apps, pid, i, k));
            lemma_alive_pids(full.apps[i].processes, alive);
            assert(full.apps[i].processes.contains(pid));
            assert(r.apps[i].processes.contains(pid));
            let l = choose|l: int|
                0 <= l < r.apps[i].processes.len() && r.apps[i].processes[l] == pid;
            assert(placed(r.apps, pid, i, l));
            assert(r.apps[i].id == id);
        },
        AssociationView::Pending(_) => {
            if has_app(full.apps, pid) {
                let (i, k) = choose|i: int, k: int| placed(full.apps, pid, i, k);
                assert(placed(mid.apps, pid, i, k));
                assert(has_app(mid.apps, pid));
            }
            assert(has_app(r.apps, pid) == (has_app(full.apps, pid) && alive.contains(pid)));
        },
    }
}

/// A waiting process whose answer has not come is still known and still waits for it,
/// and belongs to no application.
pub proof fn unanswered_process_waits(
    c: ContextView,
    list: Seq<ProcessDataView>,
    answers: Answers,
    pid: i32,
)
    requires
        context_wf(c),
        c.deferred.contains_key(pid),
        association::answer_to(answers, c.deferred[pid]) is None,
        pids_of(list).contains(pid),
    ensures
        refreshed(c, list, answers).processes.contains_key(pid),
        refreshed(c, list, answers).deferred.contains_key(pid),
        refreshed(c, list, answers).deferred[pid] == c.deferred[pid],
        !has_app(refreshed(c, list, answers).apps, pid),
{
    let pids = answered_in(c, answers);
    lemma_answered_in(c, answers);
    assert(!pids.contains(pid));
    lemma_drained_wf(c, pids, answers);
    lemma_drained_others(c, pids, answers, pid);
    let mid = drained(c, pids, answers);
    lemma_absorbed_known(mid, list, answers, pid);
    refresh_keeps_invariant(c, list, answers);
}

/// What the processes of a list have read, where it is known.
pub open spec fn read_sum(pids: Seq<i32>, processes: Map<i32, ProcessView>) -> int
    decreases pids.len(),
{
    if pids.len() == 0 {
        0
    } else {
        read_sum(pids.drop_last(), processes) + match processes[pids.last()].data.read_bytes {
            Some(read) => read as int,
            None => 0,
        }
    }
}

/// What the processes of a list have written, where it is known.
pub open spec fn write_sum(pids: Seq<i32>, processes: Map<i32, ProcessView>) -> int
    decreases pids.len(),
{
    if pids.len() == 0 {
        0
    } else {
        write_sum(pids.drop_last(), processes) + match processes[pids.last()].data.write_bytes {
            Some(write) => write as int,
            None => 0,
        }
    }
}

/// Whether what a process has read is known where what it has written is, and the
/// other way round.
pub open spec fn io_known_alike(p: ProcessView) -> bool {
    p.data.read_bytes is Some <==> p.data.write_bytes is Some
}

proof fn lemma_dead_io(pids: Seq<i32>, processes: Map<i32, ProcessView>, alive: Set<i32>)
    requires
        forall|i: int|
            0 <= i < pids.len() && !alive.contains(#[trigger] pids[i]) ==> processes.contains_key(
                pids[i],
            ) && io_known_alike(processes[pids[i]]),
        read_sum(pids, processes) <= u64::MAX,
        write_sum(pids, processes) <= u64::MAX,
    ensures
        dead_io(pids, processes, alive).0 + read_sum(alive_pids(pids, alive), processes)
            == read_sum(pids, processes),
        dead_io(pids, processes, alive).1 + write_sum(alive_pids(pids, alive), processes)
            == write_sum(pids, processes),
        0 <= read_sum(alive_pids(pids, alive), processes),
        0 <= write_sum(alive_pids(pids, alive), processes),
    decreases pids.len(),
{
    if pids.len() > 0 {
        let head = pids.drop_last();
        assert forall|i: int| 0 <= i < head.len() && !alive.contains(
            #[trigger] head[i],
        ) implies processes.contains_key(head[i]) && io_known_alike(processes[head[i]]) by {
            assert(head[i] == pids[i]);
        }
        assert(pids[pids.len() - 1] == pids.last());
        lemma_dead_io(head, processes, alive);
        let a = alive_pids(head, alive);
        if alive.contains(pids.last()) {
            assert(a.push(pids.last()).drop_last() =~= a);
        }
    }
}

/// What an application has read and written in all does not change when processes
/// of it die, as long as it is running: what the dead have read and written is kept.
/// This is within 64 bits, and of dead processes of which both or neither are known.
pub proof fn totals_survive_death(
    a: AppView,
    processes: Map<i32, ProcessView>,
    alive: Set<i32>,
)
    requires
        forall|i: int|
            0 <= i < a.processes.len() && !alive.contains(#[trigger] a.processes[i])
                ==> processes.contains_key(a.processes[i]) && io_known_alike(
                processes[a.processes[i]],
            ),
        alive_pids(a.processes, alive).len() > 0,
        a.read_bytes_from_dead_processes + read_sum(a.processes, processes) <= u64::MAX,
        a.write_bytes_from_dead_processes + write_sum(a.processes, processes) <= u64::MAX,
    ensures
        survived(a, processes, alive).read_bytes_from_dead_processes + read_sum(
            survived(a, processes, alive).processes,
            processes,
        ) == a.read_bytes_from_dead_processes + read_sum(a.processes, processes),
        survived(a, processes, alive).write_bytes_from_dead_processes + write_sum(
            survived(a, processes, alive).processes,
            processes,
        ) == a.write_bytes_from_dead_processes + write_sum(a.processes, processes),
{
    lemma_dead_io(a.processes, processes, alive);
}

/// An application that is no longer running starts over: nothing is left of its
/// processes, nor of what they have read and written.
pub proof fn stopped_app_starts_over(
    a: AppView,
    processes: Map<i32, ProcessView>,
    alive: Set<i32>,
)
    requires
        forall|i: int| 0 <= i < a.processes.len() ==> !alive.contains(#[trigger] a.processes[i]),
    ensures
        survived(a, processes, alive).processes.len() == 0,
        survived(a, processes, alive).read_bytes_from_dead_processes == 0,
        survived(a, processes, alive).write_bytes_from_dead_processes == 0,
{
    lemma_alive_pids(a.processes, alive);
    let left = alive_pids(a.processes, alive);
    if left.len() > 0 {
        assert(left.contains(left[0]));
    }
}

/// A refresh without a change in what applications there are: they keep their order
/// and all that does not depend on their processes.
pub proof fn refresh_keeps_apps(c: ContextView, list: Seq<ProcessDataView>, answers: Answers)
    requires
        context_wf(c),
    ensures
        same_apps(c.apps, refreshed(c, list, answers).apps),
{
    let pids = answered_in(c, answers);
    lemma_answered_in(c, answers);
    lemma_drained_wf(c, pids, answers);
    lemma_drained_apps(c, pids, answers);
    lemma_absorbed_apps(drained(c, pids, answers), list, answers);
}

/// Whether two lists hold the same applications, whatever processes they have.
pub open spec fn same_apps(a: Seq<AppView>, b: Seq<AppView>) -> bool {
    &&& a.len() == b.len()
    &&& forall|i: int|
        0 <= i < a.len() ==> {
            &&& (#[trigger] a[i]).id == b[i].id
            &&& a[i].commandline == b[i].commandline
            &&& a[i].executable_name == b[i].executable_name
            &&& a[i].display_name == b[i].display_name
            &&& a[i].description == b[i].description
            &&& a[i].icon == b[i].icon
            &&& a[i].containerization == b[i].containerization
        }
}

proof fn lemma_attached_apps(c: ContextView, id: Option<Seq<char>>, p: ProcessView)
    requires
        association::has_id(c.apps, id),
    ensures
        same_apps(c.apps, attached(c, id, p).apps),
{
    association::lemma_first_index(c.apps, QueryView::Id(id));
}

proof fn lemma_drained_apps(c: ContextView, pids: Seq<i32>, answers: Answers)
    requires
        context_wf(c),
        pids.no_duplicates(),
        forall|i: int| 0 <= i < pids.len() ==> c.deferred.contains_key(#[trigger] pids[i]),
    ensures
        same_apps(c.apps, drained(c, pids, answers).apps),
    decreases pids.len(),
{
    if pids.len() > 0 {
        let head = pids.drop_last();
        assert forall|i: int| 0 <= i < head.len() implies c.deferred.contains_key(
            #[trigger] head[i],
        ) by {
            assert(head[i] == pids[i]);
        }
        lemma_drained_apps(c, head, answers);
        lemma_drained_wf(c, head, answers);
        let mid = drained(c, head, answers);
        let pid = pids.last();
        let c1 = ContextView { deferred: mid.deferred.remove(pid), ..mid };
        association::associated_app_exists(c1.apps, c1.processes[pid], answers);
        if let AssociationView::Resolved(id) = association::association(
            c1.apps,
            c1.processes[pid],
            answers,
        ) {
            lemma_attached_apps(c1, id, c1.processes[pid]);
        }
    }
}

proof fn lemma_absorbed_apps(c: ContextView, list: Seq<ProcessDataView>, answers: Answers)
    requires
        context_wf(c),
    ensures
        same_apps(c.apps, absorbed(c, list, answers).apps),
    decreases list.len(),
{
    if list.len() > 0 {
        let head = list.drop_last();
        lemma_absorbed_apps(c, head, answers);
        lemma_absorbed_wf(c, head, answers);
        let mid = absorbed(c, head, answers);
        let p = process::new_process(adjusted(list.last(), mid.combined));
        association::associated_app_exists(mid.apps, p, answers);
        if let AssociationView::Resolved(id) = association::association(mid.apps, p, answers) {
            lemma_attached_apps(mid, id, p);
        }
    }
}

/// Whether the data of a process is the data that was read, with nothing changed but the
/// readings of GPUs with a combined media engine.
pub open spec fn takes_in(
    data: ProcessDataView,
    read: ProcessDataView,
    combined: Seq<GpuIdentifier>,
) -> bool {
    &&& (ProcessDataView { gpu_usage_stats: read.gpu_usage_stats, ..data }) == read
    &&& forall|id: GpuIdentifier| #[trigger]
        data.gpu_usage_stats.contains_key(id) == read.gpu_usage_stats.contains_key(id)
    &&& forall|id: GpuIdentifier| #[trigger]
        data.gpu_usage_stats.contains_key(id) ==> data.gpu_usage_stats[id] == if combined.contains(
            id,
        ) {
            gpu_usage::combined_media(read.gpu_usage_stats[id])
        } else {
            read.gpu_usage_stats[id]
        }
}

proof fn lemma_absorbed_joined(
    c: ContextView,
    a: Seq<ProcessDataView>,
    b: Seq<ProcessDataView>,
    answers: Answers,
)
    ensures
        absorbed(c, a + b, answers) == absorbed(absorbed(c, a, answers), b, answers),
    decreases b.len(),
{
    if b.len() == 0 {
        assert(a + b =~= a);
    } else {
        lemma_absorbed_joined(c, a, b.drop_last(), answers);
        assert((a + b).drop_last() =~= a + b.drop_last());
        assert((a + b).last() == b.last());
    }
}

/// Data of other processes does not touch a process.
proof fn lemma_absorbed_without(
    c: ContextView,
    list: Seq<ProcessDataView>,
    answers: Answers,
    pid: i32,
)
    requires
        context_wf(c),
        forall|j: int| 0 <= j < list.len() ==> (#[trigger] list[j]).pid != pid,
    ensures
        absorbed(c, list, answers).processes.contains_key(pid) == c.processes.contains_key(pid),
        absorbed(c, list, answers).processes[pid] == c.processes[pid],
    decreases list.len(),
{
    if list.len() > 0 {
        let head = list.drop_last();
        assert forall|j: int| 0 <= j < head.len() implies (#[trigger] head[j]).pid != pid by {
            assert(head[j] == list[j]);
        }
        assert(list[list.len() - 1].pid != pid);
        lemma_absorbed_without(c, head, answers, pid);
        lemma_absorbed_wf(c, head, answers);
    }
}

/// Going to an application changes nothing of a process but its icon.
proof fn lemma_drained_keeps(c: ContextView, pids: Seq<i32>, answers: Answers, pid: i32)
    requires
        context_wf(c),
        pids.no_duplicates(),
        forall|i: int| 0 <= i < pids.len() ==> c.deferred.contains_key(#[trigger] pids[i]),
    ensures
        app::with_icon(
            drained(c, pids, answers).processes[pid],
            c.processes[pid].icon,
        ) == c.processes[pid],
    decreases pids.len(),
{
    if pids.len() > 0 {
        let head = pids.drop_last();
        assert forall|i: int| 0 <= i < head.len() implies c.deferred.contains_key(
            #[trigger] head[i],
        ) by {
            assert(head[i] == pids[i]);
        }
        lemma_drained_keeps(c, head, answers, pid);
        lemma_drained_wf(c, head, answers);
        let mid = drained(c, head, answers);
        assert(c.deferred.contains_key(pids[pids.len() - 1]));
        assert(mid.processes.contains_key(pids.last()));
    }
}

/// The context in which data is taken in that stands at a place of the list: all processes
/// whose answer has come have gone to their applications, and the data before it has been
/// taken in.
pub open spec fn context_before(
    c: ContextView,
    list: Seq<ProcessDataView>,
    answers: Answers,
    i: int,
) -> ContextView {
    absorbed(drained(c, answered_in(c, answers), answers), list.take(i), answers)
}

proof fn lemma_refreshed_at(
    c: ContextView,
    list: Seq<ProcessDataView>,
    answers: Answers,
    i: int,
)
    requires
        context_wf(c),
        0 <= i < list.len(),
        forall|j: int| 0 <= j < list.len() && j != i ==> (#[trigger] list[j]).pid != list[i].pid,
    ensures
        context_wf(context_before(c, list, answers, i)),
        same_apps(c.apps, context_before(c, list, answers, i).apps),
        context_before(c, list, answers, i).combined == c.combined,
        context_before(c, list, answers, i).processes.contains_key(list[i].pid)
            == c.processes.contains_key(list[i].pid),
        app::with_icon(
            context_before(c, list, answers, i).processes[list[i].pid],
            c.processes[list[i].pid].icon,
        ) == c.processes[list[i].pid],
        refreshed(c, list, answers) == buried(
            absorbed(
                absorbed_one(context_before(c, list, answers, i), list[i], answers),
                list.skip(i + 1),
                answers,
            ),
            pids_of(list),
        ),
        refreshed(c, list, answers).processes[list[i].pid] == absorbed_one(
            context_before(c, list, answers, i),
            list[i],
            answers,
        ).processes[list[i].pid],
{
    let pid = list[i].pid;
    let pids = answered_in(c, answers);
    lemma_answered_in(c, answers);
    lemma_drained_wf(c, pids, answers);
    lemma_drained_apps(c, pids, answers);
    lemma_drained_keeps(c, pids, answers, pid);
    let mid = drained(c, pids, answers);
    let a = list.take(i);
    let b = list.skip(i + 1);
    assert forall|j: int| 0 <= j < a.len() implies (#[trigger] a[j]).pid != pid by {
        assert(a[j] == list[j]);
    }
    assert forall|j: int| 0 <= j < b.len() implies (#[trigger] b[j]).pid != pid by {
        assert(b[j] == list[i + 1 + j]);
    }
    lemma_absorbed_wf(mid, a, answers);
    lemma_absorbed_apps(mid, a, answers);
    lemma_absorbed_without(mid, a, answers, pid);
    let before = context_before(c, list, answers, i);
    lemma_absorbed_one_wf(before, list[i], answers);
    let up_to = list.take(i + 1);
    assert(up_to.drop_last() =~= a);
    assert(up_to.last() == list[i]);
    assert(list =~= up_to + b);
    lemma_absorbed_joined(mid, up_to, b, answers);
    let after = absorbed_one(before, list[i], answers);
    lemma_absorbed_without(after, b, answers, pid);
    assert(pids_of(list).contains(pid));
}

/// A refresh takes in the data of every process. One that was there before remembers its
/// counters from before, one that is new has those of its data.
pub proof fn refresh_takes_in_every_process(
    c: ContextView,
    list: Seq<ProcessDataView>,
    answers: Answers,
    i: int,
)
    requires
        context_wf(c),
        0 <= i < list.len(),
        forall|j: int| 0 <= j < list.len() && j != i ==> (#[trigger] list[j]).pid != list[i].pid,
    ensures
        refreshed(c, list, answers).processes.contains_key(list[i].pid),
        ({
            let new = refreshed(c, list, answers).processes[list[i].pid];
            takes_in(new.data, list[i], c.combined)
        }),
        c.processes.contains_key(list[i].pid) ==> {
            let new = refreshed(c, list, answers).processes[list[i].pid];
            let before = c.processes[list[i].pid];
            &&& new.timestamp_last == before.data.timestamp
            &&& new.read_bytes_last == before.data.read_bytes
            &&& new.write_bytes_last == before.data.write_bytes
            &&& new.gpu_usage_stats_last == before.data.gpu_usage_stats
            &&& new.npu_usage_stats_last == before.data.npu_usage_stats
            &&& before.data.user_cpu_time + before.data.system_cpu_time <= u64::MAX
                ==> new.cpu_time_last == before.data.user_cpu_time + before.data.system_cpu_time
            &&& new.executable_path == before.executable_path
            &&& new.executable_name == before.executable_name
        },
        !c.processes.contains_key(list[i].pid) ==> {
            let new = refreshed(c, list, answers).processes[list[i].pid];
            let d = list[i];
            &&& new.timestamp_last == d.timestamp
            &&& new.read_bytes_last == d.read_bytes
            &&& new.write_bytes_last == d.write_bytes
            &&& d.user_cpu_time + d.system_cpu_time <= u64::MAX ==> new.cpu_time_last
                == d.user_cpu_time + d.system_cpu_time
            &&& new.gpu_usage_stats_last == Map::<GpuIdentifier, GpuUsageStats>::empty()
        },
{
    lemma_refreshed_at(c, list, answers, i);
    let pid = list[i].pid;
    refresh_keeps_invariant(c, list, answers);
    assert(pids_of(list).contains(pid));
    let before = context_before(c, list, answers, i);
    let new = refreshed(c, list, answers).processes[pid];
    let data = adjusted(list[i], c.combined);
    assert(new.data == data);
    assert((ProcessDataView { gpu_usage_stats: list[i].gpu_usage_stats, ..data }) == list[i]);
    assert forall|id: GpuIdentifier| #[trigger]
        data.gpu_usage_stats.contains_key(id) == list[i].gpu_usage_stats.contains_key(id) by {}
}

proof fn lemma_stands_after(
    c: ContextView,
    list: Seq<ProcessDataView>,
    answers: Answers,
    alive: Set<i32>,
    pid: i32,
    n: int,
    k: int,
)
    requires
        context_wf(c),
        c.processes.contains_key(pid),
        placed(c.apps, pid, n, k),
        alive.contains(pid),
    ensures
        exists|l: int| placed(buried(absorbed(c, list, answers), alive).apps, pid, n, l),
        buried(absorbed(c, list, answers), alive).apps[n].id == c.apps[n].id,
        buried(absorbed(c, list, answers), alive).apps[n].icon == c.apps[n].icon,
        context_wf(buried(absorbed(c, list, answers), alive)),
{
    let full = absorbed(c, list, answers);
    let r = buried(full, alive);
    lemma_absorbed_wf(c, list, answers);
    lemma_absorbed_known(c, list, answers, pid);
    lemma_absorbed_apps(c, list, answers);
    lemma_buried_wf(full, alive);
    assert(placed(full.apps, pid, n, k));
    assert(c.apps[n].id == full.apps[n].id);
    lemma_alive_pids(full.apps[n].processes, alive);
    assert(full.apps[n].processes.contains(pid));
    assert(r.apps[n].processes.contains(pid));
    let l = choose|l: int| 0 <= l < r.apps[n].processes.len() && r.apps[n].processes[l] == pid;
    assert(placed(r.apps, pid, n, l));
}

/// A process that a refresh sees for the first time stands afterwards in the application to
/// which it is associated, with the icon of it; or it waits for the answer on which that
/// depends, and stands in none.
pub proof fn new_process_goes_where_associated(
    c: ContextView,
    list: Seq<ProcessDataView>,
    answers: Answers,
    i: int,
    p: ProcessView,
)
    requires
        context_wf(c),
        0 <= i < list.len(),
        !c.processes.contains_key(list[i].pid),
        forall|j: int| 0 <= j < list.len() && j != i ==> (#[trigger] list[j]).pid != list[i].pid,
        p == process::new_process(adjusted(list[i], c.combined)),
    ensures
        same_apps(c.apps, context_before(c, list, answers, i).apps),
        match association::association(context_before(c, list, answers, i).apps, p, answers) {
            AssociationView::Resolved(id) => stands_in(
                refreshed(c, list, answers),
                list[i].pid,
                id,
            ) && !refreshed(c, list, answers).deferred.contains_key(list[i].pid),
            AssociationView::Pending(q) => !has_app(
                refreshed(c, list, answers).apps,
                list[i].pid,
            ) && refreshed(c, list, answers).deferred.contains_key(list[i].pid) && refreshed(
                c,
                list,
                answers,
            ).deferred[list[i].pid] == q,
        },
{
    lemma_refreshed_at(c, list, answers, i);
    let pid = list[i].pid;
    let before = context_before(c, list, answers, i);
    let after = absorbed_one(before, list[i], answers);
    let b = list.skip(i + 1);
    let alive = pids_of(list);
    let full = absorbed(after, b, answers);
    let r = refreshed(c, list, answers);
    assert(alive.contains(pid));
    assert(!has_app(before.apps, pid));
    assert(!before.deferred.contains_key(pid));
    lemma_absorbed_one_wf(before, list[i], answers);
    lemma_absorbed_wf(after, b, answers);
    lemma_absorbed_known(after, b, answers, pid);
    lemma_buried_wf(full, alive);
    association::associated_app_exists(before.apps, p, answers);
    match association::association(before.apps, p, answers) {
        AssociationView::Resolved(id) => {
            association::lemma_first_index(before.apps, QueryView::Id(id));
            let n = association::first_index(before.apps, QueryView::Id(id));
            let k = before.apps[n].processes.len() as int;
            assert(placed(after.apps, pid, n, k));
            assert(after.apps[n].id == id);
            lemma_stands_after(after, b, answers, alive, pid, n, k);
            let l = choose|l: int| placed(r.apps, pid, n, l);
            assert(placed(r.apps, pid, n, l));
            assert(r.apps[n].id == id);
        },
        AssociationView::Pending(q) => {
            assert(after.apps == before.apps);
            if has_app(full.apps, pid) {
                let (x, y) = choose|x: int, y: int| placed(full.apps, pid, x, y);
                assert(placed(after.apps, pid, x, y));
                assert(has_app(before.apps, pid));
            }
            assert(has_app(r.apps, pid) == (has_app(full.apps, pid) && alive.contains(pid)));
        },
    }
}

/// A process that lives on stays in its application.
pub proof fn living_process_stays(
    c: ContextView,
    list: Seq<ProcessDataView>,
    answers: Answers,
    pid: i32,
    n: int,
    k: int,
)
    requires
        context_wf(c),
        placed(c.apps, pid, n, k),
        exists|i: int| 0 <= i < list.len() && (#[trigger] list[i]).pid == pid,
    ensures
        exists|l: int| placed(refreshed(c, list, answers).apps, pid, n, l),
        refreshed(c, list, answers).apps[n].id == c.apps[n].id,
{
    let pids = answered_in(c, answers);
    lemma_answered_in(c, answers);
    assert(has_app(c.apps, pid));
    assert(!pids.contains(pid));
    lemma_drained_wf(c, pids, answers);
    lemma_drained_others(c, pids, answers, pid);
    lemma_drained_apps(c, pids, answers);
    let mid = drained(c, pids, answers);
    assert(placed(mid.apps, pid, n, k));
    assert(c.apps[n].id == mid.apps[n].id);
    assert(mid.processes.contains_key(pid));
    assert(pids_of(list).contains(pid));
    lemma_stands_after(mid, list, answers, pids_of(list), pid, n, k);
}

/// A process of which there is no data any more has died: it is no longer known, stands in
/// no application and waits for nothing.
pub proof fn dead_process_is_gone(
    c: ContextView,
    list: Seq<ProcessDataView>,
    answers: Answers,
    pid: i32,
)
    requires
        context_wf(c),
        forall|i: int| 0 <= i < list.len() ==> (#[trigger] list[i]).pid != pid,
    ensures
        !refreshed(c, list, answers).processes.contains_key(pid),
        !refreshed(c, list, answers).deferred.contains_key(pid),
        !has_app(refreshed(c, list, answers).apps, pid),
{
    refresh_keeps_invariant(c, list, answers);
    assert(!pids_of(list).contains(pid));
    assert(!refreshed(c, list, answers).processes.contains_key(pid));
}

/// Of the processes of an application exactly the living are left, in their order.
pub proof fn living_are_left(a: Seq<i32>, b: Seq<i32>, pid: i32, alive: Set<i32>)
    ensures
        alive_pids(a + b, alive) == alive_pids(a, alive) + alive_pids(b, alive),
        alive.contains(pid) ==> alive_pids(seq![pid], alive) == seq![pid],
        !alive.contains(pid) ==> alive_pids(seq![pid], alive) == Seq::<i32>::empty(),
    decreases b.len(),
{
    let one = seq![pid];
    assert(one.drop_last() =~= Seq::<i32>::empty());
    assert(alive_pids(one.drop_last(), alive) =~= Seq::<i32>::empty());
    assert(one.last() == pid);
    assert(Seq::<i32>::empty().push(pid) =~= one);
    if b.len() == 0 {
        assert(a + b =~= a);
        assert(alive_pids(a, alive) + alive_pids(b, alive) =~= alive_pids(a, alive));
    } else {
        living_are_left(a, b.drop_last(), pid, alive);
        assert((a + b).drop_last() =~= a + b.drop_last());
        assert((a + b).last() == b.last());
        assert(alive_pids(a + b, alive) =~= alive_pids(a, alive) + alive_pids(b, alive));
    }
}

/// What a dead process has read and written counts where both are known, up to what 64 bits
/// hold; one of which either is not known does not count, nor does one that lives.
pub proof fn dead_process_counts(
    pids: Seq<i32>,
    pid: i32,
    processes: Map<i32, ProcessView>,
    alive: Set<i32>,
)
    requires
        processes.contains_key(pid),
    ensures
        dead_io(Seq::<i32>::empty(), processes, alive) == (0u64, 0u64),
        ({
            let before = dead_io(pids, processes, alive);
            let after = dead_io(pids.push(pid), processes, alive);
            let d = processes[pid].data;
            match (d.read_bytes, d.write_bytes) {
                (Some(read), Some(write)) => if alive.contains(pid) {
                    after == before
                } else {
                    &&& after.0 == if before.0 + read <= u64::MAX {
                        before.0 + read
                    } else {
                        u64::MAX as int
                    }
                    &&& after.1 == if before.1 + write <= u64::MAX {
                        before.1 + write
                    } else {
                        u64::MAX as int
                    }
                },
                _ => after == before,
            }
        }),
{
    assert(pids.push(pid).drop_last() =~= pids);
    assert(pids.push(pid).last() == pid);
}

/// A running application keeps what its dead processes have read and written, on top of what
/// it kept before.
pub proof fn running_app_keeps_counts(
    a: AppView,
    processes: Map<i32, ProcessView>,
    alive: Set<i32>,
    pid: i32,
)
    requires
        a.processes.contains(pid),
        alive.contains(pid),
    ensures
        ({
            let r = survived(a, processes, alive);
            let io = dead_io(a.processes, processes, alive);
            &&& a.read_bytes_from_dead_processes + io.0 <= u64::MAX
                ==> r.read_bytes_from_dead_processes == a.read_bytes_from_dead_processes + io.0
            &&& a.write_bytes_from_dead_processes + io.1 <= u64::MAX
                ==> r.write_bytes_from_dead_processes == a.write_bytes_from_dead_processes + io.1
            &&& r.processes == alive_pids(a.processes, alive)
            &&& r.processes.contains(pid)
        }),
{
    lemma_alive_pids(a.processes, alive);
    assert(alive_pids(a.processes, alive).contains(pid));
    number::arithmetic_is_true_within_range(
        a.read_bytes_from_dead_processes,
        dead_io(a.processes, processes, alive).0,
        0,
        0,
    );
    number::arithmetic_is_true_within_range(
        a.write_bytes_from_dead_processes,
        dead_io(a.processes, processes, alive).1,
        0,
        0,
    );
}

/// The running applications are, in their order, all that have a process and are no portal
/// of the desktop.
pub proof fn running_apps_have_processes(a: Seq<AppView>, b: Seq<AppView>, app: AppView)
    ensures
        running_apps(a + b) == running_apps(a) + running_apps(b),
        ({
            let portal = match app.id {
                Some(id) => exists|rest: Seq<char>| id == #[trigger] ("xdg-desktop-portal"@ + rest),
                None => false,
            };
            running_apps(seq![app]) == if app.processes.len() > 0 && !portal {
                seq![app]
            } else {
                Seq::<AppView>::empty()
            }
        }),
    decreases b.len(),
{
    let one = seq![app];
    assert(one.drop_last() =~= Seq::<AppView>::empty());
    assert(running_apps(one.drop_last()) =~= Seq::<AppView>::empty());
    assert(one.last() == app);
    assert(Seq::<AppView>::empty().push(app) =~= one);
    if let Some(id) = app.id {
        let start = "xdg-desktop-portal"@;
        if text::starts_with(id, start) {
            assert(id =~= start + id.skip(start.len() as int));
        }
        if exists|rest: Seq<char>| id == #[trigger] (start + rest) {
            let rest = choose|rest: Seq<char>| id == #[trigger] (start + rest);
            assert((start + rest).take(start.len() as int) =~= start);
            assert((start + rest).subrange(0, start.len() as int) =~= start);
            assert(text::starts_with(id, start));
        }
    }
    if b.len() == 0 {
        assert(a + b =~= a);
        assert(running_apps(a) + running_apps(b) =~= running_apps(a));
    } else {
        running_apps_have_processes(a, b.drop_last(), app);
        assert((a + b).drop_last() =~= a + b.drop_last());
        assert((a + b).last() == b.last());
        assert(running_apps(a + b) =~= running_apps(a) + running_apps(b));
    }
}

/// Whether an application stands at a place of a list, and none after it has the same
/// identifier.
pub open spec fn last_of_its_id(apps: Seq<AppView>, a: AppView, i: int) -> bool {
    0 <= i < apps.len() && apps[i] == a && forall|j: int|
        i < j < apps.len() ==> (#[trigger] apps[j]).id != a.id
}

/// An application in a list takes the place of the one with its identifier, and leaves all
/// others.
proof fn lemma_with_app_contains(before: Seq<AppView>, new: AppView, a: AppView)
    requires
        distinct_ids(before),
    ensures
        distinct_ids(with_app(before, new)),
        with_app(before, new).contains(a) <==> a == new || (before.contains(a) && a.id != new.id),
{
    let r = with_app(before, new);
    let q = QueryView::Id(new.id);
    association::lemma_first_index(before, q);
    let k = association::first_index(before, q);
    assert forall|i: int| 0 <= i < before.len() && i != k implies (#[trigger] before[i]).id
        != new.id by {
        if k < before.len() {
            assert(association::answers_query(before[k], q));
            assert(before[k].id == new.id);
        } else {
            assert(!association::answers_query(before[i], q));
        }
    }
    let at = if k < before.len() {
        k
    } else {
        before.len() as int
    };
    assert(r[at] == new);
    if k < before.len() {
        assert(association::answers_query(before[k], q));
        assert(before[k].id == new.id);
    }
    assert forall|i: int, j: int| 0 <= i < j < r.len() implies (#[trigger] r[i]).id != (
    #[trigger] r[j]).id by {
        if i != at {
            assert(r[i] == before[i]);
        }
        if j != at {
            assert(r[j] == before[j]);
        }
        if i != at && j != at {
            assert(before[i].id != before[j].id);
        }
    }
    if r.contains(a) && a != new {
        let i = choose|i: int| 0 <= i < r.len() && r[i] == a;
        assert(i != at);
        assert(before[i] == a);
    }
    if before.contains(a) && a.id != new.id {
        let i = choose|i: int| 0 <= i < before.len() && before[i] == a;
        assert(i != at);
        assert(r[i] == a);
    }
}

proof fn lemma_last_of_its_id(head: Seq<AppView>, new: AppView, a: AppView)
    ensures
        (exists|i: int| last_of_its_id(head.push(new), a, i)) <==> a == new || (a.id != new.id
            && exists|i: int| last_of_its_id(head, a, i)),
{
    let apps = head.push(new);
    let n = head.len() as int;
    if a == new {
        assert(last_of_its_id(apps, a, n));
    } else if exists|i: int| last_of_its_id(apps, a, i) {
        let i = choose|i: int| last_of_its_id(apps, a, i);
        assert(i != n);
        assert(apps[n].id != a.id);
        assert forall|j: int| i < j < head.len() implies (#[trigger] head[j]).id != a.id by {
            assert(head[j] == apps[j]);
        }
        assert(last_of_its_id(head, a, i));
    }
    if a.id != new.id && exists|i: int| last_of_its_id(head, a, i) {
        let i = choose|i: int| last_of_its_id(head, a, i);
        assert forall|j: int| i < j < apps.len() implies (#[trigger] apps[j]).id != a.id by {
            if j < n {
                assert(head[j] == apps[j]);
            }
        }
        assert(last_of_its_id(apps, a, i));
    }
}

/// Every installed application is listed, and no other: of several with the same identifier
/// the last one.
pub proof fn every_installed_app_is_listed(apps: Seq<AppView>, a: AppView)
    ensures
        collected(apps).contains(a) <==> exists|i: int| last_of_its_id(apps, a, i),
        distinct_ids(collected(apps)),
    decreases apps.len(),
{
    if apps.len() > 0 {
        let head = apps.drop_last();
        let new = apps.last();
        every_installed_app_is_listed(head, a);
        lemma_with_app_contains(collected(head), new, a);
        lemma_last_of_its_id(head, new, a);
        assert(head.push(new) =~= apps);
    }
}

/// Before anything runs, all installed applications and the system processes are there, and
/// no process.
pub proof fn new_context_lists_apps(
    installed: Seq<AppView>,
    system_name: Seq<char>,
    combined: Seq<GpuIdentifier>,
    a: AppView,
)
    ensures
        ({
            let c = new_context(installed, system_name, combined);
            &&& c.processes == Map::<i32, ProcessView>::empty()
            &&& c.deferred == Map::<i32, SnapQueryView>::empty()
            &&& c.combined == combined
            &&& exists|k: int|
                0 <= k < c.apps.len() && (#[trigger] c.apps[k]).id is None
                    && c.apps[k].display_name == system_name && c.apps[k].processes.len() == 0
            &&& a.id is Some ==> (c.apps.contains(a) <==> exists|i: int|
                last_of_its_id(installed, a, i))
        }),
{
    let c = new_context(installed, system_name, combined);
    let system = app::system_app(system_name);
    let all = installed.push(system);
    every_installed_app_is_listed(all, system);
    lemma_last_of_its_id(installed, system, system);
    assert(c.apps.contains(system));
    let k = choose|k: int| 0 <= k < c.apps.len() && c.apps[k] == system;
    assert(c.apps[k].id is None);
    every_installed_app_is_listed(all, a);
    lemma_last_of_its_id(installed, system, a);
}

} // verus!
