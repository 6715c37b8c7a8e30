//! The applications and processes of the system.

use vstd::prelude::*;

use crate::app;
use crate::app::{App, AppView};
use crate::association;
use crate::association::{AppAssociation, AppQuery, QueryView, SnapAnswer, SnapQuery, SnapQueryView};
use crate::context;
use crate::context::ContextView;
use crate::gpu_usage;
use crate::gpu_usage::{GpuIdentifier, GpuUsageStats};
use crate::list;
use crate::process;
use crate::process::{Process, ProcessView};
use crate::process_data;
use crate::process_data::{ProcessData, ProcessDataView};
use crate::sorted_map;
use crate::sorted_map::SortedMap;
use crate::text;

verus! {

/// The applications and processes of the system.
pub struct AppsContext {
    /// The installed applications, and the system processes.
    apps: Vec<App>,
    processes: SortedMap<i32, Process>,
    gpus_with_combined_media_engine: Vec<GpuIdentifier>,
    /// The processes whose application depends on an answer of snapd.
    deferred: SortedMap<i32, SnapQuery>,
}

/// A map of processes as a map of their views.
pub open spec fn process_views(m: Map<i32, Process>) -> Map<i32, ProcessView> {
    sorted_map::viewed(m)
}

/// A map of questions as a map of their views.
pub open spec fn query_views(m: Map<i32, SnapQuery>) -> Map<i32, SnapQueryView> {
    sorted_map::viewed(m)
}

impl View for AppsContext {
    type V = ContextView;

    closed spec fn view(&self) -> ContextView {
        ContextView {
            apps: app::app_views(self.apps@),
            processes: process_views(self.processes@),
            combined: self.gpus_with_combined_media_engine@,
            deferred: query_views(self.deferred@),
        }
    }
}

// Making a context -------------------------------------------------------------------------

fn put_app(apps: &mut Vec<App>, new: App)
    ensures
        app::app_views(final(apps)@) == context::with_app(app::app_views(old(apps)@), new@),
{
    let ghost before = app::app_views(apps@);
    let ghost view = new@;
    let query: AppQuery = AppQuery::Id(text::copy_option(&new.id));
    proof {
        association::lemma_first_index(before, query@);
    }
    match association::find_app(apps, &query) {
        Some(i) => {
            apps.set(i, new);
            proof {
                assert(app::app_views(apps@) =~= before.update(i as int, view));
            }
        },
        None => {
            apps.push(new);
            proof {
                assert(app::app_views(apps@) =~= before.push(view));
            }
        },
    }
}

impl AppsContext {
    /// A context in which nothing runs yet. It holds the installed applications and
    /// the system processes, which go under the given name.
    pub fn new(
        installed: Vec<App>,
        system_name: String,
        gpus_with_combined_media_engine: Vec<GpuIdentifier>,
    ) -> (r: Self)
        requires
            forall|i: int| 0 <= i < installed.len() ==> (#[trigger] installed@[i]).processes.len() == 0,
        ensures
            context::context_wf(r@),
            r@ == context::new_context(
                app::app_views(installed@),
                system_name@,
                gpus_with_combined_media_engine@,
            ),
    {
        let ghost views = app::app_views(installed@);
        let ghost name = system_name@;
        let ghost all = views.push(app::system_app(name));
        let mut list: Vec<App> = installed;
        list.push(App::system(system_name));
        let ghost listed = list@;
        proof {
            assert(app::app_views(list@) =~= all);
        }
        let mut left: Vec<App> = list::reversed(list);
        let mut apps: Vec<App> = Vec::new();
        let ghost mut done: int = 0;
        proof {
            assert(all.take(0) =~= Seq::<AppView>::empty());
            assert(app::app_views(apps@) =~= Seq::<AppView>::empty());
            assert(listed.skip(0) =~= listed);
        }
        while left.len() > 0
            invariant
                0 <= done <= all.len(),
                app::app_views(listed) == all,
                left@ == listed.skip(done).reverse(),
                app::app_views(apps@) == context::collected(all.take(done)),
            decreases left.len(),
        {
            proof {
                assert(listed.skip(done).len() > 0);
                list::lemma_pop_reversed(listed.skip(done));
                assert(listed.skip(done).skip(1) =~= listed.skip(done + 1));
                assert(all[done] == listed[done]@);
                assert(all.take(done + 1).drop_last() =~= all.take(done));
                assert(all.take(done + 1).last() == all[done]);
            }
            if let Some(next) = left.pop() {
                put_app(&mut apps, next);
                proof {
                    done = done + 1;
                }
            }
        }
        proof {
            assert(listed.skip(done).len() == 0);
            assert(all.take(done) =~= all);
        }
        let r = AppsContext {
            apps,
            processes: SortedMap::new(),
            gpus_with_combined_media_engine,
            deferred: SortedMap::new(),
        };
        proof {
            assert(r@.processes =~= Map::<i32, ProcessView>::empty());
            assert(r@.deferred =~= Map::<i32, SnapQueryView>::empty());
            assert forall|i: int| 0 <= i < views.len() implies (#[trigger] views[i]).processes.len()
                == 0 by {
                assert(views[i] == installed@[i]@);
            }
            context::lemma_new_context(views, name, gpus_with_combined_media_engine@);
        }
        r
    }
}

// The refresh --------------------------------------------------------------------------------------

fn copy_query(q: &SnapQuery) -> (r: SnapQuery)
    ensures
        r@ == q@,
{
    SnapQuery { snap: q.snap.clone(), app: q.app.clone() }
}

impl AppsContext {
    /// Puts a process into the application with the given identifier.
    fn attach(&mut self, id: Option<String>, process: Process)
        requires
            association::has_id(old(self)@.apps, text::opt_text(id)),
        ensures
            final(self)@ == context::attached(old(self)@, text::opt_text(id), process@),
    {
        let ghost before = self@;
        let ghost view = process@;
        let query: AppQuery = AppQuery::Id(id);
        proof {
            association::lemma_first_index(before.apps, query@);
        }
        let mut process: Process = process;
        if let Some(i) = association::find_app(&self.apps, &query) {
            let pid: i32 = process.data.pid;
            let ghost old_apps = self.apps@;
            self.apps[i].add_process(&mut process);
            self.processes.insert(pid, process);
            proof {
                assert(self@.apps =~= before.apps.update(
                    i as int,
                    app::with_process(before.apps[i as int], pid),
                ));
                assert(self@.processes =~= before.processes.insert(
                    pid,
                    app::with_icon(view, before.apps[i as int].icon),
                ));
            }
        }
    }

    /// The processes whose answer has come.
    fn answered(&self, answers: &Vec<SnapAnswer>) -> (r: Vec<i32>)
        ensures
            r@ == context::answered_in(self@, association::answer_views(answers@)),
    {
        let entries: &Vec<(i32, SnapQuery)> = self.deferred.entries();
        let ghost pairs = sorted_map::viewed_pairs(entries@);
        let ghost ans = association::answer_views(answers@);
        proof {
            sorted_map::lemma_viewed_pairs(entries@);
            assert(pairs.take(0) =~= Seq::<(i32, SnapQueryView)>::empty());
        }
        let mut r: Vec<i32> = Vec::new();
        let mut i: usize = 0;
        while i < entries.len()
            invariant
                i <= entries.len(),
                pairs == sorted_map::viewed_pairs(entries@),
                ans == association::answer_views(answers@),
                r@ == context::answered_pids(pairs.take(i as int), ans),
            decreases entries.len() - i,
        {
            proof {
                assert(pairs.take(i + 1).drop_last() =~= pairs.take(i as int));
                assert(pairs.take(i + 1).last() == (
                    entries@[i as int].0,
                    entries@[i as int].1@,
                ));
            }
            if association::find_answer(answers, &entries[i].1).is_some() {
                r.push(entries[i].0);
            }
            i += 1;
        }
        proof {
            assert(pairs.take(i as int) =~= pairs);
        }
        r
    }

    /// A process no longer waits.
    fn drain_one(&mut self, pid: i32, answers: &Vec<SnapAnswer>)
        requires
            context::context_wf(old(self)@),
            old(self)@.deferred.contains_key(pid),
        ensures
            final(self)@ == context::drained_one(
                old(self)@,
                pid,
                association::answer_views(answers@),
            ),
    {
        let ghost before = self@;
        let ghost ans = association::answer_views(answers@);
        let _ = self.deferred.remove(&pid);
        let ghost mid = ContextView { deferred: before.deferred.remove(pid), ..before };
        proof {
            assert(self@ =~= mid);
        }
        let association: AppAssociation = match self.processes.get(&pid) {
            Some(process) => association::app_associated_with_process(&self.apps, process, answers),
            None => {
                return;
            },
        };
        proof {
            association::associated_app_exists(mid.apps, mid.processes[pid], ans);
        }
        if let AppAssociation::Resolved(id) = association {
            if let Some(process) = self.processes.remove(&pid) {
                let ghost view = process@;
                let ghost without = self@;
                self.attach(id, process);
                proof {
                    assert(self@.processes =~= context::attached(
                        mid,
                        text::opt_text(id),
                        view,
                    ).processes);
                }
            }
        }
    }

    /// Processes whose answer has come go to their applications.
    fn drain(&mut self, answers: &Vec<SnapAnswer>)
        requires
            context::context_wf(old(self)@),
        ensures
            final(self)@ == context::drained(
                old(self)@,
                context::answered_in(old(self)@, association::answer_views(answers@)),
                association::answer_views(answers@),
            ),
            context::context_wf(final(self)@),
            final(self)@.processes.dom() == old(self)@.processes.dom(),
    {
        let ghost before = self@;
        let ghost ans = association::answer_views(answers@);
        let pids: Vec<i32> = self.answered(answers);
        proof {
            context::lemma_answered_in(before, ans);
            context::lemma_drained_wf(before, pids@, ans);
            assert(pids@.take(0) =~= Seq::<i32>::empty());
        }
        let mut i: usize = 0;
        while i < pids.len()
            invariant
                i <= pids.len(),
                context::context_wf(before),
                ans == association::answer_views(answers@),
                pids@.no_duplicates(),
                forall|j: int|
                    0 <= j < pids.len() ==> before.deferred.contains_key(#[trigger] pids@[j]),
                self@ == context::drained(before, pids@.take(i as int), ans),
            decreases pids.len() - i,
        {
            proof {
                let done = pids@.take(i as int);
                assert forall|j: int| 0 <= j < done.len() implies before.deferred.contains_key(
                    #[trigger] done[j],
                ) by {
                    assert(done[j] == pids@[j]);
                }
                context::lemma_drained_wf(before, done, ans);
                assert(!done.contains(pids@[i as int]));
                assert(pids@.take(i + 1).drop_last() =~= done);
                assert(pids@.take(i + 1).last() == pids@[i as int]);
            }
            self.drain_one(pids[i], answers);
            i += 1;
        }
        proof {
            assert(pids@.take(i as int) =~= pids@);
        }
    }

    /// The data with the readings of GPUs with a combined media engine adjusted.
    fn adjust(&self, data: ProcessData) -> (r: ProcessData)
        ensures
            r@ == context::adjusted(data@, self@.combined),
    {
        let ghost before = data@;
        let ghost combined = self@.combined;
        let mut data: ProcessData = data;
        let mut i: usize = 0;
        proof {
            assert(context::adjusted_stats(before.gpu_usage_stats, combined.take(0))
                =~= before.gpu_usage_stats);
        }
        while i < self.gpus_with_combined_media_engine.len()
            invariant
                i <= combined.len(),
                combined == self.gpus_with_combined_media_engine@,
                data@ == context::adjusted(before, combined.take(i as int)),
            decreases combined.len() - i,
        {
            let id: GpuIdentifier = self.gpus_with_combined_media_engine[i];
            let ghost stats = data@.gpu_usage_stats;
            let old: Option<GpuUsageStats> = match data.gpu_usage_stats.get(&id) {
                Some(s) => Some(*s),
                None => None,
            };
            if let Some(s) = old {
                data.gpu_usage_stats.insert(id, s.with_combined_media());
            }
            i += 1;
            proof {
                let done = combined.take(i as int);
                let earlier = combined.take(i - 1);
                let expected = context::adjusted_stats(before.gpu_usage_stats, done);
                assert forall|x: GpuIdentifier| done.contains(x) == (earlier.contains(x) || x
                    == id) by {
                    if done.contains(x) && x != id {
                        let j = choose|j: int| 0 <= j < done.len() && done[j] == x;
                        assert(earlier[j] == x);
                    }
                    if earlier.contains(x) {
                        let j = choose|j: int| 0 <= j < earlier.len() && earlier[j] == x;
                        assert(done[j] == x);
                    }
                    assert(done[i - 1] == id);
                }
                assert(data@.gpu_usage_stats =~= expected) by {
                    if before.gpu_usage_stats.contains_key(id) {
                        gpu_usage::combined_media_idempotent(before.gpu_usage_stats[id]);
                    }
                }
                assert(data@ =~= context::adjusted(before, done));
            }
        }
        proof {
            assert(combined.take(i as int) =~= combined);
        }
        data
    }

    /// Takes in new data of a process.
    fn absorb_one(&mut self, data: ProcessData, answers: &Vec<SnapAnswer>)
        requires
            context::context_wf(old(self)@),
        ensures
            final(self)@ == context::absorbed_one(
                old(self)@,
                data@,
                association::answer_views(answers@),
            ),
    {
        let ghost before = self@;
        let ghost ans = association::answer_views(answers@);
        let data: ProcessData = self.adjust(data);
        let ghost view = data@;
        let pid: i32 = data.pid;
        if let Some(old_process) = self.processes.remove(&pid) {
            let ghost old_view = old_process@;
            self.processes.insert(pid, old_process.updated(data));
            proof {
                assert(self@.processes =~= before.processes.insert(
                    pid,
                    process::updated_process(old_view, view),
                ));
            }
        } else {
            proof {
                assert(self@ =~= before);
            }
            let process: Process = Process::from_process_data(data);
            proof {
                association::associated_app_exists(before.apps, process@, ans);
            }
            match association::app_associated_with_process(&self.apps, &process, answers) {
                AppAssociation::Resolved(id) => {
                    self.attach(id, process);
                },
                AppAssociation::Pending(query) => {
                    let ghost p = process@;
                    let ghost q = query@;
                    self.deferred.insert(pid, query);
                    self.processes.insert(pid, process);
                    proof {
                        assert(self@.processes =~= before.processes.insert(pid, p));
                        assert(self@.deferred =~= before.deferred.insert(pid, q));
                    }
                },
            }
        }
    }

    /// Takes in new data of processes, and says of which.
    fn absorb(&mut self, list: Vec<ProcessData>, answers: &Vec<SnapAnswer>) -> (r: SortedMap<
        i32,
        (),
    >)
        requires
            context::context_wf(old(self)@),
        ensures
            final(self)@ == context::absorbed(
                old(self)@,
                process_data::data_views(list@),
                association::answer_views(answers@),
            ),
            context::context_wf(final(self)@),
            r@.dom() == context::pids_of(process_data::data_views(list@)),
    {
        let ghost before = self@;
        let ghost ans = association::answer_views(answers@);
        let ghost items = list@;
        let ghost all = process_data::data_views(items);
        let mut left: Vec<ProcessData> = list::reversed(list);
        let mut updated: SortedMap<i32, ()> = SortedMap::new();
        let ghost mut done: int = 0;
        proof {
            assert(items.skip(0) =~= items);
            assert(all.take(0) =~= Seq::<ProcessDataView>::empty());
            assert(updated@.dom() =~= context::pids_of(all.take(0)));
        }
        while left.len() > 0
            invariant
                0 <= done <= items.len(),
                all == process_data::data_views(items),
                ans == association::answer_views(answers@),
                context::context_wf(before),
                left@ == items.skip(done).reverse(),
                self@ == context::absorbed(before, all.take(done), ans),
                updated@.dom() == context::pids_of(all.take(done)),
            decreases left.len(),
        {
            proof {
                assert(items.skip(done).len() > 0);
                list::lemma_pop_reversed(items.skip(done));
                assert(items.skip(done).skip(1) =~= items.skip(done + 1));
                assert(all.take(done + 1).drop_last() =~= all.take(done));
                assert(all.take(done + 1).last() == items[done]@);
                context::lemma_absorbed_wf(before, all.take(done), ans);
                context::lemma_pids_of(all.take(done + 1));
            }
            if let Some(data) = left.pop() {
                updated.insert(data.pid, ());
                proof {
                    assert(updated@.dom() =~= context::pids_of(all.take(done + 1)));
                }
                self.absorb_one(data, answers);
                proof {
                    done = done + 1;
                }
            }
        }
        proof {
            assert(items.skip(done).len() == 0);
            assert(all.take(done) =~= all);
            context::lemma_absorbed_wf(before, all, ans);
        }
        updated
    }

    /// What the dead among the processes of an application have read and written,
    /// and the processes that are left.
    fn split_dead(
        pids: &Vec<i32>,
        processes: &SortedMap<i32, Process>,
        alive: &SortedMap<i32, ()>,
    ) -> (r: (u64, u64, Vec<i32>))
        ensures
            (r.0, r.1) == context::dead_io(pids@, process_views(processes@), alive@.dom()),
            r.2@ == context::alive_pids(pids@, alive@.dom()),
    {
        let ghost views = process_views(processes@);
        let ghost live = alive@.dom();
        let mut read_dead: u64 = 0;
        let mut write_dead: u64 = 0;
        let mut left: Vec<i32> = Vec::new();
        let mut i: usize = 0;
        proof {
            assert(pids@.take(0) =~= Seq::<i32>::empty());
        }
        while i < pids.len()
            invariant
                i <= pids.len(),
                views == process_views(processes@),
                live == alive@.dom(),
                (read_dead, write_dead) == context::dead_io(pids@.take(i as int), views, live),
                left@ == context::alive_pids(pids@.take(i as int), live),
            decreases pids.len() - i,
        {
            let pid: i32 = pids[i];
            proof {
                assert(pids@.take(i + 1).drop_last() =~= pids@.take(i as int));
                assert(pids@.take(i + 1).last() == pid);
            }
            if alive.contains_key(&pid) {
                left.push(pid);
            } else if let Some(process) = processes.get(&pid) {
                proof {
                    assert(views[pid] == process@);
                }
                if let (Some(read), Some(write)) = (
                    process.data.read_bytes,
                    process.data.write_bytes,
                ) {
                    read_dead = read_dead.saturating_add(read);
                    write_dead = write_dead.saturating_add(write);
                }
            }
            i += 1;
        }
        proof {
            assert(pids@.take(i as int) =~= pids@);
        }
        (read_dead, write_dead, left)
    }

    /// Drops what has died.
    fn bury(&mut self, alive: &SortedMap<i32, ()>)
        ensures
            final(self)@ == context::buried(old(self)@, alive@.dom()),
    {
        let ghost before = self@;
        let ghost live = alive@.dom();
        let ghost expected = context::buried(before, live);
        let n: usize = self.apps.len();
        let mut i: usize = 0;
        while i < n
            invariant
                i <= n,
                n == self.apps.len(),
                n == before.apps.len(),
                live == alive@.dom(),
                expected == context::buried(before, live),
                self@.processes == before.processes,
                self@.deferred == before.deferred,
                self@.combined == before.combined,
                forall|j: int| 0 <= j < i ==> (#[trigger] self.apps@[j])@ == expected.apps[j],
                forall|j: int| i <= j < n ==> (#[trigger] self.apps@[j])@ == before.apps[j],
            decreases n - i,
        {
            let ghost a = before.apps[i as int];
            proof {
                assert(self.apps@[i as int]@ == a);
            }
            let (read_dead, write_dead, left): (u64, u64, Vec<i32>) = Self::split_dead(
                &self.apps[i].processes,
                &self.processes,
                alive,
            );
            let read: u64 = self.apps[i].read_bytes_from_dead_processes.wrapping_add(read_dead);
            let write: u64 = self.apps[i].write_bytes_from_dead_processes.wrapping_add(write_dead);
            let running: bool = left.len() > 0;
            self.apps[i].processes = left;
            self.apps[i].read_bytes_from_dead_processes = if running {
                read
            } else {
                0
            };
            self.apps[i].write_bytes_from_dead_processes = if running {
                write
            } else {
                0
            };
            proof {
                assert(self.apps@[i as int]@ =~= context::survived(a, before.processes, live));
            }
            i += 1;
        }
        self.processes.retain_keys(alive);
        self.deferred.retain_keys(alive);
        proof {
            assert(self@.apps =~= expected.apps);
            assert(self@.processes =~= expected.processes);
            assert(self@.deferred =~= expected.deferred);
        }
    }

    /// Takes in what is known of all processes that are alive. `answers` are the
    /// answers of snapd that have come; a new process that depends on another one
    /// waits, and is taken up by the refresh after the answer has come.
    pub fn refresh(&mut self, new_process_data: Vec<ProcessData>, answers: &Vec<SnapAnswer>)
        requires
            context::context_wf(old(self)@),
        ensures
            context::context_wf(final(self)@),
            final(self)@ == context::refreshed(
                old(self)@,
                process_data::data_views(new_process_data@),
                association::answer_views(answers@),
            ),
            final(self)@.processes.dom() == context::pids_of(process_data::data_views(new_process_data@)),
    {
        let ghost before = self@;
        let ghost list = process_data::data_views(new_process_data@);
        let ghost ans = association::answer_views(answers@);
        self.drain(answers);
        let ghost mid = self@;
        let alive: SortedMap<i32, ()> = self.absorb(new_process_data, answers);
        proof {
            context::lemma_absorbed_wf(mid, list, ans);
            context::lemma_buried_wf(self@, context::pids_of(list));
            assert(mid.processes.dom().union(context::pids_of(list)).intersect(context::pids_of(list))
                =~= context::pids_of(list));
        }
        self.bury(&alive);
    }

    /// The questions to snapd on which processes wait.
    pub fn pending_queries(&self) -> (r: Vec<SnapQuery>)
        ensures
            r@.len() == sorted_map::sorted_pairs(self@.deferred).len(),
            forall|i: int|
                0 <= i < r@.len() ==> (#[trigger] r@[i])@ == sorted_map::sorted_pairs(
                    self@.deferred,
                )[i].1,
    {
        let entries: &Vec<(i32, SnapQuery)> = self.deferred.entries();
        proof {
            sorted_map::lemma_viewed_pairs(entries@);
        }
        let mut r: Vec<SnapQuery> = Vec::new();
        let mut i: usize = 0;
        while i < entries.len()
            invariant
                i <= entries.len(),
                r.len() == i,
                forall|j: int| 0 <= j < i ==> (#[trigger] r@[j])@ == entries@[j].1@,
            decreases entries.len() - i,
        {
            r.push(copy_query(&entries[i].1));
            i += 1;
        }
        r
    }
}

// Looking things up -----------------------------------------------------------------------------------

/// The views of a list of references.
pub open spec fn app_ref_views(list: Seq<&App>) -> Seq<AppView> {
    Seq::new(list.len(), |i: int| list[i]@)
}

impl AppsContext {
    /// The process with the identifier.
    pub fn get_process(&self, pid: i32) -> (r: Option<&Process>)
        ensures
            match r {
                Some(p) => self@.processes.contains_key(pid) && p@ == self@.processes[pid],
                None => !self@.processes.contains_key(pid),
            },
    {
        self.processes.get(&pid)
    }

    /// The application with the identifier; without one, the system processes.
    pub fn get_app(&self, id: &Option<String>) -> (r: Option<&App>)
        ensures
            match r {
                Some(a) => association::first_app(
                    self@.apps,
                    QueryView::Id(text::opt_text(*id)),
                ) == Some(a@),
                None => association::first_app(
                    self@.apps,
                    QueryView::Id(text::opt_text(*id)),
                ) is None,
            },
    {
        let query: AppQuery = AppQuery::Id(text::copy_option(id));
        proof {
            association::lemma_first_index(self@.apps, query@);
        }
        match association::find_app(&self.apps, &query) {
            Some(i) => Some(&self.apps[i]),
            None => None,
        }
    }

    /// All processes, in ascending order of their identifiers.
    pub fn processes_iter(&self) -> (r: &Vec<(i32, Process)>)
        ensures
            sorted_map::viewed_pairs(r@) == sorted_map::sorted_pairs(self@.processes),
    {
        let entries: &Vec<(i32, Process)> = self.processes.entries();
        proof {
            sorted_map::lemma_viewed_pairs(entries@);
        }
        entries
    }

    /// All applications, the system processes among them.
    pub fn apps_iter(&self) -> (r: &Vec<App>)
        ensures
            app::app_views(r@) == self@.apps,
    {
        &self.apps
    }

    /// The applications that show among the running ones.
    pub fn running_apps_iter(&self) -> (r: Vec<&App>)
        ensures
            app_ref_views(r@) == context::running_apps(self@.apps),
    {
        let ghost all = app::app_views(self.apps@);
        let mut r: Vec<&App> = Vec::new();
        let mut i: usize = 0;
        proof {
            assert(all.take(0) =~= Seq::<AppView>::empty());
            assert(app_ref_views(r@) =~= Seq::<AppView>::empty());
        }
        while i < self.apps.len()
            invariant
                i <= self.apps.len(),
                all == app::app_views(self.apps@),
                app_ref_views(r@) == context::running_apps(all.take(i as int)),
            decreases self.apps.len() - i,
        {
            let a: &App = &self.apps[i];
            proof {
                assert(all.take(i + 1).drop_last() =~= all.take(i as int));
                assert(all.take(i + 1).last() == a@);
            }
            let portal: bool = match &a.id {
                Some(id) => text::has_prefix(id.as_str(), "xdg-desktop-portal"),
                None => false,
            };
            if a.is_running() && !portal {
                let ghost before = r@;
                r.push(a);
                proof {
                    assert(app_ref_views(r@) =~= app_ref_views(before).push(a@));
                }
            }
            i += 1;
        }
        proof {
            assert(all.take(i as int) =~= all);
        }
        r
    }
}

} // verus!
