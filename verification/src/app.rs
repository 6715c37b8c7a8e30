//! An application.

use vstd::prelude::*;

use crate::process::{AppIcon, IconView, Process, ProcessView};
use crate::process_data::Containerization;
use crate::text;

verus! {

/// An application that is installed on the system. It does not have to be
/// running.
pub struct App {
    /// The processes of the application that are alive.
    pub processes: Vec<i32>,
    pub commandline: Option<String>,
    pub executable_name: Option<String>,
    pub display_name: String,
    pub description: Option<String>,
    pub icon: AppIcon,
    /// The identifier of the desktop file; the system processes have none.
    pub id: Option<String>,
    pub read_bytes_from_dead_processes: u64,
    pub write_bytes_from_dead_processes: u64,
    pub containerization: Containerization,
}

/// What an `App` holds.
#[verifier::ext_equal]
pub struct AppView {
    pub processes: Seq<i32>,
    pub commandline: Option<Seq<char>>,
    pub executable_name: Option<Seq<char>>,
    pub display_name: Seq<char>,
    pub description: Option<Seq<char>>,
    pub icon: IconView,
    pub id: Option<Seq<char>>,
    pub read_bytes_from_dead_processes: u64,
    pub write_bytes_from_dead_processes: u64,
    pub containerization: Containerization,
}

impl View for App {
    type V = AppView;

    open spec fn view(&self) -> AppView {
        AppView {
            processes: self.processes@,
            commandline: text::opt_text(self.commandline),
            executable_name: text::opt_text(self.executable_name),
            display_name: self.display_name@,
            description: text::opt_text(self.description),
            icon: self.icon@,
            id: text::opt_text(self.id),
            read_bytes_from_dead_processes: self.read_bytes_from_dead_processes,
            write_bytes_from_dead_processes: self.write_bytes_from_dead_processes,
            containerization: self.containerization,
        }
    }
}

/// The views of a list.
pub open spec fn app_views(list: Seq<App>) -> Seq<AppView> {
    Seq::new(list.len(), |i: int| list[i]@)
}

/// The application with one more process.
pub open spec fn with_process(app: AppView, pid: i32) -> AppView {
    AppView { processes: app.processes.push(pid), ..app }
}

/// The process with the icon of its application.
pub open spec fn with_icon(process: ProcessView, icon: IconView) -> ProcessView {
    ProcessView { icon, ..process }
}

/// The list without a process.
pub open spec fn without_pid(pids: Seq<i32>, pid: i32) -> Seq<i32>
    decreases pids.len(),
{
    if pids.len() == 0 {
        pids
    } else if pids.last() == pid {
        without_pid(pids.drop_last(), pid)
    } else {
        without_pid(pids.drop_last(), pid).push(pids.last())
    }
}

/// The application under which all processes go that belong to no other one.
pub open spec fn system_app(display_name: Seq<char>) -> AppView {
    AppView {
        processes: Seq::<i32>::empty(),
        commandline: None,
        executable_name: None,
        display_name,
        description: None,
        icon: IconView::Themed("system-processes"@),
        id: None,
        read_bytes_from_dead_processes: 0,
        write_bytes_from_dead_processes: 0,
        containerization: Containerization::Host,
    }
}

/// Whether a process is in the list.
pub fn contains_pid(pids: &Vec<i32>, pid: i32) -> (r: bool)
    ensures
        r == pids@.contains(pid),
{
    let mut i: usize = 0;
    while i < pids.len()
        invariant
            i <= pids.len(),
            forall|j: int| 0 <= j < i ==> pids@[j] != pid,
        decreases pids.len() - i,
    {
        if pids[i] == pid {
            return true;
        }
        i += 1;
    }
    false
}

impl App {
    /// The application under which all processes go that belong to no other one.
    pub fn system(display_name: String) -> (r: Self)
        ensures
            r@ == system_app(display_name@),
    {
        let ghost name = display_name@;
        let r = App {
            processes: Vec::new(),
            commandline: None,
            executable_name: None,
            display_name,
            description: None,
            icon: AppIcon::Themed("system-processes".to_string()),
            id: None,
            read_bytes_from_dead_processes: 0,
            write_bytes_from_dead_processes: 0,
            containerization: Containerization::Host,
        };
        proof {
            assert(r@ =~= system_app(name));
        }
        r
    }

    /// Adds a process, and gives it the icon of the application.
    pub fn add_process(&mut self, process: &mut Process)
        ensures
            final(self)@ == with_process(old(self)@, old(process)@.data.pid),
            final(process)@ == with_icon(old(process)@, old(self)@.icon),
    {
        let ghost before = self@;
        let ghost process_before = process@;
        process.icon = self.icon.copy();
        self.processes.push(process.data.pid);
        proof {
            assert(self@ =~= with_process(before, process_before.data.pid));
            assert(process@ =~= with_icon(process_before, before.icon));
        }
    }

    /// Removes a process.
    pub fn remove_process(&mut self, process: &Process)
        ensures
            final(self)@ == (AppView {
                processes: without_pid(old(self)@.processes, process@.data.pid),
                ..old(self)@
            }),
    {
        let ghost before = self@;
        let mut left: Vec<i32> = Vec::new();
        let mut i: usize = 0;
        proof {
            assert(before.processes.take(0) =~= Seq::<i32>::empty());
        }
        while i < self.processes.len()
            invariant
                i <= self.processes.len(),
                self@ == before,
                left@ == without_pid(before.processes.take(i as int), process@.data.pid),
            decreases self.processes.len() - i,
        {
            proof {
                assert(before.processes.take(i + 1).drop_last() =~= before.processes.take(
                    i as int,
                ));
                assert(before.processes.take(i + 1).last() == before.processes[i as int]);
            }
            if self.processes[i] != process.data.pid {
                left.push(self.processes[i]);
            }
            i += 1;
        }
        proof {
            assert(before.processes.take(i as int) =~= before.processes);
        }
        self.processes = left;
        proof {
            assert(self@ =~= AppView {
                processes: without_pid(before.processes, process@.data.pid),
                ..before
            });
        }
    }

    /// Whether the application has a process.
    pub fn is_running(&self) -> (r: bool)
        ensures
            r == (self@.processes.len() > 0),
    {
        self.processes.len() > 0
    }

    /// How many processes the application has.
    pub fn running_processes(&self) -> (r: usize)
        ensures
            r == self@.processes.len(),
    {
        self.processes.len()
    }
}

proof fn lemma_without_pid(pids: Seq<i32>, pid: i32)
    ensures
        !without_pid(pids, pid).contains(pid),
        forall|p: i32| #[trigger] without_pid(pids, pid).contains(p) ==> pids.contains(p),
        forall|p: i32| #[trigger] pids.contains(p) && p != pid ==> without_pid(pids, pid).contains(p),
        !pids.contains(pid) ==> without_pid(pids, pid) == pids,
    decreases pids.len(),
{
    if pids.len() > 0 {
        let head = pids.drop_last();
        lemma_without_pid(head, pid);
        let r = without_pid(pids, pid);
        assert(pids =~= head.push(pids.last()));
        assert forall|p: i32| #[trigger] r.contains(p) implies pids.contains(p) by {
            let i = choose|i: int| 0 <= i < r.len() && r[i] == p;
            if pids.last() != pid && i == r.len() - 1 {
                assert(pids[pids.len() - 1] == p);
            } else {
                assert(without_pid(head, pid)[i] == p);
                assert(without_pid(head, pid).contains(p));
                assert(head.contains(p));
                let j = choose|j: int| 0 <= j < head.len() && head[j] == p;
                assert(pids[j] == p);
            }
        }
        assert forall|p: i32| #[trigger] pids.contains(p) && p != pid implies r.contains(p) by {
            let i = choose|i: int| 0 <= i < pids.len() && pids[i] == p;
            if i < pids.len() - 1 {
                assert(head[i] == p);
                assert(head.contains(p));
                assert(without_pid(head, pid).contains(p));
                let j = choose|j: int|
                    0 <= j < without_pid(head, pid).len() && without_pid(head, pid)[j] == p;
                assert(r[j] == p);
            } else {
                assert(r[r.len() - 1] == p);
            }
        }
        if !pids.contains(pid) {
            assert(pids[pids.len() - 1] != pid);
            assert(!head.contains(pid)) by {
                if head.contains(pid) {
                    let i = choose|i: int| 0 <= i < head.len() && head[i] == pid;
                    assert(pids[i] == pid);
                }
            }
            assert(r =~= pids);
        }
        if r.contains(pid) {
            let i = choose|i: int| 0 <= i < r.len() && r[i] == pid;
            assert(without_pid(head, pid)[i] == pid);
            assert(without_pid(head, pid).contains(pid));
        }
    }
}

/// A process that was added and removed again leaves an application that did not
/// have it as it was.
pub proof fn remove_undoes_add(app: AppView, pid: i32)
    requires
        !app.processes.contains(pid),
    ensures
        without_pid(with_process(app, pid).processes, pid) == app.processes,
{
    lemma_without_pid(app.processes, pid);
    assert(app.processes.push(pid).drop_last() =~= app.processes);
}

/// Removing a process takes it out and keeps all others.
pub proof fn remove_keeps_others(app: AppView, pid: i32, other: i32)
    ensures
        !without_pid(app.processes, pid).contains(pid),
        other != pid ==> without_pid(app.processes, pid).contains(other)
            == app.processes.contains(other),
{
    lemma_without_pid(app.processes, pid);
}

} // verus!
