//! The solver manager: which solver processes are alive under which slot,
//! the best bound each has reached, the bound published for the run, and the
//! cores that are free.
pub mod commands;
pub mod cores;
pub mod processes;
pub mod ranking;
pub mod receiver;
pub mod stdout;

pub use crate::solver_manager::commands::{
    fzn_command, get_fzn_command, get_ozn_command, runs_directly, takes_cores,
};
pub use crate::solver_manager::cores::{lemma_cores_partition, rising};
pub use crate::solver_manager::processes::{
    StopOutcome, distinct_slots, has_process, lemma_slot_index, lemma_slot_index_unique,
    lemma_with_slot, lemma_without_slot, process_of, signal_each, slot_index, slot_seq, slots_of,
    stop_each, with_best, with_slot, without_slot,
};
pub use crate::solver_manager::ranking::{
    falling, insert_desc, lemma_insert_desc, lemma_insert_desc_at, lemma_sort_desc, measured,
    sort_desc,
};
pub use crate::solver_manager::receiver::{
    Reaction, ReactionView, announced, lemma_printed_objectives_improve, printed_objectives,
    receive_all, receive_step, silent,
};
pub use crate::solver_manager::stdout::{StdoutHandler, StdoutHandlerView};
use crate::model_parser::{ObjectiveType, ObjectiveValue};
use crate::process_tree::{ProcessTable, get_process_tree_memory};
use crate::solver_output::Output;
use crate::text::trim_end;
use vstd::prelude::*;

verus! {

/// Why the manager refused a request.
#[derive(Debug, Clone, Copy, PartialEq, Eq, Structural)]
pub enum Error {
    /// No process is recorded under this slot.
    InvalidSolver(u64),
    /// More cores were asked for than are free.
    CPUCoresRetrieval,
}

/// The record of one solver pipeline. The record owns the process group
/// `pid`: whoever takes a record out of the manager has to end that group.
#[derive(Debug, Clone, Copy, PartialEq, Eq)]
pub struct SolverProcess {
    pub pid: u32,
    pub best_objective: Option<ObjectiveValue>,
}

/// A record under its slot.
#[derive(Debug, Clone, Copy, PartialEq, Eq)]
pub struct ProcessEntry {
    pub id: u64,
    pub process: SolverProcess,
}

/// A signal for a whole process group.
#[derive(Debug, Clone, Copy, PartialEq, Eq, Structural)]
pub enum Signal {
    Stop,
    Continue,
    Terminate,
    Kill,
}

/// The order to send `signal` to the process group of `pid`.
#[derive(Debug, Clone, Copy, PartialEq, Eq, Structural)]
pub struct SignalOrder {
    pub pid: u32,
    pub signal: Signal,
}

/// What the manager holds.
pub struct ManagerView {
    /// The live records, oldest first.
    pub solvers: Seq<ProcessEntry>,
    /// The bound published for the run.
    pub best_objective: Option<ObjectiveValue>,
    /// The direction of the objective.
    pub objective_type: ObjectiveType,
    /// The free cores, in rising order.
    pub available_cores: Seq<usize>,
}

/// The bookkeeping of the solver processes of one run.
#[derive(Debug)]
pub struct SolverManager {
    solvers: Vec<ProcessEntry>,
    best_objective: Option<ObjectiveValue>,
    objective_type: ObjectiveType,
    available_cores: Vec<usize>,
}

impl View for SolverManager {
    type V = ManagerView;

    closed spec fn view(&self) -> ManagerView {
        ManagerView {
            solvers: self.solvers@,
            best_objective: self.best_objective,
            objective_type: self.objective_type,
            available_cores: self.available_cores@,
        }
    }
}

impl SolverManager {
    /// No slot has two records, and the free cores are in rising order.
    pub open spec fn wf(&self) -> bool {
        distinct_slots(self@.solvers) && rising(self@.available_cores)
    }

    /// A manager with no process and no bound, whose free cores are `cores`.
    pub fn new(objective_type: ObjectiveType, cores: &Vec<usize>) -> (m: Self)
        ensures
            m.wf(),
            m@.solvers.len() == 0,
            m@.best_objective.is_none(),
            m@.objective_type == objective_type,
            m@.available_cores.to_set() == cores@.to_set(),
    {
        let mut m = SolverManager {
            solvers: Vec::new(),
            best_objective: None,
            objective_type,
            available_cores: Vec::new(),
        };
        assert(m@.available_cores.to_set() =~= Set::<usize>::empty());
        m.release_cores(cores);
        assert(m@.available_cores.to_set() =~= cores@.to_set());
        m
    }

    /// Puts `core` among the free cores, at its place in the order.
    fn insert_core(&mut self, core: usize)
        requires
            rising(old(self)@.available_cores),
        ensures
            rising(final(self)@.available_cores),
            final(self)@.available_cores.to_set() == old(self)@.available_cores.to_set().insert(
                core,
            ),
            final(self)@.solvers == old(self)@.solvers,
            final(self)@.best_objective == old(self)@.best_objective,
            final(self)@.objective_type == old(self)@.objective_type,
    {
        let ghost before = self.available_cores@;
        let mut i: usize = 0;
        while i < self.available_cores.len() && self.available_cores[i] < core
            invariant
                0 <= i <= self.available_cores.len(),
                self.available_cores@ == before,
                forall|k: int| 0 <= k < i ==> before[k] < core,
            decreases self.available_cores.len() - i,
        {
            i += 1;
        }
        if i < self.available_cores.len() && self.available_cores[i] == core {
            assert(before.to_set().insert(core) =~= before.to_set()) by {
                assert(before.contains(before[i as int]));
            }
            return ;
        }
        self.available_cores.insert(i, core);
        proof {
            let after = self.available_cores@;
            assert(after == before.insert(i as int, core));
            assert forall|a: int, b: int| 0 <= a < b < after.len() implies after[a] < after[b] by {
                let pa = if a < i { a } else { a - 1 };
                let pb = if b < i { b } else { b - 1 };
                if a != i && b != i {
                    assert(before[pa] < before[pb]);
                } else if a == i {
                    if i < pb {
                        assert(before[i as int] < before[pb]);
                    }
                }
            }
            assert forall|x: usize| after.to_set().contains(x) <==> before.to_set().insert(
                core,
            ).contains(x) by {
                if after.contains(x) {
                    let k = choose|k: int| 0 <= k < after.len() && after[k] == x;
                    if k != i {
                        let pk = if k < i { k } else { k - 1 };
                        assert(before[pk] == x);
                        assert(before.contains(x));
                    }
                }
                if before.contains(x) {
                    let k = choose|k: int| 0 <= k < before.len() && before[k] == x;
                    let nk = if k < i { k } else { k + 1 };
                    assert(after[nk] == x);
                }
                if x == core {
                    assert(after[i as int] == x);
                }
            }
            assert(after.to_set() =~= before.to_set().insert(core));
        }
    }

    /// Gives `cores` back to the free cores.
    pub fn release_cores(&mut self, cores: &Vec<usize>)
        requires
            rising(old(self)@.available_cores),
        ensures
            rising(final(self)@.available_cores),
            final(self)@.available_cores.to_set() == old(self)@.available_cores.to_set().union(
                cores@.to_set(),
            ),
            final(self)@.solvers == old(self)@.solvers,
            final(self)@.best_objective == old(self)@.best_objective,
            final(self)@.objective_type == old(self)@.objective_type,
    {
        let mut i: usize = 0;
        while i < cores.len()
            invariant
                0 <= i <= cores.len(),
                rising(self@.available_cores),
                self@.available_cores.to_set() == old(self)@.available_cores.to_set().union(
                    cores@.take(i as int).to_set(),
                ),
                self@.solvers == old(self)@.solvers,
                self@.best_objective == old(self)@.best_objective,
                self@.objective_type == old(self)@.objective_type,
            decreases cores.len() - i,
        {
            self.insert_core(cores[i]);
            proof {
                let t0 = cores@.take(i as int);
                let t1 = cores@.take(i + 1);
                assert(t1 =~= t0.push(cores@[i as int]));
                assert forall|x: usize| t1.to_set().contains(x) <==> t0.to_set().insert(
                    cores@[i as int],
                ).contains(x) by {
                    if t1.contains(x) {
                        let k = choose|k: int| 0 <= k < t1.len() && t1[k] == x;
                        if k < i {
                            assert(t0[k] == x);
                        }
                    }
                    if t0.contains(x) {
                        let k = choose|k: int| 0 <= k < t0.len() && t0[k] == x;
                        assert(t1[k] == x);
                    }
                    if x == cores@[i as int] {
                        assert(t1[i as int] == x);
                    }
                }
                assert(self@.available_cores.to_set() =~= old(self)@.available_cores.to_set().union(
                    t1.to_set(),
                ));
            }
            i += 1;
        }
        assert(cores@.take(i as int) =~= cores@);
    }

    /// Takes the `count` lowest free cores. Where fewer are free, none is taken.
    pub fn allocate_cores(&mut self, count: usize) -> (r: Result<Vec<usize>, Error>)
        requires
            rising(old(self)@.available_cores),
        ensures
            rising(final(self)@.available_cores),
            final(self)@.solvers == old(self)@.solvers,
            final(self)@.best_objective == old(self)@.best_objective,
            final(self)@.objective_type == old(self)@.objective_type,
            count <= old(self)@.available_cores.len() ==> (r matches Ok(taken) && taken@ == old(
                self,
            )@.available_cores.take(count as int) && final(self)@.available_cores == old(
                self,
            )@.available_cores.skip(count as int)),
            count > old(self)@.available_cores.len() ==> r == Err::<Vec<usize>, Error>(
                Error::CPUCoresRetrieval,
            ) && final(self)@.available_cores == old(self)@.available_cores,
    {
        if count > self.available_cores.len() {
            return Err(Error::CPUCoresRetrieval);
        }
        let rest = self.available_cores.split_off(count);
        let mut taken = rest;
        std::mem::swap(&mut taken, &mut self.available_cores);
        Ok(taken)
    }

    /// Records the process group `pid` under `id`, with the published bound
    /// as the best that the solver has reached. A record that stood under
    /// `id` is handed back.
    pub fn register_process(&mut self, id: u64, pid: u32) -> (replaced: Option<SolverProcess>)
        requires
            old(self).wf(),
        ensures
            final(self).wf(),
            replaced == process_of(old(self)@.solvers, id),
            final(self)@ == (ManagerView {
                solvers: with_slot(
                    old(self)@.solvers,
                    id,
                    SolverProcess { pid, best_objective: old(self)@.best_objective },
                ),
                ..old(self)@
            }),
    {
        let process = SolverProcess { pid, best_objective: self.best_objective };
        let i = self.find(id);
        proof {
            lemma_with_slot(self@.solvers, id, process);
        }
        if i < self.solvers.len() {
            let old_process = self.solvers[i].process;
            self.solvers.set(i, ProcessEntry { id, process });
            Some(old_process)
        } else {
            self.solvers.push(ProcessEntry { id, process });
            None
        }
    }

    /// Forgets the record under `id`, as when its process has exited.
    pub fn solver_exited(&mut self, id: u64)
        requires
            old(self).wf(),
        ensures
            final(self).wf(),
            final(self)@ == (ManagerView {
                solvers: without_slot(old(self)@.solvers, id),
                ..old(self)@
            }),
    {
        let i = self.find(id);
        proof {
            lemma_without_slot(self@.solvers, id);
        }
        if i < self.solvers.len() {
            self.solvers.remove(i);
        }
    }

    /// Takes the record under `id` out. The caller ends its process group.
    pub fn stop_solver(&mut self, id: u64) -> (r: Result<SolverProcess, Error>)
        requires
            old(self).wf(),
        ensures
            final(self).wf(),
            final(self)@ == (ManagerView {
                solvers: without_slot(old(self)@.solvers, id),
                ..old(self)@
            }),
            r == match process_of(old(self)@.solvers, id) {
                Some(p) => Ok::<SolverProcess, Error>(p),
                None => Err::<SolverProcess, Error>(Error::InvalidSolver(id)),
            },
    {
        let i = self.find(id);
        proof {
            lemma_without_slot(self@.solvers, id);
        }
        if i < self.solvers.len() {
            let entry = self.solvers.remove(i);
            Ok(entry.process)
        } else {
            Err(Error::InvalidSolver(id))
        }
    }

    /// Takes the records under `ids` out, one slot after another.
    pub fn stop_solvers(&mut self, ids: &Vec<u64>) -> (r: (Vec<SolverProcess>, Vec<Error>))
        requires
            old(self).wf(),
        ensures
            final(self).wf(),
            final(self)@ == (ManagerView {
                solvers: stop_each(old(self)@.solvers, ids@).solvers,
                ..old(self)@
            }),
            r.0@ == stop_each(old(self)@.solvers, ids@).stopped,
            r.1@ == stop_each(old(self)@.solvers, ids@).errors,
    {
        let mut stopped: Vec<SolverProcess> = Vec::new();
        let mut errors: Vec<Error> = Vec::new();
        let mut i: usize = 0;
        while i < ids.len()
            invariant
                0 <= i <= ids.len(),
                self.wf(),
                self@ == (ManagerView {
                    solvers: stop_each(old(self)@.solvers, ids@.take(i as int)).solvers,
                    ..old(self)@
                }),
                stopped@ == stop_each(old(self)@.solvers, ids@.take(i as int)).stopped,
                errors@ == stop_each(old(self)@.solvers, ids@.take(i as int)).errors,
            decreases ids.len() - i,
        {
            assert(ids@.take(i + 1).drop_last() =~= ids@.take(i as int));
            match self.stop_solver(ids[i]) {
                Ok(p) => stopped.push(p),
                Err(e) => errors.push(e),
            }
            i += 1;
        }
        assert(ids@.take(i as int) =~= ids@);
        (stopped, errors)
    }

    /// Takes every record out, oldest first.
    pub fn stop_all_solvers(&mut self) -> (r: Vec<SolverProcess>)
        requires
            old(self).wf(),
        ensures
            final(self).wf(),
            final(self)@ == (ManagerView { solvers: Seq::empty(), ..old(self)@ }),
            r@ == old(self)@.solvers.map_values(|e: ProcessEntry| e.process),
    {
        let mut r: Vec<SolverProcess> = Vec::new();
        let mut i: usize = 0;
        while i < self.solvers.len()
            invariant
                0 <= i <= self.solvers.len(),
                self@ == old(self)@,
                r@ == self@.solvers.take(i as int).map_values(|e: ProcessEntry| e.process),
            decreases self.solvers.len() - i,
        {
            r.push(self.solvers[i].process);
            assert(self@.solvers.take(i + 1).map_values(|e: ProcessEntry| e.process)
                =~= self@.solvers.take(i as int).map_values(|e: ProcessEntry| e.process).push(
                self@.solvers[i as int].process,
            ));
            i += 1;
        }
        assert(self@.solvers.take(i as int) =~= self@.solvers);
        self.solvers = Vec::new();
        r
    }

    /// The order that sends `signal` to the process group under `id`.
    fn signal_for(&self, id: u64, signal: Signal) -> (r: Result<SignalOrder, Error>)
        ensures
            r == match process_of(self@.solvers, id) {
                Some(p) => Ok::<SignalOrder, Error>(SignalOrder { pid: p.pid, signal }),
                None => Err::<SignalOrder, Error>(Error::InvalidSolver(id)),
            },
    {
        match self.get_process(id) {
            Some(p) => Ok(SignalOrder { pid: p.pid, signal }),
            None => Err(Error::InvalidSolver(id)),
        }
    }

    /// The orders that send `signal` to the process groups under `ids`.
    fn signals_for(&self, ids: &Vec<u64>, signal: Signal) -> (r: (Vec<SignalOrder>, Vec<Error>))
        ensures
            r.0@ == signal_each(self@.solvers, ids@, signal).0,
            r.1@ == signal_each(self@.solvers, ids@, signal).1,
    {
        let mut orders: Vec<SignalOrder> = Vec::new();
        let mut errors: Vec<Error> = Vec::new();
        let mut i: usize = 0;
        while i < ids.len()
            invariant
                0 <= i <= ids.len(),
                orders@ == signal_each(self@.solvers, ids@.take(i as int), signal).0,
                errors@ == signal_each(self@.solvers, ids@.take(i as int), signal).1,
            decreases ids.len() - i,
        {
            assert(ids@.take(i + 1).drop_last() =~= ids@.take(i as int));
            match self.signal_for(ids[i], signal) {
                Ok(o) => orders.push(o),
                Err(e) => errors.push(e),
            }
            i += 1;
        }
        assert(ids@.take(i as int) =~= ids@);
        (orders, errors)
    }

    /// The order that suspends the solver under `id`.
    pub fn suspend_solver(&self, id: u64) -> (r: Result<SignalOrder, Error>)
        ensures
            r == match process_of(self@.solvers, id) {
                Some(p) => Ok::<SignalOrder, Error>(SignalOrder { pid: p.pid, signal: Signal::Stop }),
                None => Err::<SignalOrder, Error>(Error::InvalidSolver(id)),
            },
    {
        self.signal_for(id, Signal::Stop)
    }

    /// The orders that suspend the solvers under `ids`, and the slots among
    /// them that have no process.
    pub fn suspend_solvers(&self, ids: &Vec<u64>) -> (r: (Vec<SignalOrder>, Vec<Error>))
        ensures
            r.0@ == signal_each(self@.solvers, ids@, Signal::Stop).0,
            r.1@ == signal_each(self@.solvers, ids@, Signal::Stop).1,
    {
        self.signals_for(ids, Signal::Stop)
    }

    /// The orders that suspend every solver.
    pub fn suspend_all_solvers(&self) -> (r: Vec<SignalOrder>)
        ensures
            r@ == signal_each(self@.solvers, slot_seq(self@.solvers), Signal::Stop).0,
    {
        let ids = self.active_solver_ids();
        self.signals_for(&ids, Signal::Stop).0
    }

    /// The order that resumes the solver under `id`.
    pub fn resume_solver(&self, id: u64) -> (r: Result<SignalOrder, Error>)
        ensures
            r == match process_of(self@.solvers, id) {
                Some(p) => Ok::<SignalOrder, Error>(
                    SignalOrder { pid: p.pid, signal: Signal::Continue },
                ),
                None => Err::<SignalOrder, Error>(Error::InvalidSolver(id)),
            },
    {
        self.signal_for(id, Signal::Continue)
    }

    /// The orders that resume the solvers under `ids`, and the slots among
    /// them that have no process.
    pub fn resume_solvers(&self, ids: &Vec<u64>) -> (r: (Vec<SignalOrder>, Vec<Error>))
        ensures
            r.0@ == signal_each(self@.solvers, ids@, Signal::Continue).0,
            r.1@ == signal_each(self@.solvers, ids@, Signal::Continue).1,
    {
        self.signals_for(ids, Signal::Continue)
    }

    /// The orders that resume every solver.
    pub fn resume_all_solvers(&self) -> (r: Vec<SignalOrder>)
        ensures
            r@ == signal_each(self@.solvers, slot_seq(self@.solvers), Signal::Continue).0,
    {
        let ids = self.active_solver_ids();
        self.signals_for(&ids, Signal::Continue).0
    }

    /// Notes `best` as the bound that the solver under `id` has reached.
    /// Without a record under `id` nothing changes.
    pub fn set_solver_objective(&mut self, id: u64, best: Option<ObjectiveValue>)
        requires
            old(self).wf(),
        ensures
            final(self).wf(),
            final(self)@ == (ManagerView {
                solvers: with_best(old(self)@.solvers, id, best),
                ..old(self)@
            }),
    {
        let i = self.find(id);
        if i < self.solvers.len() {
            let pid = self.solvers[i].process.pid;
            proof {
                lemma_with_slot(
                    self@.solvers,
                    id,
                    SolverProcess { pid, best_objective: best },
                );
            }
            self.solvers.set(
                i,
                ProcessEntry { id, process: SolverProcess { pid, best_objective: best } },
            );
        }
    }

    /// Takes one event of the merged stream: the single place where the
    /// published bound changes.
    pub fn receive(&mut self, msg: &Output) -> (r: Reaction)
        ensures
            final(self)@ == (ManagerView {
                best_objective: receive_step(
                    old(self)@.objective_type,
                    old(self)@.best_objective,
                    msg@,
                ).0,
                ..old(self)@
            }),
            r@ == receive_step(old(self)@.objective_type, old(self)@.best_objective, msg@).1,
    {
        match msg {
            Output::Solution(sol) => match sol.objective {
                Some(o) => {
                    if self.objective_type.is_better(self.best_objective, o) {
                        self.best_objective = Some(o);
                        Reaction {
                            print: Some(trim_end(sol.solution.as_str())),
                            cancel: false,
                            finished: false,
                        }
                    } else {
                        Reaction { print: None, cancel: false, finished: false }
                    }
                },
                None => Reaction {
                    print: Some(trim_end(sol.solution.as_str())),
                    cancel: true,
                    finished: false,
                },
            },
            Output::Status(status) => {
                if status.is_terminal() {
                    Reaction {
                        print: Some(status.to_dzn_string().to_owned()),
                        cancel: true,
                        finished: true,
                    }
                } else {
                    Reaction { print: None, cancel: false, finished: false }
                }
            },
        }
    }

    /// Each of `ids` that has a record, with the memory of its process
    /// tree before it: the largest first, and in the order of `ids` where
    /// two hold as much.
    pub fn solvers_sorted_by_mem(&self, ids: &Vec<u64>, table: &ProcessTable) -> (r: Vec<(u64, u64)>)
        ensures
            r@ == sort_desc(measured(self@.solvers, ids@, table@)),
    {
        let mut r: Vec<(u64, u64)> = Vec::new();
        let mut i: usize = 0;
        while i < ids.len()
            invariant
                0 <= i <= ids.len(),
                r@ == sort_desc(measured(self@.solvers, ids@.take(i as int), table@)),
            decreases ids.len() - i,
        {
            assert(ids@.take(i + 1).drop_last() =~= ids@.take(i as int));
            match self.get_process(ids[i]) {
                Some(p) => {
                    let x = (get_process_tree_memory(table, p.pid), ids[i]);
                    let mut at: usize = r.len();
                    while at > 0 && r[at - 1].0 < x.0
                        invariant
                            0 <= at <= r.len(),
                            forall|k: int| at <= k < r.len() ==> r@[k].0 < x.0,
                        decreases at,
                    {
                        at -= 1;
                    }
                    proof {
                        lemma_insert_desc_at(r@, x, at as int);
                        let m = measured(self@.solvers, ids@.take(i + 1), table@);
                        assert(m.drop_last() =~= measured(self@.solvers, ids@.take(i as int), table@));
                    }
                    r.insert(at, x);
                },
                None => {},
            }
            i += 1;
        }
        assert(ids@.take(i as int) =~= ids@);
        r
    }

    /// The bound that a solver started now is held to.
    pub fn bound_to_inject(&self) -> (bound: Option<ObjectiveValue>)
        ensures
            bound == injected_bound(self@),
    {
        match self.objective_type {
            ObjectiveType::Satisfy => None,
            _ => self.best_objective,
        }
    }

    /// The direction of the objective.
    pub fn objective_type(&self) -> (t: ObjectiveType)
        ensures
            t == self@.objective_type,
    {
        self.objective_type
    }

    /// The bound published for the run.
    pub fn get_best_objective(&self) -> (b: Option<ObjectiveValue>)
        ensures
            b == self@.best_objective,
    {
        self.best_objective
    }

    /// Where the record under `id` stands.
    fn find(&self, id: u64) -> (i: usize)
        ensures
            i == slot_index(self@.solvers, id),
            i <= self@.solvers.len(),
    {
        let mut i: usize = 0;
        while i < self.solvers.len() && self.solvers[i].id != id
            invariant
                0 <= i <= self.solvers.len(),
                forall|k: int| 0 <= k < i ==> (#[trigger] self.solvers@[k]).id != id,
            decreases self.solvers.len() - i,
        {
            i += 1;
        }
        proof {
            lemma_slot_index_unique(self@.solvers, id, i as int);
        }
        i
    }

    /// The record under `id`.
    pub fn get_process(&self, id: u64) -> (p: Option<SolverProcess>)
        ensures
            p == process_of(self@.solvers, id),
    {
        let i = self.find(id);
        if i < self.solvers.len() {
            Some(self.solvers[i].process)
        } else {
            None
        }
    }

    /// Whether a process is recorded under `id`.
    pub fn is_active(&self, id: u64) -> (b: bool)
        ensures
            b == has_process(self@.solvers, id),
    {
        proof {
            lemma_slot_index(self@.solvers, id);
        }
        self.find(id) < self.solvers.len()
    }

    /// The slots that have a live process, oldest first.
    pub fn active_solver_ids(&self) -> (ids: Vec<u64>)
        ensures
            ids@ == slot_seq(self@.solvers),
    {
        let mut ids: Vec<u64> = Vec::new();
        let mut i: usize = 0;
        while i < self.solvers.len()
            invariant
                0 <= i <= self.solvers.len(),
                ids@ == self@.solvers.take(i as int).map_values(|e: ProcessEntry| e.id),
            decreases self.solvers.len() - i,
        {
            ids.push(self.solvers[i].id);
            assert(self@.solvers.take(i + 1).map_values(|e: ProcessEntry| e.id)
                =~= self@.solvers.take(i as int).map_values(|e: ProcessEntry| e.id).push(
                self@.solvers[i as int].id,
            ));
            i += 1;
        }
        assert(self@.solvers.take(i as int) =~= self@.solvers);
        ids
    }

    /// Each live slot with the best bound that its solver has reached.
    pub fn get_solver_objectives(&self) -> (r: Vec<(u64, Option<ObjectiveValue>)>)
        ensures
            r@ == self@.solvers.map_values(|e: ProcessEntry| (e.id, e.process.best_objective)),
    {
        let mut r: Vec<(u64, Option<ObjectiveValue>)> = Vec::new();
        let mut i: usize = 0;
        while i < self.solvers.len()
            invariant
                0 <= i <= self.solvers.len(),
                r@ == self@.solvers.take(i as int).map_values(
                    |e: ProcessEntry| (e.id, e.process.best_objective),
                ),
            decreases self.solvers.len() - i,
        {
            r.push((self.solvers[i].id, self.solvers[i].process.best_objective));
            assert(self@.solvers.take(i + 1).map_values(
                |e: ProcessEntry| (e.id, e.process.best_objective),
            ) =~= self@.solvers.take(i as int).map_values(
                |e: ProcessEntry| (e.id, e.process.best_objective),
            ).push((self@.solvers[i as int].id, self@.solvers[i as int].process.best_objective)));
            i += 1;
        }
        assert(self@.solvers.take(i as int) =~= self@.solvers);
        r
    }
}

/// The bound that a solver started now is held to: the published bound,
/// unless the problem has no objective.
pub open spec fn injected_bound(m: ManagerView) -> Option<ObjectiveValue> {
    match m.objective_type {
        ObjectiveType::Satisfy => None,
        _ => m.best_objective,
    }
}

impl SolverProcess {
    /// What giving up a record owes its process group: a request to
    /// terminate, then one to continue, so that a stopped group can act on
    /// the first. The group is killed after the grace period.
    pub fn release_orders(&self) -> (orders: Vec<SignalOrder>)
        ensures
            orders@ == seq![
                SignalOrder { pid: self.pid, signal: Signal::Terminate },
                SignalOrder { pid: self.pid, signal: Signal::Continue },
            ],
    {
        let mut orders: Vec<SignalOrder> = Vec::new();
        orders.push(SignalOrder { pid: self.pid, signal: Signal::Terminate });
        orders.push(SignalOrder { pid: self.pid, signal: Signal::Continue });
        orders
    }
}

} // verus!
