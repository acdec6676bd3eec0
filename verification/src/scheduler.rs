//! The scheduler: which solvers run, which are suspended, and how a desired
//! portfolio is reconciled with them.
pub mod assignment;
pub mod eviction;
pub mod laws;
pub mod reconcile;
pub mod slots;

pub use crate::scheduler::assignment::{Assignment, assign, lemma_assign, lemma_assign_same};
pub use crate::scheduler::eviction::{
    Eviction, UnfairPass, enforce_spec, evict_from, evict_one, evict_running, evict_suspended,
    evict_unfair, lemma_enforce_without_suspended, no_eviction, per_core_threshold, unfair,
};
pub use crate::scheduler::laws::{
    lemma_apply_again_is_noop, lemma_apply_runs_schedule, lemma_apply_slots_have_processes,
    lemma_apply_twice, lemma_identifiers_persist, lemma_suspend_then_resume,
};
pub use crate::scheduler::reconcile::{
    ApplyView, ChangesView, SchedulerView, apply_spec, behind, bound_step, categorize,
    lemma_dropped_valid, lemma_reconcile_valid, lemma_retained_valid, reconcile, valid_state,
};
pub use crate::scheduler::slots::{
    cores_under, distinct_ids, first_match, has_id, id_set, ids_below, ids_of, infos_of,
    lemma_concat_parts, lemma_first_match, lemma_first_match_unique, lemma_position_unique,
    lemma_retain, lemma_retain_all, lemma_retain_none, lemma_retain_twice, portfolio_view,
    position_of, retain, schedule_view, within,
};
use crate::config::{MemoryThreshold, is_over_threshold, lemma_product_fits};
use crate::model_parser::ObjectiveValue;
use crate::process_tree::ProcessTable;
use crate::solver_manager::{
    ManagerView, ProcessEntry, SolverManager, SolverProcess, slots_of, stop_each,
};
use vstd::prelude::*;

verus! {

/// What a portfolio asks for: a solver, the cores it is given, and the bound
/// it is to respect, if any.
#[derive(Debug, Clone, PartialEq, Eq)]
pub struct SolverInfo {
    pub name: String,
    pub cores: usize,
    pub objective: Option<ObjectiveValue>,
}

/// The model of [`SolverInfo`].
pub struct SolverInfoView {
    pub name: Seq<char>,
    pub cores: usize,
    pub objective: Option<ObjectiveValue>,
}

impl View for SolverInfo {
    type V = SolverInfoView;

    open spec fn view(&self) -> SolverInfoView {
        SolverInfoView { name: self.name@, cores: self.cores, objective: self.objective }
    }
}

impl SolverInfo {
    /// The entry for `name` on `cores` cores, with no bound.
    pub fn new(name: String, cores: usize) -> (info: Self)
        ensures
            info@ == (SolverInfoView { name: name@, cores, objective: None }),
    {
        Self { name, cores, objective: None }
    }

    /// The same entry, to respect `objective`.
    pub fn with_objective(self, objective: Option<ObjectiveValue>) -> (info: Self)
        ensures
            info@ == (SolverInfoView { name: self@.name, cores: self@.cores, objective }),
    {
        Self { name: self.name, cores: self.cores, objective }
    }

    /// Two entries are equal when all three fields are.
    pub fn same_as(&self, other: &SolverInfo) -> (b: bool)
        ensures
            b == (self@ == other@),
    {
        let same_objective = match (self.objective, other.objective) {
            (None, None) => true,
            (Some(a), Some(b)) => a == b,
            _ => false,
        };
        self.name == other.name && self.cores == other.cores && same_objective
    }

    /// A copy of this entry.
    pub fn duplicate(&self) -> (info: Self)
        ensures
            info@ == self@,
    {
        Self { name: self.name.clone(), cores: self.cores, objective: self.objective }
    }
}

/// A slot: an entry of a portfolio under the identifier that the scheduler
/// gave it.
#[derive(Debug, Clone, PartialEq, Eq)]
pub struct ScheduleElement {
    pub id: u64,
    pub info: SolverInfo,
}

/// The model of [`ScheduleElement`].
pub struct ElementView {
    pub id: u64,
    pub info: SolverInfoView,
}

impl View for ScheduleElement {
    type V = ElementView;

    open spec fn view(&self) -> ElementView {
        ElementView { id: self.id, info: self.info@ }
    }
}

impl ScheduleElement {
    /// The slot `id` for `solver` on `cores` cores.
    pub fn new(id: u64, solver: String, cores: usize) -> (elem: Self)
        ensures
            elem@ == (ElementView {
                id,
                info: SolverInfoView { name: solver@, cores, objective: None },
            }),
    {
        Self { id, info: SolverInfo::new(solver, cores) }
    }

    /// A copy of this slot.
    pub fn duplicate(&self) -> (elem: Self)
        ensures
            elem@ == self@,
    {
        Self { id: self.id, info: self.info.duplicate() }
    }
}

/// The desired solvers, in the order in which identifiers are given out.
pub type Portfolio = Vec<SolverInfo>;

/// A portfolio with its identifiers.
pub type Schedule = Vec<ScheduleElement>;

/// What reconciling asks of the solver manager.
#[derive(Debug)]
pub struct ScheduleChanges {
    pub to_start: Schedule,
    pub to_suspend: Vec<u64>,
    pub to_resume: Vec<u64>,
}

impl View for ScheduleChanges {
    type V = ChangesView;

    open spec fn view(&self) -> ChangesView {
        ChangesView {
            to_start: schedule_view(self.to_start@),
            to_suspend: self.to_suspend@,
            to_resume: self.to_resume@,
        }
    }
}

/// Whether some slot of `v` has the identifier `id`.
pub fn contains_id(v: &Vec<ScheduleElement>, id: u64) -> (b: bool)
    ensures
        b == has_id(schedule_view(v@), id),
{
    let mut i: usize = 0;
    while i < v.len()
        invariant
            0 <= i <= v.len(),
            forall|k: int| 0 <= k < i ==> (#[trigger] schedule_view(v@)[k]).id != id,
        decreases v.len() - i,
    {
        if v[i].id == id {
            assert(schedule_view(v@)[i as int].id == id);
            return true;
        }
        i += 1;
    }
    false
}

/// The slots of `v` whose identifier is, or is not, among `ids`.
fn select_ids(v: &Vec<ScheduleElement>, ids: &Vec<u64>, inside: bool) -> (r: Vec<ScheduleElement>)
    ensures
        schedule_view(r@) == retain(
            schedule_view(v@),
            if inside {
                ids@.to_set()
            } else {
                ids@.to_set().complement()
            },
        ),
{
    let ghost keep = if inside {
        ids@.to_set()
    } else {
        ids@.to_set().complement()
    };
    let ghost sv = schedule_view(v@);
    let mut r: Vec<ScheduleElement> = Vec::new();
    let mut i: usize = 0;
    assert(schedule_view(r@) =~= retain(sv.take(0), keep));
    while i < v.len()
        invariant
            0 <= i <= v.len(),
            sv == schedule_view(v@),
            keep == (if inside {
                ids@.to_set()
            } else {
                ids@.to_set().complement()
            }),
            schedule_view(r@) == retain(sv.take(i as int), keep),
        decreases v.len() - i,
    {
        assert(sv.take(i + 1).drop_last() =~= sv.take(i as int));
        let mut found = false;
        let mut j: usize = 0;
        while j < ids.len()
            invariant
                0 <= j <= ids.len(),
                i < v.len(),
                found <==> exists|k: int| 0 <= k < j && ids@[k] == v@[i as int].id,
            decreases ids.len() - j,
        {
            if ids[j] == v[i].id {
                found = true;
            }
            j += 1;
        }
        assert(found == ids@.contains(v@[i as int].id));
        if found == inside {
            let ghost before = schedule_view(r@);
            r.push(v[i].duplicate());
            assert(schedule_view(r@) =~= before.push(sv[i as int]));
        }
        i += 1;
    }
    assert(sv.take(i as int) =~= sv);
    r
}

/// The slots of `v` whose identifier is not among `ids`.
fn drop_ids(v: &Vec<ScheduleElement>, ids: &Vec<u64>) -> (r: Vec<ScheduleElement>)
    ensures
        schedule_view(r@) == retain(schedule_view(v@), ids@.to_set().complement()),
{
    select_ids(v, ids, false)
}

/// The slots of `v` that have a live process.
fn keep_alive(v: &Vec<ScheduleElement>, manager: &SolverManager) -> (r: Vec<ScheduleElement>)
    ensures
        schedule_view(r@) == retain(schedule_view(v@), slots_of(manager@.solvers)),
{
    let ghost keep = slots_of(manager@.solvers);
    let ghost sv = schedule_view(v@);
    let mut r: Vec<ScheduleElement> = Vec::new();
    let mut i: usize = 0;
    assert(schedule_view(r@) =~= retain(sv.take(0), keep));
    while i < v.len()
        invariant
            0 <= i <= v.len(),
            sv == schedule_view(v@),
            keep == slots_of(manager@.solvers),
            schedule_view(r@) == retain(sv.take(i as int), keep),
        decreases v.len() - i,
    {
        assert(sv.take(i + 1).drop_last() =~= sv.take(i as int));
        if manager.is_active(v[i].id) {
            let ghost before = schedule_view(r@);
            r.push(v[i].duplicate());
            assert(schedule_view(r@) =~= before.push(sv[i as int]));
        }
        i += 1;
    }
    assert(sv.take(i as int) =~= sv);
    r
}

/// The slots of `v` whose identifier is, or is not, one of `other`.
fn select_by(v: &Vec<ScheduleElement>, other: &Vec<ScheduleElement>, inside: bool) -> (r: Vec<
    ScheduleElement,
>)
    ensures
        schedule_view(r@) == retain(
            schedule_view(v@),
            if inside {
                id_set(schedule_view(other@))
            } else {
                id_set(schedule_view(other@)).complement()
            },
        ),
{
    let ghost keep = if inside {
        id_set(schedule_view(other@))
    } else {
        id_set(schedule_view(other@)).complement()
    };
    let ghost sv = schedule_view(v@);
    let mut r: Vec<ScheduleElement> = Vec::new();
    let mut i: usize = 0;
    assert(schedule_view(r@) =~= retain(sv.take(0), keep));
    while i < v.len()
        invariant
            0 <= i <= v.len(),
            sv == schedule_view(v@),
            keep == (if inside {
                id_set(schedule_view(other@))
            } else {
                id_set(schedule_view(other@)).complement()
            }),
            schedule_view(r@) == retain(sv.take(i as int), keep),
        decreases v.len() - i,
    {
        assert(sv.take(i + 1).drop_last() =~= sv.take(i as int));
        if contains_id(other, v[i].id) == inside {
            let ghost before = schedule_view(r@);
            r.push(v[i].duplicate());
            assert(schedule_view(r@) =~= before.push(sv[i as int]));
        }
        i += 1;
    }
    assert(sv.take(i as int) =~= sv);
    r
}

/// The identifiers of `v`, in order.
fn ids_in(v: &Vec<ScheduleElement>) -> (r: Vec<u64>)
    ensures
        r@ == ids_of(schedule_view(v@)),
{
    let mut r: Vec<u64> = Vec::new();
    let mut i: usize = 0;
    while i < v.len()
        invariant
            0 <= i <= v.len(),
            r@ == ids_of(schedule_view(v@)).take(i as int),
        decreases v.len() - i,
    {
        r.push(v[i].id);
        assert(ids_of(schedule_view(v@)).take(i + 1) =~= ids_of(schedule_view(v@)).take(
            i as int,
        ).push(v@[i as int].id));
        i += 1;
    }
    assert(ids_of(schedule_view(v@)).take(i as int) =~= ids_of(schedule_view(v@)));
    r
}

/// The scheduler of one run.
#[derive(Debug)]
pub struct Scheduler {
    running: Vec<ScheduleElement>,
    suspended: Vec<ScheduleElement>,
    next_id: u64,
    prev_objective: Option<ObjectiveValue>,
}

impl View for Scheduler {
    type V = SchedulerView;

    closed spec fn view(&self) -> SchedulerView {
        SchedulerView {
            running: schedule_view(self.running@),
            suspended: schedule_view(self.suspended@),
            next_id: self.next_id,
            prev_objective: self.prev_objective,
        }
    }
}

/// Gives out identifiers for `portfolio` over the slots of `pool`.
fn assign_over(pool: Vec<ScheduleElement>, next_id: u64, portfolio: &Vec<SolverInfo>) -> (r: (
    Schedule,
    u64,
))
    requires
        distinct_ids(schedule_view(pool@)),
        ids_below(schedule_view(pool@), next_id as int),
        next_id + portfolio.len() <= u64::MAX,
    ensures
        schedule_view(r.0@) == assign(
            schedule_view(pool@),
            next_id as int,
            portfolio_view(portfolio@),
        ).schedule,
        r.1 == assign(schedule_view(pool@), next_id as int, portfolio_view(portfolio@)).next_id,
{
    let ghost pool0 = schedule_view(pool@);
    let ghost pv = portfolio_view(portfolio@);
    let mut pool = pool;
    let mut next = next_id;
    let mut schedule: Vec<ScheduleElement> = Vec::new();
    let mut k: usize = 0;
    assert(schedule_view(schedule@) =~= Seq::<ElementView>::empty());
    while k < portfolio.len()
        invariant
            0 <= k <= portfolio.len(),
            pv == portfolio_view(portfolio@),
            distinct_ids(pool0),
            ids_below(pool0, next_id as int),
            next_id + portfolio.len() <= u64::MAX,
            schedule_view(schedule@) == assign(pool0, next_id as int, pv.take(k as int)).schedule,
            schedule_view(pool@) == assign(pool0, next_id as int, pv.take(k as int)).pool,
            next == assign(pool0, next_id as int, pv.take(k as int)).next_id,
        decreases portfolio.len() - k,
    {
        proof {
            assert(pv.take(k + 1).drop_last() =~= pv.take(k as int));
            lemma_assign(pool0, next_id as int, pv.take(k as int));
        }
        let info = portfolio[k].duplicate();
        assert(info@ == pv[k as int]);
        let mut i: usize = 0;
        while i < pool.len() && !info.same_as(&pool[i].info)
            invariant
                0 <= i <= pool.len(),
                forall|j: int| 0 <= j < i ==> (#[trigger] schedule_view(pool@)[j]).info != info@,
            decreases pool.len() - i,
        {
            i += 1;
        }
        proof {
            lemma_first_match_unique(schedule_view(pool@), info@, i as int);
        }
        let ghost sched_before = schedule_view(schedule@);
        let ghost pool_before = schedule_view(pool@);
        if i < pool.len() {
            let taken = pool.remove(i);
            assert(schedule_view(pool@) =~= pool_before.remove(i as int));
            schedule.push(ScheduleElement { id: taken.id, info });
            assert(schedule_view(schedule@) =~= sched_before.push(
                ElementView { id: pool_before[i as int].id, info: info@ },
            ));
        } else {
            schedule.push(ScheduleElement { id: next, info });
            assert(schedule_view(schedule@) =~= sched_before.push(
                ElementView { id: next, info: info@ },
            ));
            next = next + 1;
        }
        k += 1;
    }
    assert(pv.take(k as int) =~= pv);
    (schedule, next)
}

/// Gives up the slot of `entry`.
fn evict_entry(
    manager: &mut SolverManager,
    entry: (u64, u64),
    used: u64,
    victims: &mut Vec<u64>,
    stopped: &mut Vec<SolverProcess>,
) -> (left: u64)
    requires
        old(manager).wf(),
    ensures
        final(manager).wf(),
        ({
            let e = evict_one(
                Eviction {
                    solvers: old(manager)@.solvers,
                    used,
                    victims: old(victims)@,
                    stopped: old(stopped)@,
                },
                entry,
            );
            &&& final(manager)@ == (ManagerView { solvers: e.solvers, ..old(manager)@ })
            &&& left == e.used
            &&& final(victims)@ == e.victims
            &&& final(stopped)@ == e.stopped
        }),
{
    victims.push(entry.1);
    match manager.stop_solver(entry.1) {
        Ok(p) => {
            stopped.push(p);
            if used >= entry.0 {
                used - entry.0
            } else {
                0
            }
        },
        Err(_) => used,
    }
}

/// Gives up the slots of `ranked`, one after another, for as long as the
/// memory in use is over the threshold.
fn evict_while_over(
    manager: &mut SolverManager,
    ranked: &Vec<(u64, u64)>,
    used: u64,
    total: u64,
    threshold: MemoryThreshold,
    victims: &mut Vec<u64>,
    stopped: &mut Vec<SolverProcess>,
) -> (left: u64)
    requires
        old(manager).wf(),
    ensures
        final(manager).wf(),
        ({
            let e = evict_from(
                ranked@,
                0,
                total,
                threshold,
                Eviction {
                    solvers: old(manager)@.solvers,
                    used,
                    victims: old(victims)@,
                    stopped: old(stopped)@,
                },
            );
            &&& final(manager)@ == (ManagerView { solvers: e.solvers, ..old(manager)@ })
            &&& left == e.used
            &&& final(victims)@ == e.victims
            &&& final(stopped)@ == e.stopped
        }),
{
    let ghost start = Eviction {
        solvers: manager@.solvers,
        used,
        victims: victims@,
        stopped: stopped@,
    };
    let mut left = used;
    let mut k: usize = 0;
    while k < ranked.len() && is_over_threshold(left, total, threshold)
        invariant
            0 <= k <= ranked.len(),
            manager.wf(),
            manager@ == (ManagerView { solvers: manager@.solvers, ..old(manager)@ }),
            evict_from(
                ranked@,
                k as int,
                total,
                threshold,
                Eviction {
                    solvers: manager@.solvers,
                    used: left,
                    victims: victims@,
                    stopped: stopped@,
                },
            ) == evict_from(ranked@, 0, total, threshold, start),
        decreases ranked.len() - k,
    {
        left = evict_entry(manager, ranked[k], left, victims, stopped);
        k += 1;
    }
    left
}

/// The memory limit that `text` sets, in bytes: `text` gives it in MiB. No
/// text, or text that is no number, sets none, which 0 stands for. A limit
/// beyond the largest number is that number.
pub open spec fn memory_limit_of(text: Option<Seq<char>>) -> u64 {
    match text {
        None => 0,
        Some(t) => match crate::text::parse_u64(t) {
            None => 0,
            Some(mib) => if mib * 0x10_0000 <= u64::MAX {
                (mib * 0x10_0000) as u64
            } else {
                u64::MAX
            },
        },
    }
}

/// The memory limit that `text` sets, in bytes.
pub fn memory_limit(text: Option<&str>) -> (limit: u64)
    ensures
        limit == memory_limit_of(
            match text {
                Some(t) => Some(t@),
                None => None,
            },
        ),
{
    match text {
        None => 0,
        Some(t) => {
            let v = crate::text::chars_of(t);
            assert(v@.subrange(0, v.len() as int) =~= t@);
            match crate::text::read_u64(&v, 0, v.len()) {
                None => 0,
                Some(mib) => {
                    if mib <= 0xfff_ffff_ffff {
                        mib * 0x10_0000
                    } else {
                        u64::MAX
                    }
                },
            }
        },
    }
}

/// The memory that counts as all there is: the limit where one is set,
/// else what the system has.
pub fn get_memory_usage(used: u64, system_total: u64, memory_limit: u64) -> (r: (u64, u64))
    ensures
        r.0 == used,
        r.1 == (if memory_limit > 0 {
            memory_limit
        } else {
            system_total
        }),
{
    if memory_limit > 0 {
        (used, memory_limit)
    } else {
        (used, system_total)
    }
}

/// Whether two bounds are the same.
fn same_bound(a: Option<ObjectiveValue>, b: Option<ObjectiveValue>) -> (r: bool)
    ensures
        r == (a == b),
{
    match (a, b) {
        (None, None) => true,
        (Some(x), Some(y)) => x == y,
        _ => false,
    }
}

impl Scheduler {
    /// No slot is both running and suspended or occurs twice, and every
    /// slot is below the counter.
    pub open spec fn wf(&self) -> bool {
        valid_state(self@)
    }

    /// A scheduler with no slot, which has seen no bound.
    pub fn new() -> (s: Self)
        ensures
            s.wf(),
            s@ == (SchedulerView {
                running: Seq::empty(),
                suspended: Seq::empty(),
                next_id: 0,
                prev_objective: None,
            }),
    {
        let s = Scheduler {
            running: Vec::new(),
            suspended: Vec::new(),
            next_id: 0,
            prev_objective: None,
        };
        assert(s@.running =~= Seq::empty());
        assert(s@.suspended =~= Seq::empty());
        s
    }

    /// The next identifier to give out.
    pub fn next_id(&self) -> (n: u64)
        ensures
            n == self@.next_id,
    {
        self.next_id
    }

    /// The slots whose solvers run.
    pub fn running(&self) -> (r: Schedule)
        ensures
            schedule_view(r@) == self@.running,
    {
        proof {
            lemma_retain_all(self@.running, Set::<u64>::empty().complement());
        }
        let none: Vec<u64> = Vec::new();
        assert(none@.to_set() =~= Set::<u64>::empty());
        drop_ids(&self.running, &none)
    }

    /// The slots whose solvers are suspended.
    pub fn suspended(&self) -> (r: Schedule)
        ensures
            schedule_view(r@) == self@.suspended,
    {
        proof {
            lemma_retain_all(self@.suspended, Set::<u64>::empty().complement());
        }
        let none: Vec<u64> = Vec::new();
        assert(none@.to_set() =~= Set::<u64>::empty());
        drop_ids(&self.suspended, &none)
    }

    /// Gives each entry of `portfolio` an identifier: that of the first
    /// running or suspended slot with an equal entry that no earlier entry
    /// took, or a new one.
    pub fn assign_ids(&mut self, portfolio: &Portfolio) -> (schedule: Schedule)
        requires
            old(self).wf(),
            old(self)@.next_id + portfolio.len() <= u64::MAX,
        ensures
            final(self).wf(),
            schedule_view(schedule@) == assign(
                old(self)@.running + old(self)@.suspended,
                old(self)@.next_id as int,
                portfolio_view(portfolio@),
            ).schedule,
            final(self)@ == (SchedulerView {
                next_id: assign(
                    old(self)@.running + old(self)@.suspended,
                    old(self)@.next_id as int,
                    portfolio_view(portfolio@),
                ).next_id as u64,
                ..old(self)@
            }),
    {
        let mut pool: Vec<ScheduleElement> = Vec::new();
        let mut i: usize = 0;
        assert(schedule_view(pool@) =~= self@.running.take(0));
        while i < self.running.len()
            invariant
                0 <= i <= self.running.len(),
                schedule_view(pool@) == self@.running.take(i as int),
            decreases self.running.len() - i,
        {
            let ghost before = schedule_view(pool@);
            pool.push(self.running[i].duplicate());
            assert(schedule_view(pool@) =~= before.push(self@.running[i as int]));
            assert(self@.running.take(i + 1) =~= self@.running.take(i as int).push(
                self@.running[i as int],
            ));
            i += 1;
        }
        assert(self@.running.take(i as int) =~= self@.running);
        let mut j: usize = 0;
        assert(schedule_view(pool@) =~= self@.running + self@.suspended.take(0));
        while j < self.suspended.len()
            invariant
                0 <= j <= self.suspended.len(),
                schedule_view(pool@) == self@.running + self@.suspended.take(j as int),
            decreases self.suspended.len() - j,
        {
            let ghost before = schedule_view(pool@);
            pool.push(self.suspended[j].duplicate());
            assert(schedule_view(pool@) =~= before.push(self@.suspended[j as int]));
            assert(self@.suspended.take(j + 1) =~= self@.suspended.take(j as int).push(
                self@.suspended[j as int],
            ));
            assert(before.push(self@.suspended[j as int]) =~= self@.running + self@.suspended.take(
                j + 1,
            ));
            j += 1;
        }
        assert(self@.suspended.take(j as int) =~= self@.suspended);
        proof {
            lemma_assign(
                self@.running + self@.suspended,
                self@.next_id as int,
                portfolio_view(portfolio@),
            );
        }
        let (schedule, next) = assign_over(pool, self.next_id, portfolio);
        self.next_id = next;
        schedule
    }

    /// Forgets the slots whose process is gone.
    pub fn remove_exited_solvers(&mut self, manager: &SolverManager)
        requires
            old(self).wf(),
        ensures
            final(self).wf(),
            final(self)@ == (SchedulerView {
                running: retain(old(self)@.running, slots_of(manager@.solvers)),
                suspended: retain(old(self)@.suspended, slots_of(manager@.solvers)),
                ..old(self)@
            }),
    {
        proof {
            lemma_retained_valid(self@, slots_of(manager@.solvers));
        }
        self.running = keep_alive(&self.running, manager);
        self.suspended = keep_alive(&self.suspended, manager);
    }

    /// Looks at the published bound. Where it differs from the one seen
    /// last, it is noted, and every solver that is behind it is taken out of
    /// the manager and the state; the records taken out are handed back.
    pub fn restart_behind(&mut self, manager: &mut SolverManager) -> (stopped: Vec<SolverProcess>)
        requires
            old(self).wf(),
            old(manager).wf(),
        ensures
            final(self).wf(),
            final(manager).wf(),
            final(self)@ == bound_step(old(self)@, old(manager)@).0,
            final(manager)@ == (ManagerView {
                solvers: bound_step(old(self)@, old(manager)@).1,
                ..old(manager)@
            }),
            stopped@ == bound_step(old(self)@, old(manager)@).2,
    {
        let best = manager.get_best_objective();
        if same_bound(best, self.prev_objective) {
            return Vec::new();
        }
        self.prev_objective = best;
        match best {
            None => Vec::new(),
            Some(bound) => {
                let t = manager.objective_type();
                let objectives = manager.get_solver_objectives();
                let ghost solvers = manager@.solvers;
                let mut late: Vec<u64> = Vec::new();
                let mut i: usize = 0;
                while i < objectives.len()
                    invariant
                        0 <= i <= objectives.len(),
                        objectives@ == solvers.map_values(
                            |e: ProcessEntry| (e.id, e.process.best_objective),
                        ),
                        late@ == behind(t, solvers.take(i as int), bound),
                    decreases objectives.len() - i,
                {
                    assert(solvers.take(i + 1).drop_last() =~= solvers.take(i as int));
                    assert(objectives@[i as int] == (
                        solvers[i as int].id,
                        solvers[i as int].process.best_objective,
                    ));
                    if t.is_better(objectives[i].1, bound) {
                        late.push(objectives[i].0);
                    }
                    i += 1;
                }
                assert(solvers.take(i as int) =~= solvers);
                proof {
                    lemma_retained_valid(old(self)@, late@.to_set().complement());
                }
                let (stopped, _errors) = manager.stop_solvers(&late);
                self.running = drop_ids(&self.running, &late);
                self.suspended = drop_ids(&self.suspended, &late);
                stopped
            },
        }
    }

    /// Makes `schedule` what runs: the running slots that it lacks join the
    /// suspended ones, and the suspended slots that it holds leave them.
    pub fn apply_changes_to_state(&mut self, schedule: Schedule)
        ensures
            final(self)@ == (SchedulerView {
                running: schedule_view(schedule@),
                suspended: retain(
                    old(self)@.suspended,
                    id_set(schedule_view(schedule@)).complement(),
                ) + retain(old(self)@.running, id_set(schedule_view(schedule@)).complement()),
                ..old(self)@
            }),
    {
        let mut suspended = select_by(&self.suspended, &schedule, false);
        let mut moved = select_by(&self.running, &schedule, false);
        let ghost a = schedule_view(suspended@);
        let ghost b = schedule_view(moved@);
        suspended.append(&mut moved);
        assert(schedule_view(suspended@) =~= a + b);
        self.suspended = suspended;
        self.running = schedule;
    }

    /// Applies `portfolio`. Solvers behind a new bound are taken out first;
    /// then the portfolio gets its identifiers, slots whose process is gone
    /// are forgotten, and the schedule becomes what runs. What is handed
    /// back is left to do: the records taken out, whose process groups are
    /// to be ended, and the slots to suspend, resume and start.
    pub fn apply(&mut self, portfolio: Portfolio, manager: &mut SolverManager) -> (r: (
        Vec<SolverProcess>,
        ScheduleChanges,
    ))
        requires
            old(self).wf(),
            old(manager).wf(),
            old(self)@.next_id + portfolio.len() <= u64::MAX,
        ensures
            final(self).wf(),
            final(manager).wf(),
            final(self)@ == apply_spec(old(self)@, old(manager)@, portfolio_view(portfolio@)).state,
            final(manager)@ == (ManagerView {
                solvers: apply_spec(old(self)@, old(manager)@, portfolio_view(portfolio@)).solvers,
                ..old(manager)@
            }),
            r.0@ == apply_spec(old(self)@, old(manager)@, portfolio_view(portfolio@)).stopped,
            r.1@ == apply_spec(old(self)@, old(manager)@, portfolio_view(portfolio@)).changes,
    {
        let stopped = self.restart_behind(manager);
        proof {
            lemma_reconcile_valid(self@, slots_of(manager@.solvers), portfolio_view(portfolio@));
        }
        let schedule = self.assign_ids(&portfolio);
        self.remove_exited_solvers(manager);
        let changes = self.categorize_schedule(&schedule);
        self.apply_changes_to_state(schedule);
        (stopped, changes)
    }

    /// The slots `ids` could not be started: they no longer run.
    pub fn start_failed(&mut self, ids: &Vec<u64>)
        requires
            old(self).wf(),
        ensures
            final(self).wf(),
            final(self)@ == (SchedulerView {
                running: retain(old(self)@.running, ids@.to_set().complement()),
                ..old(self)@
            }),
    {
        proof {
            lemma_dropped_valid(self@, ids@.to_set().complement(), Set::<u64>::full());
            lemma_retain_all(self@.suspended, Set::<u64>::full());
        }
        self.running = drop_ids(&self.running, ids);
    }

    /// The slots `ids` could not be suspended: they are stopped instead.
    /// They leave the suspended slots, and their records, as far as there
    /// are any, are taken out of the manager and handed back.
    pub fn suspend_failed(&mut self, manager: &mut SolverManager, ids: &Vec<u64>) -> (stopped: Vec<
        SolverProcess,
    >)
        requires
            old(self).wf(),
            old(manager).wf(),
        ensures
            final(self).wf(),
            final(manager).wf(),
            final(self)@ == (SchedulerView {
                suspended: retain(old(self)@.suspended, ids@.to_set().complement()),
                ..old(self)@
            }),
            final(manager)@ == (ManagerView {
                solvers: stop_each(old(manager)@.solvers, ids@).solvers,
                ..old(manager)@
            }),
            stopped@ == stop_each(old(manager)@.solvers, ids@).stopped,
    {
        proof {
            lemma_dropped_valid(self@, Set::<u64>::full(), ids@.to_set().complement());
            lemma_retain_all(self@.running, Set::<u64>::full());
        }
        self.suspended = drop_ids(&self.suspended, ids);
        manager.stop_solvers(ids).0
    }

    /// The slots `ids` could not be resumed: they count as lost and are
    /// started again. Their records, as far as there are any, are taken out
    /// of the manager and handed back with the slots to start, which keep
    /// running in the state.
    pub fn resume_failed(&mut self, manager: &mut SolverManager, ids: &Vec<u64>) -> (r: (
        Vec<SolverProcess>,
        Schedule,
    ))
        requires
            old(manager).wf(),
        ensures
            final(manager).wf(),
            final(self)@ == old(self)@,
            final(manager)@ == (ManagerView {
                solvers: stop_each(old(manager)@.solvers, ids@).solvers,
                ..old(manager)@
            }),
            r.0@ == stop_each(old(manager)@.solvers, ids@).stopped,
            schedule_view(r.1@) == retain(old(self)@.running, ids@.to_set()),
    {
        let again = select_ids(&self.running, ids, true);
        (manager.stop_solvers(ids).0, again)
    }

    /// Stops suspended solvers for their memory. `ranked` holds the
    /// suspended slots with the memory of each before it, the largest first.
    /// They are given up in that order until the memory in use is under the
    /// threshold or none is left; the memory of a solver that was stopped no
    /// longer counts as in use. What comes back is the memory still in use
    /// and the records taken out.
    pub fn kill_suspended_until_under_threshold(
        &mut self,
        manager: &mut SolverManager,
        ranked: &Vec<(u64, u64)>,
        used_memory: u64,
        total_memory: u64,
        threshold: MemoryThreshold,
    ) -> (r: (u64, Vec<SolverProcess>))
        requires
            old(self).wf(),
            old(manager).wf(),
        ensures
            final(self).wf(),
            final(manager).wf(),
            ({
                let e = evict_suspended(
                    ranked@,
                    old(manager)@.solvers,
                    used_memory,
                    total_memory,
                    threshold,
                );
                &&& final(self)@ == (SchedulerView {
                    suspended: retain(old(self)@.suspended, e.victims.to_set().complement()),
                    ..old(self)@
                })
                &&& final(manager)@ == (ManagerView { solvers: e.solvers, ..old(manager)@ })
                &&& r.0 == e.used
                &&& r.1@ == e.stopped
            }),
    {
        let mut victims: Vec<u64> = Vec::new();
        let mut stopped: Vec<SolverProcess> = Vec::new();
        let left = evict_while_over(
            manager,
            ranked,
            used_memory,
            total_memory,
            threshold,
            &mut victims,
            &mut stopped,
        );
        proof {
            lemma_dropped_valid(self@, Set::<u64>::full(), victims@.to_set().complement());
            lemma_retain_all(self@.running, Set::<u64>::full());
        }
        self.suspended = drop_ids(&self.suspended, &victims);
        (left, stopped)
    }

    /// The cores that the running solvers have in all, if the sum fits.
    fn running_cores(&self) -> (r: Option<u128>)
        ensures
            match r {
                Some(n) => n == crate::static_schedule::total_cores(infos_of(self@.running)),
                None => crate::static_schedule::total_cores(infos_of(self@.running)) > u128::MAX,
            },
    {
        let ghost pv = infos_of(self@.running);
        let mut sum: u128 = 0;
        let mut k: usize = 0;
        while k < self.running.len()
            invariant
                0 <= k <= self.running.len(),
                pv == infos_of(self@.running),
                sum == crate::static_schedule::total_cores(pv.take(k as int)),
            decreases self.running.len() - k,
        {
            assert(pv.take(k + 1).drop_last() =~= pv.take(k as int));
            assert(pv[k as int].cores == self.running@[k as int].info.cores);
            match sum.checked_add(self.running[k].info.cores as u128) {
                Some(next) => {
                    sum = next;
                },
                None => {
                    proof {
                        crate::static_schedule::lemma_total_cores_grows(pv, k + 1);
                    }
                    return None;
                },
            }
            k += 1;
        }
        assert(pv.take(k as int) =~= pv);
        Some(sum)
    }

    /// The cores of the running slot `id`.
    fn running_cores_of(&self, id: u64) -> (r: Option<usize>)
        ensures
            r == cores_under(self@.running, id),
    {
        let mut i: usize = 0;
        while i < self.running.len() && self.running[i].id != id
            invariant
                0 <= i <= self.running.len(),
                forall|k: int| 0 <= k < i ==> (#[trigger] self@.running[k]).id != id,
            decreases self.running.len() - i,
        {
            i += 1;
        }
        proof {
            lemma_position_unique(self@.running, id, i as int);
        }
        if i < self.running.len() {
            Some(self.running[i].info.cores)
        } else {
            None
        }
    }

    /// Stops running solvers for their memory. `ranked` holds the running
    /// slots with the memory of each before it, the largest first. Every
    /// solver that holds more than its share per core is given up,
    /// whatever the memory in use; then the others are, in that order,
    /// until the memory in use is under the threshold or none is left.
    /// What comes back is the memory still in use and the records taken out.
    pub fn kill_running_until_under_threshold(
        &mut self,
        manager: &mut SolverManager,
        ranked: &Vec<(u64, u64)>,
        used_memory: u64,
        total_memory: u64,
        threshold: MemoryThreshold,
    ) -> (r: (u64, Vec<SolverProcess>))
        requires
            old(self).wf(),
            old(manager).wf(),
            threshold.denominator > 0,
        ensures
            final(self).wf(),
            final(manager).wf(),
            ({
                let e = evict_running(
                    ranked@,
                    old(self)@.running,
                    old(manager)@.solvers,
                    used_memory,
                    total_memory,
                    threshold,
                );
                &&& final(self)@ == (SchedulerView {
                    running: retain(old(self)@.running, e.victims.to_set().complement()),
                    ..old(self)@
                })
                &&& final(manager)@ == (ManagerView { solvers: e.solvers, ..old(manager)@ })
                &&& r.0 == e.used
                &&& r.1@ == e.stopped
            }),
    {
        let ghost cores = crate::static_schedule::total_cores(infos_of(self@.running));
        let ghost limit = per_core_threshold(total_memory, cores, threshold);
        let mut victims: Vec<u64> = Vec::new();
        let mut stopped: Vec<SolverProcess> = Vec::new();
        let total_cores = self.running_cores();
        proof {
            lemma_product_fits(total_memory, threshold.numerator);
            lemma_dropped_valid(self@, Set::<u64>::empty().complement(), Set::<u64>::full());
            lemma_retain_all(self@.suspended, Set::<u64>::full());
            lemma_retain_all(self@.running, Set::<u64>::empty().complement());
        }
        let share: u128 = total_memory as u128 * threshold.numerator as u128;
        let per_core: u128 = match total_cores {
            Some(n) => {
                if n == 0 {
                    assert(victims@.to_set() =~= Set::<u64>::empty());
                    return (used_memory, stopped);
                }
                match n.checked_mul(threshold.denominator as u128) {
                    Some(d) => {
                        assert(d > 0) by (nonlinear_arith)
                            requires
                                d == n * threshold.denominator,
                                n > 0,
                                threshold.denominator > 0,
                        ;
                        share / d
                    },
                    None => {
                        assert(limit == 0) by (nonlinear_arith)
                            requires
                                limit == ((total_memory * threshold.numerator) / ((cores
                                    * threshold.denominator) as int)) as nat,
                                cores * threshold.denominator > u128::MAX,
                                0 <= total_memory * threshold.numerator <= u128::MAX,
                        ;
                        0
                    },
                }
            },
            None => {
                assert(limit == 0) by (nonlinear_arith)
                    requires
                        limit == ((total_memory * threshold.numerator) / ((cores
                            * threshold.denominator) as int)) as nat,
                        cores > u128::MAX,
                        threshold.denominator > 0,
                        0 <= total_memory * threshold.numerator <= u128::MAX,
                ;
                0
            },
        };
        assert(per_core == limit);
        let mut used = used_memory;
        let mut remaining: Vec<(u64, u64)> = Vec::new();
        let ghost start = UnfairPass {
            eviction: no_eviction(manager@.solvers, used_memory),
            remaining: Seq::empty(),
        };
        let mut k: usize = 0;
        while k < ranked.len()
            invariant
                0 <= k <= ranked.len(),
                manager.wf(),
                self@ == old(self)@,
                per_core == limit,
                manager@ == (ManagerView { solvers: manager@.solvers, ..old(manager)@ }),
                evict_unfair(
                    ranked@,
                    k as int,
                    self@.running,
                    limit,
                    UnfairPass {
                        eviction: Eviction {
                            solvers: manager@.solvers,
                            used,
                            victims: victims@,
                            stopped: stopped@,
                        },
                        remaining: remaining@,
                    },
                ) == evict_unfair(ranked@, 0, self@.running, limit, start),
            decreases ranked.len() - k,
        {
            let entry = ranked[k];
            match self.running_cores_of(entry.1) {
                None => {},
                Some(cores) => {
                    let more = if cores == 0 {
                        entry.0 > 0
                    } else {
                        (entry.0 / (cores as u64)) as u128 > per_core
                    };
                    if more {
                        used = evict_entry(manager, entry, used, &mut victims, &mut stopped);
                    } else {
                        remaining.push(entry);
                    }
                },
            }
            k += 1;
        }
        let left = evict_while_over(
            manager,
            &remaining,
            used,
            total_memory,
            threshold,
            &mut victims,
            &mut stopped,
        );
        proof {
            lemma_dropped_valid(self@, victims@.to_set().complement(), Set::<u64>::full());
        }
        self.running = drop_ids(&self.running, &victims);
        (left, stopped)
    }

    /// One round of the memory enforcer. `used_memory` of `total_memory`
    /// bytes are in use, and `table` is the process table at that moment.
    /// Slots whose process is gone are forgotten. Where the memory in use is
    /// over the threshold, suspended solvers are stopped, largest first, and
    /// then, if that was not enough, running ones. No solver is resumed.
    /// What comes back is the memory still in use and the records taken out.
    pub fn enforce_memory(
        &mut self,
        manager: &mut SolverManager,
        table: &ProcessTable,
        used_memory: u64,
        total_memory: u64,
        threshold: MemoryThreshold,
    ) -> (r: (u64, Vec<SolverProcess>))
        requires
            old(self).wf(),
            old(manager).wf(),
        ensures
            final(self).wf(),
            final(manager).wf(),
            ({
                let e = enforce_spec(
                    old(self)@,
                    old(manager)@.solvers,
                    table@,
                    used_memory,
                    total_memory,
                    threshold,
                );
                &&& final(self)@ == e.0
                &&& final(manager)@ == (ManagerView { solvers: e.1.solvers, ..old(manager)@ })
                &&& r.0 == e.1.used
                &&& r.1@ == e.1.stopped
            }),
    {
        self.remove_exited_solvers(manager);
        if !is_over_threshold(used_memory, total_memory, threshold) {
            return (used_memory, Vec::new());
        }
        assert(threshold.denominator > 0) by (nonlinear_arith)
            requires
                used_memory * threshold.denominator > total_memory * threshold.numerator,
                total_memory >= 0,
                threshold.numerator >= 0,
        ;
        let ranked = manager.solvers_sorted_by_mem(&ids_in(&self.suspended), table);
        let (used, mut stopped) = self.kill_suspended_until_under_threshold(
            manager,
            &ranked,
            used_memory,
            total_memory,
            threshold,
        );
        if !is_over_threshold(used, total_memory, threshold) {
            return (used, stopped);
        }
        let ranked = manager.solvers_sorted_by_mem(&ids_in(&self.running), table);
        let (left, mut more) = self.kill_running_until_under_threshold(
            manager,
            &ranked,
            used,
            total_memory,
            threshold,
        );
        stopped.append(&mut more);
        (left, stopped)
    }

    /// The difference between `schedule` and the state.
    pub fn categorize_schedule(&self, schedule: &Schedule) -> (changes: ScheduleChanges)
        ensures
            changes@ == categorize(schedule_view(schedule@), self@.running, self@.suspended),
    {
        let outside_running = select_by(schedule, &self.running, false);
        let to_start = select_by(&outside_running, &self.suspended, false);
        proof {
            lemma_retain_twice(
                schedule_view(schedule@),
                id_set(self@.running).complement(),
                id_set(self@.suspended).complement(),
            );
            assert(id_set(self@.running).complement().intersect(
                id_set(self@.suspended).complement(),
            ) =~= id_set(self@.running).union(id_set(self@.suspended)).complement());
        }
        let to_resume = ids_in(&select_by(schedule, &self.suspended, true));
        let to_suspend = ids_in(&select_by(&self.running, schedule, false));
        ScheduleChanges { to_start, to_suspend, to_resume }
    }
}

} // verus!
