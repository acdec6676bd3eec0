//! What applying a portfolio means for the state of the scheduler.
use crate::model_parser::{ObjectiveType, ObjectiveValue, better};
use crate::scheduler::{ElementView, SolverInfoView};
use crate::scheduler::assignment::{assign, lemma_assign};
use crate::scheduler::slots::{
    distinct_ids, id_set, ids_below, ids_of, lemma_concat_parts, lemma_retain, retain,
};
use crate::solver_manager::{ManagerView, ProcessEntry, SolverProcess, slots_of, stop_each};
use vstd::prelude::*;

verus! {

/// What the scheduler holds.
pub struct SchedulerView {
    /// The slots whose solvers run, in the order of the last portfolio.
    pub running: Seq<ElementView>,
    /// The slots whose solvers are stopped and can be resumed.
    pub suspended: Seq<ElementView>,
    /// The next identifier to give out.
    pub next_id: u64,
    /// The published bound when a portfolio was last applied.
    pub prev_objective: Option<ObjectiveValue>,
}

/// What reconciling asks of the solver manager.
pub struct ChangesView {
    /// The slots to start, in the order of the portfolio.
    pub to_start: Seq<ElementView>,
    /// The running slots that the portfolio does not ask for.
    pub to_suspend: Seq<u64>,
    /// The suspended slots that the portfolio asks for.
    pub to_resume: Seq<u64>,
}

/// No slot is both running and suspended or occurs twice, and every slot is
/// below the counter.
pub open spec fn valid_state(st: SchedulerView) -> bool {
    distinct_ids(st.running + st.suspended) && ids_below(st.running + st.suspended, st.next_id as int)
}

/// The difference between the schedule and the state: slots that are
/// neither running nor suspended start, suspended ones resume, and running
/// ones that the schedule lacks are suspended.
pub open spec fn categorize(
    schedule: Seq<ElementView>,
    running: Seq<ElementView>,
    suspended: Seq<ElementView>,
) -> ChangesView {
    ChangesView {
        to_start: retain(schedule, id_set(running).union(id_set(suspended)).complement()),
        to_suspend: ids_of(retain(running, id_set(schedule).complement())),
        to_resume: ids_of(retain(schedule, id_set(suspended))),
    }
}

/// Reconciling the state with a portfolio: identifiers are given out over
/// the slots known, slots whose process is gone are forgotten, and the
/// difference is taken. Afterwards the schedule is what runs.
pub open spec fn reconcile(st: SchedulerView, alive: Set<u64>, portfolio: Seq<SolverInfoView>) -> (
    SchedulerView,
    ChangesView,
) {
    let a = assign(st.running + st.suspended, st.next_id as int, portfolio);
    let running = retain(st.running, alive);
    let suspended = retain(st.suspended, alive);
    let undesired = id_set(a.schedule).complement();
    (
        SchedulerView {
            running: a.schedule,
            suspended: retain(suspended, undesired) + retain(running, undesired),
            next_id: a.next_id as u64,
            prev_objective: st.prev_objective,
        },
        categorize(a.schedule, running, suspended),
    )
}

/// Reconciling keeps the state valid.
pub proof fn lemma_reconcile_valid(
    st: SchedulerView,
    alive: Set<u64>,
    portfolio: Seq<SolverInfoView>,
)
    requires
        valid_state(st),
        st.next_id + portfolio.len() <= u64::MAX,
    ensures
        valid_state(reconcile(st, alive, portfolio).0),
        st.next_id <= reconcile(st, alive, portfolio).0.next_id <= st.next_id + portfolio.len(),
{
    let pool = st.running + st.suspended;
    let a = assign(pool, st.next_id as int, portfolio);
    lemma_assign(pool, st.next_id as int, portfolio);
    let running = retain(st.running, alive);
    let suspended = retain(st.suspended, alive);
    let undesired = id_set(a.schedule).complement();
    let s1 = retain(suspended, undesired);
    let s2 = retain(running, undesired);
    let after = reconcile(st, alive, portfolio).0;
    lemma_concat_parts(st.running, st.suspended);
    lemma_concat_parts(a.schedule, a.pool);
    lemma_retain(st.running, alive);
    lemma_retain(st.suspended, alive);
    lemma_retain(suspended, undesired);
    lemma_retain(running, undesired);
    lemma_concat_parts(s1, s2);
    lemma_concat_parts(a.schedule, s1 + s2);
    assert(ids_below(s1 + s2, a.next_id)) by {
        assert forall|i: int| 0 <= i < s1.len() implies (#[trigger] s1[i]).id < a.next_id by {
            assert(suspended.contains(s1[i]));
            let k = choose|k: int| 0 <= k < suspended.len() && suspended[k] == s1[i];
            assert(st.suspended.contains(suspended[k]));
            let j = choose|j: int| 0 <= j < st.suspended.len() && st.suspended[j] == suspended[k];
            assert(st.suspended[j].id < st.next_id);
        }
        assert forall|i: int| 0 <= i < s2.len() implies (#[trigger] s2[i]).id < a.next_id by {
            assert(running.contains(s2[i]));
            let k = choose|k: int| 0 <= k < running.len() && running[k] == s2[i];
            assert(st.running.contains(running[k]));
            let j = choose|j: int| 0 <= j < st.running.len() && st.running[j] == running[k];
            assert(st.running[j].id < st.next_id);
        }
    }
}

/// The slots of `solvers`, oldest first, whose solver is behind the bound
/// `best`: it has reached no bound, or `best` improves on the one it has.
pub open spec fn behind(t: ObjectiveType, solvers: Seq<ProcessEntry>, best: ObjectiveValue) -> Seq<
    u64,
>
    decreases solvers.len(),
{
    if solvers.len() == 0 {
        Seq::empty()
    } else if better(t, solvers.last().process.best_objective, best) {
        behind(t, solvers.drop_last(), best).push(solvers.last().id)
    } else {
        behind(t, solvers.drop_last(), best)
    }
}

/// What applying a portfolio comes to.
pub struct ApplyView {
    /// The scheduler afterwards.
    pub state: SchedulerView,
    /// The live records afterwards.
    pub solvers: Seq<ProcessEntry>,
    /// The records taken out because their solvers were behind the bound.
    pub stopped: Seq<SolverProcess>,
    /// What is left to do.
    pub changes: ChangesView,
}

/// The scheduler and the live records after the bound has been looked at:
/// where the published bound differs from the one seen last, it is noted,
/// and every solver behind it leaves both.
pub open spec fn bound_step(st: SchedulerView, m: ManagerView) -> (
    SchedulerView,
    Seq<ProcessEntry>,
    Seq<SolverProcess>,
) {
    if m.best_objective == st.prev_objective {
        (st, m.solvers, Seq::empty())
    } else {
        match m.best_objective {
            None => (
                SchedulerView { prev_objective: None, ..st },
                m.solvers,
                Seq::empty(),
            ),
            Some(best) => {
                let late = behind(m.objective_type, m.solvers, best);
                let out = stop_each(m.solvers, late);
                (
                    SchedulerView {
                        running: retain(st.running, late.to_set().complement()),
                        suspended: retain(st.suspended, late.to_set().complement()),
                        next_id: st.next_id,
                        prev_objective: Some(best),
                    },
                    out.solvers,
                    out.stopped,
                )
            },
        }
    }
}

/// Applying `portfolio`: the bound is looked at, then the state is
/// reconciled with the portfolio over the processes that are left.
pub open spec fn apply_spec(st: SchedulerView, m: ManagerView, portfolio: Seq<SolverInfoView>)
    -> ApplyView {
    let (st1, solvers, stopped) = bound_step(st, m);
    let (st2, changes) = reconcile(st1, slots_of(solvers), portfolio);
    ApplyView { state: st2, solvers, stopped, changes }
}

/// Forgetting running and suspended slots keeps the state valid.
pub proof fn lemma_dropped_valid(st: SchedulerView, keep_running: Set<u64>, keep_suspended: Set<u64>)
    requires
        valid_state(st),
    ensures
        valid_state(
            SchedulerView {
                running: retain(st.running, keep_running),
                suspended: retain(st.suspended, keep_suspended),
                ..st
            },
        ),
{
    let r = retain(st.running, keep_running);
    let u = retain(st.suspended, keep_suspended);
    lemma_concat_parts(st.running, st.suspended);
    lemma_retain(st.running, keep_running);
    lemma_retain(st.suspended, keep_suspended);
    lemma_concat_parts(r, u);
    assert forall|i: int| 0 <= i < r.len() implies (#[trigger] r[i]).id < st.next_id by {
        assert(st.running.contains(r[i]));
        let j = choose|j: int| 0 <= j < st.running.len() && st.running[j] == r[i];
        assert(st.running[j].id < st.next_id);
    }
    assert forall|i: int| 0 <= i < u.len() implies (#[trigger] u[i]).id < st.next_id by {
        assert(st.suspended.contains(u[i]));
        let j = choose|j: int| 0 <= j < st.suspended.len() && st.suspended[j] == u[i];
        assert(st.suspended[j].id < st.next_id);
    }
}

/// Forgetting slots keeps the state valid.
pub proof fn lemma_retained_valid(st: SchedulerView, keep: Set<u64>)
    requires
        valid_state(st),
    ensures
        valid_state(
            SchedulerView {
                running: retain(st.running, keep),
                suspended: retain(st.suspended, keep),
                ..st
            },
        ),
{
    lemma_dropped_valid(st, keep, keep);
}

} // verus!
