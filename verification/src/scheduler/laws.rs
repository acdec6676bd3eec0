//! What holds of every application of a portfolio.
use crate::scheduler::{ElementView, SolverInfoView};
use crate::scheduler::assignment::{assign, lemma_assign, lemma_assign_same};
use crate::scheduler::reconcile::{
    ApplyView, ChangesView, SchedulerView, apply_spec, behind, bound_step, lemma_reconcile_valid,
    lemma_retained_valid, reconcile, valid_state,
};
use crate::scheduler::slots::{
    has_id, id_set, ids_of, infos_of, lemma_concat_parts, lemma_retain, lemma_retain_all,
    lemma_retain_none, retain,
};
use crate::solver_manager::{ManagerView, slots_of};
use vstd::prelude::*;

verus! {

/// Identifiers persist and are never given twice: giving out identifiers
/// never lowers the counter, an entry that gets an identifier below the old
/// counter gets that of a known slot whose entry equals it in all three
/// fields, and every other entry gets an identifier that no slot has had.
pub proof fn lemma_identifiers_persist(st: SchedulerView, portfolio: Seq<SolverInfoView>, k: int)
    requires
        valid_state(st),
        st.next_id + portfolio.len() <= u64::MAX,
        0 <= k < portfolio.len(),
    ensures
        ({
            let pool = st.running + st.suspended;
            let a = assign(pool, st.next_id as int, portfolio);
            &&& st.next_id <= a.next_id
            &&& a.schedule.len() == portfolio.len()
            &&& a.schedule[k].info == portfolio[k]
            &&& a.schedule[k].id < a.next_id
            &&& a.schedule[k].id < st.next_id ==> pool.contains(
                ElementView { id: a.schedule[k].id, info: portfolio[k] },
            )
            &&& a.schedule[k].id >= st.next_id ==> !has_id(pool, a.schedule[k].id) && a.next_id
                > st.next_id
            &&& forall|j: int| 0 <= j < portfolio.len() && j != k ==> a.schedule[j].id != a.schedule[k].id
        }),
{
    let pool = st.running + st.suspended;
    let a = assign(pool, st.next_id as int, portfolio);
    lemma_assign(pool, st.next_id as int, portfolio);
    assert(infos_of(a.schedule)[k] == portfolio[k]);
    lemma_concat_parts(a.schedule, a.pool);
    assert((a.schedule + a.pool)[k] == a.schedule[k]);
    if a.schedule[k].id >= st.next_id {
        if has_id(pool, a.schedule[k].id) {
            let i = choose|i: int| 0 <= i < pool.len() && (#[trigger] pool[i]).id == a.schedule[k].id;
            assert(pool[i].id < st.next_id);
        }
    }
    assert forall|j: int| 0 <= j < portfolio.len() && j != k implies a.schedule[j].id
        != a.schedule[k].id by {
        if j < k {
            assert(a.schedule[j].id != a.schedule[k].id);
        } else {
            assert(a.schedule[k].id != a.schedule[j].id);
        }
    }
}

/// After a portfolio has been applied, what runs is the portfolio with its
/// identifiers; what is suspended are the slots, known and alive before,
/// that the portfolio did not take. So where the portfolio takes every
/// such slot, the running and suspended slots together are the portfolio's.
pub proof fn lemma_apply_runs_schedule(
    st: SchedulerView,
    m: ManagerView,
    portfolio: Seq<SolverInfoView>,
)
    requires
        valid_state(st),
        st.next_id + portfolio.len() <= u64::MAX,
    ensures
        ({
            let (st1, solvers, stopped) = bound_step(st, m);
            let known = st1.running + st1.suspended;
            let schedule = assign(known, st1.next_id as int, portfolio).schedule;
            let after = apply_spec(st, m, portfolio).state;
            &&& after.running == schedule
            &&& infos_of(after.running) == portfolio
            &&& forall|id: u64|
                has_id(after.suspended, id) <==> has_id(known, id) && slots_of(solvers).contains(id)
                    && !has_id(schedule, id)
            &&& (forall|id: u64|
                has_id(known, id) && slots_of(solvers).contains(id) ==> has_id(schedule, id))
                ==> after.suspended.len() == 0 && id_set(after.running + after.suspended) == id_set(
                schedule,
            )
        }),
{
    let (st1, solvers, stopped) = bound_step(st, m);
    assert(valid_state(st1)) by {
        if m.best_objective != st.prev_objective && m.best_objective is Some {
            let late = behind(m.objective_type, m.solvers, m.best_objective->0);
            lemma_retained_valid(st, late.to_set().complement());
        }
    }
    let known = st1.running + st1.suspended;
    let alive = slots_of(solvers);
    let schedule = assign(known, st1.next_id as int, portfolio).schedule;
    lemma_assign(known, st1.next_id as int, portfolio);
    let after = apply_spec(st, m, portfolio).state;
    let running = retain(st1.running, alive);
    let suspended = retain(st1.suspended, alive);
    let undesired = id_set(schedule).complement();
    let s1 = retain(suspended, undesired);
    let s2 = retain(running, undesired);
    lemma_retain(st1.running, alive);
    lemma_retain(st1.suspended, alive);
    lemma_retain(suspended, undesired);
    lemma_retain(running, undesired);
    lemma_concat_parts(st1.running, st1.suspended);
    lemma_concat_parts(s1, s2);
    assert(after.suspended == s1 + s2);
    if forall|id: u64| has_id(known, id) && alive.contains(id) ==> has_id(schedule, id) {
        if after.suspended.len() > 0 {
            let e = after.suspended[0];
            assert(has_id(after.suspended, e.id));
        }
        assert(after.running + after.suspended =~= schedule);
    }
}

/// After a portfolio has been applied, every slot has a live process or is
/// about to be started, and every slot to suspend or to resume has a live
/// process.
pub proof fn lemma_apply_slots_have_processes(
    st: SchedulerView,
    m: ManagerView,
    portfolio: Seq<SolverInfoView>,
)
    ensures
        ({
            let r = apply_spec(st, m, portfolio);
            let alive = slots_of(r.solvers);
            &&& forall|id: u64| has_id(r.state.suspended, id) ==> alive.contains(id)
            &&& forall|id: u64|
                has_id(r.state.running, id) ==> alive.contains(id) || has_id(r.changes.to_start, id)
            &&& forall|i: int|
                0 <= i < r.changes.to_suspend.len() ==> alive.contains(
                    #[trigger] r.changes.to_suspend[i],
                )
            &&& forall|i: int|
                0 <= i < r.changes.to_resume.len() ==> alive.contains(
                    #[trigger] r.changes.to_resume[i],
                )
        }),
{
    let (st1, solvers, stopped) = bound_step(st, m);
    let alive = slots_of(solvers);
    let schedule = assign(st1.running + st1.suspended, st1.next_id as int, portfolio).schedule;
    let running = retain(st1.running, alive);
    let suspended = retain(st1.suspended, alive);
    let undesired = id_set(schedule).complement();
    let known = id_set(running).union(id_set(suspended));
    let r = apply_spec(st, m, portfolio);
    lemma_retain(st1.running, alive);
    lemma_retain(st1.suspended, alive);
    lemma_retain(suspended, undesired);
    lemma_retain(running, undesired);
    lemma_retain(schedule, known.complement());
    lemma_retain(schedule, id_set(suspended));
    lemma_concat_parts(retain(suspended, undesired), retain(running, undesired));
    assert forall|i: int| 0 <= i < r.changes.to_suspend.len() implies alive.contains(
        #[trigger] r.changes.to_suspend[i],
    ) by {
        let e = retain(running, undesired)[i];
        assert(has_id(retain(running, undesired), e.id));
    }
    assert forall|i: int| 0 <= i < r.changes.to_resume.len() implies alive.contains(
        #[trigger] r.changes.to_resume[i],
    ) by {
        let e = retain(schedule, id_set(suspended))[i];
        assert(id_set(suspended).contains(e.id));
    }
}

/// Applying the portfolio that already runs, while the bound has not
/// changed and every slot has its process, changes nothing and leaves
/// nothing to do: nothing is stopped, started, suspended or resumed.
pub proof fn lemma_apply_again_is_noop(st: SchedulerView, m: ManagerView)
    requires
        valid_state(st),
        m.best_objective == st.prev_objective,
        forall|id: u64| has_id(st.running + st.suspended, id) ==> slots_of(m.solvers).contains(id),
    ensures
        apply_spec(st, m, infos_of(st.running)) == (ApplyView {
            state: st,
            solvers: m.solvers,
            stopped: Seq::empty(),
            changes: ChangesView {
                to_start: Seq::empty(),
                to_suspend: Seq::empty(),
                to_resume: Seq::empty(),
            },
        }),
{
    let alive = slots_of(m.solvers);
    let s = st.running;
    let x = st.suspended;
    lemma_assign_same(s, x, st.next_id as int, s.len() as int);
    assert(infos_of(s).take(s.len() as int) =~= infos_of(s));
    assert(s.take(s.len() as int) =~= s);
    assert(s.skip(s.len() as int) + x =~= x);
    lemma_concat_parts(s, x);
    assert forall|i: int| 0 <= i < s.len() implies alive.contains((#[trigger] s[i]).id) by {
        assert(has_id(s, s[i].id));
    }
    assert forall|i: int| 0 <= i < x.len() implies alive.contains((#[trigger] x[i]).id) by {
        assert(has_id(x, x[i].id));
    }
    lemma_retain_all(s, alive);
    lemma_retain_all(x, alive);
    let undesired = id_set(s).complement();
    assert forall|i: int| 0 <= i < x.len() implies undesired.contains((#[trigger] x[i]).id) by {
        assert(has_id(x, x[i].id));
    }
    assert forall|i: int| 0 <= i < s.len() implies !undesired.contains((#[trigger] s[i]).id) by {
        assert(has_id(s, s[i].id));
    }
    lemma_retain_all(x, undesired);
    lemma_retain_none(s, undesired);
    assert(x + Seq::<ElementView>::empty() =~= x);
    let known = id_set(s).union(id_set(x)).complement();
    assert forall|i: int| 0 <= i < s.len() implies !known.contains((#[trigger] s[i]).id) by {
        assert(has_id(s, s[i].id));
    }
    lemma_retain_none(s, known);
    assert forall|i: int| 0 <= i < s.len() implies !id_set(x).contains((#[trigger] s[i]).id) by {
        assert(has_id(s, s[i].id));
    }
    lemma_retain_none(s, id_set(x));
    assert(ids_of(Seq::<ElementView>::empty()) =~= Seq::<u64>::empty());
    let r = reconcile(st, alive, infos_of(s));
    assert(r.0 == st);
}

/// After a portfolio has been applied, what runs is the portfolio with its
/// identifiers, entry by entry; and applying it again, with no bound change
/// and every slot alive, is a no-op.
pub proof fn lemma_apply_twice(
    st: SchedulerView,
    m: ManagerView,
    portfolio: Seq<SolverInfoView>,
    m2: ManagerView,
)
    requires
        valid_state(st),
        st.next_id + portfolio.len() <= u64::MAX,
        m2.best_objective == m.best_objective,
        forall|id: u64|
            has_id(
                apply_spec(st, m, portfolio).state.running + apply_spec(
                    st,
                    m,
                    portfolio,
                ).state.suspended,
                id,
            ) ==> slots_of(m2.solvers).contains(id),
    ensures
        infos_of(apply_spec(st, m, portfolio).state.running) == portfolio,
        apply_spec(apply_spec(st, m, portfolio).state, m2, portfolio) == (ApplyView {
            state: apply_spec(st, m, portfolio).state,
            solvers: m2.solvers,
            stopped: Seq::empty(),
            changes: ChangesView {
                to_start: Seq::empty(),
                to_suspend: Seq::empty(),
                to_resume: Seq::empty(),
            },
        }),
{
    let (st1, solvers, stopped) = bound_step(st, m);
    assert(valid_state(st1)) by {
        if m.best_objective != st.prev_objective && m.best_objective is Some {
            let late = behind(m.objective_type, m.solvers, m.best_objective->0);
            lemma_retained_valid(st, late.to_set().complement());
        }
    }
    lemma_reconcile_valid(st1, slots_of(solvers), portfolio);
    lemma_assign(st1.running + st1.suspended, st1.next_id as int, portfolio);
    let after = apply_spec(st, m, portfolio).state;
    assert(after.prev_objective == m.best_objective);
    lemma_apply_again_is_noop(after, m2);
}

/// A slot that one reconciliation suspends and a later one resumes runs
/// again as the same slot: under its identifier, with the same entry.
pub proof fn lemma_suspend_then_resume(
    st: SchedulerView,
    alive1: Set<u64>,
    portfolio1: Seq<SolverInfoView>,
    alive2: Set<u64>,
    portfolio2: Seq<SolverInfoView>,
    id: u64,
)
    requires
        valid_state(st),
        st.next_id + portfolio1.len() + portfolio2.len() <= u64::MAX,
        reconcile(st, alive1, portfolio1).1.to_suspend.contains(id),
        reconcile(reconcile(st, alive1, portfolio1).0, alive2, portfolio2).1.to_resume.contains(id),
    ensures
        exists|e: ElementView|
            {
                &&& e.id == id
                &&& st.running.contains(e)
                &&& #[trigger] reconcile(st, alive1, portfolio1).0.suspended.contains(e)
                &&& reconcile(reconcile(st, alive1, portfolio1).0, alive2, portfolio2).0.running.contains(e)
            },
{
    let (st1, c1) = reconcile(st, alive1, portfolio1);
    let (st2, c2) = reconcile(st1, alive2, portfolio2);
    lemma_reconcile_valid(st, alive1, portfolio1);
    // the slot that was suspended
    let a1 = assign(st.running + st.suspended, st.next_id as int, portfolio1);
    let running1 = retain(st.running, alive1);
    let undesired1 = id_set(a1.schedule).complement();
    let moved = retain(running1, undesired1);
    let i = choose|i: int| 0 <= i < c1.to_suspend.len() && c1.to_suspend[i] == id;
    let e = moved[i];
    assert(e.id == id);
    lemma_retain(running1, undesired1);
    lemma_retain(st.running, alive1);
    assert(running1.contains(e));
    let k = choose|k: int| 0 <= k < running1.len() && running1[k] == e;
    assert(st.running.contains(running1[k]));
    let first = retain(retain(st.suspended, alive1), undesired1);
    assert(st1.suspended[first.len() + i] == e);
    // the slot that was resumed
    let pool2 = st1.running + st1.suspended;
    let a2 = assign(pool2, st1.next_id as int, portfolio2);
    lemma_assign(pool2, st1.next_id as int, portfolio2);
    let suspended2 = retain(st1.suspended, alive2);
    let resumed = retain(a2.schedule, id_set(suspended2));
    let j = choose|j: int| 0 <= j < c2.to_resume.len() && c2.to_resume[j] == id;
    let x = resumed[j];
    assert(x.id == id);
    lemma_retain(a2.schedule, id_set(suspended2));
    assert(a2.schedule.contains(x));
    let n = choose|n: int| 0 <= n < a2.schedule.len() && a2.schedule[n] == x;
    assert(pool2[st1.running.len() + first.len() + i] == e);
    assert(e.id < st1.next_id);
    assert(pool2.contains(a2.schedule[n]));
    let q = choose|q: int| 0 <= q < pool2.len() && pool2[q] == x;
    let pe = st1.running.len() + first.len() + i;
    if q < pe {
        assert(pool2[q].id != pool2[pe].id);
    } else if q > pe {
        assert(pool2[pe].id != pool2[q].id);
    }
    assert(x == e);
    assert(st2.running.contains(e));
    assert(st.running.contains(e));
    assert(reconcile(st, alive1, portfolio1).0.suspended.contains(e));
}

} // verus!
