//! The records of the live solver processes, by slot.
use crate::model_parser::ObjectiveValue;
use crate::solver_manager::{Error, ProcessEntry, Signal, SignalOrder, SolverProcess};
use vstd::prelude::*;

verus! {

/// Some record of `s` stands under `id`.
pub open spec fn has_process(s: Seq<ProcessEntry>, id: u64) -> bool {
    exists|i: int| 0 <= i < s.len() && (#[trigger] s[i]).id == id
}

/// No slot has two records.
pub open spec fn distinct_slots(s: Seq<ProcessEntry>) -> bool {
    forall|i: int, j: int| 0 <= i < j < s.len() ==> (#[trigger] s[i]).id != (#[trigger] s[j]).id
}

/// The index of the first record of `s` under `id`, or the length of `s`.
pub open spec fn slot_index(s: Seq<ProcessEntry>, id: u64) -> int
    decreases s.len(),
{
    if s.len() == 0 || s[0].id == id {
        0
    } else {
        1 + slot_index(s.skip(1), id)
    }
}

/// The record under `id`, if there is one.
pub open spec fn process_of(s: Seq<ProcessEntry>, id: u64) -> Option<SolverProcess> {
    if slot_index(s, id) < s.len() {
        Some(s[slot_index(s, id)].process)
    } else {
        None
    }
}

/// The slots of `s`.
pub open spec fn slots_of(s: Seq<ProcessEntry>) -> Set<u64> {
    Set::new(|id: u64| has_process(s, id))
}

/// No record before the index of a slot stands under it; the record at
/// the index does, if there is one.
pub proof fn lemma_slot_index(s: Seq<ProcessEntry>, id: u64)
    ensures
        0 <= slot_index(s, id) <= s.len(),
        forall|i: int| 0 <= i < slot_index(s, id) ==> (#[trigger] s[i]).id != id,
        slot_index(s, id) < s.len() ==> s[slot_index(s, id)].id == id,
        slot_index(s, id) < s.len() <==> has_process(s, id),
    decreases s.len(),
{
    if s.len() == 0 || s[0].id == id {
    } else {
        lemma_slot_index(s.skip(1), id);
        assert forall|i: int| 0 <= i < slot_index(s, id) implies (#[trigger] s[i]).id != id by {
            if i > 0 {
                assert(s[i] == s.skip(1)[i - 1]);
            }
        }
        if has_process(s, id) {
            let i = choose|i: int| 0 <= i < s.len() && (#[trigger] s[i]).id == id;
            assert(s.skip(1)[i - 1] == s[i]);
        }
        if has_process(s.skip(1), id) {
            let i = choose|i: int| 0 <= i < s.skip(1).len() && (#[trigger] s.skip(1)[i]).id == id;
            assert(s[i + 1] == s.skip(1)[i]);
        }
    }
}

/// The index of a slot, by search.
pub proof fn lemma_slot_index_unique(s: Seq<ProcessEntry>, id: u64, i: int)
    requires
        0 <= i <= s.len(),
        forall|k: int| 0 <= k < i ==> (#[trigger] s[k]).id != id,
        i < s.len() ==> s[i].id == id,
    ensures
        slot_index(s, id) == i,
{
    lemma_slot_index(s, id);
    let t = slot_index(s, id);
    if t < i {
        assert(s[t].id != id);
    } else if t > i {
        assert(s[i].id != id);
    }
}

/// `s` without the record under `id`.
pub open spec fn without_slot(s: Seq<ProcessEntry>, id: u64) -> Seq<ProcessEntry> {
    if slot_index(s, id) < s.len() {
        s.remove(slot_index(s, id))
    } else {
        s
    }
}

/// `s` with `process` under `id`: in the place of the record that stood
/// there, or at the end.
pub open spec fn with_slot(s: Seq<ProcessEntry>, id: u64, process: SolverProcess) -> Seq<
    ProcessEntry,
> {
    if slot_index(s, id) < s.len() {
        s.update(slot_index(s, id), ProcessEntry { id, process })
    } else {
        s.push(ProcessEntry { id, process })
    }
}

/// Taking a record out leaves none under its slot and changes no other slot.
pub proof fn lemma_without_slot(s: Seq<ProcessEntry>, id: u64)
    requires
        distinct_slots(s),
    ensures
        distinct_slots(without_slot(s, id)),
        !has_process(without_slot(s, id), id),
        forall|other: u64|
            other != id ==> (has_process(without_slot(s, id), other) <==> has_process(s, other)),
        forall|other: u64|
            other != id ==> process_of(without_slot(s, id), other) == process_of(s, other),
{
    lemma_slot_index(s, id);
    let i = slot_index(s, id);
    let r = without_slot(s, id);
    if i < s.len() {
        assert forall|a: int, b: int| 0 <= a < b < r.len() implies (#[trigger] r[a]).id != (
        #[trigger] r[b]).id by {
            let pa = if a < i { a } else { a + 1 };
            let pb = if b < i { b } else { b + 1 };
            assert(r[a] == s[pa] && r[b] == s[pb]);
        }
        if has_process(r, id) {
            let k = choose|k: int| 0 <= k < r.len() && (#[trigger] r[k]).id == id;
            let pk = if k < i { k } else { k + 1 };
            assert(r[k] == s[pk]);
            if pk < i {
                assert(s[pk].id != s[i].id);
            } else {
                assert(s[i].id != s[pk].id);
            }
        }
    }
    assert forall|other: u64| other != id implies (has_process(r, other) <==> has_process(s, other))
        && process_of(r, other) == process_of(s, other) by {
        lemma_slot_index(s, other);
        lemma_slot_index(r, other);
        let j = slot_index(s, other);
        if i < s.len() {
            if j < s.len() {
                let pj = if j < i { j } else { j - 1 };
                assert(r[pj] == s[j]);
                assert forall|k: int| 0 <= k < pj implies (#[trigger] r[k]).id != other by {
                    let pk = if k < i { k } else { k + 1 };
                    assert(r[k] == s[pk]);
                }
                lemma_slot_index_unique(r, other, pj);
            } else {
                assert forall|k: int| 0 <= k < r.len() implies (#[trigger] r[k]).id != other by {
                    let pk = if k < i { k } else { k + 1 };
                    assert(r[k] == s[pk]);
                }
                lemma_slot_index_unique(r, other, r.len() as int);
            }
        }
    }
}

/// Putting a record under a slot changes what stands there and no other slot.
pub proof fn lemma_with_slot(s: Seq<ProcessEntry>, id: u64, process: SolverProcess)
    requires
        distinct_slots(s),
    ensures
        distinct_slots(with_slot(s, id, process)),
        process_of(with_slot(s, id, process), id) == Some(process),
        has_process(with_slot(s, id, process), id),
        forall|other: u64|
            other != id ==> (has_process(with_slot(s, id, process), other) <==> has_process(
                s,
                other,
            )),
        forall|other: u64|
            other != id ==> process_of(with_slot(s, id, process), other) == process_of(s, other),
{
    lemma_slot_index(s, id);
    let i = slot_index(s, id);
    let r = with_slot(s, id, process);
    assert forall|a: int, b: int| 0 <= a < b < r.len() implies (#[trigger] r[a]).id != (
    #[trigger] r[b]).id by {
        if b < s.len() {
            assert(r[a].id == s[a].id && r[b].id == s[b].id);
        } else {
            assert(r[a].id == s[a].id);
        }
    }
    assert forall|k: int| 0 <= k < i implies (#[trigger] r[k]).id != id by {
        assert(r[k] == s[k]);
    }
    lemma_slot_index_unique(r, id, i);
    lemma_slot_index(r, id);
    assert forall|other: u64| other != id implies (has_process(r, other) <==> has_process(s, other))
        && process_of(r, other) == process_of(s, other) by {
        lemma_slot_index(s, other);
        lemma_slot_index(r, other);
        let j = slot_index(s, other);
        assert forall|k: int| 0 <= k < j && k < r.len() implies (#[trigger] r[k]).id != other by {
            if k < s.len() {
                assert(r[k].id == s[k].id);
            }
        }
        if j < s.len() {
            assert(r[j] == s[j]);
            lemma_slot_index_unique(r, other, j);
        } else {
            lemma_slot_index_unique(r, other, r.len() as int);
        }
    }
}

/// What stopping the slots `ids`, in order, leaves and yields.
pub struct StopOutcome {
    /// The records that stay.
    pub solvers: Seq<ProcessEntry>,
    /// The records taken out, in the order of `ids`.
    pub stopped: Seq<SolverProcess>,
    /// One error for each of `ids` that had no record when its turn came.
    pub errors: Seq<Error>,
}

/// Takes the records under `ids` out of `s`, one slot after another.
pub open spec fn stop_each(s: Seq<ProcessEntry>, ids: Seq<u64>) -> StopOutcome
    decreases ids.len(),
{
    if ids.len() == 0 {
        StopOutcome { solvers: s, stopped: Seq::empty(), errors: Seq::empty() }
    } else {
        let before = stop_each(s, ids.drop_last());
        let id = ids.last();
        match process_of(before.solvers, id) {
            Some(p) => StopOutcome {
                solvers: without_slot(before.solvers, id),
                stopped: before.stopped.push(p),
                errors: before.errors,
            },
            None => StopOutcome {
                solvers: before.solvers,
                stopped: before.stopped,
                errors: before.errors.push(Error::InvalidSolver(id)),
            },
        }
    }
}

/// The orders that send `signal` to the process groups under `ids`, in the
/// order of `ids`, and one error for each slot without a record.
pub open spec fn signal_each(s: Seq<ProcessEntry>, ids: Seq<u64>, signal: Signal) -> (
    Seq<SignalOrder>,
    Seq<Error>,
)
    decreases ids.len(),
{
    if ids.len() == 0 {
        (Seq::empty(), Seq::empty())
    } else {
        let before = signal_each(s, ids.drop_last(), signal);
        match process_of(s, ids.last()) {
            Some(p) => (before.0.push(SignalOrder { pid: p.pid, signal }), before.1),
            None => (before.0, before.1.push(Error::InvalidSolver(ids.last()))),
        }
    }
}

/// The slots of `s`, oldest first.
pub open spec fn slot_seq(s: Seq<ProcessEntry>) -> Seq<u64> {
    s.map_values(|e: ProcessEntry| e.id)
}

/// The record under `id` with `best` as the bound that its solver has reached.
pub open spec fn with_best(s: Seq<ProcessEntry>, id: u64, best: Option<ObjectiveValue>) -> Seq<
    ProcessEntry,
> {
    match process_of(s, id) {
        Some(p) => with_slot(s, id, SolverProcess { pid: p.pid, best_objective: best }),
        None => s,
    }
}

} // verus!
