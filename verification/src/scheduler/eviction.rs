//! What the memory enforcer means for the state of the scheduler.
use crate::config::{MemoryThreshold, over_threshold};
use crate::process_tree::ProcessInfo;
use crate::scheduler::{ElementView, SolverInfoView};
use crate::scheduler::reconcile::SchedulerView;
use crate::scheduler::slots::{cores_under, ids_of, infos_of, retain};
use crate::solver_manager::{
    ProcessEntry, SolverProcess, measured, process_of, slots_of, sort_desc, without_slot,
};
use vstd::prelude::*;

verus! {

/// What stopping solvers for their memory has come to.
pub struct Eviction {
    /// The live records.
    pub solvers: Seq<ProcessEntry>,
    /// The memory in use, less what the stopped solvers held.
    pub used: u64,
    /// The slots given up, in the order in which they were.
    pub victims: Seq<u64>,
    /// The records taken out.
    pub stopped: Seq<SolverProcess>,
}

/// Gives up the slot of `entry`, which holds `entry.0` bytes. Where it has
/// a record, the record is taken out and the memory counts as freed.
pub open spec fn evict_one(acc: Eviction, entry: (u64, u64)) -> Eviction {
    match process_of(acc.solvers, entry.1) {
        Some(p) => Eviction {
            solvers: without_slot(acc.solvers, entry.1),
            used: if acc.used >= entry.0 {
                (acc.used - entry.0) as u64
            } else {
                0
            },
            victims: acc.victims.push(entry.1),
            stopped: acc.stopped.push(p),
        },
        None => Eviction { victims: acc.victims.push(entry.1), ..acc },
    }
}

/// Gives up the slots of `ranked` from the `k`-th on, one after another,
/// for as long as the memory in use is over the threshold.
pub open spec fn evict_from(
    ranked: Seq<(u64, u64)>,
    k: int,
    total: u64,
    threshold: MemoryThreshold,
    acc: Eviction,
) -> Eviction
    decreases ranked.len() - k,
{
    if k < 0 || k >= ranked.len() || !over_threshold(acc.used, total, threshold) {
        acc
    } else {
        evict_from(ranked, k + 1, total, threshold, evict_one(acc, ranked[k]))
    }
}

/// The memory that one core may hold before its solver counts as holding
/// more than its share: the share `threshold` of `total`, divided by the
/// cores in use.
pub open spec fn per_core_threshold(total: u64, cores: nat, threshold: MemoryThreshold) -> nat {
    ((total * threshold.numerator) / ((cores * threshold.denominator) as int)) as nat
}

/// A solver with `mem` bytes on `cores` cores holds more per core than
/// `limit`. On no core, any memory is more.
pub open spec fn unfair(mem: u64, cores: usize, limit: nat) -> bool {
    if cores == 0 {
        mem > 0
    } else {
        mem / (cores as u64) > limit
    }
}

/// What the unconditional pass over the running solvers has come to.
pub struct UnfairPass {
    pub eviction: Eviction,
    /// The solvers that hold no more than their share, largest first.
    pub remaining: Seq<(u64, u64)>,
}

/// Gives up every slot of `ranked` from the `k`-th on that holds more than
/// its share. A slot that does not run is passed over.
pub open spec fn evict_unfair(
    ranked: Seq<(u64, u64)>,
    k: int,
    running: Seq<ElementView>,
    limit: nat,
    acc: UnfairPass,
) -> UnfairPass
    decreases ranked.len() - k,
{
    if k < 0 || k >= ranked.len() {
        acc
    } else {
        let next = match cores_under(running, ranked[k].1) {
            None => acc,
            Some(cores) => if unfair(ranked[k].0, cores, limit) {
                UnfairPass { eviction: evict_one(acc.eviction, ranked[k]), ..acc }
            } else {
                UnfairPass { remaining: acc.remaining.push(ranked[k]), ..acc }
            },
        };
        evict_unfair(ranked, k + 1, running, limit, next)
    }
}

/// Nothing given up yet.
pub open spec fn no_eviction(solvers: Seq<ProcessEntry>, used: u64) -> Eviction {
    Eviction { solvers, used, victims: Seq::empty(), stopped: Seq::empty() }
}

/// Stopping suspended solvers, largest first, until the memory in use is
/// under the threshold or none is left.
pub open spec fn evict_suspended(
    ranked: Seq<(u64, u64)>,
    solvers: Seq<ProcessEntry>,
    used: u64,
    total: u64,
    threshold: MemoryThreshold,
) -> Eviction {
    evict_from(ranked, 0, total, threshold, no_eviction(solvers, used))
}

/// Stopping running solvers: first every one that holds more than its
/// share, whatever the memory in use; then the others, largest first, until
/// the memory in use is under the threshold or none is left. Where the
/// running solvers have no core at all, none is stopped.
pub open spec fn evict_running(
    ranked: Seq<(u64, u64)>,
    running: Seq<ElementView>,
    solvers: Seq<ProcessEntry>,
    used: u64,
    total: u64,
    threshold: MemoryThreshold,
) -> Eviction {
    let cores = crate::static_schedule::total_cores(infos_of(running));
    if cores == 0 {
        no_eviction(solvers, used)
    } else {
        let pass = evict_unfair(
            ranked,
            0,
            running,
            per_core_threshold(total, cores, threshold),
            UnfairPass { eviction: no_eviction(solvers, used), remaining: Seq::empty() },
        );
        evict_from(pass.remaining, 0, total, threshold, pass.eviction)
    }
}

/// What one round of the memory enforcer comes to: slots whose process is
/// gone are forgotten; where the memory in use is over the threshold,
/// suspended solvers are stopped, largest first, and then, if that was not
/// enough, running ones.
pub open spec fn enforce_spec(
    st: SchedulerView,
    solvers: Seq<ProcessEntry>,
    table: Seq<ProcessInfo>,
    used: u64,
    total: u64,
    threshold: MemoryThreshold,
) -> (SchedulerView, Eviction) {
    let st0 = SchedulerView {
        running: retain(st.running, slots_of(solvers)),
        suspended: retain(st.suspended, slots_of(solvers)),
        ..st
    };
    if !over_threshold(used, total, threshold) {
        (st0, no_eviction(solvers, used))
    } else {
        let first = evict_suspended(
            sort_desc(measured(solvers, ids_of(st0.suspended), table)),
            solvers,
            used,
            total,
            threshold,
        );
        let st1 = SchedulerView {
            suspended: retain(st0.suspended, first.victims.to_set().complement()),
            ..st0
        };
        if !over_threshold(first.used, total, threshold) {
            (st1, first)
        } else {
            let second = evict_running(
                sort_desc(measured(first.solvers, ids_of(st1.running), table)),
                st1.running,
                first.solvers,
                first.used,
                total,
                threshold,
            );
            (
                SchedulerView {
                    running: retain(st1.running, second.victims.to_set().complement()),
                    ..st1
                },
                Eviction {
                    solvers: second.solvers,
                    used: second.used,
                    victims: first.victims + second.victims,
                    stopped: first.stopped + second.stopped,
                },
            )
        }
    }
}

/// With no suspended solver, a round of the enforcer over the threshold
/// goes straight to the running solvers; with no solver at all it does
/// nothing.
pub proof fn lemma_enforce_without_suspended(
    st: SchedulerView,
    solvers: Seq<ProcessEntry>,
    table: Seq<ProcessInfo>,
    used: u64,
    total: u64,
    threshold: MemoryThreshold,
)
    requires
        over_threshold(used, total, threshold),
        retain(st.suspended, slots_of(solvers)).len() == 0,
    ensures
        ({
            let running = retain(st.running, slots_of(solvers));
            let direct = evict_running(
                sort_desc(measured(solvers, ids_of(running), table)),
                running,
                solvers,
                used,
                total,
                threshold,
            );
            let r = enforce_spec(st, solvers, table, used, total, threshold);
            &&& r.0.suspended.len() == 0
            &&& r.0.running == retain(running, direct.victims.to_set().complement())
            &&& r.1 == direct
            &&& running.len() == 0 ==> r.0.running.len() == 0 && r.1 == no_eviction(solvers, used)
        }),
{
    let running = retain(st.running, slots_of(solvers));
    let suspended = retain(st.suspended, slots_of(solvers));
    assert(suspended =~= Seq::<ElementView>::empty());
    assert(ids_of(suspended) =~= Seq::<u64>::empty());
    let first = evict_suspended(
        sort_desc(measured(solvers, ids_of(suspended), table)),
        solvers,
        used,
        total,
        threshold,
    );
    assert(first == no_eviction(solvers, used));
    assert(retain(suspended, first.victims.to_set().complement()) =~= suspended);
    let direct = evict_running(
        sort_desc(measured(solvers, ids_of(running), table)),
        running,
        solvers,
        used,
        total,
        threshold,
    );
    assert(first.victims + direct.victims =~= direct.victims);
    assert(first.stopped + direct.stopped =~= direct.stopped);
    if running.len() == 0 {
        assert(infos_of(running) =~= Seq::<SolverInfoView>::empty());
    }
}

} // verus!
