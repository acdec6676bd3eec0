//! Giving identifiers to the entries of a portfolio.
use crate::scheduler::{ElementView, SolverInfoView};
use crate::scheduler::slots::{
    distinct_ids, first_match, ids_below, infos_of, lemma_first_match, lemma_first_match_unique,
    within,
};
use vstd::prelude::*;

verus! {

/// The result of giving identifiers to a portfolio.
pub struct Assignment {
    /// The portfolio with its identifiers, in the portfolio's order.
    pub schedule: Seq<ElementView>,
    /// The next identifier to give out.
    pub next_id: int,
    /// The known slots that no entry took.
    pub pool: Seq<ElementView>,
}

/// Gives each entry of `portfolio`, in order, the identifier of the first
/// slot of `pool` with an equal entry, which leaves the pool, or a new
/// identifier where there is none.
pub open spec fn assign(pool: Seq<ElementView>, next_id: int, portfolio: Seq<SolverInfoView>)
    -> Assignment
    decreases portfolio.len(),
{
    if portfolio.len() == 0 {
        Assignment { schedule: Seq::empty(), next_id, pool }
    } else {
        let before = assign(pool, next_id, portfolio.drop_last());
        let info = portfolio.last();
        let i = first_match(before.pool, info);
        if i < before.pool.len() {
            Assignment {
                schedule: before.schedule.push(ElementView { id: before.pool[i].id, info }),
                next_id: before.next_id,
                pool: before.pool.remove(i),
            }
        } else {
            Assignment {
                schedule: before.schedule.push(ElementView { id: before.next_id as u64, info }),
                next_id: before.next_id + 1,
                pool: before.pool,
            }
        }
    }
}

/// What giving out identifiers keeps true: the schedule follows the
/// portfolio, no identifier is given twice, a reused identifier comes from a
/// slot with an equal entry, and a new one is at or above the old counter.
pub proof fn lemma_assign(pool: Seq<ElementView>, next_id: int, portfolio: Seq<SolverInfoView>)
    requires
        distinct_ids(pool),
        ids_below(pool, next_id),
        0 <= next_id,
        next_id + portfolio.len() <= u64::MAX,
    ensures
        ({
            let a = assign(pool, next_id, portfolio);
            &&& a.schedule.len() == portfolio.len()
            &&& infos_of(a.schedule) == portfolio
            &&& next_id <= a.next_id <= next_id + portfolio.len()
            &&& distinct_ids(a.schedule + a.pool)
            &&& ids_below(a.schedule + a.pool, a.next_id)
            &&& within(a.pool, pool)
            &&& a.pool.len() <= pool.len()
            &&& forall|k: int|
                0 <= k < a.schedule.len() ==> {
                    ||| next_id <= (#[trigger] a.schedule[k]).id
                    ||| pool.contains(a.schedule[k])
                }
        }),
    decreases portfolio.len(),
{
    let a = assign(pool, next_id, portfolio);
    if portfolio.len() == 0 {
        assert(a.schedule + a.pool =~= pool);
        assert(infos_of(a.schedule) =~= portfolio);
        assert forall|j: int| 0 <= j < a.pool.len() implies pool.contains(#[trigger] a.pool[j]) by {
            assert(pool[j] == a.pool[j]);
        }
    } else {
        let init = portfolio.drop_last();
        lemma_assign(pool, next_id, init);
        let b = assign(pool, next_id, init);
        let info = portfolio.last();
        let i = first_match(b.pool, info);
        lemma_first_match(b.pool, info);
        let old_all = b.schedule + b.pool;
        let new_all = a.schedule + a.pool;
        let n = b.schedule.len() as int;
        assert(infos_of(a.schedule) =~= portfolio) by {
            assert(infos_of(b.schedule) == init);
            assert forall|k: int| 0 <= k < portfolio.len() implies infos_of(a.schedule)[k]
                == portfolio[k] by {
                if k < n {
                    assert(infos_of(b.schedule)[k] == init[k]);
                }
            }
        }
        if i < b.pool.len() {
            // the slot b.pool[i] moves from the pool to the end of the schedule
            assert(b.pool[i] == old_all[n + i]);
            assert(pool.contains(b.pool[i]));
            assert(a.schedule[n] == b.pool[i]);
            assert forall|x: int| 0 <= x < new_all.len() implies exists|y: int|
                0 <= y < old_all.len() && old_all[y] == #[trigger] new_all[x] && (x < n ==> y == x)
                && (x == n ==> y == n + i) && (n < x <= n + i ==> y == x - 1) && (x > n + i ==> y
                == x) by {
                if x < n {
                    assert(old_all[x] == new_all[x]);
                } else if x == n {
                    assert(old_all[n + i] == new_all[x]);
                } else if x <= n + i {
                    assert(old_all[x - 1] == new_all[x]);
                } else {
                    assert(old_all[x] == new_all[x]);
                }
            }
            assert forall|x: int, y: int| 0 <= x < y < new_all.len() implies (#[trigger] new_all[x]).id
                != (#[trigger] new_all[y]).id by {
                let px = if x < n { x } else if x == n { n + i } else if x <= n + i { x - 1 } else { x };
                let py = if y < n { y } else if y == n { n + i } else if y <= n + i { y - 1 } else { y };
                assert(old_all[px] == new_all[x]);
                assert(old_all[py] == new_all[y]);
                assert(px != py);
                if px < py {
                    assert(old_all[px].id != old_all[py].id);
                } else {
                    assert(old_all[py].id != old_all[px].id);
                }
            }
            assert forall|x: int| 0 <= x < new_all.len() implies (#[trigger] new_all[x]).id
                < a.next_id by {
                let px = if x < n { x } else if x == n { n + i } else if x <= n + i { x - 1 } else { x };
                assert(old_all[px] == new_all[x]);
            }
            assert forall|j: int| 0 <= j < a.pool.len() implies pool.contains(#[trigger] a.pool[j]) by {
                let pj = if j < i { j } else { j + 1 };
                assert(a.pool[j] == b.pool[pj]);
                assert(pool.contains(b.pool[pj]));
            }
        } else {
            let fresh = ElementView { id: b.next_id as u64, info };
            assert(a.schedule[n] == fresh);
            assert forall|x: int, y: int| 0 <= x < y < new_all.len() implies (#[trigger] new_all[x]).id
                != (#[trigger] new_all[y]).id by {
                let px = if x < n { x } else if x == n { -1 } else { x - 1 };
                let py = if y < n { y } else if y == n { -1 } else { y - 1 };
                if px >= 0 {
                    assert(old_all[px] == new_all[x]);
                }
                if py >= 0 {
                    assert(old_all[py] == new_all[y]);
                }
                if px >= 0 && py >= 0 {
                    assert(old_all[px].id != old_all[py].id);
                }
            }
            assert forall|x: int| 0 <= x < new_all.len() implies (#[trigger] new_all[x]).id
                < a.next_id by {
                let px = if x < n { x } else if x == n { -1 } else { x - 1 };
                if px >= 0 {
                    assert(old_all[px] == new_all[x]);
                }
            }
        }
        assert forall|k: int| 0 <= k < a.schedule.len() implies {
            ||| next_id <= (#[trigger] a.schedule[k]).id
            ||| pool.contains(a.schedule[k])
        } by {
            if k < n {
                assert(a.schedule[k] == b.schedule[k]);
            }
        }
    }
}

/// Giving out identifiers for the entries of the slots at the head of the
/// pool gives each slot its own identifier back and leaves the rest.
pub proof fn lemma_assign_same(head: Seq<ElementView>, rest: Seq<ElementView>, next_id: int, k: int)
    requires
        0 <= k <= head.len(),
    ensures
        assign(head + rest, next_id, infos_of(head).take(k)) == (Assignment {
            schedule: head.take(k),
            next_id,
            pool: head.skip(k) + rest,
        }),
    decreases k,
{
    let portfolio = infos_of(head).take(k);
    if k == 0 {
        assert(head.take(0) =~= Seq::<ElementView>::empty());
        assert(head.skip(0) + rest =~= head + rest);
    } else {
        lemma_assign_same(head, rest, next_id, k - 1);
        assert(portfolio.drop_last() =~= infos_of(head).take(k - 1));
        let pool = head.skip(k - 1) + rest;
        let info = portfolio.last();
        assert(info == head[k - 1].info);
        assert(pool[0] == head[k - 1]);
        lemma_first_match_unique(pool, info, 0);
        assert(head.take(k - 1).push(ElementView { id: pool[0].id, info }) =~= head.take(k));
        assert(pool.remove(0) =~= head.skip(k) + rest);
    }
}

} // verus!
