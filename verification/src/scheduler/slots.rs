//! Sequences of slots: their identifiers, and what it is to keep some of
//! them.
use crate::scheduler::{ElementView, ScheduleElement, SolverInfo, SolverInfoView};
use vstd::prelude::*;

verus! {

/// The views of the entries of a portfolio.
pub open spec fn portfolio_view(p: Seq<SolverInfo>) -> Seq<SolverInfoView> {
    p.map_values(|i: SolverInfo| i@)
}

/// The views of the slots of a schedule.
pub open spec fn schedule_view(s: Seq<ScheduleElement>) -> Seq<ElementView> {
    s.map_values(|e: ScheduleElement| e@)
}

/// The identifiers of `s`, in order.
pub open spec fn ids_of(s: Seq<ElementView>) -> Seq<u64> {
    s.map_values(|e: ElementView| e.id)
}

/// The entries of `s`, in order.
pub open spec fn infos_of(s: Seq<ElementView>) -> Seq<SolverInfoView> {
    s.map_values(|e: ElementView| e.info)
}

/// Some slot of `s` has the identifier `id`.
pub open spec fn has_id(s: Seq<ElementView>, id: u64) -> bool {
    exists|i: int| 0 <= i < s.len() && (#[trigger] s[i]).id == id
}

/// No identifier occurs twice in `s`.
pub open spec fn distinct_ids(s: Seq<ElementView>) -> bool {
    forall|i: int, j: int| 0 <= i < j < s.len() ==> (#[trigger] s[i]).id != (#[trigger] s[j]).id
}

/// The index of the first slot of `s` whose entry equals `info`, or the
/// length of `s` if there is none.
pub open spec fn first_match(s: Seq<ElementView>, info: SolverInfoView) -> int
    decreases s.len(),
{
    if s.len() == 0 || s[0].info == info {
        0
    } else {
        1 + first_match(s.skip(1), info)
    }
}

/// No slot before the first match has the entry; the slot at it has.
pub proof fn lemma_first_match(s: Seq<ElementView>, info: SolverInfoView)
    ensures
        0 <= first_match(s, info) <= s.len(),
        forall|i: int| 0 <= i < first_match(s, info) ==> (#[trigger] s[i]).info != info,
        first_match(s, info) < s.len() ==> s[first_match(s, info)].info == info,
    decreases s.len(),
{
    if s.len() == 0 || s[0].info == info {
    } else {
        lemma_first_match(s.skip(1), info);
        assert forall|i: int| 0 <= i < first_match(s, info) implies (#[trigger] s[i]).info
            != info by {
            if i > 0 {
                assert(s[i] == s.skip(1)[i - 1]);
            }
        }
    }
}

/// The first match, by search.
pub proof fn lemma_first_match_unique(s: Seq<ElementView>, info: SolverInfoView, i: int)
    requires
        0 <= i <= s.len(),
        forall|k: int| 0 <= k < i ==> (#[trigger] s[k]).info != info,
        i < s.len() ==> s[i].info == info,
    ensures
        first_match(s, info) == i,
{
    lemma_first_match(s, info);
    let t = first_match(s, info);
    if t < i {
        assert(s[t].info != info);
    } else if t > i {
        assert(s[i].info != info);
    }
}

/// Every identifier of `s` is below `bound`.
pub open spec fn ids_below(s: Seq<ElementView>, bound: int) -> bool {
    forall|i: int| 0 <= i < s.len() ==> (#[trigger] s[i]).id < bound
}

/// Every slot of `part` is a slot of `whole`.
pub open spec fn within(part: Seq<ElementView>, whole: Seq<ElementView>) -> bool {
    forall|j: int| 0 <= j < part.len() ==> whole.contains(#[trigger] part[j])
}

/// The identifiers of the slots of `s`.
pub open spec fn id_set(s: Seq<ElementView>) -> Set<u64> {
    Set::new(|id: u64| has_id(s, id))
}

/// The slots of `s` whose identifier is in `keep`, in the order of `s`.
pub open spec fn retain(s: Seq<ElementView>, keep: Set<u64>) -> Seq<ElementView>
    decreases s.len(),
{
    if s.len() == 0 {
        Seq::empty()
    } else if keep.contains(s.last().id) {
        retain(s.drop_last(), keep).push(s.last())
    } else {
        retain(s.drop_last(), keep)
    }
}

/// What is kept are the slots with an identifier to keep, each once and in
/// their order.
pub proof fn lemma_retain(s: Seq<ElementView>, keep: Set<u64>)
    ensures
        retain(s, keep).len() <= s.len(),
        forall|j: int|
            0 <= j < retain(s, keep).len() ==> s.contains(#[trigger] retain(s, keep)[j])
                && keep.contains(retain(s, keep)[j].id),
        forall|id: u64| has_id(retain(s, keep), id) <==> has_id(s, id) && keep.contains(id),
        distinct_ids(s) ==> distinct_ids(retain(s, keep)),
        forall|i: int|
            0 <= i < s.len() && keep.contains((#[trigger] s[i]).id) ==> retain(s, keep).contains(
                s[i],
            ),
    decreases s.len(),
{
    let r = retain(s, keep);
    if s.len() > 0 {
        let init = s.drop_last();
        let ri = retain(init, keep);
        lemma_retain(init, keep);
        assert forall|j: int| 0 <= j < r.len() implies s.contains(#[trigger] r[j])
            && keep.contains(r[j].id) by {
            if j < ri.len() {
                assert(init.contains(ri[j]));
                let k = choose|k: int| 0 <= k < init.len() && init[k] == ri[j];
                assert(s[k] == ri[j]);
            } else {
                assert(s[s.len() - 1] == r[j]);
            }
        }
        assert forall|id: u64| has_id(r, id) <==> has_id(s, id) && keep.contains(id) by {
            if has_id(r, id) {
                let j = choose|j: int| 0 <= j < r.len() && (#[trigger] r[j]).id == id;
                assert(s.contains(r[j]));
                let k = choose|k: int| 0 <= k < s.len() && s[k] == r[j];
                assert(s[k].id == id);
            }
            if has_id(s, id) && keep.contains(id) {
                let k = choose|k: int| 0 <= k < s.len() && (#[trigger] s[k]).id == id;
                if k < init.len() {
                    assert(init[k].id == id);
                    assert(has_id(init, id));
                    let j = choose|j: int| 0 <= j < ri.len() && (#[trigger] ri[j]).id == id;
                    assert(r[j].id == id);
                } else {
                    assert(r[r.len() - 1].id == id);
                }
            }
        }
        if distinct_ids(s) {
            assert(distinct_ids(init)) by {
                assert forall|a: int, b: int| 0 <= a < b < init.len() implies (#[trigger] init[a]).id
                    != (#[trigger] init[b]).id by {
                    assert(s[a].id != s[b].id);
                }
            }
            assert forall|a: int, b: int| 0 <= a < b < r.len() implies (#[trigger] r[a]).id != (
            #[trigger] r[b]).id by {
                if b == ri.len() {
                    assert(init.contains(ri[a]));
                    let k = choose|k: int| 0 <= k < init.len() && init[k] == ri[a];
                    assert(s[k].id != s[s.len() - 1].id);
                }
            }
        }
        assert forall|i: int| 0 <= i < s.len() && keep.contains((#[trigger] s[i]).id) implies r.contains(
            s[i],
        ) by {
            if i < init.len() {
                assert(init[i] == s[i]);
                assert(ri.contains(init[i]));
                let j = choose|j: int| 0 <= j < ri.len() && ri[j] == init[i];
                assert(r[j] == s[i]);
            } else {
                assert(r[r.len() - 1] == s[i]);
            }
        }
    }
}

/// Keeping everything keeps the sequence.
pub proof fn lemma_retain_all(s: Seq<ElementView>, keep: Set<u64>)
    requires
        forall|i: int| 0 <= i < s.len() ==> keep.contains((#[trigger] s[i]).id),
    ensures
        retain(s, keep) == s,
    decreases s.len(),
{
    if s.len() > 0 {
        lemma_retain_all(s.drop_last(), keep);
        assert(s.drop_last().push(s.last()) =~= s);
    }
}

/// Keeping nothing leaves nothing.
pub proof fn lemma_retain_none(s: Seq<ElementView>, keep: Set<u64>)
    requires
        forall|i: int| 0 <= i < s.len() ==> !keep.contains((#[trigger] s[i]).id),
    ensures
        retain(s, keep) == Seq::<ElementView>::empty(),
    decreases s.len(),
{
    if s.len() > 0 {
        lemma_retain_none(s.drop_last(), keep);
    }
}

/// The identifiers of two sequences put together are those of the two;
/// together they are distinct where each is and they share none.
pub proof fn lemma_concat_parts(a: Seq<ElementView>, b: Seq<ElementView>)
    ensures
        distinct_ids(a + b) ==> distinct_ids(a) && distinct_ids(b) && forall|id: u64|
            !(has_id(a, id) && has_id(b, id)),
        distinct_ids(a) && distinct_ids(b) && (forall|id: u64| !(has_id(a, id) && has_id(b, id)))
            ==> distinct_ids(a + b),
        forall|id: u64| has_id(a + b, id) <==> has_id(a, id) || has_id(b, id),
        forall|bound: int| ids_below(a + b, bound) <==> ids_below(a, bound) && ids_below(b, bound),
{
    let c = a + b;
    assert forall|id: u64| has_id(c, id) <==> has_id(a, id) || has_id(b, id) by {
        if has_id(c, id) {
            let i = choose|i: int| 0 <= i < c.len() && (#[trigger] c[i]).id == id;
            if i < a.len() {
                assert(a[i].id == id);
            } else {
                assert(b[i - a.len()].id == id);
            }
        }
        if has_id(a, id) {
            let i = choose|i: int| 0 <= i < a.len() && (#[trigger] a[i]).id == id;
            assert(c[i].id == id);
        }
        if has_id(b, id) {
            let i = choose|i: int| 0 <= i < b.len() && (#[trigger] b[i]).id == id;
            assert(c[a.len() + i].id == id);
        }
    }
    if distinct_ids(c) {
        assert forall|i: int, j: int| 0 <= i < j < a.len() implies (#[trigger] a[i]).id != (
        #[trigger] a[j]).id by {
            assert(c[i].id != c[j].id);
        }
        assert forall|i: int, j: int| 0 <= i < j < b.len() implies (#[trigger] b[i]).id != (
        #[trigger] b[j]).id by {
            assert(c[a.len() + i].id != c[a.len() + j].id);
        }
        assert forall|id: u64| !(has_id(a, id) && has_id(b, id)) by {
            if has_id(a, id) && has_id(b, id) {
                let i = choose|i: int| 0 <= i < a.len() && (#[trigger] a[i]).id == id;
                let j = choose|j: int| 0 <= j < b.len() && (#[trigger] b[j]).id == id;
                assert(c[i].id != c[a.len() + j].id);
            }
        }
    }
    if distinct_ids(a) && distinct_ids(b) && (forall|id: u64| !(has_id(a, id) && has_id(b, id))) {
        assert forall|i: int, j: int| 0 <= i < j < c.len() implies (#[trigger] c[i]).id != (
        #[trigger] c[j]).id by {
            if j < a.len() {
                assert(a[i].id != a[j].id);
            } else if i >= a.len() {
                assert(b[i - a.len()].id != b[j - a.len()].id);
            } else {
                let id = a[i].id;
                if b[j - a.len()].id == id {
                    assert(has_id(a, id) && has_id(b, id));
                }
            }
        }
    }
    assert forall|bound: int| ids_below(c, bound) <==> ids_below(a, bound) && ids_below(
        b,
        bound,
    ) by {
        if ids_below(c, bound) {
            assert forall|i: int| 0 <= i < a.len() implies (#[trigger] a[i]).id < bound by {
                assert(c[i].id < bound);
            }
            assert forall|i: int| 0 <= i < b.len() implies (#[trigger] b[i]).id < bound by {
                assert(c[a.len() + i].id < bound);
            }
        }
        if ids_below(a, bound) && ids_below(b, bound) {
            assert forall|i: int| 0 <= i < c.len() implies (#[trigger] c[i]).id < bound by {
                if i < a.len() {
                    assert(a[i].id < bound);
                } else {
                    assert(b[i - a.len()].id < bound);
                }
            }
        }
    }
}

/// The index of the slot of `s` with the identifier `id`, or the length.
pub open spec fn position_of(s: Seq<ElementView>, id: u64) -> int
    decreases s.len(),
{
    if s.len() == 0 || s[0].id == id {
        0
    } else {
        1 + position_of(s.skip(1), id)
    }
}

/// The cores of the slot `id` of `s`.
pub open spec fn cores_under(s: Seq<ElementView>, id: u64) -> Option<usize> {
    if 0 <= position_of(s, id) < s.len() {
        Some(s[position_of(s, id)].info.cores)
    } else {
        None
    }
}

/// The position of an identifier, by search.
pub proof fn lemma_position_unique(s: Seq<ElementView>, id: u64, i: int)
    requires
        0 <= i <= s.len(),
        forall|k: int| 0 <= k < i ==> (#[trigger] s[k]).id != id,
        i < s.len() ==> s[i].id == id,
    ensures
        position_of(s, id) == i,
    decreases s.len(),
{
    if s.len() == 0 || s[0].id == id {
        if i > 0 {
            assert(s[0].id != id);
        }
    } else {
        assert forall|k: int| 0 <= k < i - 1 implies (#[trigger] s.skip(1)[k]).id != id by {
            assert(s[k + 1].id != id);
        }
        lemma_position_unique(s.skip(1), id, i - 1);
    }
}

/// Keeping first `a` and then `b` keeps what is in both.
pub proof fn lemma_retain_twice(s: Seq<ElementView>, a: Set<u64>, b: Set<u64>)
    ensures
        retain(retain(s, a), b) == retain(s, a.intersect(b)),
    decreases s.len(),
{
    if s.len() > 0 {
        lemma_retain_twice(s.drop_last(), a, b);
        if a.contains(s.last().id) {
            assert(retain(s, a).drop_last() =~= retain(s.drop_last(), a));
        }
    }
}

} // verus!
