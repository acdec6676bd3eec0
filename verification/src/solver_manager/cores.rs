//! The free cores.
use vstd::prelude::*;

verus! {

/// Strictly rising.
pub open spec fn rising(s: Seq<usize>) -> bool {
    forall|i: int, j: int| 0 <= i < j < s.len() ==> s[i] < s[j]
}

/// Taking the lowest free cores parts the free cores in two: what is taken
/// and what stays have no core in common, and together they are what was
/// free.
pub proof fn lemma_cores_partition(available: Seq<usize>, count: int)
    requires
        rising(available),
        0 <= count <= available.len(),
    ensures
        rising(available.skip(count)),
        available.take(count).to_set().disjoint(available.skip(count).to_set()),
        available.take(count).to_set().union(available.skip(count).to_set()) == available.to_set(),
{
    let taken = available.take(count);
    let rest = available.skip(count);
    assert forall|x: usize| !(taken.to_set().contains(x) && rest.to_set().contains(x)) by {
        if taken.contains(x) && rest.contains(x) {
            let i = choose|i: int| 0 <= i < taken.len() && taken[i] == x;
            let j = choose|j: int| 0 <= j < rest.len() && rest[j] == x;
            assert(available[i] < available[count + j]);
        }
    }
    assert forall|x: usize|
        taken.to_set().union(rest.to_set()).contains(x) <==> available.to_set().contains(x) by {
        if taken.contains(x) {
            let i = choose|i: int| 0 <= i < taken.len() && taken[i] == x;
            assert(available[i] == x);
        }
        if rest.contains(x) {
            let j = choose|j: int| 0 <= j < rest.len() && rest[j] == x;
            assert(available[count + j] == x);
        }
        if available.contains(x) {
            let k = choose|k: int| 0 <= k < available.len() && available[k] == x;
            if k < count {
                assert(taken[k] == x);
            } else {
                assert(rest[k - count] == x);
            }
        }
    }
    assert(taken.to_set().union(rest.to_set()) =~= available.to_set());
}

} // verus!
