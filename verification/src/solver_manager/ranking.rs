//! Solvers by the memory that their process trees hold.
use crate::process_tree::{ProcessInfo, capped_tree_memory};
use crate::solver_manager::ProcessEntry;
use crate::solver_manager::processes::process_of;
use vstd::prelude::*;

verus! {

/// `s`, which falls in memory, with `x` put behind the last entry that holds
/// at least as much.
pub open spec fn insert_desc(s: Seq<(u64, u64)>, x: (u64, u64)) -> Seq<(u64, u64)>
    decreases s.len(),
{
    if s.len() == 0 {
        seq![x]
    } else if s.last().0 >= x.0 {
        s.push(x)
    } else {
        insert_desc(s.drop_last(), x).push(s.last())
    }
}

/// The entries of `s` by falling memory; entries with equal memory keep
/// their order.
pub open spec fn sort_desc(s: Seq<(u64, u64)>) -> Seq<(u64, u64)>
    decreases s.len(),
{
    if s.len() == 0 {
        Seq::empty()
    } else {
        insert_desc(sort_desc(s.drop_last()), s.last())
    }
}

/// The memory never rises along `s`.
pub open spec fn falling(s: Seq<(u64, u64)>) -> bool {
    forall|i: int, j: int| 0 <= i < j < s.len() ==> s[i].0 >= s[j].0
}

/// Putting an entry in keeps the order and adds just that entry.
pub proof fn lemma_insert_desc(s: Seq<(u64, u64)>, x: (u64, u64))
    requires
        falling(s),
    ensures
        falling(insert_desc(s, x)),
        insert_desc(s, x).to_multiset() == s.to_multiset().insert(x),
        insert_desc(s, x).len() == s.len() + 1,
    decreases s.len(),
{
    broadcast use vstd::seq_lib::group_to_multiset_ensures;

    let r = insert_desc(s, x);
    if s.len() == 0 {
        assert(seq![x] =~= Seq::<(u64, u64)>::empty().push(x));
    } else if s.last().0 >= x.0 {
        assert forall|i: int, j: int| 0 <= i < j < r.len() implies r[i].0 >= r[j].0 by {
            if j == s.len() && i < s.len() - 1 {
                assert(s[i].0 >= s[s.len() - 1].0);
            }
        }
    } else {
        let init = s.drop_last();
        assert(falling(init));
        lemma_insert_desc(init, x);
        let ri = insert_desc(init, x);
        assert(s =~= init.push(s.last()));
        assert(ri.push(s.last()).to_multiset() =~= s.to_multiset().insert(x));
        assert forall|i: int, j: int| 0 <= i < j < r.len() implies r[i].0 >= r[j].0 by {
            if j == ri.len() {
                // every entry of ri is x or an entry of init
                assert(ri.to_multiset().count(ri[i]) > 0);
                if ri[i] != x {
                    assert(init.to_multiset().count(ri[i]) > 0);
                    assert(init.contains(ri[i]));
                    let k = choose|k: int| 0 <= k < init.len() && init[k] == ri[i];
                    assert(s[k].0 >= s[s.len() - 1].0);
                }
            }
        }
    }
}

/// Sorting gives the same entries, by falling memory.
pub proof fn lemma_sort_desc(s: Seq<(u64, u64)>)
    ensures
        falling(sort_desc(s)),
        sort_desc(s).to_multiset() == s.to_multiset(),
        sort_desc(s).len() == s.len(),
    decreases s.len(),
{
    broadcast use vstd::seq_lib::group_to_multiset_ensures;

    if s.len() > 0 {
        lemma_sort_desc(s.drop_last());
        lemma_insert_desc(sort_desc(s.drop_last()), s.last());
        assert(s =~= s.drop_last().push(s.last()));
    } else {
        assert(s =~= Seq::<(u64, u64)>::empty());
    }
}

/// Where `x` goes in `s`.
pub proof fn lemma_insert_desc_at(s: Seq<(u64, u64)>, x: (u64, u64), p: int)
    requires
        0 <= p <= s.len(),
        forall|k: int| p <= k < s.len() ==> s[k].0 < x.0,
        p > 0 ==> s[p - 1].0 >= x.0,
    ensures
        insert_desc(s, x) == s.insert(p, x),
    decreases s.len() - p,
{
    if s.len() == 0 {
        assert(seq![x] =~= s.insert(0, x));
    } else if p == s.len() {
        assert(s.push(x) =~= s.insert(p, x));
    } else {
        lemma_insert_desc_at(s.drop_last(), x, p);
        assert(s.drop_last().insert(p, x).push(s.last()) =~= s.insert(p, x));
    }
}

/// Each of `ids` that has a record, in the order of `ids`, with the memory
/// that the tree of its process holds in `table`.
pub open spec fn measured(solvers: Seq<ProcessEntry>, ids: Seq<u64>, table: Seq<ProcessInfo>) -> Seq<
    (u64, u64),
>
    decreases ids.len(),
{
    if ids.len() == 0 {
        Seq::empty()
    } else {
        match process_of(solvers, ids.last()) {
            Some(p) => measured(solvers, ids.drop_last(), table).push(
                (capped_tree_memory(table, p.pid), ids.last()),
            ),
            None => measured(solvers, ids.drop_last(), table),
        }
    }
}

} // verus!
