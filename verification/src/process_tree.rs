//! Process trees over a snapshot of the process table: what belongs to a
//! solver's tree, how much memory it holds, and in what order it is killed.
use vstd::prelude::*;

verus! {

/// One process of a snapshot of the process table.
#[derive(Debug, Clone, Copy, PartialEq, Eq)]
pub struct ProcessInfo {
    pub pid: u32,
    /// The process that started this one.
    pub parent: Option<u32>,
    /// The process group.
    pub group: Option<u32>,
    /// The resident memory, in bytes.
    pub memory: u64,
}

/// A snapshot of the process table.
pub type ProcessTable = Vec<ProcessInfo>;

/// The process at `j` was started by the process at `i`.
pub open spec fn child_of(table: Seq<ProcessInfo>, i: int, j: int) -> bool {
    0 <= i < table.len() && 0 <= j < table.len() && table[j].parent == Some(table[i].pid)
}

/// The process at `j` is one of `seeds`, or is reached from one of them in
/// at most `depth` steps from a process to one that it started.
pub open spec fn reached(table: Seq<ProcessInfo>, seeds: Set<int>, j: int, depth: nat) -> bool
    decreases depth,
{
    0 <= j < table.len() && (seeds.contains(j) || (depth > 0 && exists|i: int|
        #[trigger] child_of(table, i, j) && reached(table, seeds, i, (depth - 1) as nat)))
}

/// The process at `j` is one of `seeds` or descends from one of them.
pub open spec fn in_tree(table: Seq<ProcessInfo>, seeds: Set<int>, j: int) -> bool {
    exists|depth: nat| reached(table, seeds, j, depth)
}

/// How many of `marks` are not set.
pub open spec fn unmarked(marks: Seq<bool>) -> nat
    decreases marks.len(),
{
    if marks.len() == 0 {
        0
    } else {
        unmarked(marks.drop_last()) + if marks.last() {
            0nat
        } else {
            1nat
        }
    }
}

proof fn lemma_mark(marks: Seq<bool>, j: int)
    requires
        0 <= j < marks.len(),
        !marks[j],
    ensures
        unmarked(marks.update(j, true)) + 1 == unmarked(marks),
    decreases marks.len(),
{
    let after = marks.update(j, true);
    if j == marks.len() - 1 {
        assert(after.drop_last() =~= marks.drop_last());
    } else {
        assert(after.drop_last() =~= marks.drop_last().update(j, true));
        lemma_mark(marks.drop_last(), j);
    }
}

/// A set of processes that holds the seeds and, with a process, those that
/// it started holds the whole tree.
proof fn lemma_closed_holds_tree(
    table: Seq<ProcessInfo>,
    seeds: Set<int>,
    marks: Seq<bool>,
    j: int,
    depth: nat,
)
    requires
        marks.len() == table.len(),
        forall|k: int| 0 <= k < table.len() && seeds.contains(k) ==> marks[k],
        forall|i: int, k: int| #[trigger] child_of(table, i, k) && marks[i] ==> marks[k],
        reached(table, seeds, j, depth),
    ensures
        marks[j],
    decreases depth,
{
    if !seeds.contains(j) {
        let i = choose|i: int|
            #[trigger] child_of(table, i, j) && reached(table, seeds, i, (depth - 1) as nat);
        lemma_closed_holds_tree(table, seeds, marks, i, (depth - 1) as nat);
    }
}

/// Marks every process that descends from a marked one.
fn close_over_children(table: &Vec<ProcessInfo>, seeds: Vec<bool>) -> (marks: Vec<bool>)
    requires
        seeds.len() == table.len(),
    ensures
        marks.len() == table.len(),
        forall|j: int|
            0 <= j < table.len() ==> (marks@[j] <==> in_tree(
                table@,
                Set::new(|k: int| 0 <= k < seeds.len() && seeds@[k]),
                j,
            )),
{
    let ghost seed_set = Set::new(|k: int| 0 <= k < seeds.len() && seeds@[k]);
    let n = table.len();
    let mut marks = seeds;
    let mut worklist: Vec<usize> = Vec::new();
    let mut s: usize = 0;
    while s < n
        invariant
            0 <= s <= n,
            n == table.len(),
            marks.len() == n,
            forall|k: int| 0 <= k < n ==> (marks@[k] <==> seed_set.contains(k)),
            forall|w: int| 0 <= w < worklist.len() ==> worklist@[w] < s && marks@[worklist@[w] as int],
            forall|k: int| 0 <= k < s && marks@[k] ==> worklist@.contains(k as usize),
            worklist.len() <= s,
        decreases n - s,
    {
        if marks[s] {
            let ghost before = worklist@;
            worklist.push(s);
            assert forall|k: int| 0 <= k < s + 1 && marks@[k] implies worklist@.contains(
                k as usize,
            ) by {
                if k < s {
                    let w = choose|w: int| 0 <= w < before.len() && before[w] == k as usize;
                    assert(worklist@[w] == k as usize);
                } else {
                    assert(worklist@[before.len() as int] == k as usize);
                }
            }
        }
        s += 1;
    }
    assert forall|j: int| 0 <= j < n && marks@[j] implies in_tree(table@, seed_set, j) by {
        assert(reached(table@, seed_set, j, 0));
    }
    while worklist.len() > 0
        invariant
            n == table.len(),
            marks.len() == n,
            forall|w: int| 0 <= w < worklist.len() ==> worklist@[w] < n && marks@[worklist@[w] as int],
            forall|k: int| 0 <= k < n && seed_set.contains(k) ==> marks@[k],
            forall|j: int| 0 <= j < n && marks@[j] ==> in_tree(table@, seed_set, j),
            forall|i: int, k: int|
                #[trigger] child_of(table@, i, k) && marks@[i] && !worklist@.contains(i as usize)
                    ==> marks@[k],
        decreases 2 * unmarked(marks@) + worklist.len(),
    {
        let ghost list_before = worklist@;
        let i = worklist.pop().unwrap();
        assert(list_before[list_before.len() - 1] == i);
        let pid = table[i].pid;
        let ghost marks_before = marks@;
        assert forall|a: int, k: int|
            #[trigger] child_of(table@, a, k) && marks@[a] && a != i && !worklist@.contains(
                a as usize,
            ) implies marks@[k] by {
            if list_before.contains(a as usize) {
                let w = choose|w: int| 0 <= w < list_before.len() && list_before[w] == a as usize;
                assert(worklist@[w] == a as usize);
            }
        }
        let mut j: usize = 0;
        while j < n
            invariant
                0 <= j <= n,
                i < n,
                n == table.len(),
                marks.len() == n,
                pid == table@[i as int].pid,
                marks@[i as int],
                forall|w: int|
                    0 <= w < worklist.len() ==> worklist@[w] < n && marks@[worklist@[w] as int],
                forall|k: int| 0 <= k < n && seed_set.contains(k) ==> marks@[k],
                forall|k: int| 0 <= k < n && marks@[k] ==> in_tree(table@, seed_set, k),
                forall|k: int| 0 <= k < n && marks_before[k] ==> marks@[k],
                forall|k: int| 0 <= k < j && child_of(table@, i as int, k) ==> marks@[k],
                forall|a: int, k: int|
                    #[trigger] child_of(table@, a, k) && marks@[a] && a != i && !worklist@.contains(
                        a as usize,
                    ) ==> marks@[k],
                2 * unmarked(marks@) + worklist.len() + 1 <= 2 * unmarked(marks_before)
                    + list_before.len(),
            decreases n - j,
        {
            let is_child = match table[j].parent {
                Some(p) => p == pid,
                None => false,
            };
            assert(is_child == child_of(table@, i as int, j as int));
            if is_child && !marks[j] {
                proof {
                    lemma_mark(marks@, j as int);
                    let d = choose|d: nat| reached(table@, seed_set, i as int, d);
                    assert(child_of(table@, i as int, j as int));
                    assert(reached(table@, seed_set, j as int, d + 1));
                }
                let ghost marks_mid = marks@;
                let ghost list_mid = worklist@;
                marks.set(j, true);
                worklist.push(j);
                assert forall|a: int, k: int|
                    #[trigger] child_of(table@, a, k) && marks@[a] && a != i && !worklist@.contains(
                        a as usize,
                    ) implies marks@[k] by {
                    if a == j {
                        assert(worklist@[list_mid.len() as int] == j);
                    } else {
                        assert(marks_mid[a]);
                        if list_mid.contains(a as usize) {
                            let w = choose|w: int| 0 <= w < list_mid.len() && list_mid[w] == a as usize;
                            assert(worklist@[w] == a as usize);
                        }
                        assert(marks_mid[k]);
                    }
                }
            }
            j += 1;
        }
        assert forall|a: int, k: int|
            #[trigger] child_of(table@, a, k) && marks@[a] && !worklist@.contains(a as usize)
            implies marks@[k] by {
            if a == i {
            }
        }
    }
    proof {
        assert forall|j: int| 0 <= j < n && in_tree(table@, seed_set, j) implies marks@[j] by {
            let d = choose|d: nat| reached(table@, seed_set, j, d);
            lemma_closed_holds_tree(table@, seed_set, marks@, j, d);
        }
    }
    marks
}

/// The places of the processes with the identifier `pid`.
pub open spec fn roots(table: Seq<ProcessInfo>, pid: u32) -> Set<int> {
    Set::new(|k: int| 0 <= k < table.len() && table[k].pid == pid)
}

/// The memory of the first `n` processes of `table` that belong to the
/// trees of `seeds`, added up.
pub open spec fn memory_sum(table: Seq<ProcessInfo>, seeds: Set<int>, n: int) -> nat
    decreases n,
{
    if n <= 0 {
        0
    } else {
        memory_sum(table, seeds, n - 1) + if in_tree(table, seeds, n - 1) {
            table[n - 1].memory as nat
        } else {
            0nat
        }
    }
}

/// The memory that the process `root` and its descendants hold. A process
/// that the snapshot lacks holds none.
pub open spec fn tree_memory(table: Seq<ProcessInfo>, root: u32) -> nat {
    memory_sum(table, roots(table, root), table.len() as int)
}

/// The memory of the tree of `root` in bytes, or the largest number where
/// the sum is above it.
pub open spec fn capped_tree_memory(table: Seq<ProcessInfo>, root: u32) -> u64 {
    if tree_memory(table, root) <= u64::MAX {
        tree_memory(table, root) as u64
    } else {
        u64::MAX
    }
}

/// The marks of the processes with the identifier `pid`, and of those of
/// the group `group` where one is given.
fn seed_marks(table: &Vec<ProcessInfo>, pid: u32, group: Option<u32>) -> (marks: Vec<bool>)
    ensures
        marks.len() == table.len(),
        forall|k: int|
            0 <= k < table.len() ==> (marks@[k] <==> kill_seeds(table@, pid, group).contains(k)),
{
    let mut marks: Vec<bool> = Vec::new();
    let mut k: usize = 0;
    while k < table.len()
        invariant
            0 <= k <= table.len(),
            marks.len() == k,
            forall|i: int| 0 <= i < k ==> (marks@[i] <==> kill_seeds(table@, pid, group).contains(i)),
        decreases table.len() - k,
    {
        let in_group = match (group, table[k].group) {
            (Some(g), Some(h)) => g == h,
            _ => false,
        };
        marks.push(table[k].pid == pid || in_group);
        k += 1;
    }
    marks
}

/// The memory, in bytes, that the process `root_pid` and its descendants
/// hold in the snapshot, or the largest number where the sum is above it.
pub fn get_process_tree_memory(table: &ProcessTable, root_pid: u32) -> (total: u64)
    ensures
        total == capped_tree_memory(table@, root_pid),
{
    let ghost seeds = roots(table@, root_pid);
    let start = seed_marks(table, root_pid, None);
    assert(Set::new(|k: int| 0 <= k < start.len() && start@[k]) =~= seeds);
    let marks = close_over_children(table, start);
    let mut total: u64 = 0;
    let mut k: usize = 0;
    while k < table.len()
        invariant
            0 <= k <= table.len(),
            marks.len() == table.len(),
            forall|j: int| 0 <= j < table.len() ==> (marks@[j] <==> in_tree(table@, seeds, j)),
            total == (if memory_sum(table@, seeds, k as int) <= u64::MAX {
                memory_sum(table@, seeds, k as int)
            } else {
                u64::MAX as nat
            }),
        decreases table.len() - k,
    {
        if marks[k] {
            total = total.saturating_add(table[k].memory);
        }
        k += 1;
    }
    total
}

/// The processes of the group `target_pgid`, in the order of the snapshot.
pub open spec fn group_members(table: Seq<ProcessInfo>, target_pgid: u32) -> Seq<u32>
    decreases table.len(),
{
    if table.len() == 0 {
        Seq::empty()
    } else if table.last().group == Some(target_pgid) {
        group_members(table.drop_last(), target_pgid).push(table.last().pid)
    } else {
        group_members(table.drop_last(), target_pgid)
    }
}

/// The processes of the group `target_pgid`, in the order of the snapshot.
pub fn get_pids_in_group(table: &ProcessTable, target_pgid: u32) -> (members: Vec<u32>)
    ensures
        members@ == group_members(table@, target_pgid),
{
    let mut members: Vec<u32> = Vec::new();
    let mut k: usize = 0;
    while k < table.len()
        invariant
            0 <= k <= table.len(),
            members@ == group_members(table@.take(k as int), target_pgid),
        decreases table.len() - k,
    {
        assert(table@.take(k + 1).drop_last() =~= table@.take(k as int));
        let inside = match table[k].group {
            Some(g) => g == target_pgid,
            None => false,
        };
        if inside {
            members.push(table[k].pid);
        }
        k += 1;
    }
    assert(table@.take(k as int) =~= table@);
    members
}

/// The places from which a forced kill starts: the process `root`, and the
/// members of its group where the group is known.
pub open spec fn kill_seeds(table: Seq<ProcessInfo>, root: u32, group: Option<u32>) -> Set<int> {
    Set::new(
        |k: int|
            0 <= k < table.len() && (table[k].pid == root || (group is Some && table[k].group
                == group)),
    )
}

/// Among the first `n` processes of `table`, those other than `root` that
/// belong to the trees of `seeds`.
pub open spec fn others_in_tree(table: Seq<ProcessInfo>, seeds: Set<int>, root: u32, n: int) -> Seq<
    u32,
>
    decreases n,
{
    if n <= 0 {
        Seq::empty()
    } else if in_tree(table, seeds, n - 1) && table[n - 1].pid != root {
        others_in_tree(table, seeds, root, n - 1).push(table[n - 1].pid)
    } else {
        others_in_tree(table, seeds, root, n - 1)
    }
}

/// The order in which a solver's processes are killed: the members of the
/// root's group and all that descend from them or from the root, in the
/// order of the snapshot, and the root itself last.
pub open spec fn kill_order(table: Seq<ProcessInfo>, root: u32, group: Option<u32>) -> Seq<u32> {
    others_in_tree(table, kill_seeds(table, root, group), root, table.len() as int).push(root)
}

/// The processes to kill so that nothing of the solver `root_pid` stays
/// alive, in the order in which to kill them. `root_group` is the process
/// group of the root, where it could be found.
pub fn recursive_force_kill(table: &ProcessTable, root_pid: u32, root_group: Option<u32>) -> (order:
    Vec<u32>)
    ensures
        order@ == kill_order(table@, root_pid, root_group),
{
    let ghost seeds = kill_seeds(table@, root_pid, root_group);
    let start = seed_marks(table, root_pid, root_group);
    assert(Set::new(|k: int| 0 <= k < start.len() && start@[k]) =~= seeds);
    let marks = close_over_children(table, start);
    let mut order: Vec<u32> = Vec::new();
    let mut k: usize = 0;
    while k < table.len()
        invariant
            0 <= k <= table.len(),
            marks.len() == table.len(),
            forall|j: int| 0 <= j < table.len() ==> (marks@[j] <==> in_tree(table@, seeds, j)),
            order@ == others_in_tree(table@, seeds, root_pid, k as int),
        decreases table.len() - k,
    {
        if marks[k] && table[k].pid != root_pid {
            order.push(table[k].pid);
        }
        k += 1;
    }
    order.push(root_pid);
    order
}

} // verus!
