//! The order in which solvers are compiled ahead of need.
use crate::text::strings_view;
use vstd::prelude::*;

verus! {

/// The name of a solver.
#[derive(Debug, Clone, PartialEq, Eq)]
pub struct SolverId(pub String);

impl View for SolverId {
    type V = Seq<char>;

    open spec fn view(&self) -> Seq<char> {
        self.0@
    }
}

impl SolverId {
    /// The name as a string.
    pub fn into_string(self) -> (s: String)
        ensures
            s@ == self@,
    {
        self.0
    }

    /// A copy of the name as a string.
    pub fn to_string(&self) -> (s: String)
        ensures
            s@ == self@,
    {
        self.0.clone()
    }
}

/// The solvers that wait to be compiled, each with its priority, and those
/// that are being compiled.
#[derive(Debug, Clone, PartialEq, Eq)]
pub struct CompilationPriority {
    to_start_queue: Vec<(u64, SolverId)>,
    running: Vec<(SolverId, u64)>,
}

/// The queue that the list `solvers` gives: the last solver has priority 0,
/// the one before it 1, and so on; the queue goes by rising priority.
pub open spec fn queue_of(solvers: Seq<Seq<char>>) -> Seq<(u64, Seq<char>)> {
    Seq::new(solvers.len(), |i: int| (i as u64, solvers[solvers.len() - 1 - i]))
}

impl CompilationPriority {
    /// The solvers that wait, with their priorities, by rising priority.
    pub closed spec fn queue(&self) -> Seq<(u64, Seq<char>)> {
        Seq::new(
            self.to_start_queue@.len(),
            |i: int| (self.to_start_queue@[i].0, self.to_start_queue@[i].1@),
        )
    }

    /// The solvers that are being compiled, with their priorities.
    pub closed spec fn in_progress(&self) -> Seq<(Seq<char>, u64)> {
        Seq::new(self.running@.len(), |i: int| (self.running@[i].0@, self.running@[i].1))
    }

    /// The priorities for the solvers of `solvers`, none of which is being
    /// compiled.
    pub fn from_vec(solvers: Vec<String>) -> (p: Self)
        ensures
            p.queue() == queue_of(strings_view(solvers@)),
            p.in_progress().len() == 0,
    {
        let n = solvers.len();
        let mut queue: Vec<(u64, SolverId)> = Vec::new();
        let mut i: usize = 0;
        while i < n
            invariant
                0 <= i <= n,
                n == solvers.len(),
                queue.len() == i,
                forall|k: int|
                    0 <= k < i ==> (#[trigger] queue@[k]).0 == k as u64 && queue@[k].1@
                        == solvers@[n - 1 - k]@,
            decreases n - i,
        {
            queue.push((i as u64, SolverId(solvers[n - 1 - i].clone())));
            i += 1;
        }
        let p = CompilationPriority { to_start_queue: queue, running: Vec::new() };
        assert(p.queue() =~= queue_of(strings_view(solvers@)));
        p
    }

    /// The solvers that wait, from the lowest priority to the highest.
    pub fn waiting(&self) -> (names: Vec<String>)
        ensures
            strings_view(names@) == self.queue().map_values(|e: (u64, Seq<char>)| e.1),
    {
        let mut names: Vec<String> = Vec::new();
        let mut i: usize = 0;
        while i < self.to_start_queue.len()
            invariant
                0 <= i <= self.to_start_queue.len(),
                names.len() == i,
                forall|k: int| 0 <= k < i ==> (#[trigger] names@[k])@ == self.to_start_queue@[k].1@,
            decreases self.to_start_queue.len() - i,
        {
            names.push(self.to_start_queue[i].1.to_string());
            i += 1;
        }
        assert(strings_view(names@) =~= self.queue().map_values(|e: (u64, Seq<char>)| e.1));
        names
    }
}

} // verus!
