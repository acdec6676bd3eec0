//! Compilations of the model, one for each solver: which have been started,
//! which are done, and what those who wait for one are told.
use crate::assoc::{
    del, distinct_keys, get, index_of, lemma_del, lemma_index_of, lemma_index_unique, lemma_put, put,
};
use crate::args::OutputMode;
use crate::command::{CommandLine, CommandLineView};
use crate::is_cancelled::IsCancelled;
use crate::text::{str_eq, strings_view};
use vstd::prelude::*;

verus! {

/// The two files that a compilation leaves: the flat model and the output
/// template.
#[derive(Debug, Clone, PartialEq, Eq)]
pub struct Conversion {
    fzn_file: String,
    ozn_file: String,
}

/// The model of [`Conversion`].
pub struct ConversionView {
    pub fzn: Seq<char>,
    pub ozn: Seq<char>,
}

impl View for Conversion {
    type V = ConversionView;

    closed spec fn view(&self) -> ConversionView {
        ConversionView { fzn: self.fzn_file@, ozn: self.ozn_file@ }
    }
}

impl Conversion {
    /// The conversion that left `fzn_file` and `ozn_file`.
    pub fn new(fzn_file: String, ozn_file: String) -> (c: Self)
        ensures
            c@ == (ConversionView { fzn: fzn_file@, ozn: ozn_file@ }),
    {
        Conversion { fzn_file, ozn_file }
    }

    /// The path of the flat model.
    pub fn fzn(&self) -> (p: &str)
        ensures
            p@ == self@.fzn,
    {
        self.fzn_file.as_str()
    }

    /// The path of the output template.
    pub fn ozn(&self) -> (p: &str)
        ensures
            p@ == self@.ozn,
    {
        self.ozn_file.as_str()
    }

    /// A copy of this conversion.
    pub fn duplicate(&self) -> (c: Self)
        ensures
            c@ == self@,
    {
        Conversion { fzn_file: self.fzn_file.clone(), ozn_file: self.ozn_file.clone() }
    }
}

/// Why the flattener left no files.
#[derive(Debug, Clone, Copy, PartialEq, Eq, Structural)]
pub enum ConversionError {
    /// The flattener ended with this exit code, or by a signal.
    CommandFailed(Option<i32>),
    /// A temporary file could not be made.
    TempFile,
    /// The flattener could not be run or waited for.
    Io,
}

/// How a compilation failed.
#[derive(Debug, Clone, PartialEq, Eq)]
pub enum Error {
    /// The compilation for this solver was cancelled.
    Cancelled(String),
    Conversion(ConversionError),
}

impl IsCancelled for Error {
    open spec fn cancelled(&self) -> bool {
        self is Cancelled
    }

    fn is_cancelled(&self) -> (b: bool) {
        match self {
            Error::Cancelled(_) => true,
            Error::Conversion(_) => false,
        }
    }
}

impl<T> IsCancelled for Result<T, Error> {
    open spec fn cancelled(&self) -> bool {
        match self {
            Ok(_) => false,
            Err(e) => e.cancelled(),
        }
    }

    fn is_cancelled(&self) -> (b: bool) {
        match self {
            Ok(_) => false,
            Err(e) => e.is_cancelled(),
        }
    }
}

/// What one who waits for a compilation is told when there are no files.
#[derive(Debug, Clone, PartialEq, Eq)]
pub enum WaitForError {
    Cancelled,
    /// No compilation has been started for this solver.
    NotStarted(String),
    /// The compilation for this solver went away without a result.
    ReadChannelClosed(String),
    /// The wait for this solver's compilation ended before its result.
    CompilationUnfinishedAfterWaiting(String),
    /// The compilation failed.
    Conversion,
}

/// The model of [`WaitForError`].
pub enum WaitForErrorView {
    Cancelled,
    NotStarted(Seq<char>),
    ReadChannelClosed(Seq<char>),
    CompilationUnfinishedAfterWaiting(Seq<char>),
    Conversion,
}

impl View for WaitForError {
    type V = WaitForErrorView;

    open spec fn view(&self) -> WaitForErrorView {
        match self {
            WaitForError::Cancelled => WaitForErrorView::Cancelled,
            WaitForError::NotStarted(s) => WaitForErrorView::NotStarted(s@),
            WaitForError::ReadChannelClosed(s) => WaitForErrorView::ReadChannelClosed(s@),
            WaitForError::CompilationUnfinishedAfterWaiting(s) => {
                WaitForErrorView::CompilationUnfinishedAfterWaiting(s@)
            },
            WaitForError::Conversion => WaitForErrorView::Conversion,
        }
    }
}

impl IsCancelled for WaitForError {
    open spec fn cancelled(&self) -> bool {
        self is Cancelled
    }

    fn is_cancelled(&self) -> (b: bool) {
        match self {
            WaitForError::Cancelled => true,
            _ => false,
        }
    }
}

impl WaitForError {
    /// A copy of this error.
    pub fn duplicate(&self) -> (e: Self)
        ensures
            e@ == self@,
    {
        match self {
            WaitForError::Cancelled => WaitForError::Cancelled,
            WaitForError::NotStarted(s) => WaitForError::NotStarted(s.clone()),
            WaitForError::ReadChannelClosed(s) => WaitForError::ReadChannelClosed(s.clone()),
            WaitForError::CompilationUnfinishedAfterWaiting(s) => {
                WaitForError::CompilationUnfinishedAfterWaiting(s.clone())
            },
            WaitForError::Conversion => WaitForError::Conversion,
        }
    }
}

impl From<&Error> for WaitForError {
    fn from(value: &Error) -> (e: Self) {
        match value {
            Error::Cancelled(_) => WaitForError::Cancelled,
            Error::Conversion(_) => WaitForError::Conversion,
        }
    }
}

impl vstd::std_specs::convert::FromSpecImpl<&Error> for WaitForError {
    open spec fn obeys_from_spec() -> bool {
        true
    }

    open spec fn from_spec(value: &Error) -> Self {
        match value {
            Error::Cancelled(_) => WaitForError::Cancelled,
            Error::Conversion(_) => WaitForError::Conversion,
        }
    }
}

/// What one who waits for a compilation is told.
pub type WaitForResult = Result<Conversion, WaitForError>;

pub type WaitForResultView = Result<ConversionView, WaitForErrorView>;

/// The view of a result.
pub open spec fn result_view(r: WaitForResult) -> WaitForResultView {
    match r {
        Ok(c) => Ok(c@),
        Err(e) => Err(e@),
    }
}

/// A copy of a result.
pub fn duplicate_result(r: &WaitForResult) -> (copy: WaitForResult)
    ensures
        result_view(copy) == result_view(*r),
{
    match r {
        Ok(c) => Ok(c.duplicate()),
        Err(e) => Err(e.duplicate()),
    }
}

/// The state of the compilation for one solver.
#[derive(Debug, PartialEq, Eq)]
pub enum Compilation {
    Done(WaitForResult),
    Started,
}

/// The model of [`Compilation`].
pub enum CompilationView {
    Done(WaitForResultView),
    Started,
}

impl View for Compilation {
    type V = CompilationView;

    open spec fn view(&self) -> CompilationView {
        match self {
            Compilation::Done(r) => CompilationView::Done(result_view(*r)),
            Compilation::Started => CompilationView::Started,
        }
    }
}

/// How far the compilation for a solver is.
#[derive(Debug, Clone, Copy, PartialEq, Eq, Structural)]
pub enum CompilationStatus {
    NotStarted,
    Running,
    Done,
}

/// What a waiter does next.
#[derive(Debug, PartialEq, Eq)]
pub enum WaitDecision {
    /// The answer is known.
    Ready(WaitForResult),
    /// The compilation runs: wait for its result.
    Subscribe,
}

/// How a wait for a running compilation ended.
#[derive(Debug, PartialEq, Eq)]
pub enum WaitOutcome {
    /// The waiter was cancelled.
    Cancelled,
    /// The compilation went away.
    ChannelClosed,
    /// The wait ended with what was published, if anything was.
    Value(Option<WaitForResult>),
}

/// The compilations of one run, by solver name.
#[derive(Debug)]
pub struct CompilationManager {
    names: Vec<String>,
    states: Vec<Compilation>,
}

/// The compilations as keyed entries, in the order in which they began.
pub type Compilations = Seq<(Seq<char>, CompilationView)>;

impl View for CompilationManager {
    type V = Compilations;

    closed spec fn view(&self) -> Compilations {
        Seq::new(self.names@.len(), |i: int| (self.names@[i]@, self.states@[i]@))
    }
}

/// The status that a compilation in the state `c` has.
pub open spec fn status_of(c: Option<CompilationView>) -> CompilationStatus {
    match c {
        None => CompilationStatus::NotStarted,
        Some(CompilationView::Started) => CompilationStatus::Running,
        Some(CompilationView::Done(_)) => CompilationStatus::Done,
    }
}

/// Starting a compilation for `name`: where one runs or is done nothing
/// changes; else one begins, and the flattener is to be run.
pub open spec fn start_step(s: Compilations, name: Seq<char>) -> (Compilations, bool) {
    if get(s, name) is Some {
        (s, false)
    } else {
        (s.push((name, CompilationView::Started)), true)
    }
}

/// Stopping the compilation for `name`: one that runs is cancelled and
/// forgotten; one that is done stays.
pub open spec fn stop_step(s: Compilations, name: Seq<char>) -> (Compilations, bool) {
    if get(s, name) == Some(CompilationView::Started) {
        (del(s, name), true)
    } else {
        (s, false)
    }
}

/// The end of the flattener for `name` with `published`: the result is
/// kept, unless it says that the compilation was cancelled.
pub open spec fn finish_step(s: Compilations, name: Seq<char>, published: WaitForResultView)
    -> Compilations {
    if published == Err::<ConversionView, WaitForErrorView>(WaitForErrorView::Cancelled) {
        s
    } else {
        put(s, name, CompilationView::Done(published))
    }
}

/// What a waiter for `name` is told at once, if anything.
pub open spec fn wait_step(s: Compilations, name: Seq<char>, cancelled: bool) -> Option<
    WaitForResultView,
> {
    if cancelled {
        Some(Err(WaitForErrorView::Cancelled))
    } else {
        match get(s, name) {
            None => Some(Err(WaitForErrorView::NotStarted(name))),
            Some(CompilationView::Done(r)) => Some(r),
            Some(CompilationView::Started) => None,
        }
    }
}

/// Starting compilations for `names`, in order.
pub open spec fn start_each(s: Compilations, names: Seq<Seq<char>>) -> (
    Compilations,
    Seq<Seq<char>>,
)
    decreases names.len(),
{
    if names.len() == 0 {
        (s, Seq::empty())
    } else {
        let before = start_each(s, names.drop_last());
        let step = start_step(before.0, names.last());
        (
            step.0,
            if step.1 {
                before.1.push(names.last())
            } else {
                before.1
            },
        )
    }
}

/// Stopping the compilations for `names`, in order.
pub open spec fn stop_each_name(s: Compilations, names: Seq<Seq<char>>) -> (
    Compilations,
    Seq<Seq<char>>,
)
    decreases names.len(),
{
    if names.len() == 0 {
        (s, Seq::empty())
    } else {
        let before = stop_each_name(s, names.drop_last());
        let step = stop_step(before.0, names.last());
        (
            step.0,
            if step.1 {
                before.1.push(names.last())
            } else {
                before.1
            },
        )
    }
}

/// Stopping every compilation that runs and is not for one of
/// `exceptions`: what stays, and the solvers whose flattener is cancelled,
/// in the order in which their compilations began.
pub open spec fn stop_others(s: Compilations, exceptions: Seq<Seq<char>>) -> (
    Compilations,
    Seq<Seq<char>>,
)
    decreases s.len(),
{
    if s.len() == 0 {
        (Seq::empty(), Seq::empty())
    } else {
        let before = stop_others(s.drop_last(), exceptions);
        if s.last().1 == CompilationView::Started && !exceptions.contains(s.last().0) {
            (before.0, before.1.push(s.last().0))
        } else {
            (before.0.push(s.last()), before.1)
        }
    }
}

/// What stays after stopping comes from what was there, in its order.
proof fn lemma_stop_others(s: Compilations, exceptions: Seq<Seq<char>>)
    requires
        distinct_keys(s),
    ensures
        distinct_keys(stop_others(s, exceptions).0),
        forall|j: int|
            0 <= j < stop_others(s, exceptions).0.len() ==> s.contains(
                #[trigger] stop_others(s, exceptions).0[j],
            ),
    decreases s.len(),
{
    if s.len() > 0 {
        let init = s.drop_last();
        assert(distinct_keys(init)) by {
            assert forall|a: int, b: int| 0 <= a < b < init.len() implies (#[trigger] init[a]).0 != (
            #[trigger] init[b]).0 by {
                assert(s[a].0 != s[b].0);
            }
        }
        lemma_stop_others(init, exceptions);
        let before = stop_others(init, exceptions).0;
        let after = stop_others(s, exceptions).0;
        assert forall|j: int| 0 <= j < after.len() implies s.contains(#[trigger] after[j]) by {
            if j < before.len() {
                assert(init.contains(before[j]));
                let k = choose|k: int| 0 <= k < init.len() && init[k] == before[j];
                assert(s[k] == after[j]);
            } else {
                assert(s[s.len() - 1] == after[j]);
            }
        }
        assert forall|a: int, b: int| 0 <= a < b < after.len() implies (#[trigger] after[a]).0 != (
        #[trigger] after[b]).0 by {
            if b == before.len() {
                assert(init.contains(before[a]));
                let k = choose|k: int| 0 <= k < init.len() && init[k] == before[a];
                assert(s[k].0 != s[s.len() - 1].0);
            }
        }
    }
}

/// What can happen to the compilations while none is stopped.
pub enum CompilationEvent {
    /// A compilation is asked for.
    Start(Seq<char>),
    /// The flattener for a solver ends, with what its waiters are told.
    Finish(Seq<char>, WaitForResultView),
    /// Someone waits for a compilation.
    Wait(Seq<char>, bool),
}

/// The compilations after `events`, and the solvers for which the
/// flattener was run, in order.
pub open spec fn after_events(s: Compilations, events: Seq<CompilationEvent>) -> (
    Compilations,
    Seq<Seq<char>>,
)
    decreases events.len(),
{
    if events.len() == 0 {
        (s, Seq::empty())
    } else {
        let before = after_events(s, events.drop_last());
        match events.last() {
            CompilationEvent::Start(name) => {
                let step = start_step(before.0, name);
                (
                    step.0,
                    if step.1 {
                        before.1.push(name)
                    } else {
                        before.1
                    },
                )
            },
            CompilationEvent::Finish(name, published) => (
                finish_step(before.0, name, published),
                before.1,
            ),
            CompilationEvent::Wait(_, _) => before,
        }
    }
}

/// How often `name` occurs in `names`.
pub open spec fn occurrences(names: Seq<Seq<char>>, name: Seq<char>) -> nat
    decreases names.len(),
{
    if names.len() == 0 {
        0
    } else {
        occurrences(names.drop_last(), name) + if names.last() == name {
            1nat
        } else {
            0nat
        }
    }
}

/// While no compilation is stopped, the flattener is run at most once for
/// a solver, however many ask or wait for its compilation, and not at all
/// for a solver whose compilation had been started before.
pub proof fn lemma_flattener_runs_once(
    s: Compilations,
    events: Seq<CompilationEvent>,
    name: Seq<char>,
)
    ensures
        occurrences(after_events(s, events).1, name) <= 1,
        get(s, name) is Some ==> occurrences(after_events(s, events).1, name) == 0,
        get(s, name) is Some || occurrences(after_events(s, events).1, name) == 1 ==> get(
            after_events(s, events).0,
            name,
        ) is Some,
    decreases events.len(),
{
    if events.len() > 0 {
        let before = after_events(s, events.drop_last());
        lemma_flattener_runs_once(s, events.drop_last(), name);
        match events.last() {
            CompilationEvent::Start(n) => {
                lemma_index_of(before.0, n);
                lemma_put(before.0, n, CompilationView::Started);
                assert(before.1.push(n).drop_last() =~= before.1);
                if get(before.0, n) is None {
                    assert(before.0.push((n, CompilationView::Started)) == put(
                        before.0,
                        n,
                        CompilationView::Started,
                    ));
                }
            },
            CompilationEvent::Finish(n, published) => {
                lemma_put(before.0, n, CompilationView::Done(published));
            },
            CompilationEvent::Wait(_, _) => {},
        }
    }
}

impl CompilationManager {
    /// Each solver has at most one compilation.
    pub closed spec fn wf(&self) -> bool {
        self.names@.len() == self.states@.len() && distinct_keys(self@)
    }

    /// A manager with no compilation.
    pub fn new() -> (m: Self)
        ensures
            m.wf(),
            m@ == Seq::<(Seq<char>, CompilationView)>::empty(),
    {
        let m = CompilationManager { names: Vec::new(), states: Vec::new() };
        assert(m@ =~= Seq::<(Seq<char>, CompilationView)>::empty());
        m
    }

    /// Where the compilation for `name` stands.
    fn find(&self, name: &str) -> (i: usize)
        requires
            self.wf(),
        ensures
            i == index_of(self@, name@),
            i <= self.names@.len(),
            i < self.names@.len() ==> self.names@[i as int]@ == name@,
    {
        let mut i: usize = 0;
        while i < self.names.len() && !str_eq(self.names[i].as_str(), name)
            invariant
                0 <= i <= self.names.len(),
                self.wf(),
                forall|k: int| 0 <= k < i ==> (#[trigger] self@[k]).0 != name@,
            decreases self.names.len() - i,
        {
            i += 1;
        }
        proof {
            if i < self.names.len() {
                assert(self@[i as int].0 == name@);
            }
            lemma_index_unique(self@, name@, i as int);
        }
        i
    }

    /// Whether a compilation for `solver_name` runs or is done.
    pub fn is_started(&self, solver_name: &str) -> (b: bool)
        requires
            self.wf(),
        ensures
            b == get(self@, solver_name@).is_some(),
    {
        self.find(solver_name) < self.names.len()
    }

    /// How far the compilation for `solver_name` is.
    pub fn status(&self, solver_name: &str) -> (st: CompilationStatus)
        requires
            self.wf(),
        ensures
            st == status_of(get(self@, solver_name@)),
    {
        let i = self.find(solver_name);
        if i < self.names.len() {
            match &self.states[i] {
                Compilation::Started => CompilationStatus::Running,
                Compilation::Done(_) => CompilationStatus::Done,
            }
        } else {
            CompilationStatus::NotStarted
        }
    }

    /// Starts the compilation for `solver_name`, unless one runs or is
    /// done. The answer says whether the flattener is to be run.
    pub fn start(&mut self, solver_name: String) -> (run: bool)
        requires
            old(self).wf(),
        ensures
            final(self).wf(),
            final(self)@ == start_step(old(self)@, solver_name@).0,
            run == start_step(old(self)@, solver_name@).1,
    {
        let i = self.find(solver_name.as_str());
        if i < self.names.len() {
            return false;
        }
        proof {
            lemma_index_of(self@, solver_name@);
            lemma_put(self@, solver_name@, CompilationView::Started);
        }
        let ghost before = self@;
        self.names.push(solver_name);
        self.states.push(Compilation::Started);
        assert(self@ =~= before.push((solver_name@, CompilationView::Started)));
        true
    }

    /// Starts the compilations for `solver_names`, in order. What comes
    /// back are the solvers for which the flattener is to be run: each that
    /// had no compilation, once.
    pub fn start_many(&mut self, solver_names: Vec<String>) -> (run: Vec<String>)
        requires
            old(self).wf(),
        ensures
            final(self).wf(),
            final(self)@ == start_each(old(self)@, strings_view(solver_names@)).0,
            strings_view(run@) == start_each(old(self)@, strings_view(solver_names@)).1,
    {
        let ghost nv = strings_view(solver_names@);
        let mut run: Vec<String> = Vec::new();
        let mut k: usize = 0;
        assert(strings_view(run@) =~= Seq::<Seq<char>>::empty());
        while k < solver_names.len()
            invariant
                0 <= k <= solver_names.len(),
                nv == strings_view(solver_names@),
                self.wf(),
                self@ == start_each(old(self)@, nv.take(k as int)).0,
                strings_view(run@) == start_each(old(self)@, nv.take(k as int)).1,
            decreases solver_names.len() - k,
        {
            assert(nv.take(k + 1).drop_last() =~= nv.take(k as int));
            assert(nv[k as int] == solver_names@[k as int]@);
            let name = solver_names[k].clone();
            if self.start(name) {
                let ghost before = strings_view(run@);
                run.push(solver_names[k].clone());
                assert(strings_view(run@) =~= before.push(nv[k as int]));
            }
            k += 1;
        }
        assert(nv.take(k as int) =~= nv);
        run
    }

    /// Notes how the flattener for `solver_name` ended, and hands back
    /// what its waiters are told. A cancelled compilation leaves no trace.
    pub fn finish(&mut self, solver_name: &str, outcome: Result<Conversion, Error>) -> (published:
        WaitForResult)
        requires
            old(self).wf(),
        ensures
            final(self).wf(),
            result_view(published) == match outcome {
                Ok(c) => Ok::<ConversionView, WaitForErrorView>(c@),
                Err(Error::Cancelled(_)) => Err::<ConversionView, WaitForErrorView>(
                    WaitForErrorView::Cancelled,
                ),
                Err(Error::Conversion(_)) => Err::<ConversionView, WaitForErrorView>(
                    WaitForErrorView::Conversion,
                ),
            },
            final(self)@ == finish_step(old(self)@, solver_name@, result_view(published)),
    {
        let published: WaitForResult = match outcome {
            Ok(c) => Ok(c),
            Err(e) => Err(WaitForError::from(&e)),
        };
        let cancelled = match &published {
            Ok(_) => false,
            Err(e) => e.is_cancelled(),
        };
        if !cancelled {
            let i = self.find(solver_name);
            let ghost before = self@;
            proof {
                lemma_put(before, solver_name@, CompilationView::Done(result_view(published)));
            }
            let state = Compilation::Done(duplicate_result(&published));
            if i < self.names.len() {
                self.states.set(i, state);
                assert(self@ =~= before.update(
                    i as int,
                    (solver_name@, CompilationView::Done(result_view(published))),
                ));
            } else {
                self.names.push(solver_name.to_owned());
                self.states.push(state);
                assert(self@ =~= before.push(
                    (solver_name@, CompilationView::Done(result_view(published))),
                ));
            }
        }
        published
    }

    /// What a waiter for `solver_name` does: with a result at hand, or
    /// nothing started, or the waiter cancelled, the answer is ready; while
    /// the compilation runs, the waiter subscribes to its result. Waiting
    /// changes nothing.
    pub fn wait_for(&self, solver_name: &str, cancelled: bool) -> (d: WaitDecision)
        requires
            self.wf(),
        ensures
            match wait_step(self@, solver_name@, cancelled) {
                Some(r) => d matches WaitDecision::Ready(x) && result_view(x) == r,
                None => d == WaitDecision::Subscribe,
            },
    {
        if cancelled {
            return WaitDecision::Ready(Err(WaitForError::Cancelled));
        }
        let i = self.find(solver_name);
        if i < self.names.len() {
            match &self.states[i] {
                Compilation::Done(r) => WaitDecision::Ready(duplicate_result(r)),
                Compilation::Started => WaitDecision::Subscribe,
            }
        } else {
            WaitDecision::Ready(Err(WaitForError::NotStarted(solver_name.to_owned())))
        }
    }

    /// Stops the compilation for `solver_name` if it runs. The answer says
    /// whether its flattener is to be cancelled.
    pub fn stop(&mut self, solver_name: &str) -> (cancel: bool)
        requires
            old(self).wf(),
        ensures
            final(self).wf(),
            final(self)@ == stop_step(old(self)@, solver_name@).0,
            cancel == stop_step(old(self)@, solver_name@).1,
    {
        let i = self.find(solver_name);
        if i < self.names.len() {
            let running = match &self.states[i] {
                Compilation::Started => true,
                Compilation::Done(_) => false,
            };
            if running {
                let ghost before = self@;
                proof {
                    lemma_del(before, solver_name@);
                }
                self.names.remove(i);
                self.states.remove(i);
                assert(self@ =~= before.remove(i as int));
                return true;
            }
        }
        false
    }

    /// Stops every compilation that runs, but for those of
    /// `exception_solver_names`. What comes back are the solvers whose
    /// flattener is to be cancelled.
    pub fn stop_all_except(&mut self, exception_solver_names: &Vec<String>) -> (cancel: Vec<String>)
        requires
            old(self).wf(),
        ensures
            final(self).wf(),
            final(self)@ == stop_others(old(self)@, strings_view(exception_solver_names@)).0,
            strings_view(cancel@) == stop_others(
                old(self)@,
                strings_view(exception_solver_names@),
            ).1,
    {
        let ghost start = self@;
        let ghost ev = strings_view(exception_solver_names@);
        let mut names: Vec<String> = Vec::new();
        let mut states: Vec<Compilation> = Vec::new();
        let mut cancel: Vec<String> = Vec::new();
        let mut taken_names: Vec<String> = Vec::new();
        let mut taken_states: Vec<Compilation> = Vec::new();
        std::mem::swap(&mut taken_names, &mut self.names);
        std::mem::swap(&mut taken_states, &mut self.states);
        let n = taken_names.len();
        let mut k: usize = 0;
        assert(strings_view(cancel@) =~= Seq::<Seq<char>>::empty());
        assert(Seq::new(names@.len(), |i: int| (names@[i]@, states@[i]@)) =~= stop_others(
            start.take(0),
            ev,
        ).0);
        while k < n
            invariant
                0 <= k <= n,
                n == taken_names.len(),
                n == taken_states.len(),
                ev == strings_view(exception_solver_names@),
                start == Seq::new(n as nat, |i: int| (taken_names@[i]@, taken_states@[i]@)),
                names.len() == states.len(),
                Seq::new(names@.len(), |i: int| (names@[i]@, states@[i]@)) == stop_others(
                    start.take(k as int),
                    ev,
                ).0,
                strings_view(cancel@) == stop_others(start.take(k as int), ev).1,
            decreases n - k,
        {
            assert(start.take(k + 1).drop_last() =~= start.take(k as int));
            assert(start.take(k + 1).last() == (taken_names@[k as int]@, taken_states@[k as int]@));
            let running = match &taken_states[k] {
                Compilation::Started => true,
                Compilation::Done(_) => false,
            };
            let mut excepted = false;
            let mut j: usize = 0;
            while j < exception_solver_names.len()
                invariant
                    0 <= j <= exception_solver_names.len(),
                    k < n,
                    n == taken_names.len(),
                    ev == strings_view(exception_solver_names@),
                    excepted <==> exists|i: int| 0 <= i < j && ev[i] == taken_names@[k as int]@,
                decreases exception_solver_names.len() - j,
            {
                assert(ev[j as int] == exception_solver_names@[j as int]@);
                if str_eq(exception_solver_names[j].as_str(), taken_names[k].as_str()) {
                    excepted = true;
                }
                j += 1;
            }
            assert(excepted == ev.contains(taken_names@[k as int]@));
            if running && !excepted {
                let ghost before = strings_view(cancel@);
                cancel.push(taken_names[k].clone());
                assert(strings_view(cancel@) =~= before.push(taken_names@[k as int]@));
            } else {
                let ghost before = Seq::new(names@.len(), |i: int| (names@[i]@, states@[i]@));
                names.push(taken_names[k].clone());
                let state = match &taken_states[k] {
                    Compilation::Started => Compilation::Started,
                    Compilation::Done(r) => Compilation::Done(duplicate_result(r)),
                };
                states.push(state);
                assert(Seq::new(names@.len(), |i: int| (names@[i]@, states@[i]@)) =~= before.push(
                    (taken_names@[k as int]@, taken_states@[k as int]@),
                ));
            }
            k += 1;
        }
        assert(start.take(k as int) =~= start);
        proof {
            lemma_stop_others(start, ev);
        }
        self.names = names;
        self.states = states;
        cancel
    }

    /// Stops the compilations for `solver_names` that run. What comes back
    /// are the solvers whose flattener is to be cancelled.
    pub fn stop_many(&mut self, solver_names: &Vec<String>) -> (cancel: Vec<String>)
        requires
            old(self).wf(),
        ensures
            final(self).wf(),
            final(self)@ == stop_each_name(old(self)@, strings_view(solver_names@)).0,
            strings_view(cancel@) == stop_each_name(old(self)@, strings_view(solver_names@)).1,
    {
        let ghost nv = strings_view(solver_names@);
        let mut cancel: Vec<String> = Vec::new();
        let mut k: usize = 0;
        assert(strings_view(cancel@) =~= Seq::<Seq<char>>::empty());
        while k < solver_names.len()
            invariant
                0 <= k <= solver_names.len(),
                nv == strings_view(solver_names@),
                self.wf(),
                self@ == stop_each_name(old(self)@, nv.take(k as int)).0,
                strings_view(cancel@) == stop_each_name(old(self)@, nv.take(k as int)).1,
            decreases solver_names.len() - k,
        {
            assert(nv.take(k + 1).drop_last() =~= nv.take(k as int));
            assert(nv[k as int] == solver_names@[k as int]@);
            if self.stop(solver_names[k].as_str()) {
                let ghost before = strings_view(cancel@);
                cancel.push(solver_names[k].clone());
                assert(strings_view(cancel@) =~= before.push(nv[k as int]));
            }
            k += 1;
        }
        assert(nv.take(k as int) =~= nv);
        cancel
    }
}

/// What a waiter is told after its wait for the compilation of
/// `solver_name` ended with `outcome`.
pub fn after_wait(solver_name: &str, outcome: WaitOutcome) -> (r: WaitForResult)
    ensures
        result_view(r) == match outcome {
            WaitOutcome::Cancelled => Err::<ConversionView, WaitForErrorView>(
                WaitForErrorView::Cancelled,
            ),
            WaitOutcome::ChannelClosed => Err::<ConversionView, WaitForErrorView>(
                WaitForErrorView::ReadChannelClosed(solver_name@),
            ),
            WaitOutcome::Value(None) => Err::<ConversionView, WaitForErrorView>(
                WaitForErrorView::CompilationUnfinishedAfterWaiting(solver_name@),
            ),
            WaitOutcome::Value(Some(x)) => result_view(x),
        },
{
    match outcome {
        WaitOutcome::Cancelled => Err(WaitForError::Cancelled),
        WaitOutcome::ChannelClosed => Err(WaitForError::ReadChannelClosed(solver_name.to_owned())),
        WaitOutcome::Value(None) => Err(
            WaitForError::CompilationUnfinishedAfterWaiting(solver_name.to_owned()),
        ),
        WaitOutcome::Value(Some(x)) => x,
    }
}

/// The call of the flattener that compiles `model`, with `data` where
/// there is some, for `solver_name`, and leaves `fzn_result_path` and
/// `ozn_result_path`.
pub open spec fn mzn_to_fzn_cmd(
    minizinc_exe: Seq<char>,
    model: Seq<char>,
    data: Option<Seq<char>>,
    solver_name: Seq<char>,
    fzn_result_path: Seq<char>,
    ozn_result_path: Seq<char>,
) -> CommandLineView {
    CommandLineView {
        program: minizinc_exe,
        args: seq!["-c"@, model] + (match data {
            Some(d) => seq![d],
            None => Seq::empty(),
        }) + seq![
            "--solver"@,
            solver_name,
            "-o"@,
            fzn_result_path,
            "--output-objective"@,
            "--output-mode"@,
            "dzn"@,
            "--ozn"@,
            ozn_result_path,
        ],
    }
}

/// The call of the flattener for one compilation.
pub fn get_mzn_to_fzn_cmd(
    minizinc_exe: &str,
    model: &str,
    data: Option<&str>,
    solver_name: &str,
    fzn_result_path: &str,
    ozn_result_path: &str,
    output_mode: OutputMode,
) -> (cmd: CommandLine)
    ensures
        cmd@ == mzn_to_fzn_cmd(
            minizinc_exe@,
            model@,
            match data {
                Some(d) => Some(d@),
                None => None,
            },
            solver_name@,
            fzn_result_path@,
            ozn_result_path@,
        ),
{
    let mut cmd = CommandLine::new(minizinc_exe);
    cmd.arg("-c");
    cmd.arg(model);
    match data {
        Some(d) => {
            cmd.arg(d);
        },
        None => {},
    }
    cmd.arg("--solver");
    cmd.arg(solver_name);
    cmd.arg("-o");
    cmd.arg(fzn_result_path);
    cmd.arg("--output-objective");
    cmd.arg("--output-mode");
    cmd.arg(output_mode.as_str());
    cmd.arg("--ozn");
    cmd.arg(ozn_result_path);
    assert(cmd@.args =~= mzn_to_fzn_cmd(
        minizinc_exe@,
        model@,
        match data {
            Some(d) => Some(d@),
            None => None,
        },
        solver_name@,
        fzn_result_path@,
        ozn_result_path@,
    ).args);
    cmd
}

} // verus!
