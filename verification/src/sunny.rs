//! The orchestrator of one run: the static portfolio first, then the
//! advisor's or the timeout portfolio, applied again at every restart.
use crate::config::Config;
use vstd::prelude::*;

verus! {

/// Where a portfolio comes from.
#[derive(Debug, Clone, Copy, PartialEq, Eq, Structural)]
pub enum PortfolioSource {
    /// The portfolio given before the run.
    Static,
    /// The advisor, from the features of the model.
    Advisor,
    /// The portfolio for a run whose features did not come in time.
    Timeout,
}

/// How far a run is.
#[derive(Debug, Clone, Copy, PartialEq, Eq, Structural)]
pub enum Phase {
    Idle,
    /// The static portfolio runs.
    Static,
    /// The portfolio of this source runs and is applied again and again.
    Dynamic(PortfolioSource),
    /// Every solver of a portfolio failed.
    Failed,
    Finished,
}

/// What is known of the features.
#[derive(Debug, Clone, Copy, PartialEq, Eq, Structural)]
pub enum FeatureState {
    Pending,
    Arrived,
    Missing,
}

/// What can happen to a run.
#[derive(Debug, Clone, Copy, PartialEq, Eq, Structural)]
pub enum Event {
    Begin,
    FeaturesArrived,
    FeaturesFailed,
    /// The static runtime is over.
    StaticElapsed,
    /// The time for the features is over.
    FeatureDeadline,
    /// A restart interval is over.
    RestartTick,
    /// A portfolio of `slots` entries was applied, and `errors` of them
    /// could not be started.
    Applied { errors: usize, slots: usize },
    Cancelled,
}

/// What the run does next.
#[derive(Debug, Clone, Copy, PartialEq, Eq, Structural)]
pub enum Action {
    /// Apply the static portfolio, start the feature extraction, and set
    /// the timers for the static runtime and for the features.
    StartStatic,
    /// Get the portfolio of this source, apply it, and set the restart timer.
    Switch(PortfolioSource),
    /// Apply the running portfolio again and set the restart timer.
    Reapply,
    /// Run the fallback solver.
    RunBackup,
    /// End the run.
    Stop,
    Nothing,
}

/// The decisions of one run.
#[derive(Debug, Clone, Copy, PartialEq, Eq, Structural)]
pub struct Orchestrator {
    pub phase: Phase,
    pub static_elapsed: bool,
    pub features: FeatureState,
}

/// The source that the features in the state `features` call for, once
/// they are no longer pending.
pub open spec fn source_for(features: FeatureState) -> Option<PortfolioSource> {
    match features {
        FeatureState::Pending => None,
        FeatureState::Arrived => Some(PortfolioSource::Advisor),
        FeatureState::Missing => Some(PortfolioSource::Timeout),
    }
}

/// The run in the static phase once the static runtime is over and the
/// features are known to be `features`.
pub open spec fn leave_static(o: Orchestrator, features: FeatureState, elapsed: bool) -> (
    Orchestrator,
    Action,
) {
    match source_for(features) {
        Some(source) if elapsed => (
            Orchestrator { phase: Phase::Dynamic(source), static_elapsed: true, features },
            Action::Switch(source),
        ),
        _ => (Orchestrator { phase: Phase::Static, static_elapsed: elapsed, features }, Action::Nothing),
    }
}

/// The state after `event`, and what to do. The static portfolio runs for
/// the whole static runtime. After it the advisor's portfolio runs if the
/// features have arrived, the timeout portfolio if they failed or their
/// time is over; until one of these holds the static portfolio stays. A
/// portfolio of which every entry failed ends the run with the fallback
/// solver.
pub open spec fn step(o: Orchestrator, event: Event) -> (Orchestrator, Action) {
    match o.phase {
        Phase::Finished => (o, Action::Nothing),
        Phase::Failed => match event {
            Event::Cancelled => (Orchestrator { phase: Phase::Finished, ..o }, Action::Stop),
            _ => (o, Action::Nothing),
        },
        Phase::Idle => match event {
            Event::Cancelled => (Orchestrator { phase: Phase::Finished, ..o }, Action::Stop),
            Event::Begin => (
                Orchestrator {
                    phase: Phase::Static,
                    static_elapsed: false,
                    features: FeatureState::Pending,
                },
                Action::StartStatic,
            ),
            _ => (o, Action::Nothing),
        },
        Phase::Static => match event {
            Event::Cancelled => (Orchestrator { phase: Phase::Finished, ..o }, Action::Stop),
            Event::Applied { errors, slots } => if errors == slots {
                (Orchestrator { phase: Phase::Failed, ..o }, Action::RunBackup)
            } else {
                (o, Action::Nothing)
            },
            Event::StaticElapsed => leave_static(o, o.features, true),
            Event::FeaturesArrived => if o.features == FeatureState::Pending {
                leave_static(o, FeatureState::Arrived, o.static_elapsed)
            } else {
                (o, Action::Nothing)
            },
            Event::FeaturesFailed => if o.features == FeatureState::Pending {
                leave_static(o, FeatureState::Missing, o.static_elapsed)
            } else {
                (o, Action::Nothing)
            },
            Event::FeatureDeadline => if o.features == FeatureState::Pending {
                leave_static(o, FeatureState::Missing, o.static_elapsed)
            } else {
                (o, Action::Nothing)
            },
            _ => (o, Action::Nothing),
        },
        Phase::Dynamic(_) => match event {
            Event::Cancelled => (Orchestrator { phase: Phase::Finished, ..o }, Action::Stop),
            Event::Applied { errors, slots } => if errors == slots {
                (Orchestrator { phase: Phase::Failed, ..o }, Action::RunBackup)
            } else {
                (o, Action::Nothing)
            },
            Event::RestartTick => (o, Action::Reapply),
            _ => (o, Action::Nothing),
        },
    }
}

impl Orchestrator {
    /// A run that has not begun.
    pub fn new() -> (o: Self)
        ensures
            o == (Orchestrator {
                phase: Phase::Idle,
                static_elapsed: false,
                features: FeatureState::Pending,
            }),
    {
        Orchestrator { phase: Phase::Idle, static_elapsed: false, features: FeatureState::Pending }
    }

    fn leave_static(&mut self, features: FeatureState, elapsed: bool) -> (action: Action)
        ensures
            (*final(self), action) == leave_static(*old(self), features, elapsed),
    {
        self.features = features;
        self.static_elapsed = elapsed;
        self.phase = Phase::Static;
        let source = match features {
            FeatureState::Pending => {
                return Action::Nothing;
            },
            FeatureState::Arrived => PortfolioSource::Advisor,
            FeatureState::Missing => PortfolioSource::Timeout,
        };
        if elapsed {
            self.phase = Phase::Dynamic(source);
            Action::Switch(source)
        } else {
            Action::Nothing
        }
    }

    /// Takes `event` and says what to do.
    pub fn handle(&mut self, event: Event) -> (action: Action)
        ensures
            (*final(self), action) == step(*old(self), event),
    {
        match self.phase {
            Phase::Finished => Action::Nothing,
            Phase::Failed => match event {
                Event::Cancelled => {
                    self.phase = Phase::Finished;
                    Action::Stop
                },
                _ => Action::Nothing,
            },
            Phase::Idle => match event {
                Event::Cancelled => {
                    self.phase = Phase::Finished;
                    Action::Stop
                },
                Event::Begin => {
                    self.phase = Phase::Static;
                    self.static_elapsed = false;
                    self.features = FeatureState::Pending;
                    Action::StartStatic
                },
                _ => Action::Nothing,
            },
            Phase::Static => match event {
                Event::Cancelled => {
                    self.phase = Phase::Finished;
                    Action::Stop
                },
                Event::Applied { errors, slots } => {
                    if handle_schedule_errors(errors, slots) {
                        self.phase = Phase::Failed;
                        Action::RunBackup
                    } else {
                        Action::Nothing
                    }
                },
                Event::StaticElapsed => {
                    let features = self.features;
                    self.leave_static(features, true)
                },
                Event::FeaturesArrived => match self.features {
                    FeatureState::Pending => {
                        let elapsed = self.static_elapsed;
                        self.leave_static(FeatureState::Arrived, elapsed)
                    },
                    _ => Action::Nothing,
                },
                Event::FeaturesFailed => match self.features {
                    FeatureState::Pending => {
                        let elapsed = self.static_elapsed;
                        self.leave_static(FeatureState::Missing, elapsed)
                    },
                    _ => Action::Nothing,
                },
                Event::FeatureDeadline => match self.features {
                    FeatureState::Pending => {
                        let elapsed = self.static_elapsed;
                        self.leave_static(FeatureState::Missing, elapsed)
                    },
                    _ => Action::Nothing,
                },
                _ => Action::Nothing,
            },
            Phase::Dynamic(_) => match event {
                Event::Cancelled => {
                    self.phase = Phase::Finished;
                    Action::Stop
                },
                Event::Applied { errors, slots } => {
                    if handle_schedule_errors(errors, slots) {
                        self.phase = Phase::Failed;
                        Action::RunBackup
                    } else {
                        Action::Nothing
                    }
                },
                Event::RestartTick => Action::Reapply,
                _ => Action::Nothing,
            },
        }
    }
}

/// Whether the errors of applying a portfolio end the run: they do where
/// every entry failed.
pub fn handle_schedule_errors(errors_len: usize, schedule_len: usize) -> (fatal: bool)
    ensures
        fatal == (errors_len == schedule_len),
{
    errors_len == schedule_len
}

/// The time that the features have: the feature timeout, but no less than
/// the static runtime.
pub open spec fn feature_deadline_of(static_runtime: u64, feature_timeout: u64) -> u64 {
    if feature_timeout >= static_runtime {
        feature_timeout
    } else {
        static_runtime
    }
}

/// The time that the features have, in seconds from the start.
pub fn feature_deadline(config: &Config) -> (t: u64)
    ensures
        t == feature_deadline_of(config.static_runtime, config.feature_timeout),
{
    if config.feature_timeout >= config.static_runtime {
        config.feature_timeout
    } else {
        config.static_runtime
    }
}

/// Which portfolio follows the static one, and when, for features that
/// arrive `feature_time` seconds after the start, or never: the advisor's
/// portfolio if they arrive within their time, at their arrival but not
/// before the static runtime is over; else the timeout portfolio, when
/// their time is over.
pub open spec fn dynamic_start_of(
    feature_time: Option<u64>,
    static_runtime: u64,
    feature_timeout: u64,
) -> (PortfolioSource, u64) {
    let deadline = feature_deadline_of(static_runtime, feature_timeout);
    match feature_time {
        Some(t) if t <= deadline => (
            PortfolioSource::Advisor,
            if t >= static_runtime {
                t
            } else {
                static_runtime
            },
        ),
        _ => (PortfolioSource::Timeout, deadline),
    }
}

/// Which portfolio follows the static one, and when.
pub fn dynamic_start(feature_time: Option<u64>, config: &Config) -> (r: (PortfolioSource, u64))
    ensures
        r == dynamic_start_of(feature_time, config.static_runtime, config.feature_timeout),
        r.1 >= config.static_runtime,
        feature_time matches Some(t) && t > feature_deadline_of(
            config.static_runtime,
            config.feature_timeout,
        ) ==> r.0 == PortfolioSource::Timeout,
{
    let deadline = feature_deadline(config);
    match feature_time {
        Some(t) => {
            if t <= deadline {
                (
                    PortfolioSource::Advisor,
                    if t >= config.static_runtime {
                        t
                    } else {
                        config.static_runtime
                    },
                )
            } else {
                (PortfolioSource::Timeout, deadline)
            }
        },
        None => (PortfolioSource::Timeout, deadline),
    }
}

/// The state after `events`, taken in order.
pub open spec fn run(o: Orchestrator, events: Seq<Event>) -> Orchestrator
    decreases events.len(),
{
    if events.len() == 0 {
        o
    } else {
        step(run(o, events.drop_last()), events.last()).0
    }
}

/// The run has left the static portfolio for the timeout portfolio, or is
/// over.
pub open spec fn past_timeout(o: Orchestrator) -> bool {
    o.phase == Phase::Dynamic(PortfolioSource::Timeout) || o.phase == Phase::Failed || o.phase
        == Phase::Finished
}

/// Features that are still pending when their time is over select the
/// timeout portfolio, and nothing that happens later selects another.
pub proof fn lemma_late_features_select_timeout(o: Orchestrator, later: Seq<Event>)
    requires
        o.phase == Phase::Static,
        o.static_elapsed,
        o.features == FeatureState::Pending,
    ensures
        step(o, Event::FeatureDeadline).1 == Action::Switch(PortfolioSource::Timeout),
        past_timeout(run(step(o, Event::FeatureDeadline).0, later)),
    decreases later.len(),
{
    if later.len() > 0 {
        lemma_late_features_select_timeout(o, later.drop_last());
    }
}

/// Features that arrive before the static runtime is over change nothing
/// at once: the static portfolio runs on, and the advisor's portfolio
/// follows when the static runtime is over.
pub proof fn lemma_early_features_wait(o: Orchestrator)
    requires
        o.phase == Phase::Static,
        !o.static_elapsed,
        o.features == FeatureState::Pending,
    ensures
        step(o, Event::FeaturesArrived).1 == Action::Nothing,
        step(o, Event::FeaturesArrived).0.phase == Phase::Static,
        step(step(o, Event::FeaturesArrived).0, Event::StaticElapsed) == (
            Orchestrator {
                phase: Phase::Dynamic(PortfolioSource::Advisor),
                static_elapsed: true,
                features: FeatureState::Arrived,
            },
            Action::Switch(PortfolioSource::Advisor),
        ),
{
}

/// What the program ends with.
#[derive(Debug, Clone, Copy, PartialEq, Eq, Structural)]
pub enum Outcome {
    /// The portfolio ended the run.
    Solved,
    /// The portfolio failed and the fallback solver succeeded.
    BackupSolved,
    /// The portfolio failed and so did the fallback solver.
    Failed,
}

/// The exit code of the program.
pub fn exit_code(outcome: Outcome) -> (code: i32)
    ensures
        code == match outcome {
            Outcome::Solved => 0i32,
            Outcome::Failed => 1i32,
            Outcome::BackupSolved => 2i32,
        },
{
    match outcome {
        Outcome::Solved => 0,
        Outcome::Failed => 1,
        Outcome::BackupSolved => 2,
    }
}

} // verus!
