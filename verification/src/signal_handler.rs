//! What the signals of the operating system mean to a run.
use crate::solver_manager::{signal_each, slot_seq, Signal, SignalOrder, SolverManager};
use vstd::prelude::*;

verus! {

/// What the run is asked to do with its solvers.
#[derive(Debug, Clone, Copy, PartialEq, Eq, Structural)]
pub enum SignalEvent {
    Suspend,
    Resume,
}

/// The signals that the run listens to.
#[derive(Debug, Clone, Copy, PartialEq, Eq, Structural)]
pub enum SignalKind {
    Interrupt,
    Terminate,
    Hangup,
    Quit,
    /// The stop from the terminal.
    TerminalStop,
    Continue,
}

/// What a signal brings about.
#[derive(Debug, Clone, Copy, PartialEq, Eq, Structural)]
pub enum SignalAction {
    /// The run is cancelled and no further signal is listened to.
    Cancel,
    /// The event is handed on and the run goes on listening.
    Forward(SignalEvent),
}

/// What the signal `kind` brings about.
pub open spec fn action_of(kind: SignalKind) -> SignalAction {
    match kind {
        SignalKind::Interrupt => SignalAction::Cancel,
        SignalKind::Terminate => SignalAction::Cancel,
        SignalKind::Hangup => SignalAction::Cancel,
        SignalKind::Quit => SignalAction::Cancel,
        SignalKind::TerminalStop => SignalAction::Forward(SignalEvent::Suspend),
        SignalKind::Continue => SignalAction::Forward(SignalEvent::Resume),
    }
}

/// What the signal `kind` brings about.
pub fn handle_signal(kind: SignalKind) -> (action: SignalAction)
    ensures
        action == action_of(kind),
{
    match kind {
        SignalKind::Interrupt => SignalAction::Cancel,
        SignalKind::Terminate => SignalAction::Cancel,
        SignalKind::Hangup => SignalAction::Cancel,
        SignalKind::Quit => SignalAction::Cancel,
        SignalKind::TerminalStop => SignalAction::Forward(SignalEvent::Suspend),
        SignalKind::Continue => SignalAction::Forward(SignalEvent::Resume),
    }
}

/// What an event asks of the solvers, and whether the run then stops
/// itself as well: to suspend is to stop every solver and then the run; to
/// resume is to let every solver continue.
pub fn handle_event(manager: &SolverManager, event: SignalEvent) -> (r: (Vec<SignalOrder>, bool))
    ensures
        r.0@ == signal_each(
            manager@.solvers,
            slot_seq(manager@.solvers),
            match event {
                SignalEvent::Suspend => Signal::Stop,
                SignalEvent::Resume => Signal::Continue,
            },
        ).0,
        r.1 == (event == SignalEvent::Suspend),
{
    match event {
        SignalEvent::Suspend => (manager.suspend_all_solvers(), true),
        SignalEvent::Resume => (manager.resume_all_solvers(), false),
    }
}

} // verus!
