//! The consumer of the merged stream of events, which publishes the
//! best bound.
use crate::model_parser::{ObjectiveType, ObjectiveValue, better, dominates};
use crate::solver_output::{OutputView, status_text};
use crate::text::trimmed_end;
use vstd::prelude::*;

verus! {

/// What the consumer of the merged stream does with one event.
#[derive(Debug, Clone, PartialEq, Eq)]
pub struct Reaction {
    /// The line to print on standard output, without its newline.
    pub print: Option<String>,
    /// Whether the run is to be cancelled.
    pub cancel: bool,
    /// Whether the consumer stops reading.
    pub finished: bool,
}

/// The model of [`Reaction`].
pub struct ReactionView {
    pub print: Option<Seq<char>>,
    pub cancel: bool,
    pub finished: bool,
}

impl View for Reaction {
    type V = ReactionView;

    open spec fn view(&self) -> ReactionView {
        ReactionView {
            print: match self.print {
                Some(s) => Some(s@),
                None => None,
            },
            cancel: self.cancel,
            finished: self.finished,
        }
    }
}

/// Nothing is printed and the run goes on.
pub open spec fn silent() -> ReactionView {
    ReactionView { print: None, cancel: false, finished: false }
}

/// The published bound after the event `msg`, and what is done about it.
/// A solution with an objective is printed only where it improves on the
/// bound, which it then replaces; a solution without one ends the run, and
/// so does every status but unknown.
pub open spec fn receive_step(
    t: ObjectiveType,
    best: Option<ObjectiveValue>,
    msg: OutputView,
) -> (Option<ObjectiveValue>, ReactionView) {
    match msg {
        OutputView::Solution(sol) => match sol.objective {
            Some(o) => if better(t, best, o) {
                (
                    Some(o),
                    ReactionView {
                        print: Some(trimmed_end(sol.solution)),
                        cancel: false,
                        finished: false,
                    },
                )
            } else {
                (best, silent())
            },
            None => (
                best,
                ReactionView { print: Some(trimmed_end(sol.solution)), cancel: true, finished: false },
            ),
        },
        OutputView::Status(status) => if status.terminal() {
            (best, ReactionView { print: Some(status_text(status)), cancel: true, finished: true })
        } else {
            (best, silent())
        },
    }
}

/// The published bound after the events `msgs`, taken in order from `best`.
pub open spec fn receive_all(
    t: ObjectiveType,
    best: Option<ObjectiveValue>,
    msgs: Seq<OutputView>,
) -> Option<ObjectiveValue>
    decreases msgs.len(),
{
    if msgs.len() == 0 {
        best
    } else {
        receive_step(t, receive_all(t, best, msgs.drop_last()), msgs.last()).0
    }
}

/// The objectives of the solutions that are printed while the events `msgs`
/// are taken in order from `best`.
pub open spec fn printed_objectives(
    t: ObjectiveType,
    best: Option<ObjectiveValue>,
    msgs: Seq<OutputView>,
) -> Seq<ObjectiveValue>
    decreases msgs.len(),
{
    if msgs.len() == 0 {
        Seq::empty()
    } else {
        let before = printed_objectives(t, best, msgs.drop_last());
        let bound = receive_all(t, best, msgs.drop_last());
        match announced(Ok(Some(msgs.last()))) {
            Some(o) if receive_step(t, bound, msgs.last()).1.print is Some => before.push(o),
            _ => before,
        }
    }
}

/// Whatever the events and their order, each objective printed strictly
/// dominates every one printed before it and the bound at the start, and
/// the published bound is the last objective printed.
pub proof fn lemma_printed_objectives_improve(
    t: ObjectiveType,
    best: Option<ObjectiveValue>,
    msgs: Seq<OutputView>,
)
    ensures
        ({
            let printed = printed_objectives(t, best, msgs);
            &&& forall|i: int, j: int|
                0 <= i < j < printed.len() ==> dominates(t, printed[i] as int, printed[j] as int)
            &&& forall|k: int| 0 <= k < printed.len() ==> better(t, best, #[trigger] printed[k])
            &&& printed.len() > 0 ==> receive_all(t, best, msgs) == Some(printed.last())
            &&& printed.len() == 0 ==> receive_all(t, best, msgs) == best
        }),
    decreases msgs.len(),
{
    if msgs.len() > 0 {
        let init = msgs.drop_last();
        lemma_printed_objectives_improve(t, best, init);
        let before = printed_objectives(t, best, init);
        let bound = receive_all(t, best, init);
        let printed = printed_objectives(t, best, msgs);
        match announced(Ok(Some(msgs.last()))) {
            Some(o) if receive_step(t, bound, msgs.last()).1.print is Some => {
                assert(printed == before.push(o));
                assert(better(t, bound, o));
                assert forall|i: int, j: int| 0 <= i < j < printed.len() implies dominates(
                    t,
                    printed[i] as int,
                    printed[j] as int,
                ) by {
                    if j == before.len() && i < before.len() - 1 {
                        assert(dominates(t, before[i] as int, before.last() as int));
                    }
                }
                assert forall|k: int| 0 <= k < printed.len() implies better(
                    t,
                    best,
                    #[trigger] printed[k],
                ) by {
                    if k == before.len() && before.len() > 0 {
                        assert(better(t, best, before[before.len() - 1]));
                    }
                }
            },
            _ => {
                assert(printed == before);
            },
        }
    }
}

/// The objective of a solution event, if `msg` is one and has one.
pub open spec fn announced(msg: Result<Option<OutputView>, crate::solver_output::Error>) -> Option<
    ObjectiveValue,
> {
    match msg {
        Ok(Some(OutputView::Solution(sol))) => sol.objective,
        _ => None,
    }
}

} // verus!
