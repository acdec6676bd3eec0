//! The reader of one solver's output.
use crate::model_parser::{ObjectiveType, ObjectiveValue, better};
use crate::solver_manager::{ManagerView, SolverManager};
use crate::solver_manager::processes::{process_of, with_best};
use crate::solver_manager::receiver::announced;
use crate::solver_output::{Output, Parser, ParserView, parse_line};
use vstd::prelude::*;

verus! {

/// The reader of one solver's output: its parser, and the best bound that
/// the solver has announced.
#[derive(Debug)]
pub struct StdoutHandler {
    parser: Parser,
    solver_id: u64,
    local_best: Option<ObjectiveValue>,
}

/// The model of [`StdoutHandler`].
pub struct StdoutHandlerView {
    pub parser: ParserView,
    pub solver_id: u64,
    pub local_best: Option<ObjectiveValue>,
}

impl View for StdoutHandler {
    type V = StdoutHandlerView;

    closed spec fn view(&self) -> StdoutHandlerView {
        StdoutHandlerView {
            parser: self.parser@,
            solver_id: self.solver_id,
            local_best: self.local_best,
        }
    }
}

impl StdoutHandler {
    /// The direction of the objective that the parser expects.
    pub closed spec fn objective_type(&self) -> ObjectiveType {
        self.parser.objective_type()
    }

    /// The reader for the solver under `solver_id`: it starts from the best
    /// bound that the record holds.
    pub fn new(manager: &SolverManager, solver_id: u64) -> (h: Self)
        ensures
            h.objective_type() == manager@.objective_type,
            h@ == (StdoutHandlerView {
                parser: crate::solver_output::fresh(),
                solver_id,
                local_best: match process_of(manager@.solvers, solver_id) {
                    Some(p) => p.best_objective,
                    None => None,
                },
            }),
    {
        let local_best = match manager.get_process(solver_id) {
            Some(p) => p.best_objective,
            None => None,
        };
        StdoutHandler { parser: Parser::new(manager.objective_type()), solver_id, local_best }
    }

    /// Takes one line of the solver's output and hands back the event to
    /// forward, if the line gives one. A solution that improves on the
    /// solver's best bound is noted in its record.
    pub fn handle_line(&mut self, manager: &mut SolverManager, line: &str) -> (r: Result<
        Option<Output>,
        crate::solver_output::Error,
    >)
        requires
            old(manager).wf(),
        ensures
            final(manager).wf(),
            final(self).objective_type() == old(self).objective_type(),
            final(self)@.solver_id == old(self)@.solver_id,
            final(self)@.parser == parse_line(old(self).objective_type(), old(self)@.parser, line@).0,
            match parse_line(old(self).objective_type(), old(self)@.parser, line@).1 {
                Ok(Some(o)) => r matches Ok(Some(out)) && out@ == o,
                Ok(None) => r matches Ok(None),
                Err(e) => r == Err::<Option<Output>, crate::solver_output::Error>(e),
            },
            match announced(parse_line(old(self).objective_type(), old(self)@.parser, line@).1) {
                Some(o) if better(old(self).objective_type(), old(self)@.local_best, o) => {
                    &&& final(self)@.local_best == Some(o)
                    &&& final(manager)@ == (ManagerView {
                        solvers: with_best(old(manager)@.solvers, old(self)@.solver_id, Some(o)),
                        ..old(manager)@
                    })
                },
                _ => final(self)@.local_best == old(self)@.local_best && final(manager)@ == old(
                    manager,
                )@,
            },
    {
        let r = self.parser.next_line(line);
        match &r {
            Ok(Some(Output::Solution(sol))) => {
                match sol.objective {
                    Some(o) => {
                        if self.is_better_than_local(o) {
                            self.local_best = Some(o);
                            manager.set_solver_objective(self.solver_id, self.local_best);
                        }
                    },
                    None => {},
                }
            },
            _ => {},
        }
        r
    }

    fn is_better_than_local(&self, o: ObjectiveValue) -> (b: bool)
        ensures
            b == better(self.objective_type(), self@.local_best, o),
    {
        self.parser.get_objective_type().is_better(self.local_best, o)
    }
}

} // verus!
