//! The line-oriented parser of a solver's solution stream.
use crate::model_parser::{ObjectiveType, ObjectiveValue};
use crate::text::{
    chars_of, find_char, first_index, has_prefix, parse_i64, range_eq_str, range_starts_with,
    read_i64, string_of, trim_range, trimmed,
};
use vstd::prelude::*;
use vstd::string::StringExecFns;

verus! {

pub const SOLUTION_TERMINATOR: &'static str = "----------";

pub const DONE_TERMINATOR: &'static str = "==========";

pub const UNSATISFIABLE_TERMINATOR: &'static str = "=====UNSATISFIABLE=====";

pub const UNBOUNDED_TERMINATOR: &'static str = "=====UNBOUNDED=====";

pub const UNKNOWN_TERMINATOR: &'static str = "=====UNKNOWN=====";

pub const OBJECTIVE_PREFIX: &'static str = "_objective = ";

/// How a solver ended its search.
#[derive(Debug, Clone, Copy, PartialEq, Eq, Structural)]
pub enum Status {
    OptimalSolution,
    Unsatisfiable,
    Unbounded,
    Unknown,
}

/// The line that announces `status` on the wire.
pub open spec fn status_text(status: Status) -> Seq<char> {
    match status {
        Status::OptimalSolution => DONE_TERMINATOR@,
        Status::Unsatisfiable => UNSATISFIABLE_TERMINATOR@,
        Status::Unbounded => UNBOUNDED_TERMINATOR@,
        Status::Unknown => UNKNOWN_TERMINATOR@,
    }
}

impl Status {
    /// The line that announces this status.
    pub fn to_dzn_string(&self) -> (s: &'static str)
        ensures
            s@ == status_text(*self),
    {
        match self {
            Status::OptimalSolution => DONE_TERMINATOR,
            Status::Unsatisfiable => UNSATISFIABLE_TERMINATOR,
            Status::Unbounded => UNBOUNDED_TERMINATOR,
            Status::Unknown => UNKNOWN_TERMINATOR,
        }
    }

    /// Optimal, unsatisfiable and unbounded end a run; unknown does not.
    pub open spec fn terminal(self) -> bool {
        self != Status::Unknown
    }

    /// Whether this status ends the run.
    pub fn is_terminal(&self) -> (b: bool)
        ensures
            b == self.terminal(),
    {
        match self {
            Status::Unknown => false,
            _ => true,
        }
    }
}

/// One solution: the lines that a solver printed before the terminator, and
/// the objective it announced, if the problem has one.
#[derive(Debug, Clone)]
pub struct Solution {
    pub solution: String,
    pub objective: Option<ObjectiveValue>,
}

/// The model of [`Solution`].
pub struct SolutionView {
    pub solution: Seq<char>,
    pub objective: Option<ObjectiveValue>,
}

impl View for Solution {
    type V = SolutionView;

    open spec fn view(&self) -> SolutionView {
        SolutionView { solution: self.solution@, objective: self.objective }
    }
}

/// What one line of a solver's output can announce.
#[derive(Debug, Clone)]
pub enum Output {
    Solution(Solution),
    Status(Status),
}

/// The model of [`Output`].
pub enum OutputView {
    Solution(SolutionView),
    Status(Status),
}

impl View for Output {
    type V = OutputView;

    open spec fn view(&self) -> OutputView {
        match self {
            Output::Solution(s) => OutputView::Solution(s@),
            Output::Status(s) => OutputView::Status(*s),
        }
    }
}

/// Why a line could not be taken.
#[derive(Debug, Clone, Copy, PartialEq, Eq, Structural)]
pub enum Error {
    /// A solution ended without an objective, on a problem that has one.
    SolutionMissingObjective,
    /// The text after the objective prefix is no integer.
    ObjectiveParse,
}

/// What the parser remembers between lines.
pub struct ParserView {
    pub input: Seq<char>,
    pub objective: Option<ObjectiveValue>,
}

/// The outcome of one line: the event, if any, or the error.
pub type LineResult = Result<Option<OutputView>, Error>;

/// The text of an objective line after the prefix, up to the first `;`.
pub open spec fn objective_text(line: Seq<char>) -> Seq<char> {
    let rest = line.skip(OBJECTIVE_PREFIX@.len() as int);
    rest.subrange(0, first_index(rest, ';'))
}

/// The wire format, one line at a time: the state after the line `raw`, and
/// what the line announces.
pub open spec fn parse_line(t: ObjectiveType, st: ParserView, raw: Seq<char>) -> (
    ParserView,
    LineResult,
) {
    let line = trimmed(raw);
    if line == SOLUTION_TERMINATOR@ {
        if t != ObjectiveType::Satisfy && st.objective is None {
            (st, Err(Error::SolutionMissingObjective))
        } else {
            (
                ParserView { input: Seq::empty(), objective: None },
                Ok(
                    Some(
                        OutputView::Solution(
                            SolutionView { solution: st.input, objective: st.objective },
                        ),
                    ),
                ),
            )
        }
    } else if line == DONE_TERMINATOR@ {
        (st, Ok(Some(OutputView::Status(Status::OptimalSolution))))
    } else if line == UNSATISFIABLE_TERMINATOR@ {
        (st, Ok(Some(OutputView::Status(Status::Unsatisfiable))))
    } else if line == UNBOUNDED_TERMINATOR@ {
        (st, Ok(Some(OutputView::Status(Status::Unbounded))))
    } else if line == UNKNOWN_TERMINATOR@ {
        (st, Ok(Some(OutputView::Status(Status::Unknown))))
    } else if t != ObjectiveType::Satisfy && has_prefix(line, OBJECTIVE_PREFIX@) {
        match parse_i64(objective_text(line)) {
            Some(v) => (ParserView { input: st.input, objective: Some(v) }, Ok(None)),
            None => (st, Err(Error::ObjectiveParse)),
        }
    } else {
        (ParserView { input: st.input + line + seq!['\n'], objective: st.objective }, Ok(None))
    }
}

/// The parser of one solver's output stream.
#[derive(Debug)]
pub struct Parser {
    input: String,
    objective: Option<ObjectiveValue>,
    objective_type: ObjectiveType,
}

impl View for Parser {
    type V = ParserView;

    closed spec fn view(&self) -> ParserView {
        ParserView { input: self.input@, objective: self.objective }
    }
}

impl Parser {
    /// The direction of the objective that this parser expects.
    pub closed spec fn objective_type(&self) -> ObjectiveType {
        self.objective_type
    }

    /// The direction of the objective that this parser expects.
    pub fn get_objective_type(&self) -> (t: ObjectiveType)
        ensures
            t == self.objective_type(),
    {
        self.objective_type
    }

    /// A parser that has seen no line.
    pub fn new(objective_type: ObjectiveType) -> (p: Self)
        ensures
            p@ == (ParserView { input: Seq::empty(), objective: None }),
            p.objective_type() == objective_type,
    {
        Parser { input: String::new(), objective: None, objective_type }
    }

    /// Takes the next line of the stream. At most one event comes out; an
    /// error leaves the parser as it was.
    pub fn next_line(&mut self, line: &str) -> (r: Result<Option<Output>, Error>)
        ensures
            final(self).objective_type() == old(self).objective_type(),
            final(self)@ == parse_line(old(self).objective_type(), old(self)@, line@).0,
            match parse_line(old(self).objective_type(), old(self)@, line@).1 {
                Ok(Some(o)) => r matches Ok(Some(out)) && out@ == o,
                Ok(None) => r matches Ok(None),
                Err(e) => r == Err::<Option<Output>, Error>(e),
            },
    {
        let v = chars_of(line);
        let (lo, hi) = trim_range(&v, 0, v.len());
        assert(v@.subrange(0, v.len() as int) =~= line@);
        let ghost t = trimmed(line@);
        let has_objective = match self.objective_type {
            ObjectiveType::Satisfy => false,
            _ => true,
        };
        if range_eq_str(&v, lo, hi, SOLUTION_TERMINATOR) {
            if has_objective && self.objective.is_none() {
                return Err(Error::SolutionMissingObjective);
            }
            let solution = self.input.clone();
            let objective = self.objective;
            self.input = String::new();
            self.objective = None;
            Ok(Some(Output::Solution(Solution { solution, objective })))
        } else if range_eq_str(&v, lo, hi, DONE_TERMINATOR) {
            Ok(Some(Output::Status(Status::OptimalSolution)))
        } else if range_eq_str(&v, lo, hi, UNSATISFIABLE_TERMINATOR) {
            Ok(Some(Output::Status(Status::Unsatisfiable)))
        } else if range_eq_str(&v, lo, hi, UNBOUNDED_TERMINATOR) {
            Ok(Some(Output::Status(Status::Unbounded)))
        } else if range_eq_str(&v, lo, hi, UNKNOWN_TERMINATOR) {
            Ok(Some(Output::Status(Status::Unknown)))
        } else if has_objective && range_starts_with(&v, lo, hi, OBJECTIVE_PREFIX) {
            let start = lo + OBJECTIVE_PREFIX.unicode_len();
            let end = find_char(&v, start, hi, ';');
            proof {
                let rest = t.skip(OBJECTIVE_PREFIX@.len() as int);
                assert(rest =~= v@.subrange(start as int, hi as int));
                assert(objective_text(t) =~= v@.subrange(start as int, end as int));
            }
            match read_i64(&v, start, end) {
                Some(value) => {
                    self.objective = Some(value);
                    Ok(None)
                },
                None => Err(Error::ObjectiveParse),
            }
        } else {
            let text = string_of(&v, lo, hi);
            self.input.append(text.as_str());
            self.input.append("\n");
            proof {
                reveal_strlit("\n");
                assert("\n"@ =~= seq!['\n']);
            }
            Ok(None)
        }
    }
}

/// The parser before any line.
pub open spec fn fresh() -> ParserView {
    ParserView { input: Seq::empty(), objective: None }
}

/// The state after the lines of `lines`, fed in order.
pub open spec fn feed(t: ObjectiveType, st: ParserView, lines: Seq<Seq<char>>) -> ParserView
    decreases lines.len(),
{
    if lines.len() == 0 {
        st
    } else {
        parse_line(t, feed(t, st, lines.drop_last()), lines.last()).0
    }
}

/// The line is one of the five terminators.
pub open spec fn is_terminator(raw: Seq<char>) -> bool {
    let line = trimmed(raw);
    ||| line == SOLUTION_TERMINATOR@
    ||| line == DONE_TERMINATOR@
    ||| line == UNSATISFIABLE_TERMINATOR@
    ||| line == UNBOUNDED_TERMINATOR@
    ||| line == UNKNOWN_TERMINATOR@
}

/// The line announces an objective, on a problem that has one.
pub open spec fn is_objective_line(t: ObjectiveType, raw: Seq<char>) -> bool {
    !is_terminator(raw) && t != ObjectiveType::Satisfy && has_prefix(trimmed(raw), OBJECTIVE_PREFIX@)
}

/// The objective that an objective line announces, if it is well formed.
pub open spec fn line_objective(raw: Seq<char>) -> Option<ObjectiveValue> {
    parse_i64(objective_text(trimmed(raw)))
}

/// The line is content, or an objective line with an integer on it.
pub open spec fn is_body_line(t: ObjectiveType, raw: Seq<char>) -> bool {
    !is_terminator(raw) && (is_objective_line(t, raw) ==> line_objective(raw) is Some)
}

/// The objective of the last objective line among `lines`.
pub open spec fn last_objective(t: ObjectiveType, lines: Seq<Seq<char>>) -> Option<ObjectiveValue>
    decreases lines.len(),
{
    if lines.len() == 0 {
        None
    } else if is_objective_line(t, lines.last()) {
        line_objective(lines.last())
    } else {
        last_objective(t, lines.drop_last())
    }
}

/// The content lines among `lines`, trimmed, each followed by a newline.
pub open spec fn content_of(t: ObjectiveType, lines: Seq<Seq<char>>) -> Seq<char>
    decreases lines.len(),
{
    if lines.len() == 0 {
        Seq::empty()
    } else if is_objective_line(t, lines.last()) {
        content_of(t, lines.drop_last())
    } else {
        content_of(t, lines.drop_last()) + trimmed(lines.last()) + seq!['\n']
    }
}

/// Trimming the solution terminator leaves it as it is.
pub proof fn lemma_solution_terminator_trimmed()
    ensures
        trimmed(SOLUTION_TERMINATOR@) == SOLUTION_TERMINATOR@,
{
    reveal_strlit("----------");
    let s = SOLUTION_TERMINATOR@;
    assert(!crate::text::is_whitespace(s[0]));
    assert(!crate::text::is_whitespace(s.last()));
    assert(s.subrange(0, s.len() as int) =~= s);
}

/// Body lines announce nothing, and the parser then holds their content and
/// the last objective among them.
pub proof fn lemma_feed_body_lines(t: ObjectiveType, lines: Seq<Seq<char>>)
    requires
        forall|i: int| 0 <= i < lines.len() ==> is_body_line(t, #[trigger] lines[i]),
    ensures
        feed(t, fresh(), lines) == (ParserView {
            input: content_of(t, lines),
            objective: last_objective(t, lines),
        }),
        forall|i: int|
            0 <= i < lines.len() ==> parse_line(
                t,
                feed(t, fresh(), #[trigger] lines.take(i)),
                lines[i],
            ).1 == Ok::<Option<OutputView>, Error>(None),
    decreases lines.len(),
{
    if lines.len() > 0 {
        let init = lines.drop_last();
        lemma_feed_body_lines(t, init);
        assert(is_body_line(t, lines.last()));
        assert forall|i: int| 0 <= i < lines.len() implies parse_line(
            t,
            feed(t, fresh(), #[trigger] lines.take(i)),
            lines[i],
        ).1 == Ok::<Option<OutputView>, Error>(None) by {
            if i < lines.len() - 1 {
                assert(lines.take(i) =~= init.take(i));
                assert(lines[i] == init[i]);
            } else {
                assert(lines.take(i) =~= init);
            }
        }
    }
}

/// A transcript of body lines followed by the solution terminator gives
/// exactly one event, at the terminator: the solution that carries the
/// content and the last objective announced. Where the problem has an
/// objective and none was announced, the terminator gives the error instead.
pub proof fn lemma_transcript_gives_one_solution(t: ObjectiveType, lines: Seq<Seq<char>>)
    requires
        forall|i: int| 0 <= i < lines.len() ==> is_body_line(t, #[trigger] lines[i]),
    ensures
        forall|i: int|
            0 <= i < lines.len() ==> parse_line(
                t,
                feed(t, fresh(), #[trigger] lines.take(i)),
                lines[i],
            ).1 == Ok::<Option<OutputView>, Error>(None),
        t != ObjectiveType::Satisfy && last_objective(t, lines) is None ==> parse_line(
            t,
            feed(t, fresh(), lines),
            SOLUTION_TERMINATOR@,
        ).1 == Err::<Option<OutputView>, Error>(Error::SolutionMissingObjective),
        t == ObjectiveType::Satisfy || last_objective(t, lines) is Some ==> parse_line(
            t,
            feed(t, fresh(), lines),
            SOLUTION_TERMINATOR@,
        ) == (
            fresh(),
            Ok::<Option<OutputView>, Error>(
                Some(
                    OutputView::Solution(
                        SolutionView {
                            solution: content_of(t, lines),
                            objective: last_objective(t, lines),
                        },
                    ),
                ),
            ),
        ),
{
    lemma_feed_body_lines(t, lines);
    lemma_solution_terminator_trimmed();
}

} // verus!
