use portfolio_solver_framework::model_parser::ObjectiveType;
use portfolio_solver_framework::solver_output::{Error, Output, Parser, Solution, Status};

fn solution_of(out: Result<Option<Output>, Error>) -> Solution {
    match out {
        Ok(Some(Output::Solution(s))) => s,
        other => panic!("not a solution: {:?}", other),
    }
}

fn status_of(out: Result<Option<Output>, Error>) -> Status {
    match out {
        Ok(Some(Output::Status(s))) => s,
        other => panic!("not a status: {:?}", other),
    }
}

#[test]
fn status_lines_have_their_wire_form() {
    assert_eq!(Status::OptimalSolution.to_dzn_string(), "==========");
    assert_eq!(Status::Unsatisfiable.to_dzn_string(), "=====UNSATISFIABLE=====");
    assert_eq!(Status::Unbounded.to_dzn_string(), "=====UNBOUNDED=====");
    assert_eq!(Status::Unknown.to_dzn_string(), "=====UNKNOWN=====");
    assert!(Status::OptimalSolution.is_terminal());
    assert!(Status::Unsatisfiable.is_terminal());
    assert!(Status::Unbounded.is_terminal());
    assert!(!Status::Unknown.is_terminal());
}

#[test]
fn parser_reads_each_status() {
    let mut p = Parser::new(ObjectiveType::Minimize);
    assert_eq!(status_of(p.next_line("==========")), Status::OptimalSolution);
    assert_eq!(status_of(p.next_line("=====UNSATISFIABLE=====")), Status::Unsatisfiable);
    assert_eq!(status_of(p.next_line("=====UNBOUNDED=====")), Status::Unbounded);
    assert_eq!(status_of(p.next_line("  =====UNKNOWN=====\r")), Status::Unknown);
}

#[test]
fn satisfaction_solution_carries_the_block() {
    let mut p = Parser::new(ObjectiveType::Satisfy);
    assert!(matches!(p.next_line("x=1;"), Ok(None)));
    let s = solution_of(p.next_line("----------"));
    assert_eq!(s.solution, "x=1;\n");
    assert_eq!(s.objective, None);
    // the parser starts over
    let s = solution_of(p.next_line("----------"));
    assert_eq!(s.solution, "");
}

#[test]
fn objective_lines_are_content_on_a_satisfaction_problem() {
    let mut p = Parser::new(ObjectiveType::Satisfy);
    assert!(matches!(p.next_line("_objective = 4;"), Ok(None)));
    let s = solution_of(p.next_line("----------"));
    assert_eq!(s.solution, "_objective = 4;\n");
    assert_eq!(s.objective, None);
}

#[test]
fn the_last_objective_wins() {
    let mut p = Parser::new(ObjectiveType::Minimize);
    assert!(matches!(p.next_line("_objective = 10;"), Ok(None)));
    assert!(matches!(p.next_line("x = 3;"), Ok(None)));
    assert!(matches!(p.next_line("  y = 4;  "), Ok(None)));
    assert!(matches!(p.next_line("_objective = -7"), Ok(None)));
    let s = solution_of(p.next_line("----------"));
    assert_eq!(s.solution, "x = 3;\ny = 4;\n");
    assert_eq!(s.objective, Some(-7));
}

#[test]
fn missing_objective_is_an_error_and_leaves_the_parser() {
    let mut p = Parser::new(ObjectiveType::Maximize);
    assert!(matches!(p.next_line("x = 3;"), Ok(None)));
    assert!(matches!(p.next_line("----------"), Err(Error::SolutionMissingObjective)));
    assert!(matches!(p.next_line("_objective = 12;"), Ok(None)));
    let s = solution_of(p.next_line("----------"));
    assert_eq!(s.solution, "x = 3;\n");
    assert_eq!(s.objective, Some(12));
}

#[test]
fn ill_formed_objectives_are_errors() {
    let mut p = Parser::new(ObjectiveType::Minimize);
    assert!(matches!(p.next_line("_objective = ;"), Err(Error::ObjectiveParse)));
    assert!(matches!(p.next_line("_objective = 1.5;"), Err(Error::ObjectiveParse)));
    assert!(matches!(p.next_line("_objective = abc"), Err(Error::ObjectiveParse)));
    assert!(matches!(p.next_line("_objective = 9223372036854775808;"), Err(Error::ObjectiveParse)));
    assert!(matches!(p.next_line("_objective = -"), Err(Error::ObjectiveParse)));
    // the parser goes on
    assert!(matches!(p.next_line("_objective = +5;"), Ok(None)));
    assert_eq!(solution_of(p.next_line("----------")).objective, Some(5));
}

#[test]
fn objective_limits_are_read() {
    let mut p = Parser::new(ObjectiveType::Minimize);
    assert!(matches!(p.next_line("_objective = -9223372036854775808;"), Ok(None)));
    assert_eq!(solution_of(p.next_line("----------")).objective, Some(i64::MIN));
    assert!(matches!(p.next_line("_objective = 9223372036854775807; % note"), Ok(None)));
    assert_eq!(solution_of(p.next_line("----------")).objective, Some(i64::MAX));
    assert!(matches!(p.next_line("_objective = 0000000000000000000000042;"), Ok(None)));
    assert_eq!(solution_of(p.next_line("----------")).objective, Some(42));
}

#[test]
fn transcript_gives_exactly_one_solution() {
    let mut p = Parser::new(ObjectiveType::Maximize);
    let lines = ["a = 1;", "_objective = 1;", "b = 2;", "_objective = 2;", "c = 3;"];
    let mut events = 0;
    for line in lines {
        if let Ok(Some(_)) = p.next_line(line) {
            events += 1;
        }
    }
    assert_eq!(events, 0);
    let s = solution_of(p.next_line("----------"));
    assert_eq!(s.objective, Some(2));
    assert_eq!(s.solution, "a = 1;\nb = 2;\nc = 3;\n");
}
