use portfolio_solver_framework::compilation_priority::{CompilationPriority, SolverId};
use portfolio_solver_framework::insert_objective;
use portfolio_solver_framework::insert_objective::{get_objective_constraint, insert_objective};
use portfolio_solver_framework::is_cancelled::{IsCancelled, IsErrorCancelled};
use portfolio_solver_framework::model_parser::ObjectiveType;
use portfolio_solver_framework::mzn_to_fzn::{
    after_wait, CompilationManager, CompilationStatus, Conversion, ConversionError, Error,
    WaitDecision, WaitForError, WaitOutcome,
};

fn conversion(name: &str) -> Conversion {
    Conversion::new(format!("/tmp/{name}.fzn"), format!("/tmp/{name}.ozn"))
}

#[test]
fn a_compilation_is_started_once() {
    let mut m = CompilationManager::new();
    assert!(!m.is_started("X"));
    assert_eq!(m.status("X"), CompilationStatus::NotStarted);
    assert!(m.start("X".to_string()));
    assert!(m.is_started("X"));
    assert_eq!(m.status("X"), CompilationStatus::Running);
    // a second start while it runs is a no-op
    assert!(!m.start("X".to_string()));
    assert_eq!(m.wait_for("X", false), WaitDecision::Subscribe);
    assert_eq!(m.wait_for("X", false), WaitDecision::Subscribe);
    let published = m.finish("X", Ok(conversion("x")));
    assert_eq!(published, Ok(conversion("x")));
    assert_eq!(m.status("X"), CompilationStatus::Done);
    // and so is a start when it is done
    assert!(!m.start("X".to_string()));
    assert_eq!(m.wait_for("X", false), WaitDecision::Ready(Ok(conversion("x"))));
}

#[test]
fn start_many_runs_each_new_solver_once() {
    let mut m = CompilationManager::new();
    assert!(m.start("b".to_string()));
    let run = m.start_many(vec!["a".to_string(), "b".to_string(), "a".to_string(), "c".to_string()]);
    assert_eq!(run, vec!["a", "c"]);
    assert!(m.is_started("a") && m.is_started("b") && m.is_started("c"));
}

#[test]
fn compilation_cancel() {
    let mut m = CompilationManager::new();
    assert!(m.start("X".to_string()));
    assert!(m.stop("X"));
    assert_eq!(
        m.wait_for("X", false),
        WaitDecision::Ready(Err(WaitForError::NotStarted("X".to_string())))
    );
    // the cancelled flattener ends: nothing is kept
    let published = m.finish("X", Err(Error::Cancelled("X".to_string())));
    assert_eq!(published, Err(WaitForError::Cancelled));
    assert!(!m.is_started("X"));
    // starting again begins a fresh compilation
    assert!(m.start("X".to_string()));
    assert_eq!(m.status("X"), CompilationStatus::Running);
}

#[test]
fn finished_compilations_are_not_stopped() {
    let mut m = CompilationManager::new();
    m.start_many(vec!["a".to_string(), "b".to_string(), "c".to_string()]);
    m.finish("b", Err(Error::Conversion(ConversionError::CommandFailed(Some(1)))));
    assert_eq!(m.wait_for("b", false), WaitDecision::Ready(Err(WaitForError::Conversion)));
    let cancelled =
        m.stop_many(&vec!["c".to_string(), "b".to_string(), "zz".to_string(), "c".to_string()]);
    assert_eq!(cancelled, vec!["c"]);
    assert_eq!(m.status("a"), CompilationStatus::Running);
    assert_eq!(m.status("b"), CompilationStatus::Done);
    assert_eq!(m.status("c"), CompilationStatus::NotStarted);
    assert!(!m.stop("b"));
    assert!(!m.stop("nothing"));
}

#[test]
fn a_cancelled_waiter_is_told_so() {
    let mut m = CompilationManager::new();
    m.start("a".to_string());
    assert_eq!(m.wait_for("a", true), WaitDecision::Ready(Err(WaitForError::Cancelled)));
    // the compilation goes on
    assert_eq!(m.status("a"), CompilationStatus::Running);
    assert_eq!(after_wait("a", WaitOutcome::Cancelled), Err(WaitForError::Cancelled));
    assert_eq!(
        after_wait("a", WaitOutcome::ChannelClosed),
        Err(WaitForError::ReadChannelClosed("a".to_string()))
    );
    assert_eq!(
        after_wait("a", WaitOutcome::Value(None)),
        Err(WaitForError::CompilationUnfinishedAfterWaiting("a".to_string()))
    );
    assert_eq!(after_wait("a", WaitOutcome::Value(Some(Ok(conversion("a"))))), Ok(conversion("a")));
}

#[test]
fn conversions_give_their_paths() {
    let c = conversion("m");
    assert_eq!(c.fzn(), "/tmp/m.fzn");
    assert_eq!(c.ozn(), "/tmp/m.ozn");
}

#[test]
fn cancellations_are_told_apart() {
    assert!(Error::Cancelled("a".to_string()).is_cancelled());
    assert!(!Error::Conversion(ConversionError::Io).is_cancelled());
    assert!(WaitForError::Cancelled.is_cancelled());
    assert!(!WaitForError::Conversion.is_cancelled());
    assert!(!WaitForError::NotStarted("a".to_string()).is_cancelled());
    let r: Result<u8, WaitForError> = Err(WaitForError::Cancelled);
    assert!(r.is_error_cancelled());
    let r: Result<u8, WaitForError> = Err(WaitForError::Conversion);
    assert!(!r.is_error_cancelled());
    let r: Result<u8, WaitForError> = Ok(1);
    assert!(!r.is_error_cancelled());
    let r: Result<u8, Error> = Err(Error::Cancelled("x".to_string()));
    assert!(r.is_cancelled());
    assert_eq!(WaitForError::from(&Error::Cancelled("x".to_string())), WaitForError::Cancelled);
    assert_eq!(
        WaitForError::from(&Error::Conversion(ConversionError::TempFile)),
        WaitForError::Conversion
    );
}

#[test]
fn the_bound_becomes_a_constraint() {
    assert_eq!(
        get_objective_constraint(&ObjectiveType::Minimize, "obj", 5),
        Ok("constraint int_le(obj, 5);".to_string())
    );
    assert_eq!(
        get_objective_constraint(&ObjectiveType::Maximize, "obj", -12),
        Ok("constraint int_le(-12, obj);".to_string())
    );
    assert_eq!(
        get_objective_constraint(&ObjectiveType::Minimize, "x", i64::MIN),
        Ok("constraint int_le(x, -9223372036854775808);".to_string())
    );
    assert_eq!(
        get_objective_constraint(&ObjectiveType::Maximize, "x", i64::MAX),
        Ok("constraint int_le(9223372036854775807, x);".to_string())
    );
    assert_eq!(
        get_objective_constraint(&ObjectiveType::Satisfy, "x", 0),
        Err(insert_objective::Error::GetObjectiveOnSatisfyType)
    );
}

#[test]
fn the_constraint_stands_before_the_solve_statement() {
    let fzn = "var 0..10: x;\nconstraint int_lt(x, 9);\nsolve minimize x;\n";
    assert_eq!(
        insert_objective(fzn, &ObjectiveType::Minimize, 7),
        Ok("var 0..10: x;\nconstraint int_lt(x, 9);constraint int_le(x, 7);\nsolve minimize x;\n"
            .to_string())
    );
    // without a semicolon after the solve statement
    assert_eq!(
        insert_objective("var int: y;solve maximize y", &ObjectiveType::Maximize, 3),
        Ok("var int: y;constraint int_le(3, y);solve maximize y".to_string())
    );
    // the solve statement alone
    assert_eq!(
        insert_objective("solve minimize z;", &ObjectiveType::Minimize, 0),
        Ok("constraint int_le(z, 0);solve minimize z;".to_string())
    );
}

#[test]
fn a_model_without_solve_statement_is_refused() {
    assert_eq!(
        insert_objective("var int: y;\n", &ObjectiveType::Minimize, 1),
        Err(insert_objective::Error::LastStatementNotSolve("var int: y".to_string()))
    );
    assert_eq!(
        insert_objective("", &ObjectiveType::Minimize, 1),
        Err(insert_objective::Error::LastStatementNotSolve("".to_string()))
    );
    assert_eq!(
        insert_objective("solve satisfy;", &ObjectiveType::Satisfy, 1),
        Err(insert_objective::Error::GetObjectiveOnSatisfyType)
    );
}

#[test]
fn priorities_follow_the_list_backwards() {
    let p = CompilationPriority::from_vec(vec!["a".to_string(), "b".to_string(), "c".to_string()]);
    assert_eq!(p.waiting(), vec!["c", "b", "a"]);
    assert!(CompilationPriority::from_vec(vec![]).waiting().is_empty());
    let id = SolverId("gecode".to_string());
    assert_eq!(id.to_string(), "gecode");
    assert_eq!(id.into_string(), "gecode");
}

#[test]
fn all_but_the_excepted_compilations_are_stopped() {
    let mut m = CompilationManager::new();
    m.start_many(vec!["a".to_string(), "b".to_string(), "c".to_string(), "d".to_string()]);
    m.finish("b", Ok(conversion("b")));
    let cancelled = m.stop_all_except(&vec!["c".to_string(), "zz".to_string()]);
    assert_eq!(cancelled, vec!["a", "d"]);
    assert_eq!(m.status("a"), CompilationStatus::NotStarted);
    assert_eq!(m.status("b"), CompilationStatus::Done);
    assert_eq!(m.status("c"), CompilationStatus::Running);
    assert_eq!(m.status("d"), CompilationStatus::NotStarted);
    assert!(m.stop_all_except(&vec!["c".to_string()]).is_empty());
    assert_eq!(m.stop_all_except(&vec![]), vec!["c"]);
}
