use portfolio_solver_framework::model_parser::ObjectiveType;
use portfolio_solver_framework::solver_manager::{
    Error, Signal, SignalOrder, SolverManager, SolverProcess, StdoutHandler,
};
use portfolio_solver_framework::solver_output::{Output, Solution, Status};

fn solution(block: &str, objective: Option<i64>) -> Output {
    Output::Solution(Solution { solution: block.to_string(), objective })
}

#[test]
fn is_better_follows_the_direction() {
    assert!(ObjectiveType::Minimize.is_better(None, 5));
    assert!(ObjectiveType::Minimize.is_better(Some(5), 4));
    assert!(!ObjectiveType::Minimize.is_better(Some(5), 5));
    assert!(!ObjectiveType::Minimize.is_better(Some(5), 6));
    assert!(ObjectiveType::Maximize.is_better(None, -1));
    assert!(ObjectiveType::Maximize.is_better(Some(5), 6));
    assert!(!ObjectiveType::Maximize.is_better(Some(5), 5));
    assert!(!ObjectiveType::Maximize.is_better(Some(5), 4));
    assert!(ObjectiveType::Satisfy.is_better(None, 0));
    assert!(ObjectiveType::Satisfy.is_better(Some(1), 1));
}

#[test]
fn satisfaction_single_solution_wins() {
    let mut manager = SolverManager::new(ObjectiveType::Satisfy, &vec![]);
    manager.register_process(0, 41);
    let mut handler = StdoutHandler::new(&manager, 0);
    assert!(matches!(handler.handle_line(&mut manager, "x=1;"), Ok(None)));
    let event = handler.handle_line(&mut manager, "----------").unwrap().unwrap();
    let reaction = manager.receive(&event);
    assert_eq!(reaction.print, Some("x=1;".to_string()));
    assert!(reaction.cancel);
    assert!(!reaction.finished);
    // cleanup takes every record out
    let stopped = manager.stop_all_solvers();
    assert_eq!(stopped, vec![SolverProcess { pid: 41, best_objective: None }]);
    assert!(manager.active_solver_ids().is_empty());
}

#[test]
fn minimize_bound_sharpens() {
    let mut manager = SolverManager::new(ObjectiveType::Minimize, &vec![]);
    manager.register_process(0, 1);
    manager.register_process(1, 2);
    let mut a = StdoutHandler::new(&manager, 0);
    let mut b = StdoutHandler::new(&manager, 1);
    let mut printed: Vec<String> = Vec::new();
    let mut feed = |h: &mut StdoutHandler, m: &mut SolverManager, lines: &[&str]| {
        for line in lines {
            if let Ok(Some(event)) = h.handle_line(m, line) {
                let reaction = m.receive(&event);
                assert!(!reaction.cancel);
                if let Some(text) = reaction.print {
                    printed.push(text);
                }
            }
        }
    };
    feed(&mut a, &mut manager, &["obj=10", "_objective = 10;", "----------"]);
    feed(&mut b, &mut manager, &["obj=7", "_objective = 7;", "----------"]);
    feed(&mut a, &mut manager, &["obj=8", "_objective = 8;", "----------"]);
    assert_eq!(printed, vec!["obj=10".to_string(), "obj=7".to_string()]);
    assert_eq!(manager.get_best_objective(), Some(7));
    assert_eq!(manager.get_solver_objectives(), vec![(0, Some(8)), (1, Some(7))]);
}

#[test]
fn optimal_status_ends_the_run() {
    let mut manager = SolverManager::new(ObjectiveType::Minimize, &vec![]);
    let r = manager.receive(&solution("obj=5\n", Some(5)));
    assert_eq!(r.print, Some("obj=5".to_string()));
    let r = manager.receive(&Output::Status(Status::OptimalSolution));
    assert_eq!(r.print, Some("==========".to_string()));
    assert!(r.cancel);
    assert!(r.finished);
    assert_eq!(manager.get_best_objective(), Some(5));
}

#[test]
fn unknown_status_is_passed_over() {
    let mut manager = SolverManager::new(ObjectiveType::Maximize, &vec![]);
    let r = manager.receive(&Output::Status(Status::Unknown));
    assert_eq!(r.print, None);
    assert!(!r.cancel);
    assert!(!r.finished);
    let r = manager.receive(&Output::Status(Status::Unsatisfiable));
    assert_eq!(r.print, Some("=====UNSATISFIABLE=====".to_string()));
    assert!(r.cancel && r.finished);
    let r = manager.receive(&Output::Status(Status::Unbounded));
    assert_eq!(r.print, Some("=====UNBOUNDED=====".to_string()));
}

#[test]
fn maximize_prints_only_improvements() {
    let mut manager = SolverManager::new(ObjectiveType::Maximize, &vec![]);
    let mut printed = Vec::new();
    for o in [3, 3, 1, 4, 4, 9, 2] {
        if manager.receive(&solution("s\n", Some(o))).print.is_some() {
            printed.push(o);
        }
    }
    assert_eq!(printed, vec![3, 4, 9]);
    assert_eq!(manager.get_best_objective(), Some(9));
}

#[test]
fn a_record_starts_from_the_published_bound() {
    let mut manager = SolverManager::new(ObjectiveType::Minimize, &vec![]);
    manager.receive(&solution("", Some(12)));
    assert_eq!(manager.register_process(3, 77), None);
    assert_eq!(manager.get_process(3), Some(SolverProcess { pid: 77, best_objective: Some(12) }));
    // a second record under the slot hands the first back
    assert_eq!(
        manager.register_process(3, 78),
        Some(SolverProcess { pid: 77, best_objective: Some(12) })
    );
    assert_eq!(manager.active_solver_ids(), vec![3]);
    assert!(manager.is_active(3));
    assert!(!manager.is_active(4));
}

#[test]
fn signals_go_to_the_recorded_groups() {
    let mut manager = SolverManager::new(ObjectiveType::Minimize, &vec![]);
    manager.register_process(0, 10);
    manager.register_process(1, 11);
    assert_eq!(manager.suspend_solver(1), Ok(SignalOrder { pid: 11, signal: Signal::Stop }));
    assert_eq!(manager.resume_solver(0), Ok(SignalOrder { pid: 10, signal: Signal::Continue }));
    assert_eq!(manager.suspend_solver(2), Err(Error::InvalidSolver(2)));
    assert_eq!(manager.resume_solver(9), Err(Error::InvalidSolver(9)));
    let (orders, errors) = manager.suspend_solvers(&vec![1, 5, 0]);
    assert_eq!(
        orders,
        vec![
            SignalOrder { pid: 11, signal: Signal::Stop },
            SignalOrder { pid: 10, signal: Signal::Stop }
        ]
    );
    assert_eq!(errors, vec![Error::InvalidSolver(5)]);
    let (orders, errors) = manager.resume_solvers(&vec![0]);
    assert_eq!(orders, vec![SignalOrder { pid: 10, signal: Signal::Continue }]);
    assert!(errors.is_empty());
    assert_eq!(
        manager.suspend_all_solvers(),
        vec![
            SignalOrder { pid: 10, signal: Signal::Stop },
            SignalOrder { pid: 11, signal: Signal::Stop }
        ]
    );
    assert_eq!(
        manager.resume_all_solvers(),
        vec![
            SignalOrder { pid: 10, signal: Signal::Continue },
            SignalOrder { pid: 11, signal: Signal::Continue }
        ]
    );
}

#[test]
fn stopping_takes_the_record_out() {
    let mut manager = SolverManager::new(ObjectiveType::Minimize, &vec![]);
    manager.register_process(0, 10);
    manager.register_process(1, 11);
    manager.register_process(2, 12);
    let p = manager.stop_solver(1).unwrap();
    assert_eq!(
        p.release_orders(),
        vec![
            SignalOrder { pid: 11, signal: Signal::Terminate },
            SignalOrder { pid: 11, signal: Signal::Continue }
        ]
    );
    assert_eq!(manager.stop_solver(1), Err(Error::InvalidSolver(1)));
    let (stopped, errors) = manager.stop_solvers(&vec![2, 2, 7]);
    assert_eq!(stopped, vec![SolverProcess { pid: 12, best_objective: None }]);
    assert_eq!(errors, vec![Error::InvalidSolver(2), Error::InvalidSolver(7)]);
    assert_eq!(manager.active_solver_ids(), vec![0]);
}

#[test]
fn cores_are_taken_lowest_first_and_given_back() {
    let mut manager = SolverManager::new(ObjectiveType::Minimize, &vec![3, 1, 2, 0, 1]);
    assert_eq!(manager.allocate_cores(2), Ok(vec![0, 1]));
    assert_eq!(manager.allocate_cores(3), Err(Error::CPUCoresRetrieval));
    assert_eq!(manager.allocate_cores(1), Ok(vec![2]));
    manager.release_cores(&vec![1, 0]);
    assert_eq!(manager.allocate_cores(3), Ok(vec![0, 1, 3]));
    assert_eq!(manager.allocate_cores(0), Ok(vec![]));
    assert_eq!(manager.allocate_cores(1), Err(Error::CPUCoresRetrieval));
}

#[test]
fn a_reader_starts_from_the_record_and_notes_improvements() {
    let mut manager = SolverManager::new(ObjectiveType::Maximize, &vec![]);
    manager.receive(&solution("", Some(5)));
    manager.register_process(0, 10);
    let mut h = StdoutHandler::new(&manager, 0);
    // 4 does not improve on 5: the record stays
    h.handle_line(&mut manager, "_objective = 4;").unwrap();
    assert!(h.handle_line(&mut manager, "----------").unwrap().is_some());
    assert_eq!(manager.get_process(0).unwrap().best_objective, Some(5));
    h.handle_line(&mut manager, "_objective = 6;").unwrap();
    h.handle_line(&mut manager, "----------").unwrap();
    assert_eq!(manager.get_process(0).unwrap().best_objective, Some(6));
    // the published bound moves only through receive
    assert_eq!(manager.get_best_objective(), Some(5));
    // an error on a line is handed back and the reader goes on
    assert!(h.handle_line(&mut manager, "_objective = x").is_err());
    assert!(h.handle_line(&mut manager, "----------").is_err());
}
