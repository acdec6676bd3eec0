use portfolio_solver_framework::model_parser::ObjectiveType;
use portfolio_solver_framework::scheduler::{ScheduleElement, Scheduler, SolverInfo};
use portfolio_solver_framework::solver_manager::{SolverManager, SolverProcess};
use portfolio_solver_framework::solver_output::{Output, Solution};

fn info(name: &str, cores: usize) -> SolverInfo {
    SolverInfo::new(name.to_string(), cores)
}

fn start_all(manager: &mut SolverManager, to_start: &[ScheduleElement], first_pid: u32) {
    for (k, elem) in to_start.iter().enumerate() {
        manager.register_process(elem.id, first_pid + k as u32);
    }
}

fn ids(v: &[ScheduleElement]) -> Vec<u64> {
    v.iter().map(|e| e.id).collect()
}

#[test]
fn solver_info_new_has_no_bound() {
    let a = SolverInfo::new("gecode".to_string(), 3);
    assert_eq!(a.name, "gecode");
    assert_eq!(a.cores, 3);
    assert_eq!(a.objective, None);
    let b = a.clone().with_objective(Some(4));
    assert_eq!(b.objective, Some(4));
    assert!(a.same_as(&a.duplicate()));
    assert!(!a.same_as(&b));
    assert!(!a.same_as(&info("gecode", 2)));
    assert!(!a.same_as(&info("chuffed", 3)));
}

#[test]
fn schedule_element_new_wraps_info() {
    let e = ScheduleElement::new(7, "coinbc".to_string(), 2);
    assert_eq!(e.id, 7);
    assert_eq!(e.info, info("coinbc", 2));
}

#[test]
fn slot_reuse_keeps_identifiers() {
    let mut manager = SolverManager::new(ObjectiveType::Minimize, &vec![]);
    let mut scheduler = Scheduler::new();

    let (stopped, changes) = scheduler.apply(vec![info("A", 2)], &mut manager);
    assert!(stopped.is_empty());
    assert_eq!(changes.to_start, vec![ScheduleElement::new(0, "A".to_string(), 2)]);
    assert!(changes.to_suspend.is_empty());
    assert!(changes.to_resume.is_empty());
    start_all(&mut manager, &changes.to_start, 100);
    assert_eq!(scheduler.next_id(), 1);

    let (_, changes) = scheduler.apply(vec![info("A", 2), info("B", 1)], &mut manager);
    assert_eq!(changes.to_start, vec![ScheduleElement::new(1, "B".to_string(), 1)]);
    assert!(changes.to_suspend.is_empty());
    assert!(changes.to_resume.is_empty());
    start_all(&mut manager, &changes.to_start, 200);
    assert_eq!(ids(&scheduler.running()), vec![0, 1]);
    assert_eq!(scheduler.next_id(), 2);

    let (_, changes) = scheduler.apply(vec![info("B", 1)], &mut manager);
    assert!(changes.to_start.is_empty());
    assert_eq!(changes.to_suspend, vec![0]);
    assert!(changes.to_resume.is_empty());
    assert_eq!(scheduler.running(), vec![ScheduleElement::new(1, "B".to_string(), 1)]);
    assert_eq!(scheduler.suspended(), vec![ScheduleElement::new(0, "A".to_string(), 2)]);
    assert_eq!(scheduler.next_id(), 2);
}

#[test]
fn applying_the_same_portfolio_twice_changes_nothing() {
    let mut manager = SolverManager::new(ObjectiveType::Maximize, &vec![]);
    let mut scheduler = Scheduler::new();
    let portfolio = vec![info("A", 1), info("A", 1), info("B", 4)];
    let (_, changes) = scheduler.apply(portfolio.clone(), &mut manager);
    assert_eq!(ids(&changes.to_start), vec![0, 1, 2]);
    start_all(&mut manager, &changes.to_start, 10);
    let running = scheduler.running();

    let (stopped, changes) = scheduler.apply(portfolio, &mut manager);
    assert!(stopped.is_empty());
    assert!(changes.to_start.is_empty());
    assert!(changes.to_suspend.is_empty());
    assert!(changes.to_resume.is_empty());
    assert_eq!(scheduler.running(), running);
    assert!(scheduler.suspended().is_empty());
    assert_eq!(scheduler.next_id(), 3);
    assert_eq!(manager.active_solver_ids(), vec![0, 1, 2]);
}

#[test]
fn suspend_then_resume_returns_the_slot() {
    let mut manager = SolverManager::new(ObjectiveType::Minimize, &vec![]);
    let mut scheduler = Scheduler::new();
    let (_, changes) = scheduler.apply(vec![info("A", 1), info("B", 2)], &mut manager);
    start_all(&mut manager, &changes.to_start, 10);

    let (_, changes) = scheduler.apply(vec![info("A", 1)], &mut manager);
    assert_eq!(changes.to_suspend, vec![1]);
    assert_eq!(scheduler.suspended(), vec![ScheduleElement::new(1, "B".to_string(), 2)]);

    let (_, changes) = scheduler.apply(vec![info("B", 2), info("A", 1)], &mut manager);
    assert_eq!(changes.to_resume, vec![1]);
    assert!(changes.to_start.is_empty());
    assert!(changes.to_suspend.is_empty());
    assert_eq!(
        scheduler.running(),
        vec![
            ScheduleElement::new(1, "B".to_string(), 2),
            ScheduleElement::new(0, "A".to_string(), 1)
        ]
    );
    assert!(scheduler.suspended().is_empty());
}

#[test]
fn first_match_wins_and_is_not_matched_again() {
    let mut manager = SolverManager::new(ObjectiveType::Minimize, &vec![]);
    let mut scheduler = Scheduler::new();
    let (_, changes) = scheduler.apply(vec![info("A", 1), info("A", 1)], &mut manager);
    start_all(&mut manager, &changes.to_start, 10);
    // three equal entries: two slots are reused in order, the third is new
    let schedule = scheduler.assign_ids(&vec![info("A", 1), info("A", 1), info("A", 1)]);
    assert_eq!(ids(&schedule), vec![0, 1, 2]);
    assert_eq!(scheduler.next_id(), 3);
}

#[test]
fn a_new_bound_restarts_the_solvers_behind_it() {
    let mut manager = SolverManager::new(ObjectiveType::Minimize, &vec![]);
    let mut scheduler = Scheduler::new();
    let portfolio = vec![info("A", 1), info("B", 1)];
    let (_, changes) = scheduler.apply(portfolio.clone(), &mut manager);
    start_all(&mut manager, &changes.to_start, 10);

    // solver 1 finds the bound 7
    manager.set_solver_objective(1, Some(7));
    let reaction = manager.receive(&Output::Solution(Solution {
        solution: "x = 7;\n".to_string(),
        objective: Some(7),
    }));
    assert_eq!(reaction.print, Some("x = 7;".to_string()));
    assert_eq!(manager.get_best_objective(), Some(7));

    let (stopped, changes) = scheduler.apply(portfolio, &mut manager);
    // solver 0 has no bound of its own: it is behind and starts again
    assert_eq!(stopped, vec![SolverProcess { pid: 10, best_objective: None }]);
    assert_eq!(changes.to_start, vec![ScheduleElement::new(2, "A".to_string(), 1)]);
    assert!(changes.to_suspend.is_empty());
    assert!(changes.to_resume.is_empty());
    assert_eq!(ids(&scheduler.running()), vec![2, 1]);
    assert_eq!(manager.active_solver_ids(), vec![1]);
}

#[test]
fn exited_solvers_are_forgotten_and_started_again() {
    let mut manager = SolverManager::new(ObjectiveType::Satisfy, &vec![]);
    let mut scheduler = Scheduler::new();
    let portfolio = vec![info("A", 1), info("B", 1)];
    let (_, changes) = scheduler.apply(portfolio.clone(), &mut manager);
    start_all(&mut manager, &changes.to_start, 10);
    manager.solver_exited(0);
    let (_, changes) = scheduler.apply(portfolio, &mut manager);
    // the slot keeps its identifier, and is started again
    assert_eq!(changes.to_start, vec![ScheduleElement::new(0, "A".to_string(), 1)]);
    assert_eq!(ids(&scheduler.running()), vec![0, 1]);
}

#[test]
fn failed_starts_leave_the_running_slots() {
    let mut manager = SolverManager::new(ObjectiveType::Satisfy, &vec![]);
    let mut scheduler = Scheduler::new();
    let (_, changes) = scheduler.apply(vec![info("A", 1), info("B", 1)], &mut manager);
    assert_eq!(ids(&changes.to_start), vec![0, 1]);
    manager.register_process(0, 50);
    scheduler.start_failed(&vec![1]);
    assert_eq!(ids(&scheduler.running()), vec![0]);
    assert!(scheduler.suspended().is_empty());
}

#[test]
fn failed_suspends_are_stopped_and_failed_resumes_restart() {
    let mut manager = SolverManager::new(ObjectiveType::Satisfy, &vec![]);
    let mut scheduler = Scheduler::new();
    let (_, changes) = scheduler.apply(vec![info("A", 1), info("B", 1)], &mut manager);
    start_all(&mut manager, &changes.to_start, 10);
    let (_, changes) = scheduler.apply(vec![info("A", 1)], &mut manager);
    assert_eq!(changes.to_suspend, vec![1]);
    let stopped = scheduler.suspend_failed(&mut manager, &changes.to_suspend);
    assert_eq!(stopped, vec![SolverProcess { pid: 11, best_objective: None }]);
    assert!(scheduler.suspended().is_empty());
    assert_eq!(manager.active_solver_ids(), vec![0]);

    let (stopped, again) = scheduler.resume_failed(&mut manager, &vec![0]);
    assert_eq!(stopped, vec![SolverProcess { pid: 10, best_objective: None }]);
    assert_eq!(again, vec![ScheduleElement::new(0, "A".to_string(), 1)]);
    assert_eq!(ids(&scheduler.running()), vec![0]);
    assert!(manager.active_solver_ids().is_empty());
}
