use portfolio_solver_framework::config::{is_over_threshold, Config, MemoryThreshold};
use portfolio_solver_framework::model_parser::ObjectiveType;
use portfolio_solver_framework::process_tree::{
    get_pids_in_group, get_process_tree_memory, recursive_force_kill, ProcessInfo,
};
use portfolio_solver_framework::scheduler::{ScheduleElement, Scheduler, SolverInfo};
use portfolio_solver_framework::solver_manager::{SolverManager, SolverProcess};

const MIB: u64 = 1024 * 1024;

fn proc(pid: u32, parent: Option<u32>, group: Option<u32>, memory: u64) -> ProcessInfo {
    ProcessInfo { pid, parent, group, memory }
}

fn info(name: &str, cores: usize) -> SolverInfo {
    SolverInfo::new(name.to_string(), cores)
}

fn ids(v: &[ScheduleElement]) -> Vec<u64> {
    v.iter().map(|e| e.id).collect()
}

fn nine_tenths() -> MemoryThreshold {
    MemoryThreshold { numerator: 9, denominator: 10 }
}

#[test]
fn the_threshold_is_a_share_of_the_total() {
    let t = nine_tenths();
    assert!(!is_over_threshold(90, 100, t));
    assert!(is_over_threshold(91, 100, t));
    assert!(!is_over_threshold(0, 0, t));
    assert!(is_over_threshold(1, 0, t));
    assert!(is_over_threshold(u64::MAX, u64::MAX, t));
    assert!(!is_over_threshold(u64::MAX, u64::MAX, MemoryThreshold { numerator: 1, denominator: 1 }));
    assert!(!is_over_threshold(5, 1, MemoryThreshold { numerator: 1, denominator: 0 }));
}

#[test]
fn the_default_configuration() {
    let c = Config::default();
    assert_eq!(c.static_runtime, 5);
    assert_eq!(c.feature_timeout, 10);
    assert_eq!(c.restart_interval, 7);
    assert_eq!(c.memory_enforcer_interval, 3);
    assert_eq!(c.memory_threshold, nine_tenths());
    assert_eq!(c.solver_args_for("gecode"), Some(vec!["-i".to_string(), "-f".to_string()]));
    assert_eq!(c.solver_args_for("picat"), Some(vec!["-a".to_string(), "-f".to_string()]));
    assert_eq!(c.solver_args_for("unknown"), None);
}

#[test]
fn a_tree_holds_the_memory_of_its_descendants() {
    let table = vec![
        proc(1, None, Some(1), 1),
        proc(10, Some(1), Some(10), 100),
        proc(11, Some(10), Some(10), 20),
        proc(12, Some(11), Some(12), 3),
        proc(20, Some(1), Some(20), 1000),
        proc(21, Some(20), Some(20), 5000),
    ];
    assert_eq!(get_process_tree_memory(&table, 10), 123);
    assert_eq!(get_process_tree_memory(&table, 11), 23);
    assert_eq!(get_process_tree_memory(&table, 20), 6000);
    assert_eq!(get_process_tree_memory(&table, 1), 6124);
    assert_eq!(get_process_tree_memory(&table, 99), 0);
    assert_eq!(get_process_tree_memory(&vec![], 1), 0);
}

#[test]
fn a_cycle_of_parents_is_counted_once() {
    let table = vec![proc(1, Some(2), None, 10), proc(2, Some(1), None, 20), proc(3, Some(3), None, 7)];
    assert_eq!(get_process_tree_memory(&table, 1), 30);
    assert_eq!(get_process_tree_memory(&table, 3), 7);
    let big = vec![proc(1, None, None, u64::MAX), proc(2, Some(1), None, 5)];
    assert_eq!(get_process_tree_memory(&big, 1), u64::MAX);
}

#[test]
fn groups_and_kill_order() {
    let table = vec![
        proc(10, Some(1), Some(10), 0),
        proc(11, Some(10), Some(10), 0),
        proc(12, Some(11), Some(12), 0),
        proc(13, Some(1), Some(10), 0),
        proc(14, Some(13), Some(14), 0),
        proc(20, Some(1), Some(20), 0),
    ];
    assert_eq!(get_pids_in_group(&table, 10), vec![10, 11, 13]);
    assert_eq!(get_pids_in_group(&table, 99), Vec::<u32>::new());
    // the group of the root and every descendant, the root last
    assert_eq!(recursive_force_kill(&table, 10, Some(10)), vec![11, 12, 13, 14, 10]);
    // without the group only the tree of the root
    assert_eq!(recursive_force_kill(&table, 10, None), vec![11, 12, 10]);
    // a root that is gone is still killed
    assert_eq!(recursive_force_kill(&table, 99, None), vec![99]);
}

#[test]
fn solvers_are_ranked_by_memory() {
    let mut manager = SolverManager::new(ObjectiveType::Minimize, &vec![]);
    manager.register_process(0, 10);
    manager.register_process(1, 20);
    manager.register_process(2, 30);
    manager.register_process(3, 40);
    let table = vec![
        proc(10, None, None, 5),
        proc(20, None, None, 9),
        proc(21, Some(20), None, 1),
        proc(30, None, None, 5),
        proc(40, None, None, 10),
    ];
    // equal memory keeps the order of the slots asked for; unknown slots are left out
    assert_eq!(
        manager.solvers_sorted_by_mem(&vec![0, 7, 1, 2, 3], &table),
        vec![(10, 1), (10, 3), (5, 0), (5, 2)]
    );
    assert_eq!(manager.solvers_sorted_by_mem(&vec![], &table), vec![]);
}

fn eviction_setup() -> (Scheduler, SolverManager, Vec<ProcessInfo>) {
    // slots 0 and 1 end up suspended, slot 2 runs
    let mut manager = SolverManager::new(ObjectiveType::Minimize, &vec![]);
    let mut scheduler = Scheduler::new();
    let (_, changes) =
        scheduler.apply(vec![info("A", 1), info("B", 1), info("C", 1)], &mut manager);
    for (k, e) in changes.to_start.iter().enumerate() {
        manager.register_process(e.id, 100 + k as u32);
    }
    let (_, changes) = scheduler.apply(vec![info("C", 1)], &mut manager);
    assert_eq!(changes.to_suspend, vec![0, 1]);
    let table = vec![
        proc(100, None, None, 300 * MIB),
        proc(101, None, None, 800 * MIB),
        proc(102, None, None, 100 * MIB),
    ];
    (scheduler, manager, table)
}

#[test]
fn memory_eviction_stops_the_largest_suspended_first() {
    let (mut scheduler, mut manager, table) = eviction_setup();
    let total = 2048 * MIB;
    let used = 1997 * MIB; // 1.95 GiB
    let (left, stopped) = scheduler.enforce_memory(&mut manager, &table, used, total, nine_tenths());
    assert_eq!(stopped, vec![SolverProcess { pid: 101, best_objective: None }]);
    assert_eq!(left, 1197 * MIB);
    assert_eq!(ids(&scheduler.suspended()), vec![0]);
    assert_eq!(ids(&scheduler.running()), vec![2]);
    assert_eq!(manager.active_solver_ids(), vec![0, 2]);
}

#[test]
fn memory_eviction_goes_on_while_over_the_threshold() {
    let (mut scheduler, mut manager, table) = eviction_setup();
    // even without the 800 MiB the memory stays over the threshold
    let total = 1000 * MIB;
    let used = 1950 * MIB;
    let (left, stopped) = scheduler.enforce_memory(&mut manager, &table, used, total, nine_tenths());
    assert_eq!(
        stopped,
        vec![
            SolverProcess { pid: 101, best_objective: None },
            SolverProcess { pid: 100, best_objective: None }
        ]
    );
    assert_eq!(left, 850 * MIB);
    assert!(scheduler.suspended().is_empty());
    assert_eq!(ids(&scheduler.running()), vec![2]);
}

#[test]
fn under_the_threshold_nothing_is_stopped() {
    let (mut scheduler, mut manager, table) = eviction_setup();
    let (left, stopped) =
        scheduler.enforce_memory(&mut manager, &table, 1000 * MIB, 2048 * MIB, nine_tenths());
    assert!(stopped.is_empty());
    assert_eq!(left, 1000 * MIB);
    assert_eq!(ids(&scheduler.suspended()), vec![0, 1]);
    assert_eq!(ids(&scheduler.running()), vec![2]);
}

#[test]
fn without_suspended_solvers_running_ones_are_stopped() {
    let mut manager = SolverManager::new(ObjectiveType::Minimize, &vec![]);
    let mut scheduler = Scheduler::new();
    let (_, changes) =
        scheduler.apply(vec![info("A", 1), info("B", 2), info("C", 1)], &mut manager);
    for (k, e) in changes.to_start.iter().enumerate() {
        manager.register_process(e.id, 100 + k as u32);
    }
    let table = vec![
        proc(100, None, None, 100),
        proc(101, None, None, 600),
        proc(102, None, None, 250),
    ];
    // 4 cores, total 1000, threshold 9/10: more than 225 per core is unfair.
    // C holds 250 on one core and goes whatever the memory in use; B holds
    // 300 per core and goes too; A stays because the memory is then under.
    let (left, stopped) = scheduler.enforce_memory(&mut manager, &table, 950, 1000, nine_tenths());
    assert_eq!(
        stopped,
        vec![
            SolverProcess { pid: 101, best_objective: None },
            SolverProcess { pid: 102, best_objective: None }
        ]
    );
    assert_eq!(left, 100);
    assert_eq!(ids(&scheduler.running()), vec![0]);
}

#[test]
fn fair_running_solvers_go_largest_first_until_under() {
    let mut manager = SolverManager::new(ObjectiveType::Minimize, &vec![]);
    let mut scheduler = Scheduler::new();
    let (_, changes) =
        scheduler.apply(vec![info("A", 1), info("B", 1), info("C", 1)], &mut manager);
    for (k, e) in changes.to_start.iter().enumerate() {
        manager.register_process(e.id, 100 + k as u32);
    }
    let table =
        vec![proc(100, None, None, 100), proc(101, None, None, 200), proc(102, None, None, 150)];
    // 3 cores, total 1000: 300 per core is the limit, nobody is unfair
    let ranked = manager.solvers_sorted_by_mem(&vec![0, 1, 2], &table);
    assert_eq!(ranked, vec![(200, 1), (150, 2), (100, 0)]);
    let (left, stopped) = scheduler.kill_running_until_under_threshold(
        &mut manager,
        &ranked,
        1200,
        1000,
        nine_tenths(),
    );
    assert_eq!(
        stopped,
        vec![
            SolverProcess { pid: 101, best_objective: None },
            SolverProcess { pid: 102, best_objective: None }
        ]
    );
    assert_eq!(left, 850);
    assert_eq!(ids(&scheduler.running()), vec![0]);
}

#[test]
fn with_no_solver_the_enforcer_does_nothing() {
    let mut manager = SolverManager::new(ObjectiveType::Minimize, &vec![]);
    let mut scheduler = Scheduler::new();
    let (left, stopped) = scheduler.enforce_memory(&mut manager, &vec![], 99, 100, nine_tenths());
    assert_eq!(left, 99);
    assert!(stopped.is_empty());
    assert!(scheduler.running().is_empty());
    assert!(scheduler.suspended().is_empty());
}

#[test]
fn exited_solvers_are_forgotten_by_the_enforcer() {
    let (mut scheduler, mut manager, table) = eviction_setup();
    manager.solver_exited(1);
    manager.solver_exited(2);
    let (_, stopped) = scheduler.enforce_memory(&mut manager, &table, 1, 2048 * MIB, nine_tenths());
    assert!(stopped.is_empty());
    assert_eq!(ids(&scheduler.suspended()), vec![0]);
    assert!(scheduler.running().is_empty());
}
