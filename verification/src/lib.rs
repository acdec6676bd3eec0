//! A portfolio scheduler for constraint-optimisation solvers: the decisions
//! of the scheduler, the bookkeeping of the solver processes, the cache of
//! compilations, the parser of the solution stream and the memory enforcer.
//!
//! Nothing here starts a process, reads a file or waits: every function
//! takes what was observed and hands back what is to be done.
pub mod ai;
pub mod args;
pub mod assoc;
pub mod backup_solvers;
pub mod command;
pub mod compilation_priority;
pub mod config;
pub mod fzn_to_features;
pub mod insert_objective;
pub mod is_cancelled;
pub mod json;
pub mod logging;
pub mod model_parser;
pub mod msc_discovery;
pub mod mzn_to_fzn;
pub mod process_tree;
pub mod scheduler;
pub mod signal_handler;
pub mod solver_config;
pub mod solver_manager;
pub mod solver_output;
pub mod static_schedule;
pub mod sunny;
pub mod text;
