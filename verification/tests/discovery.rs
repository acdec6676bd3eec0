use portfolio_solver_framework::args::OutputMode;
use portfolio_solver_framework::backup_solvers::get_backup_command;
use portfolio_solver_framework::command::CommandLine;
use portfolio_solver_framework::fzn_to_features::{
    feature_fields, features_to_arg, get_fzn_to_feat_cmd,
};
use portfolio_solver_framework::model_parser::{get_model_interface_cmd, ObjectiveType};
use portfolio_solver_framework::msc_discovery::{
    msc_entry, parse_msc_file, parse_search_paths, parse_solver_names_to_ids, MscDiscoveryError,
    SolverMetadata,
};
use portfolio_solver_framework::mzn_to_fzn::get_mzn_to_fzn_cmd;
use portfolio_solver_framework::scheduler::{get_memory_usage, memory_limit};
use portfolio_solver_framework::solver_config::{
    get_discover_command, Executable, Solver, SolverInputType, SupportedStdFlags,
};
use portfolio_solver_framework::solver_manager::{
    get_fzn_command, get_ozn_command, SolverManager,
};
use portfolio_solver_framework::solver_output::{Output, Solution};

const SOLVERS_OUTPUT: &str = "MiniZinc driver.\n\
Available solver configurations:\n\
  Chuffed 0.13.2 (org.chuffed.chuffed, cp, lcg, int)\n\
  COIN-BC 2.10.12/1.17.10 (org.minizinc.mip.coin-bc, mip, float, api, osicbc, coinbc, cbc)\n\
\n\
  broken line without brackets\n\
  Half (open only\n\
  (anonymous.id, , Tag )\n\
Search path for solver configurations:\n\
  /usr/share/minizinc/solvers\n\
  /home/user/.minizinc/solvers\n\
\n\
  /not/a/path/anymore\n";

fn cmd(program: &str, args: &[&str]) -> CommandLine {
    CommandLine { program: program.to_string(), args: args.iter().map(|a| a.to_string()).collect() }
}

fn pair(k: &str, v: &str) -> (String, String) {
    (k.to_string(), v.to_string())
}

#[test]
fn search_paths_follow_their_header() {
    assert_eq!(
        parse_search_paths(SOLVERS_OUTPUT),
        Ok(vec!["/usr/share/minizinc/solvers".to_string(), "/home/user/.minizinc/solvers".to_string()])
    );
    assert_eq!(
        parse_search_paths("Search path for solver configurations:\nword\n  a/b  \nword\nc/d"),
        Ok(vec!["a/b".to_string()])
    );
    assert_eq!(parse_search_paths("Search path for solver configurations:"), Ok(vec![]));
    assert_eq!(
        parse_search_paths("nothing here\n/a/b\n"),
        Err(MscDiscoveryError::ParseError(
            "Could not find 'Search path for solver configurations:' in output".to_string()
        ))
    );
}

#[test]
fn solver_names_stand_for_identifiers() {
    let map = parse_solver_names_to_ids(SOLVERS_OUTPUT).unwrap();
    assert_eq!(
        map,
        vec![
            pair("org.chuffed.chuffed", "org.chuffed.chuffed"),
            pair("chuffed", "org.chuffed.chuffed"),
            pair("cp", "org.chuffed.chuffed"),
            pair("lcg", "org.chuffed.chuffed"),
            pair("int", "org.chuffed.chuffed"),
            pair("org.minizinc.mip.coin-bc", "org.minizinc.mip.coin-bc"),
            pair("coin-bc", "org.minizinc.mip.coin-bc"),
            pair("mip", "org.minizinc.mip.coin-bc"),
            pair("float", "org.minizinc.mip.coin-bc"),
            pair("api", "org.minizinc.mip.coin-bc"),
            pair("osicbc", "org.minizinc.mip.coin-bc"),
            pair("coinbc", "org.minizinc.mip.coin-bc"),
            pair("cbc", "org.minizinc.mip.coin-bc"),
            pair("anonymous.id", "anonymous.id"),
            pair("tag", "anonymous.id"),
        ]
    );
    // a later solver takes a name over
    let map = parse_solver_names_to_ids(
        "Available solver configurations:\nA 1 (a.id, cp)\nB 2 (b.id, CP)\n",
    )
    .unwrap();
    assert_eq!(
        map,
        vec![pair("a.id", "a.id"), pair("a", "a.id"), pair("cp", "b.id"), pair("b.id", "b.id"), pair("b", "b.id")]
    );
    assert_eq!(parse_solver_names_to_ids("A 1 (a.id, cp)\n"), Ok(vec![]));
}

#[test]
fn a_configuration_file_states_its_solver() {
    let content = "{\n  \"id\": \"org.gecode.gecode\",\n  \"name\": \"Gecode\",\n  \"executable\": \"../bin/fzn-gecode\",\n  \"version\": \"6.3.0\"\n}\n";
    assert_eq!(
        parse_msc_file("/x/gecode.msc", content),
        Ok((
            "Gecode".to_string(),
            "gecode".to_string(),
            SolverMetadata {
                input_type: "FZN".to_string(),
                executable: Some("../bin/fzn-gecode".to_string())
            }
        ))
    );
    let content = "{\n  \"name\": \"X\",\n  \"inputType\": \"JSON\",\n  \"id\": \"x\"\n}\n";
    // the last field has no newline right after its value's quote and comma
    assert_eq!(
        parse_msc_file("x.msc", content),
        Ok((
            "X".to_string(),
            "x".to_string(),
            SolverMetadata { input_type: "JSON".to_string(), executable: None }
        ))
    );
    assert_eq!(
        parse_msc_file("a.msc", "{\n  \"id\": \"a.b\",\n}\n"),
        Err(MscDiscoveryError::ParseError("cannot find name for solver a.msc".to_string()))
    );
    assert_eq!(
        parse_msc_file("a.msc", "{\n  \"name\": \"A\",\n}\n"),
        Err(MscDiscoveryError::ParseError("cannot find id for solver a.msc".to_string()))
    );
    assert_eq!(
        msc_entry("p", None, None, Some("N".to_string()), Some("a.b.c.".to_string())),
        Ok((
            "N".to_string(),
            "".to_string(),
            SolverMetadata { input_type: "FZN".to_string(), executable: None }
        ))
    );
}

#[test]
fn the_flattener_is_called_to_compile() {
    assert_eq!(
        get_mzn_to_fzn_cmd("minizinc", "m.mzn", Some("d.dzn"), "gecode", "/t/a.fzn", "/t/a.ozn", OutputMode::Dzn),
        cmd(
            "minizinc",
            &[
                "-c", "m.mzn", "d.dzn", "--solver", "gecode", "-o", "/t/a.fzn",
                "--output-objective", "--output-mode", "dzn", "--ozn", "/t/a.ozn"
            ]
        )
    );
    assert_eq!(
        get_mzn_to_fzn_cmd("mz", "m.mzn", None, "s", "f", "o", OutputMode::Dzn),
        cmd("mz", &["-c", "m.mzn", "--solver", "s", "-o", "f", "--output-objective", "--output-mode", "dzn", "--ozn", "o"])
    );
    assert_eq!(get_model_interface_cmd("mz", "m.mzn"), cmd("mz", &["m.mzn", "--model-interface-only", "--solver", "coinbc"]));
    assert_eq!(get_fzn_to_feat_cmd("a.fzn"), cmd("mzn2feat", &["-i", "a.fzn"]));
    assert_eq!(get_discover_command("mz"), cmd("mz", &["--solvers-json"]));
    assert_eq!(get_ozn_command("mz", "a.ozn"), cmd("mz", &["--ozn-file", "a.ozn"]));
}

#[test]
fn a_solver_is_called_by_what_is_known_of_it() {
    let flags = vec!["-i".to_string(), "-f".to_string()];
    // nothing known: through the flattener, with the cores
    assert_eq!(
        get_fzn_command("mz", None, "gecode", "a.fzn", &flags, 4),
        cmd("mz", &["--solver", "gecode", "a.fzn", "-i", "-f", "-p", "4"])
    );
    let no_p = SupportedStdFlags { a: true, i: true, f: true, p: false };
    let fzn = Solver::new("gecode".to_string(), Some(Executable("/bin/g".to_string(), vec![])), no_p, SolverInputType::Fzn);
    assert_eq!(
        get_fzn_command("mz", Some(&fzn), "gecode", "a.fzn", &flags, 4),
        cmd("mz", &["--solver", "gecode", "a.fzn", "-i", "-f"])
    );
    let with_p = SupportedStdFlags { a: false, i: false, f: false, p: true };
    let json = Solver::new(
        "cp-sat".to_string(),
        Some(Executable("/bin/cp".to_string(), vec!["--x".to_string()])),
        with_p,
        SolverInputType::Json,
    );
    assert_eq!(
        get_fzn_command("mz", Some(&json), "cp-sat", "a.fzn", &vec![], 12),
        cmd("/bin/cp", &["--x", "a.fzn", "-p", "12"])
    );
    // a program that is not known is run through the flattener
    let json = Solver::new("cp-sat".to_string(), None, with_p, SolverInputType::Json);
    assert_eq!(
        get_fzn_command("mz", Some(&json), "cp-sat", "a.fzn", &vec![], 0),
        cmd("mz", &["--solver", "cp-sat", "a.fzn", "-p", "0"])
    );
    assert_eq!(
        Executable("p".to_string(), vec!["a".to_string()]).into_command(),
        cmd("p", &["a"])
    );
}

#[test]
fn the_fallback_solver_is_called() {
    let flags = vec!["-i".to_string()];
    assert_eq!(
        get_backup_command("mz", "m.mzn", Some("d.dzn"), &flags, true, Some(OutputMode::Dzn), 8),
        cmd("mz", &["--solver", "cp-sat", "m.mzn", "d.dzn", "-i", "--output-objective", "--output-mode", "dzn", "-p", "8"])
    );
    assert_eq!(
        get_backup_command("mz", "m.mzn", None, &vec![], false, None, 1),
        cmd("mz", &["--solver", "cp-sat", "m.mzn", "--output-mode", "dzn", "-p", "1"])
    );
}

#[test]
fn features_are_cut_at_commas() {
    assert_eq!(feature_fields("1.5,2,-3e4\n"), vec!["1.5", "2", "-3e4"]);
    assert_eq!(feature_fields("1,\n2\n,3"), vec!["1", "2", "3"]);
    assert_eq!(feature_fields(""), vec![""]);
    assert_eq!(features_to_arg(&vec!["1.5".to_string(), "2".to_string()]), "1.5,2");
    assert_eq!(features_to_arg(&vec!["7".to_string()]), "7");
    assert_eq!(features_to_arg(&vec![]), "");
    assert_eq!(features_to_arg(&vec!["".to_string(), "".to_string()]), ",");
}

#[test]
fn the_memory_limit_is_given_in_mib() {
    assert_eq!(memory_limit(None), 0);
    assert_eq!(memory_limit(Some("")), 0);
    assert_eq!(memory_limit(Some("abc")), 0);
    assert_eq!(memory_limit(Some("-1")), 0);
    assert_eq!(memory_limit(Some("2048")), 2048 * 1024 * 1024);
    assert_eq!(memory_limit(Some("17592186044415")), 17592186044415 * 1024 * 1024);
    assert_eq!(memory_limit(Some("17592186044416")), u64::MAX);
    assert_eq!(memory_limit(Some("99999999999999999999999")), 0);
    assert_eq!(get_memory_usage(5, 100, 0), (5, 100));
    assert_eq!(get_memory_usage(5, 100, 64), (5, 64));
}

#[test]
fn the_bound_is_injected_only_where_there_is_an_objective() {
    let mut m = SolverManager::new(ObjectiveType::Minimize, &vec![]);
    assert_eq!(m.bound_to_inject(), None);
    m.receive(&Output::Solution(Solution { solution: "".to_string(), objective: Some(3) }));
    assert_eq!(m.bound_to_inject(), Some(3));
    let mut s = SolverManager::new(ObjectiveType::Satisfy, &vec![]);
    s.receive(&Output::Solution(Solution { solution: "".to_string(), objective: Some(3) }));
    assert_eq!(s.get_best_objective(), Some(3));
    assert_eq!(s.bound_to_inject(), None);
}
