use portfolio_solver_framework::json::{parse_json, Json};
use portfolio_solver_framework::model_parser::{
    get_objective_type, CommandOutputError, ModelParseError, ObjectiveType,
};
use portfolio_solver_framework::signal_handler::{
    handle_event, handle_signal, SignalAction, SignalEvent, SignalKind,
};
use portfolio_solver_framework::solver_config::{
    discover, Error, Executable, Solver, SolverInputType, SolverParseError, Solvers,
    SupportedStdFlags,
};
use portfolio_solver_framework::solver_manager::{Signal, SignalOrder, SolverManager};
use portfolio_solver_framework::sunny::{
    dynamic_start, exit_code, feature_deadline, handle_schedule_errors, Action, Event,
    FeatureState, Orchestrator, Outcome, Phase, PortfolioSource,
};
use portfolio_solver_framework::config::Config;

#[test]
fn json_is_read_into_the_own_type() {
    assert_eq!(parse_json("null"), Some(Json::Null));
    assert_eq!(parse_json(" true "), Some(Json::Bool(true)));
    assert_eq!(parse_json("12"), Some(Json::Number("12".to_string())));
    assert_eq!(parse_json("\"a\\nb\""), Some(Json::String("a\nb".to_string())));
    assert_eq!(
        parse_json("[1, \"x\", []]"),
        Some(Json::Array(vec![
            Json::Number("1".to_string()),
            Json::String("x".to_string()),
            Json::Array(vec![])
        ]))
    );
    assert_eq!(
        parse_json("{\"b\": 1, \"a\": {\"c\": null}}"),
        Some(Json::Object(vec![
            ("a".to_string(), Json::Object(vec![("c".to_string(), Json::Null)])),
            ("b".to_string(), Json::Number("1".to_string()))
        ]))
    );
    assert_eq!(parse_json("{"), None);
    assert_eq!(parse_json(""), None);
    assert_eq!(parse_json("1 2"), None);
}

#[test]
fn the_method_field_gives_the_objective() {
    assert_eq!(get_objective_type("{\"method\": \"min\"}"), Ok(ObjectiveType::Minimize));
    assert_eq!(get_objective_type("{\"method\": \"max\", \"x\": 1}"), Ok(ObjectiveType::Maximize));
    assert_eq!(get_objective_type("{\"method\": \"sat\"}"), Ok(ObjectiveType::Satisfy));
    assert_eq!(
        get_objective_type("{\"method\": \"other\"}"),
        Err(ModelParseError::MethodParseError("Method not recognised".to_string()))
    );
    assert_eq!(
        get_objective_type("{\"method\": 3}"),
        Err(ModelParseError::MethodParseError("'method' field is not a string".to_string()))
    );
    assert_eq!(
        get_objective_type("{}"),
        Err(ModelParseError::MethodParseError("'method' field does not exist".to_string()))
    );
    assert_eq!(
        get_objective_type("[1]"),
        Err(ModelParseError::CommandOutputError(CommandOutputError::JsonIsNotObject(
            "[1]".to_string()
        )))
    );
    assert_eq!(
        get_objective_type("not json"),
        Err(ModelParseError::CommandOutputError(CommandOutputError::NonJsonOutput(
            "not json".to_string()
        )))
    );
}

const DISCOVERY: &str = r#"[
  {"id": "org.gecode.Gecode", "inputType": "FZN", "executable": "/usr/bin/fzn-gecode",
   "stdFlags": ["-a", "-f", "-p", 7]},
  {"id": "cp-sat", "inputType": "JSON"},
  {"id": "nl.solver", "inputType": "NL"},
  {"inputType": "FZN"},
  {"id": "bad.exe", "inputType": "FZN", "executable": 5},
  "text",
  {"id": "huub", "inputType": "FZN", "stdFlags": []}
]"#;

#[test]
fn solvers_are_discovered_from_json() {
    let solvers = discover(DISCOVERY.as_bytes()).unwrap();
    assert_eq!(solvers.len(), 3);
    let ids: Vec<&str> = solvers.iter().map(|s| s.id()).collect();
    assert_eq!(ids, vec!["org.gecode.gecode", "cp-sat", "huub"]);

    let gecode = solvers.get_by_id("ORG.GECODE.GECODE").unwrap();
    assert_eq!(gecode.id(), "org.gecode.gecode");
    assert_eq!(gecode.input_type(), &SolverInputType::Fzn);
    assert_eq!(gecode.executable(), Some(&Executable("/usr/bin/fzn-gecode".to_string(), vec![])));
    assert_eq!(
        gecode.supported_std_flags(),
        &SupportedStdFlags { a: true, i: false, f: true, p: true }
    );

    // no stdFlags: -i and -p are taken
    let cp_sat = solvers.get_by_id("cp-sat").unwrap();
    assert_eq!(cp_sat.input_type(), &SolverInputType::Json);
    assert_eq!(cp_sat.executable(), None);
    assert_eq!(
        cp_sat.supported_std_flags(),
        &SupportedStdFlags { a: false, i: true, f: false, p: true }
    );

    // an empty list: none is taken
    let huub = solvers.get(2).unwrap();
    assert_eq!(huub.supported_std_flags(), &SupportedStdFlags::default());
    assert!(solvers.get(3).is_none());
    assert!(solvers.get_by_id("nl.solver").is_none());
}

#[test]
fn discovery_output_of_another_shape_is_refused() {
    assert_eq!(discover(b"{}"), Err(Error::InvalidOutputFormat("JSON does not start with an array".to_string())));
    assert_eq!(discover(b"nonsense"), Err(Error::JsonParsing));
    assert_eq!(discover(&[0x5b, 0x22, 0xff, 0x22, 0x5d]), Err(Error::JsonParsing));
    assert_eq!(discover(b"[]").unwrap().len(), 0);
    assert_eq!(Solvers::empty().len(), 0);
    assert!(Solvers::empty().get_by_id("a").is_none());
    assert_eq!(Solvers::empty().iter().count(), 0);
}

#[test]
fn a_solver_description_names_its_fault() {
    let parse = |text: &str| Solver::from_json(&parse_json(text).unwrap());
    assert_eq!(parse("3"), Err(SolverParseError::NotAnObject));
    assert_eq!(parse("{}"), Err(SolverParseError::FieldNotPresent("id".to_string())));
    assert_eq!(parse("{\"id\": 1}"), Err(SolverParseError::FieldNotAString("id".to_string())));
    assert_eq!(
        parse("{\"id\": \"A\"}"),
        Err(SolverParseError::FieldNotPresent("inputType".to_string()))
    );
    assert_eq!(
        parse("{\"id\": \"A\", \"inputType\": \"MZN\"}"),
        Err(SolverParseError::UnknownInputType {
            solver_id: "a".to_string(),
            input_type: "MZN".to_string()
        })
    );
    assert_eq!(
        parse("{\"id\": \"A\", \"inputType\": \"MZN\", \"executable\": []}"),
        Err(SolverParseError::FieldNotAString("executable".to_string()))
    );
    let s = parse("{\"id\": \"ÄB\", \"inputType\": \"JSON\", \"stdFlags\": \"-a\"}").unwrap();
    assert_eq!(
        s,
        Solver::new(
            "äb".to_string(),
            None,
            SupportedStdFlags { a: false, i: true, f: false, p: true },
            SolverInputType::Json
        )
    );
}

#[test]
fn signals_cancel_or_are_handed_on() {
    assert_eq!(handle_signal(SignalKind::Interrupt), SignalAction::Cancel);
    assert_eq!(handle_signal(SignalKind::Terminate), SignalAction::Cancel);
    assert_eq!(handle_signal(SignalKind::Hangup), SignalAction::Cancel);
    assert_eq!(handle_signal(SignalKind::Quit), SignalAction::Cancel);
    assert_eq!(
        handle_signal(SignalKind::TerminalStop),
        SignalAction::Forward(SignalEvent::Suspend)
    );
    assert_eq!(handle_signal(SignalKind::Continue), SignalAction::Forward(SignalEvent::Resume));
    let mut manager = SolverManager::new(ObjectiveType::Satisfy, &vec![]);
    manager.register_process(4, 44);
    assert_eq!(
        handle_event(&manager, SignalEvent::Suspend),
        (vec![SignalOrder { pid: 44, signal: Signal::Stop }], true)
    );
    assert_eq!(
        handle_event(&manager, SignalEvent::Resume),
        (vec![SignalOrder { pid: 44, signal: Signal::Continue }], false)
    );
}

#[test]
fn all_slots_failing_is_fatal() {
    assert!(handle_schedule_errors(2, 2));
    assert!(!handle_schedule_errors(1, 2));
    assert!(!handle_schedule_errors(0, 3));
    assert!(handle_schedule_errors(0, 0));
    assert_eq!(exit_code(Outcome::Solved), 0);
    assert_eq!(exit_code(Outcome::Failed), 1);
    assert_eq!(exit_code(Outcome::BackupSolved), 2);
}

#[test]
fn late_features_select_the_timeout_portfolio() {
    let config = Config::default();
    assert_eq!(feature_deadline(&config), 10);
    assert_eq!(dynamic_start(Some(11), &config), (PortfolioSource::Timeout, 10));
    assert_eq!(dynamic_start(None, &config), (PortfolioSource::Timeout, 10));
    assert_eq!(dynamic_start(Some(10), &config), (PortfolioSource::Advisor, 10));
    assert_eq!(dynamic_start(Some(7), &config), (PortfolioSource::Advisor, 7));
    // early features still wait for the static runtime
    assert_eq!(dynamic_start(Some(2), &config), (PortfolioSource::Advisor, 5));
    let mut short = Config::default();
    short.feature_timeout = 1;
    assert_eq!(feature_deadline(&short), 5);
    assert_eq!(dynamic_start(Some(3), &short), (PortfolioSource::Advisor, 5));

    let mut o = Orchestrator::new();
    assert_eq!(o.handle(Event::Begin), Action::StartStatic);
    assert_eq!(o.handle(Event::StaticElapsed), Action::Nothing);
    assert_eq!(o.phase, Phase::Static);
    assert_eq!(o.handle(Event::FeatureDeadline), Action::Switch(PortfolioSource::Timeout));
    assert_eq!(o.handle(Event::FeaturesArrived), Action::Nothing);
    assert_eq!(o.phase, Phase::Dynamic(PortfolioSource::Timeout));
    assert_eq!(o.handle(Event::RestartTick), Action::Reapply);
}

#[test]
fn early_features_wait_for_the_static_runtime() {
    let mut o = Orchestrator::new();
    assert_eq!(o.handle(Event::RestartTick), Action::Nothing);
    assert_eq!(o.handle(Event::Begin), Action::StartStatic);
    assert_eq!(o.handle(Event::FeaturesArrived), Action::Nothing);
    assert_eq!(o.features, FeatureState::Arrived);
    assert_eq!(o.handle(Event::Applied { errors: 0, slots: 2 }), Action::Nothing);
    assert_eq!(o.handle(Event::StaticElapsed), Action::Switch(PortfolioSource::Advisor));
    assert_eq!(o.handle(Event::FeatureDeadline), Action::Nothing);
    assert_eq!(o.handle(Event::RestartTick), Action::Reapply);
    assert_eq!(o.handle(Event::Applied { errors: 2, slots: 2 }), Action::RunBackup);
    assert_eq!(o.phase, Phase::Failed);
    assert_eq!(o.handle(Event::RestartTick), Action::Nothing);
    assert_eq!(o.handle(Event::Cancelled), Action::Stop);
    assert_eq!(o.phase, Phase::Finished);
    assert_eq!(o.handle(Event::Begin), Action::Nothing);
}

#[test]
fn failed_features_select_the_timeout_portfolio() {
    let mut o = Orchestrator::new();
    o.handle(Event::Begin);
    assert_eq!(o.handle(Event::FeaturesFailed), Action::Nothing);
    assert_eq!(o.handle(Event::StaticElapsed), Action::Switch(PortfolioSource::Timeout));
    let mut o = Orchestrator::new();
    o.handle(Event::Begin);
    o.handle(Event::StaticElapsed);
    assert_eq!(o.handle(Event::FeaturesArrived), Action::Switch(PortfolioSource::Advisor));
    let mut o = Orchestrator::new();
    o.handle(Event::Begin);
    assert_eq!(o.handle(Event::Cancelled), Action::Stop);
}
