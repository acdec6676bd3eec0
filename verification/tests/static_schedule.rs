use portfolio_solver_framework::ai::{command_args, parse_output_as_schedule, Error, SimpleAi};
use portfolio_solver_framework::args::{
    config_value, parse_ai_config, AiConfigError, DebugVerbosityLevel, OutputMode,
};
use portfolio_solver_framework::logging::{init, LEVEL_ERROR, LEVEL_INFO, LEVEL_WARNING};
use portfolio_solver_framework::scheduler::SolverInfo;
use portfolio_solver_framework::static_schedule::{
    default_schedule, parse_schedule, parse_schedule_line, schedule_cores, static_schedule,
    ParseError,
};

fn info(name: &str, cores: usize) -> SolverInfo {
    SolverInfo::new(name.to_string(), cores)
}

#[test]
fn a_schedule_is_read_line_by_line() {
    let p = parse_schedule("gecode,2\nchuffed,1\n").unwrap();
    assert_eq!(p, vec![info("gecode", 2), info("chuffed", 1)]);
    // empty lines are passed over, and so is a carriage return before a newline
    let p = parse_schedule("gecode,2\r\n\n\ncp-sat,+8").unwrap();
    assert_eq!(p, vec![info("gecode", 2), info("cp-sat", 8)]);
    assert_eq!(parse_schedule("").unwrap(), vec![]);
    assert_eq!(parse_schedule("\n\n").unwrap(), vec![]);
}

#[test]
fn a_line_is_split_at_its_first_comma() {
    assert_eq!(parse_schedule_line("a,3"), Ok(info("a", 3)));
    assert_eq!(parse_schedule_line(",0"), Ok(info("", 0)));
    assert_eq!(
        parse_schedule_line("a,b,3"),
        Err(ParseError::CoresNotANumber { line: "a,b,3".to_string(), cores_str: "b,3".to_string() })
    );
}

#[test]
fn lines_that_are_no_entries_give_errors() {
    assert_eq!(
        parse_schedule("gecode 2"),
        Err(ParseError::LineDoesNotContainComma { line: "gecode 2".to_string() })
    );
    assert_eq!(
        parse_schedule("gecode,2\nchuffed, 1\nnocomma"),
        Err(ParseError::CoresNotANumber {
            line: "chuffed, 1".to_string(),
            cores_str: " 1".to_string()
        })
    );
    assert_eq!(
        parse_schedule("a,-1"),
        Err(ParseError::CoresNotANumber { line: "a,-1".to_string(), cores_str: "-1".to_string() })
    );
    assert_eq!(
        parse_schedule("a,"),
        Err(ParseError::CoresNotANumber { line: "a,".to_string(), cores_str: "".to_string() })
    );
    assert_eq!(
        parse_schedule("a,99999999999999999999999"),
        Err(ParseError::CoresNotANumber {
            line: "a,99999999999999999999999".to_string(),
            cores_str: "99999999999999999999999".to_string()
        })
    );
    // a white-space line is not empty
    assert_eq!(
        parse_schedule("a,1\n \n"),
        Err(ParseError::LineDoesNotContainComma { line: " ".to_string() })
    );
}

#[test]
fn errors_say_what_is_wrong() {
    let e = ParseError::LineDoesNotContainComma { line: "xyz".to_string() };
    assert_eq!(e.message(), "Command output line does not contain a ',': 'xyz'");
    let e = ParseError::CoresNotANumber { line: "a,b".to_string(), cores_str: "b".to_string() };
    assert_eq!(
        e.message(),
        "Command output cores is not an unsigned integer: 'b' on the following line: a,b"
    );
}

#[test]
fn cores_are_added_up() {
    assert_eq!(schedule_cores(&vec![]), Some(0));
    assert_eq!(schedule_cores(&vec![info("a", 2), info("b", 5)]), Some(7));
    assert_eq!(schedule_cores(&vec![info("a", usize::MAX), info("b", 1)]), None);
}

#[test]
fn the_default_schedule_is_one_solver() {
    assert_eq!(default_schedule(), vec![info("coinbc", 1)]);
    assert_eq!(static_schedule(None, 1), Ok((vec![info("coinbc", 1)], true)));
    assert_eq!(static_schedule(None, 4), Ok((vec![info("coinbc", 1)], false)));
    assert_eq!(
        static_schedule(Some("a,2\nb,2"), 4),
        Ok((vec![info("a", 2), info("b", 2)], true))
    );
    assert_eq!(
        static_schedule(Some("a"), 4),
        Err(ParseError::LineDoesNotContainComma { line: "a".to_string() })
    );
}

#[test]
fn the_simple_advisor_takes_half_of_the_cores() {
    let mut ai = SimpleAi {};
    assert_eq!(ai.schedule(8), Ok(vec![info("gecode", 4)]));
    assert_eq!(ai.schedule(1), Ok(vec![info("gecode", 0)]));
}

#[test]
fn an_advisor_command_gets_cores_and_features() {
    assert_eq!(command_args(12, "1.5,2,3"), vec!["-p", "12", "1.5,2,3"]);
    assert_eq!(command_args(0, ""), vec!["-p", "0", ""]);
}

#[test]
fn the_output_of_an_advisor_is_a_schedule() {
    assert_eq!(parse_output_as_schedule(b"gecode,3\nyuck,1\n"), Ok(vec![info("gecode", 3), info("yuck", 1)]));
    assert_eq!(
        parse_output_as_schedule(&[0x67, 0xff, 0x2c, 0x31]),
        Err(Error::Other("Failed to convert command's stdout into a string".to_string()))
    );
    assert_eq!(
        parse_output_as_schedule(b"gecode"),
        Err(Error::Other(
            "Failed to parse as schedule: Command output line does not contain a ',': 'gecode'"
                .to_string()
        ))
    );
}

#[test]
fn the_advisor_configuration_is_keys_and_values() {
    let c = parse_ai_config(Some("command=/bin/ai,mode=fast,command=/bin/other")).unwrap();
    assert_eq!(
        c,
        vec![
            ("command".to_string(), "/bin/other".to_string()),
            ("mode".to_string(), "fast".to_string())
        ]
    );
    assert_eq!(config_value(&c, "command"), Some(&"/bin/other".to_string()));
    assert_eq!(config_value(&c, "missing"), None);
    let c = parse_ai_config(Some("a=b=c")).unwrap();
    assert_eq!(c, vec![("a".to_string(), "b=c".to_string())]);
    assert_eq!(
        parse_ai_config(Some("a=1,b")),
        Err(AiConfigError { key_value: "b".to_string() })
    );
    assert_eq!(parse_ai_config(Some("a=1,")), Err(AiConfigError { key_value: "".to_string() }));
    assert_eq!(parse_ai_config(None), Err(AiConfigError { key_value: "".to_string() }));
}

#[test]
fn verbosity_levels_are_ordered() {
    assert_eq!(DebugVerbosityLevel::Quiet.level(), 0);
    assert_eq!(DebugVerbosityLevel::Error.level(), 1);
    assert_eq!(DebugVerbosityLevel::Warning.level(), 2);
    assert_eq!(DebugVerbosityLevel::Info.level(), 3);
    assert!(DebugVerbosityLevel::Warning.reports(DebugVerbosityLevel::Error));
    assert!(DebugVerbosityLevel::Warning.reports(DebugVerbosityLevel::Warning));
    assert!(!DebugVerbosityLevel::Warning.reports(DebugVerbosityLevel::Info));
    assert!(DebugVerbosityLevel::Info >= DebugVerbosityLevel::Warning);
    assert_eq!(OutputMode::Dzn.as_str(), "dzn");
}

#[test]
fn reports_follow_the_verbosity() {
    let logger = init(DebugVerbosityLevel::Warning);
    assert_eq!(
        logger.log_msg_impl(LEVEL_WARNING, "WARNING", "slow", "src/a.rs", 12),
        Some("WARNING: [src/a.rs:12] slow".to_string())
    );
    assert_eq!(
        logger.log_msg_impl(LEVEL_ERROR, "ERROR", "", "b.rs", 0),
        Some("ERROR: [b.rs:0] ".to_string())
    );
    assert_eq!(logger.log_msg_impl(LEVEL_INFO, "INFO", "x", "a.rs", 1), None);
    assert_eq!(init(DebugVerbosityLevel::Quiet).log_msg_impl(LEVEL_ERROR, "ERROR", "x", "a", 1), None);
}
