//! The fallback solver, for a run whose portfolio failed.
use crate::args::OutputMode;
use crate::command::{CommandLine, CommandLineView};
use crate::text::{decimal, strings_view, usize_to_string};
use vstd::prelude::*;

verus! {

/// The call of the fallback solver on `model`, with `data` where there is
/// some.
pub open spec fn backup_command(
    minizinc_exe: Seq<char>,
    model: Seq<char>,
    data: Option<Seq<char>>,
    solver_args: Seq<Seq<char>>,
    output_objective: bool,
    cores: usize,
) -> CommandLineView {
    CommandLineView {
        program: minizinc_exe,
        args: seq!["--solver"@, "cp-sat"@, model] + (match data {
            Some(d) => seq![d],
            None => Seq::empty(),
        }) + solver_args + (if output_objective {
            seq!["--output-objective"@]
        } else {
            Seq::empty()
        }) + seq!["--output-mode"@, "dzn"@, "-p"@, decimal(cores as nat)],
    }
}

/// The call of the fallback solver.
pub fn get_backup_command(
    minizinc_exe: &str,
    model: &str,
    data: Option<&str>,
    solver_args: &Vec<String>,
    output_objective: bool,
    output_mode: Option<OutputMode>,
    cores: usize,
) -> (cmd: CommandLine)
    ensures
        cmd@ == backup_command(
            minizinc_exe@,
            model@,
            match data {
                Some(d) => Some(d@),
                None => None,
            },
            strings_view(solver_args@),
            output_objective,
            cores,
        ),
{
    let ghost expected = backup_command(
        minizinc_exe@,
        model@,
        match data {
            Some(d) => Some(d@),
            None => None,
        },
        strings_view(solver_args@),
        output_objective,
        cores,
    );
    let mut cmd = CommandLine::new(minizinc_exe);
    cmd.arg("--solver");
    cmd.arg("cp-sat");
    cmd.arg(model);
    match data {
        Some(d) => {
            cmd.arg(d);
        },
        None => {},
    }
    cmd.args(solver_args);
    if output_objective {
        cmd.arg("--output-objective");
    }
    cmd.arg("--output-mode");
    match output_mode {
        Some(mode) => {
            cmd.arg(mode.as_str());
        },
        None => {
            cmd.arg("dzn");
        },
    }
    cmd.arg("-p");
    cmd.arg(usize_to_string(cores).as_str());
    assert(cmd@.args =~= expected.args);
    cmd
}

} // verus!
