//! The calls that run a solver and its rewriter.
use crate::command::{CommandLine, CommandLineView};
use crate::solver_config::{Solver, SolverInputType, SolverView};
use crate::text::{decimal, strings_view, usize_to_string};
use vstd::prelude::*;

verus! {

/// The solver is run by its own program: it reads JSON and its program is
/// known. Any other solver is run through the flattener.
pub open spec fn runs_directly(solver: Option<SolverView>) -> bool {
    solver matches Some(s) && s.input_type == SolverInputType::Json && s.executable is Some
}

/// The solver is told its cores: it takes `-p`, or nothing is known of it.
pub open spec fn takes_cores(solver: Option<SolverView>) -> bool {
    match solver {
        Some(s) => s.supported_std_flags.p,
        None => true,
    }
}

/// The call that runs the solver `solver_name` on the flat model
/// `fzn_path`: the program, the flat model, the solver's own flags, and the
/// cores where the solver takes them.
pub open spec fn fzn_command(
    minizinc_exe: Seq<char>,
    solver: Option<SolverView>,
    solver_name: Seq<char>,
    fzn_path: Seq<char>,
    solver_args: Seq<Seq<char>>,
    cores: usize,
) -> CommandLineView {
    let tail = seq![fzn_path] + solver_args + if takes_cores(solver) {
        seq!["-p"@, decimal(cores as nat)]
    } else {
        Seq::empty()
    };
    if runs_directly(solver) {
        CommandLineView {
            program: solver->0.executable->0.program,
            args: solver->0.executable->0.args + tail,
        }
    } else {
        CommandLineView { program: minizinc_exe, args: seq!["--solver"@, solver_name] + tail }
    }
}

/// The call that runs a solver on a flat model.
pub fn get_fzn_command(
    minizinc_exe: &str,
    solver: Option<&Solver>,
    solver_name: &str,
    fzn_path: &str,
    solver_args: &Vec<String>,
    cores: usize,
) -> (cmd: CommandLine)
    ensures
        cmd@ == fzn_command(
            minizinc_exe@,
            match solver {
                Some(s) => Some(s@),
                None => None,
            },
            solver_name@,
            fzn_path@,
            strings_view(solver_args@),
            cores,
        ),
{
    let ghost sv = match solver {
        Some(s) => Some(s@),
        None => None,
    };
    let ghost expected = fzn_command(
        minizinc_exe@,
        sv,
        solver_name@,
        fzn_path@,
        strings_view(solver_args@),
        cores,
    );
    let direct = match solver {
        Some(s) => match (s.input_type(), s.executable()) {
            (SolverInputType::Json, Some(e)) => Some(e),
            _ => None,
        },
        None => None,
    };
    let with_cores = match solver {
        Some(s) => s.supported_std_flags().p,
        None => true,
    };
    let mut cmd = match direct {
        Some(e) => {
            let mut cmd = CommandLine::new(e.0.as_str());
            cmd.args(&e.1);
            cmd
        },
        None => {
            let mut cmd = CommandLine::new(minizinc_exe);
            cmd.arg("--solver");
            cmd.arg(solver_name);
            cmd
        },
    };
    cmd.arg(fzn_path);
    cmd.args(solver_args);
    if with_cores {
        cmd.arg("-p");
        cmd.arg(usize_to_string(cores).as_str());
    }
    assert(cmd@.args =~= expected.args);
    cmd
}

/// The call of the rewriter for the output template `ozn_path`.
pub fn get_ozn_command(minizinc_exe: &str, ozn_path: &str) -> (cmd: CommandLine)
    ensures
        cmd@ == (CommandLineView { program: minizinc_exe@, args: seq!["--ozn-file"@, ozn_path@] }),
{
    let mut cmd = CommandLine::new(minizinc_exe);
    cmd.arg("--ozn-file");
    cmd.arg(ozn_path);
    assert(cmd@.args =~= seq!["--ozn-file"@, ozn_path@]);
    cmd
}

} // verus!
