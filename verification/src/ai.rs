//! The advisors that propose portfolios.
use crate::scheduler::{portfolio_view, Portfolio, SolverInfo, SolverInfoView};
use crate::static_schedule::{error_text, parse_schedule, schedule_of, ParseErrorView};
use crate::text::{decimal, str_from_utf8, strings_view, usize_to_string};
use vstd::prelude::*;
use vstd::string::StringExecFns;

verus! {

/// Why an advisor proposed nothing.
#[derive(Debug, Clone, PartialEq, Eq)]
pub enum Error {
    Other(String),
}

impl View for Error {
    type V = Seq<char>;

    open spec fn view(&self) -> Seq<char> {
        match self {
            Error::Other(s) => s@,
        }
    }
}

/// The advisor that always proposes one solver on half of the cores.
#[derive(Debug, Clone, Copy, PartialEq, Eq, Structural)]
pub struct SimpleAi {}

/// What the simple advisor proposes for `cores` cores.
pub open spec fn simple_portfolio(cores: usize) -> Seq<SolverInfoView> {
    seq![SolverInfoView { name: "gecode"@, cores: (cores / 2) as usize, objective: None }]
}

impl SimpleAi {
    /// The portfolio for `cores` cores, whatever the features.
    pub fn schedule(&mut self, cores: usize) -> (r: Result<Portfolio, Error>)
        ensures
            r matches Ok(p) && portfolio_view(p@) == simple_portfolio(cores),
    {
        let mut p: Vec<SolverInfo> = Vec::new();
        p.push(SolverInfo::new(String::from_str("gecode"), cores / 2));
        assert(portfolio_view(p@) =~= simple_portfolio(cores));
        Ok(p)
    }
}

/// The arguments that an advisor command is called with: the cores and
/// the features.
pub fn command_args(cores: usize, features: &str) -> (args: Vec<String>)
    ensures
        strings_view(args@) == seq!["-p"@, decimal(cores as nat), features@],
{
    let mut args: Vec<String> = Vec::new();
    args.push(String::from_str("-p"));
    args.push(usize_to_string(cores));
    args.push(String::from_str(features));
    assert(strings_view(args@) =~= seq!["-p"@, decimal(cores as nat), features@]);
    args
}

/// What the output `bytes` of an advisor command proposes, where the bytes
/// read as `text`.
pub open spec fn proposed(text: Option<Seq<char>>) -> Result<Seq<SolverInfoView>, Seq<char>> {
    match text {
        None => Err("Failed to convert command's stdout into a string"@),
        Some(t) => match schedule_of(t) {
            Ok(p) => Ok(p),
            Err(e) => Err("Failed to parse as schedule: "@ + error_text(e)),
        },
    }
}

/// Reads the portfolio that an advisor command printed.
pub fn parse_output_as_schedule(output: &[u8]) -> (r: Result<Portfolio, Error>)
    ensures
        match proposed(
            if vstd::utf8::valid_utf8(output@) {
                Some(vstd::utf8::decode_utf8(output@))
            } else {
                None
            },
        ) {
            Ok(p) => r matches Ok(x) && portfolio_view(x@) == p,
            Err(e) => r matches Err(x) && x@ == e,
        },
{
    match str_from_utf8(output) {
        None => Err(
            Error::Other(String::from_str("Failed to convert command's stdout into a string")),
        ),
        Some(text) => match parse_schedule(text) {
            Ok(p) => Ok(p),
            Err(e) => {
                let mut message = String::from_str("Failed to parse as schedule: ");
                message.append(e.message().as_str());
                Err(Error::Other(message))
            },
        },
    }
}

} // verus!
