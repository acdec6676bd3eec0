//! What is reported, and how a report reads.
use crate::args::{level_of, DebugVerbosityLevel};
use crate::text::{decimal, push_decimal};
use vstd::prelude::*;
use vstd::string::StringExecFns;

verus! {

pub const LEVEL_QUIET: u8 = 0;

pub const LEVEL_ERROR: u8 = 1;

pub const LEVEL_WARNING: u8 = 2;

pub const LEVEL_INFO: u8 = 3;

/// The verbosity of a run.
#[derive(Debug, Clone, Copy, PartialEq, Eq, Structural)]
pub struct Logger {
    pub verbosity: u8,
}

/// The logger of a run that reports at `verbosity`.
pub fn init(verbosity: DebugVerbosityLevel) -> (logger: Logger)
    ensures
        logger.verbosity == level_of(verbosity),
{
    Logger { verbosity: verbosity.level() }
}

/// How a report reads: the level, the place in the source, the message.
pub open spec fn report_text(level: Seq<char>, message: Seq<char>, file: Seq<char>, line: u32) -> Seq<
    char,
> {
    level + ": ["@ + file + ":"@ + decimal(line as nat) + "] "@ + message
}

impl Logger {
    /// The report of `message` from `file:line`, if a message of the level
    /// `verbosity` is reported at all.
    pub fn log_msg_impl(&self, verbosity: u8, level: &str, message: &str, file: &str, line: u32)
        -> (r: Option<String>)
        ensures
            match r {
                Some(text) => self.verbosity >= verbosity && text@ == report_text(
                    level@,
                    message@,
                    file@,
                    line,
                ),
                None => self.verbosity < verbosity,
            },
    {
        if self.verbosity < verbosity {
            return None;
        }
        let mut text = String::from_str(level);
        text.append(": [");
        text.append(file);
        text.append(":");
        push_decimal(&mut text, line as u64);
        text.append("] ");
        text.append(message);
        Some(text)
    }
}

} // verus!
