//! Ending a process by force: what the utility is handed, and what the way
//! it ended means.

use crate::decimal::{decimal, decimal_string};
use vstd::prelude::*;

verus! {

/// The name of the termination utility.
pub const KILL_PROGRAM: &'static str = "kill";

/// How one attempt to end a process went, as the program that ran the
/// utility saw it.
#[derive(Clone, Debug, PartialEq, Eq)]
pub enum KillOutcome {
    /// The utility ran to its end. `success` is whether it reported success;
    /// `status` describes the exit status.
    Exited { success: bool, status: String },
    /// The utility could not be run. `cause` says why.
    NotRun { cause: String },
}

/// Why a process was not ended.
#[derive(Clone, Debug, PartialEq, Eq)]
pub struct KillError {
    /// The reason in words, with the exit status where there was one.
    pub description: String,
}

/// What stands before the exit status in the description of a failure.
pub open spec fn failure_prefix() -> Seq<char> {
    "kill command failed with status: "@
}

impl KillOutcome {
    /// The description of the failure; `None` where the process was ended.
    ///
    /// The attempt succeeded where the utility ran and reported success. Where
    /// it reported anything else the description holds the exit status; where
    /// it did not run, the description is the cause.
    pub open spec fn failure(&self) -> Option<Seq<char>> {
        match self {
            KillOutcome::Exited { success, status } => if *success {
                None
            } else {
                Some(failure_prefix() + status@)
            },
            KillOutcome::NotRun { cause } => Some(cause@),
        }
    }
}

/// Whether the attempt ended the process, and if not, why not.
pub fn kill_result(outcome: &KillOutcome) -> (result: Result<(), KillError>)
    ensures
        match result {
            Ok(_) => outcome.failure() is None,
            Err(error) => outcome.failure() == Some(error.description@),
        },
{
    match outcome {
        KillOutcome::Exited { success, status } => {
            if *success {
                Ok(())
            } else {
                let mut description = String::new();
                description.append("kill command failed with status: ");
                description.append(status.as_str());
                assert(description@ == failure_prefix() + status@);
                Err(KillError { description })
            }
        },
        KillOutcome::NotRun { cause } => Err(KillError { description: cause.clone() }),
    }
}

/// What the termination utility is handed to end the process `pid` by force:
/// the number of the signal that cannot be caught, then the process.
pub fn kill_arguments(pid: u32) -> (arguments: Vec<String>)
    ensures
        arguments@.len() == 2,
        arguments@[0]@ == "-9"@,
        arguments@[1]@ == decimal(pid as nat),
{
    let mut arguments: Vec<String> = Vec::new();
    arguments.push("-9".to_owned());
    arguments.push(decimal_string(pid as u64));
    arguments
}

} // verus!
