//! The status messages: what the last scan or termination attempt came to.

use crate::decimal::{decimal, push_decimal};
use vstd::prelude::*;

verus! {

/// The message after a scan that found `count` bindings.
pub open spec fn found_text(count: nat) -> Seq<char> {
    "Found "@ + decimal(count) + " processes"@
}

/// The message after the process `pid`, named `name`, was ended.
pub open spec fn killed_text(name: Seq<char>, pid: nat) -> Seq<char> {
    "Killed process "@ + name + " (PID: "@ + decimal(pid) + ")"@
}

/// The message after the process `pid` could not be ended, for the reason
/// `cause`.
pub open spec fn failed_text(pid: nat, cause: Seq<char>) -> Seq<char> {
    "Failed to kill PID "@ + decimal(pid) + ": "@ + cause
}

/// The message after a scan that found `count` bindings.
pub fn found_message(count: usize) -> (message: String)
    ensures
        message@ == found_text(count as nat),
{
    let mut message = String::new();
    message.append("Found ");
    push_decimal(&mut message, count as u64);
    message.append(" processes");
    assert(message@ == found_text(count as nat));
    message
}

/// The message after the process `pid`, named `name`, was ended.
pub fn killed_message(name: &str, pid: u32) -> (message: String)
    ensures
        message@ == killed_text(name@, pid as nat),
{
    let mut message = String::new();
    message.append("Killed process ");
    message.append(name);
    message.append(" (PID: ");
    push_decimal(&mut message, pid as u64);
    message.append(")");
    assert(message@ == killed_text(name@, pid as nat));
    message
}

/// The message after the process `pid` could not be ended, for the reason
/// `cause`.
pub fn failed_message(pid: u32, cause: &str) -> (message: String)
    ensures
        message@ == failed_text(pid as nat, cause@),
{
    let mut message = String::new();
    message.append("Failed to kill PID ");
    push_decimal(&mut message, pid as u64);
    message.append(": ");
    message.append(cause);
    assert(message@ == failed_text(pid as nat, cause@));
    message
}

} // verus!
