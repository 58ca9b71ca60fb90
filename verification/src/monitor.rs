//! The live monitor: what a message from the client asks for.

use crate::case::{lower, lowercase};
use crate::search::{has_substring, holds};
use crate::text::{chars_of, trim, trimmed};
use vstd::prelude::*;

verus! {

/// What a client of the live monitor asks for.
#[derive(Clone, Copy, PartialEq, Eq, Debug)]
pub enum MonitorCommand {
    /// Begin to stream the inventory.
    Start,
    /// Stop streaming.
    Stop,
    /// Nothing that the monitor knows.
    Ignore,
}

/// The command in a message: `start` where the message, trimmed and in
/// lower case, holds that word; else `stop` where it holds that one.
pub open spec fn command_in(message: Seq<char>) -> MonitorCommand {
    let t = lower(trim(message));
    if has_substring(t, "start"@) {
        MonitorCommand::Start
    } else if has_substring(t, "stop"@) {
        MonitorCommand::Stop
    } else {
        MonitorCommand::Ignore
    }
}

/// Reads the command out of a message.
pub fn monitor_command(message: &str) -> (command: MonitorCommand)
    ensures
        command == command_in(message@),
{
    let chars = chars_of(message);
    let clean = trimmed(chars.as_slice());
    let t = lowercase(clean.as_slice());
    if holds(t.as_slice(), "start") {
        MonitorCommand::Start
    } else if holds(t.as_slice(), "stop") {
        MonitorCommand::Stop
    } else {
        MonitorCommand::Ignore
    }
}

/// What the monitor is to do about a command, given whether it streams.
#[derive(Clone, Copy, PartialEq, Eq, Debug)]
pub enum MonitorAction {
    /// Begin to stream, and send a first snapshot at once.
    BeginStream,
    /// End the stream, if there is one, and say that it has stopped.
    EndStream,
    /// Do nothing.
    Nothing,
}

/// The action for a command: a stream begins only where none runs; a stop
/// is always answered.
pub open spec fn action_for(command: MonitorCommand, streaming: bool) -> MonitorAction {
    match command {
        MonitorCommand::Start => if streaming {
            MonitorAction::Nothing
        } else {
            MonitorAction::BeginStream
        },
        MonitorCommand::Stop => MonitorAction::EndStream,
        MonitorCommand::Ignore => MonitorAction::Nothing,
    }
}

/// Decides what to do about a message, given whether the monitor streams.
pub fn monitor_action(message: &str, streaming: bool) -> (action: MonitorAction)
    ensures
        action == action_for(command_in(message@), streaming),
{
    match monitor_command(message) {
        MonitorCommand::Start => if streaming {
            MonitorAction::Nothing
        } else {
            MonitorAction::BeginStream
        },
        MonitorCommand::Stop => MonitorAction::EndStream,
        MonitorCommand::Ignore => MonitorAction::Nothing,
    }
}

} // verus!
