//! Answers to the panel's commands, and events that are told to it.

use vstd::prelude::*;

use crate::payloads::{AckPayload, ActionResult, CommandPayload, EventKind, EventPayload};

verus! {

/// Whether an answer tells the panel that a command succeeded, with nothing to
/// hand back.
pub open spec fn accepts(ack: AckPayload, cmd: CommandPayload) -> bool {
    &&& ack.command_id == cmd.command_id
    &&& ack.ok
    &&& ack.error is None
    &&& ack.result is None
}

/// Whether an answer tells the panel that a command succeeded, and hands back
/// something.
pub open spec fn answers(ack: AckPayload, cmd: CommandPayload) -> bool {
    &&& ack.command_id == cmd.command_id
    &&& ack.ok
    &&& ack.error is None
    &&& ack.result is Some
}

/// Whether an answer tells the panel that a command failed, and how.
pub open spec fn refuses(ack: AckPayload, cmd: CommandPayload, error: Seq<char>) -> bool {
    &&& ack.command_id == cmd.command_id
    &&& !ack.ok
    &&& ack.error is Some
    &&& ack.error->0@ == error
    &&& ack.result is None
}

/// The answer to a command that succeeded.
pub fn accepted(cmd: &CommandPayload) -> (out: AckPayload)
    ensures
        accepts(out, *cmd),
{
    AckPayload { command_id: cmd.command_id.clone(), ok: true, error: None, result: None }
}

/// The answer to a command that succeeded and hands something back.
pub fn answered(cmd: &CommandPayload, result: ActionResult) -> (out: AckPayload)
    ensures
        answers(out, *cmd),
        out.result == Some(result),
{
    AckPayload { command_id: cmd.command_id.clone(), ok: true, error: None, result: Some(result) }
}

/// The answer to a command that failed.
pub fn refused(cmd: &CommandPayload, error: &str) -> (out: AckPayload)
    ensures
        refuses(out, *cmd, error@),
{
    AckPayload { command_id: cmd.command_id.clone(), ok: false, error: Some(error.to_owned()), result: None }
}

/// Answers a command by how its one effect went, where only the given words are
/// told of a failure.
pub fn concluded(cmd: &CommandPayload, succeeded: bool, error: &str) -> (out: AckPayload)
    ensures
        if succeeded {
            accepts(out, *cmd)
        } else {
            refuses(out, *cmd, error@)
        },
{
    if succeeded {
        accepted(cmd)
    } else {
        refused(cmd, error)
    }
}

/// Answers a command by how its one effect went, where a failure is passed on in
/// its own words.
pub fn concluded_with(cmd: &CommandPayload, outcome: Result<(), String>) -> (out: AckPayload)
    ensures
        match outcome {
            Ok(_) => accepts(out, *cmd),
            Err(e) => refuses(out, *cmd, e@),
        },
{
    match outcome {
        Ok(_) => accepted(cmd),
        Err(e) => refused(cmd, e.as_str()),
    }
}

/// Whether an event tells of a server.
pub open spec fn tells(event: EventPayload, server_id: String, kind: EventKind, message: Seq<char>) -> bool {
    &&& event.server_id == server_id
    &&& event.kind == kind
    &&& event.message@ == message
}

/// Tells the panel that something happened to a server.
pub fn event_of(server_id: &String, kind: EventKind, message: &str) -> (out: EventPayload)
    ensures
        tells(out, *server_id, kind, message@),
{
    EventPayload { server_id: server_id.clone(), kind, message: message.to_owned() }
}

/// Tells the panel a line of a server's console.
pub fn console_line(server_id: &String, line: String) -> (out: EventPayload)
    ensures
        tells(out, *server_id, EventKind::ConsoleLine, line@),
        out.message == line,
{
    EventPayload { server_id: server_id.clone(), kind: EventKind::ConsoleLine, message: line }
}

/// An answer tells the panel which command it is for, and whether and how that
/// failed: one that accepts or answers says so without an error, and one that
/// refuses carries the whole error and hands nothing back.
pub proof fn law_answers_say_what_they_mean(ack: AckPayload, cmd: CommandPayload, error: Seq<char>)
    ensures
        accepts(ack, cmd) <==> ack.command_id == cmd.command_id && ack.ok && ack.error is None && ack.result is None,
        answers(ack, cmd) <==> ack.command_id == cmd.command_id && ack.ok && ack.error is None && ack.result is Some,
        refuses(ack, cmd, error) <==> ack.command_id == cmd.command_id && !ack.ok && (ack.error matches Some(said)
            && said@ == error) && ack.result is None,
{
}

/// No answer means two things: a command is accepted, answered or refused, and a
/// refusal has one error.
pub proof fn law_answers_are_told_apart(ack: AckPayload, cmd: CommandPayload, a: Seq<char>, b: Seq<char>)
    ensures
        !(accepts(ack, cmd) && answers(ack, cmd)),
        !(accepts(ack, cmd) && refuses(ack, cmd, a)),
        !(answers(ack, cmd) && refuses(ack, cmd, a)),
        refuses(ack, cmd, a) && refuses(ack, cmd, b) ==> a == b,
{
}

/// An event names its server, what kind it is, and its whole message.
pub proof fn law_events_say_what_they_tell(event: EventPayload, server_id: String, kind: EventKind, message: Seq<char>)
    ensures
        tells(event, server_id, kind, message) <==> event.server_id@ == server_id@ && event.server_id == server_id
            && event.kind == kind && event.message@ == message,
{
}

} // verus!
