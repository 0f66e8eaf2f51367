//! The interactive session: a two-state machine.
//!
//! The session awaits a line of input, has the agent answer it, prints the
//! answer, and repeats.  On end of input, or on an exit command (`quit` or
//! `exit`, surrounding whitespace ignored), it terminates.  A failed turn
//! does not end the session: the error is printed and the session keeps
//! awaiting input, so one bad query cannot crash the loop.  The caller
//! runs the loop and performs the reading, printing and provider calls;
//! the decisions stand here.

use vstd::prelude::*;

use crate::agent::AgentError;
use crate::agent::agent_error_text;
use crate::text::str_eq;
use crate::text::str_trim;
use crate::text::trimmed;

verus! {

/// The two states of the session.
#[derive(Debug, Clone, Copy, PartialEq, Eq, Structural)]
pub enum SessionState {
    AwaitingInput,
    Terminated,
}

/// What the caller observed: a line of input, or end of input.
pub enum SessionEvent {
    Line(String),
    EndOfInput,
}

/// What the caller must do next: ask the agent to answer the line, or stop
/// the loop.
pub enum SessionAction {
    Respond(String),
    Stop,
}

/// A line that ends the session: `quit` or `exit`, surrounding whitespace
/// ignored.
pub open spec fn is_exit_line(l: Seq<char>) -> bool {
    trimmed(l) == "quit"@ || trimmed(l) == "exit"@
}

/// The transition function of the session.
pub open spec fn spec_step(st: SessionState, ev: SessionEvent) -> (SessionState, SessionAction) {
    match st {
        SessionState::Terminated => (SessionState::Terminated, SessionAction::Stop),
        SessionState::AwaitingInput => match ev {
            SessionEvent::EndOfInput => (SessionState::Terminated, SessionAction::Stop),
            SessionEvent::Line(l) => if is_exit_line(l@) {
                (SessionState::Terminated, SessionAction::Stop)
            } else {
                (SessionState::AwaitingInput, SessionAction::Respond(l))
            },
        },
    }
}

/// One step of the session machine: end of input and exit commands
/// terminate; any other line is handed on to be answered, and the session
/// keeps awaiting input.
pub fn session_step(st: SessionState, ev: SessionEvent) -> (r: (SessionState, SessionAction))
    ensures
        r == spec_step(st, ev),
{
    match st {
        SessionState::Terminated => (SessionState::Terminated, SessionAction::Stop),
        SessionState::AwaitingInput => match ev {
            SessionEvent::EndOfInput => (SessionState::Terminated, SessionAction::Stop),
            SessionEvent::Line(l) => {
                let is_exit = {
                    let t = str_trim(l.as_str());
                    str_eq(t, "quit") || str_eq(t, "exit")
                };
                if is_exit {
                    (SessionState::Terminated, SessionAction::Stop)
                } else {
                    (SessionState::AwaitingInput, SessionAction::Respond(l))
                }
            },
        },
    }
}

/// What one answered turn prints and where it leaves the session: the
/// agent's reply, or the error's description — and in either case the
/// session stays in `AwaitingInput`.
pub fn handle_turn_result(res: Result<String, AgentError>) -> (r: (String, SessionState))
    ensures
        r.1 == SessionState::AwaitingInput,
        match res {
            Ok(reply) => r.0 == reply,
            Err(e) => r.0@ == agent_error_text(e),
        },
{
    match res {
        Ok(reply) => (reply, SessionState::AwaitingInput),
        Err(e) => (e.message(), SessionState::AwaitingInput),
    }
}

} // verus!
