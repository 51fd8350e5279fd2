//! The action state machine: what a launched entry's action does to the
//! launcher. Input-editing actions loop back to an idle launcher with a new
//! input line; the others end the launcher's life in one of four terminal
//! states, with a process-level effect the platform layer performs.

use vstd::prelude::*;
use vstd::string::StringExecFns;
use crate::plugin::{Action, Command};

verus! {

/// Where the launcher stands after dispatching an action.
#[derive(Clone, Copy, PartialEq, Eq, Structural, Debug)]
pub enum DispatchState {
    /// Waiting for the next interaction.
    Idle,
    /// Closed; the process image is being replaced.
    ClosedExec,
    /// Closed; a detached child carries on.
    ClosedFork,
    /// Closed after writing one line to standard output.
    ClosedAfterPrint,
    /// Closed after waiting for the in-flight spawned work.
    ClosedAfterWait,
}

/// The process-level effect the platform layer must perform. `SetInput` also
/// obliges it to cancel the in-flight search and feed the text back as a
/// not-user-originated input.
pub enum Effect {
    /// No effect.
    Nothing,
    /// Replace the input line with this text.
    SetInput(String),
    /// Replace the process image with this command.
    RunExec(Command),
    /// Write this line to standard output.
    PrintLine(String),
    /// Split off a detached child; the parent closes.
    ForkProcess,
    /// Wait for the in-flight spawned work to finish.
    WaitChild,
}

/// The composite input that re-addresses the active plugin: its prefix, one
/// space, then the new query.
pub fn compose_query(prefix: &str, text: &str) -> (r: String)
    ensures
        r@ == prefix@ + seq![' '] + text@,
{
    proof {
        reveal_strlit(" ");
    }
    let mut r = String::from_str(prefix);
    r.append(" ");
    r.append(text);
    proof {
        assert(" "@ =~= seq![' ']);
    }
    r
}

/// Dispatch one action from the idle state: the launcher's next state and the
/// effect the platform layer performs. `ChangeInput` replaces the input
/// verbatim; `ChangeQuery` keeps the active plugin's prefix in front of the
/// new text, or replaces the input verbatim when no plugin is active; the
/// four others close the launcher.
pub fn dispatch(action: Action, active_prefix: Option<&String>) -> (r: (DispatchState, Effect))
    ensures
        match action {
            Action::Nothing => r.0 == DispatchState::Idle && r.1 is Nothing,
            Action::ChangeInput(t) => r.0 == DispatchState::Idle && r.1 == Effect::SetInput(t),
            Action::ChangeQuery(t) => r.0 == DispatchState::Idle && match active_prefix {
                Some(p) => r.1 matches Effect::SetInput(s) && s@ == p@ + seq![' '] + t@,
                None => r.1 == Effect::SetInput(t),
            },
            Action::Exec(c) => r.0 == DispatchState::ClosedExec && r.1 == Effect::RunExec(c),
            Action::PrintAndClose(t) => r.0 == DispatchState::ClosedAfterPrint && r.1
                == Effect::PrintLine(t),
            Action::Fork => r.0 == DispatchState::ClosedFork && r.1 is ForkProcess,
            Action::WaitAndClose => r.0 == DispatchState::ClosedAfterWait && r.1 is WaitChild,
        },
{
    match action {
        Action::Nothing => (DispatchState::Idle, Effect::Nothing),
        Action::ChangeInput(t) => (DispatchState::Idle, Effect::SetInput(t)),
        Action::ChangeQuery(t) => {
            let input = match active_prefix {
                Some(p) => compose_query(p.as_str(), t.as_str()),
                None => t,
            };
            (DispatchState::Idle, Effect::SetInput(input))
        },
        Action::Exec(c) => (DispatchState::ClosedExec, Effect::RunExec(c)),
        Action::PrintAndClose(t) => (DispatchState::ClosedAfterPrint, Effect::PrintLine(t)),
        Action::Fork => (DispatchState::ClosedFork, Effect::ForkProcess),
        Action::WaitAndClose => (DispatchState::ClosedAfterWait, Effect::WaitChild),
    }
}

} // verus!
