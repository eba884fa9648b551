//! How the capture driver is opened, step by step.

use vstd::prelude::*;

verus! {

/// The code of an open that fails because the service is about to be deleted.
pub const ERROR_SERVICE_MARKED_FOR_DELETE_CODE: i32 = 1072;

/// How often such an open is tried again.
pub const OPEN_RETRY_MAX: u32 = 5;

/// How long to wait before each of these.
pub const OPEN_RETRY_DELAY_MS: u64 = 200;

/// What was tried last.
#[derive(Debug, Clone, Copy, PartialEq, Eq, Structural)]
pub enum OpenPhase {
    /// The first open.
    First,
    /// An open after a wait; so many more may follow.
    Retrying(u32),
    /// The removal of a stopped, broken service.
    Recovering,
    /// The open after it.
    AfterRecovery,
}

/// How it went.
#[derive(Debug, Clone, Copy, PartialEq, Eq, Structural)]
pub enum OpenEvent {
    Opened,
    /// The open failed, with the code of the system where there is one.
    OpenFailed(Option<i32>),
    /// Whether a stopped service was removed.
    Recovered(bool),
    RecoverFailed,
}

/// What to do next.
#[derive(Debug, Clone, Copy, PartialEq, Eq, Structural)]
pub enum OpenAction {
    /// The driver is open.
    Done,
    /// It cannot be opened.
    GiveUp,
    /// Wait so many milliseconds, then open.
    WaitAndOpen(u64),
    /// Remove a stopped service.
    Recover,
    /// Open.
    Open,
}

/// What follows.
pub open spec fn open_rule(phase: OpenPhase, event: OpenEvent) -> (OpenPhase, OpenAction) {
    match (phase, event) {
        (_, OpenEvent::Opened) => (phase, OpenAction::Done),
        (OpenPhase::First, OpenEvent::OpenFailed(code)) => if code == Some(
            ERROR_SERVICE_MARKED_FOR_DELETE_CODE,
        ) {
            (
                OpenPhase::Retrying((OPEN_RETRY_MAX - 1) as u32),
                OpenAction::WaitAndOpen(OPEN_RETRY_DELAY_MS),
            )
        } else {
            (OpenPhase::Recovering, OpenAction::Recover)
        },
        (OpenPhase::Retrying(left), OpenEvent::OpenFailed(_)) => if left > 0 {
            (
                OpenPhase::Retrying((left - 1) as u32),
                OpenAction::WaitAndOpen(OPEN_RETRY_DELAY_MS),
            )
        } else {
            (phase, OpenAction::GiveUp)
        },
        (OpenPhase::Recovering, OpenEvent::Recovered(removed)) => if removed {
            (OpenPhase::AfterRecovery, OpenAction::Open)
        } else {
            (phase, OpenAction::GiveUp)
        },
        _ => (phase, OpenAction::GiveUp),
    }
}

/// What follows after `event` in `phase`.
pub fn open_step(phase: OpenPhase, event: OpenEvent) -> (next: (OpenPhase, OpenAction))
    ensures
        next == open_rule(phase, event),
{
    match event {
        OpenEvent::Opened => (phase, OpenAction::Done),
        OpenEvent::OpenFailed(code) => {
            match phase {
                OpenPhase::First => {
                    let marked: bool = match code {
                        Some(c) => c == ERROR_SERVICE_MARKED_FOR_DELETE_CODE,
                        None => false,
                    };
                    if marked {
                        (
                            OpenPhase::Retrying(OPEN_RETRY_MAX - 1),
                            OpenAction::WaitAndOpen(OPEN_RETRY_DELAY_MS),
                        )
                    } else {
                        (OpenPhase::Recovering, OpenAction::Recover)
                    }
                },
                OpenPhase::Retrying(left) => {
                    if left > 0 {
                        (
                            OpenPhase::Retrying(left - 1),
                            OpenAction::WaitAndOpen(OPEN_RETRY_DELAY_MS),
                        )
                    } else {
                        (phase, OpenAction::GiveUp)
                    }
                },
                _ => (phase, OpenAction::GiveUp),
            }
        },
        OpenEvent::Recovered(removed) => {
            match phase {
                OpenPhase::Recovering => {
                    if removed {
                        (OpenPhase::AfterRecovery, OpenAction::Open)
                    } else {
                        (phase, OpenAction::GiveUp)
                    }
                },
                _ => (phase, OpenAction::GiveUp),
            }
        },
        OpenEvent::RecoverFailed => (phase, OpenAction::GiveUp),
    }
}

/// How many steps a phase has before it at most.
pub open spec fn steps_left(phase: OpenPhase) -> int {
    match phase {
        OpenPhase::First => 7,
        OpenPhase::Retrying(left) => 1 + left,
        OpenPhase::Recovering => 2,
        OpenPhase::AfterRecovery => 1,
    }
}

/// Opening ends: every step that does not end it leaves fewer.
pub proof fn law_opening_ends(phase: OpenPhase, event: OpenEvent)
    ensures
        ({
            let next = open_rule(phase, event);
            next.1 == OpenAction::Done || next.1 == OpenAction::GiveUp || steps_left(next.0)
                < steps_left(phase)
        }),
{
}

} // verus!
