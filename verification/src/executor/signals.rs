//! What a signal to stop leads to.
use vstd::prelude::*;

verus! {

/// What a signal to stop leads to.
#[derive(Clone, Copy, Debug, PartialEq, Eq, Structural)]
pub enum SignalAction {
    /// The program ends at once, with the code
    Exit(i32),
    /// The signal is kept, and whoever runs commands ends them
    Keep,
}

/// A signal ends the program at once unless commands run or whoever is idle
/// wants to end in order.
pub fn signal_action(signal: i32, children: usize, graceful_when_idle: bool) -> (action: SignalAction)
    requires
        signal <= i32::MAX - 128,
    ensures
        action == (if children == 0 && !graceful_when_idle {
            SignalAction::Exit((128 + signal) as i32)
        } else {
            SignalAction::Keep
        }),
{
    if children == 0 && !graceful_when_idle {
        SignalAction::Exit(128 + signal)
    } else {
        SignalAction::Keep
    }
}

/// The signal that was kept; zero stands for none.
pub fn shutdown_signal(kept: i32) -> (signal: Option<i32>)
    ensures
        signal == (if kept == 0 {
            None
        } else {
            Some(kept)
        }),
{
    if kept == 0 {
        None
    } else {
        Some(kept)
    }
}

/// What is done next with a process that was asked to end.
#[derive(Clone, Copy, Debug, PartialEq, Eq, Structural)]
pub enum TerminateStep {
    /// It has ended
    Finish,
    /// It has some time left
    Wait,
    /// Its time is over, and it is ended by force
    Kill,
}

/// A process that was asked to end is waited for until its time is over. The
/// times are in milliseconds.
pub fn terminate_step(exited: bool, now: u64, deadline: u64) -> (step: TerminateStep)
    ensures
        step == (if now >= deadline {
            TerminateStep::Kill
        } else if exited {
            TerminateStep::Finish
        } else {
            TerminateStep::Wait
        }),
{
    if now >= deadline {
        TerminateStep::Kill
    } else if exited {
        TerminateStep::Finish
    } else {
        TerminateStep::Wait
    }
}

/// How long a command may take to end once it was asked to, in milliseconds.
pub const COMMAND_GRACE_MILLIS: u64 = 3000;

/// What whoever watches over a command does next.
#[derive(Clone, Copy, Debug, PartialEq, Eq, Structural)]
pub enum WatchStep {
    /// The command has ended
    Finish,
    /// The command is asked to end
    Terminate,
    /// The command runs on
    Wait,
}

/// A command that runs is asked to end once a shutdown is.
pub fn watch_step(completed: bool, shutdown: bool) -> (step: WatchStep)
    ensures
        step == (if completed {
            WatchStep::Finish
        } else if shutdown {
            WatchStep::Terminate
        } else {
            WatchStep::Wait
        }),
{
    if completed {
        WatchStep::Finish
    } else if shutdown {
        WatchStep::Terminate
    } else {
        WatchStep::Wait
    }
}

} // verus!
