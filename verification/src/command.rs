//! What the program is asked to do.
use crate::ipc::IpcRequest;
use vstd::prelude::*;

verus! {

/// What the program is started for.
#[derive(Clone, PartialEq, Eq, Structural, Debug)]
pub enum Mode {
    Network,
    Disk,
    Memory,
    Cpu,
    Kill,
    Notification(NotificationCommand),
    TestDaemon,
    Daemon,
}

/// A change of the notifications.
#[derive(Copy, Clone, PartialEq, Eq, Structural, PartialOrd, Ord, Hash, Debug)]
pub enum NotificationCommand {
    Delete { id: u32 },
}

/// What is done in a mode.
#[derive(Clone, PartialEq, Eq, Structural, Debug)]
pub enum Task {
    /// Ask the daemon, and print what it answers.
    Ask(IpcRequest),
    /// Be the daemon.
    RunDaemon,
    /// Leave the terminal first, and then be the daemon.
    StartDaemon,
}

impl Mode {
    /// What is done in this mode.
    pub fn task(self) -> (task: Task)
        ensures
            task == match self {
                Mode::Network => Task::Ask(IpcRequest::Network),
                Mode::Disk => Task::Ask(IpcRequest::Disk),
                Mode::Memory => Task::Ask(IpcRequest::Memory),
                Mode::Cpu => Task::Ask(IpcRequest::Cpu),
                Mode::Kill => Task::Ask(IpcRequest::Kill),
                Mode::Notification(command) => Task::Ask(IpcRequest::Notification(command)),
                Mode::TestDaemon => Task::RunDaemon,
                Mode::Daemon => Task::StartDaemon,
            },
    {
        match self {
            Mode::Network => Task::Ask(IpcRequest::Network),
            Mode::Disk => Task::Ask(IpcRequest::Disk),
            Mode::Memory => Task::Ask(IpcRequest::Memory),
            Mode::Cpu => Task::Ask(IpcRequest::Cpu),
            Mode::Kill => Task::Ask(IpcRequest::Kill),
            Mode::Notification(command) => Task::Ask(IpcRequest::Notification(command)),
            Mode::TestDaemon => Task::RunDaemon,
            Mode::Daemon => Task::StartDaemon,
        }
    }
}

/// Why the program refuses to run.
#[derive(Copy, Clone, PartialEq, Eq, Structural, Debug)]
pub struct RootError;

impl RootError {
    /// The text for the user.
    pub fn message(&self) -> (message: &'static str)
        ensures
            message@ == "Please do not run this program with root privileges."@,
    {
        "Please do not run this program with root privileges."
    }
}

/// Refuses to run where the user, or the user on whose behalf the program acts, is the
/// administrator.
pub fn check_user(current_is_root: bool, effective_is_root: bool) -> (checked: Result<
    (),
    RootError,
>)
    ensures
        checked is Err <==> current_is_root || effective_is_root,
{
    if current_is_root || effective_is_root {
        Err(RootError)
    } else {
        Ok(())
    }
}

} // verus!
