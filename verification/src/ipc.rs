//! Names of the per-user objects that keep the application to one process:
//! the mutex that marks the primary instance and the pipe that secondary
//! launches forward their command through.

use vstd::prelude::*;

verus! {

/// The per-user suffix: the user's name, or `default` when it is not known.
pub fn user_suffix(username: Option<String>) -> (s: String)
    ensures
        match username {
            Some(u) => s@ == u@,
            None => s@ == "default"@,
        },
{
    match username {
        Some(u) => u,
        None => String::from_str("default"),
    }
}

/// The session-local name of the primary-instance mutex.
pub fn mutex_name(user: &str) -> (s: String)
    ensures
        s@ == "Local\\DesktopDrawers.Instance."@ + user@,
{
    let mut s = String::from_str("Local\\DesktopDrawers.Instance.");
    s.append(user);
    s
}

/// The name of the pipe commands are forwarded through.
pub fn pipe_name(user: &str) -> (s: String)
    ensures
        s@ == "\\\\.\\pipe\\DesktopDrawers."@ + user@,
{
    let mut s = String::from_str("\\\\.\\pipe\\DesktopDrawers.");
    s.append(user);
    s
}

/// How many times a secondary launch tries to reach the primary's pipe: the
/// primary may still be starting and not have created it yet.
pub const SEND_ATTEMPTS: u32 = 20;

/// The pause between two attempts, in milliseconds.
pub const RETRY_PAUSE_MS: u64 = 50;

/// What a secondary launch does after one attempt to forward its command.
pub enum ForwardStep {
    /// The command went through: exit.
    Done,
    /// Pause, then make the attempt with this number.
    Retry(u32),
    /// Out of attempts: exit with the last attempt's error.
    GiveUp,
}

/// The step after attempt number `attempt` (counting from zero) to forward
/// the command, which succeeded when `sent`: a failure is retried after a
/// pause until `SEND_ATTEMPTS` attempts have been made.
pub fn after_send_attempt(attempt: u32, sent: bool) -> (s: ForwardStep)
    ensures
        sent ==> s is Done,
        !sent && attempt + 1 < SEND_ATTEMPTS ==> s == ForwardStep::Retry((attempt + 1) as u32),
        !sent && attempt + 1 >= SEND_ATTEMPTS ==> s is GiveUp,
{
    if sent {
        ForwardStep::Done
    } else if attempt < SEND_ATTEMPTS - 1 {
        ForwardStep::Retry(attempt + 1)
    } else {
        ForwardStep::GiveUp
    }
}

} // verus!
