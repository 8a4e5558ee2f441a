//! Signal-reaper decisions.
//!
//! The child-signal handler itself must stay asynchronous-signal-safe, so
//! the unverified binary keeps its body to a few syscalls; the decision it
//! takes — whether a delivered pid is a background exit the handler should
//! reap — is made by the verified function here.  The ordering discipline
//! around the handler (block the child signal before forking, unblock only
//! after the job is registered) is enforced by the launch sequencer.

use vstd::prelude::*;

verus! {

/// Why a signal operation failed: the originating OS error code.
#[derive(Debug, PartialEq, Eq, Structural, Clone, Copy)]
pub enum SigError {
    Syscall(i32),
}

/// The handler's decision on a delivered signal: reap the pid as a
/// background exit exactly when the delivered signal is the child signal
/// and the pid belongs to a known process group other than the shell's own.
/// A pid of the shell's own foreground group is left to the foreground
/// wait; a group that could not be determined is left alone.
pub fn should_reap_in_handler(sig: i32, child_signal: i32, child_pgid: i32, shell_pgid: i32) -> (r:
    bool)
    ensures
        r == (sig == child_signal && child_pgid != shell_pgid && child_pgid != -1),
{
    sig == child_signal && child_pgid != shell_pgid && child_pgid != -1
}

} // verus!
