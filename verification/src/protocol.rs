//! What the session and the tracing layer say to each other.
//!
//! The session never touches a process. It hands out one `Request` at a time,
//! the caller carries it out with the tracing calls of the operating system and
//! the debug information of the target, and hands back the `Reply`. What the
//! session has to tell the user comes out as `Message`s.

use vstd::prelude::*;

verus! {

/// The byte that stands for the trap instruction.
pub const TRAP_BYTE: u8 = 0xcc;

/// A place in the source of the target.
#[derive(Clone, Debug, PartialEq, Eq)]
pub struct Line {
    pub file: String,
    pub number: usize,
    pub address: usize,
}

/// One thing for the tracing layer to do.
#[derive(Clone, Debug, PartialEq, Eq)]
pub enum Request {
    /// Launch the target, traced from before its program image takes over.
    Spawn { target: String, args: Vec<String> },
    /// Block until the process changes state.
    Wait { pid: i32 },
    /// Let the process run.
    Cont { pid: i32 },
    /// Let the process execute one instruction.
    Step { pid: i32 },
    /// Terminate the process and reap it.
    Kill { pid: i32 },
    /// Read the instruction pointer and the frame base.
    GetRegs { pid: i32 },
    /// Set the instruction pointer.
    SetRip { pid: i32, rip: usize },
    /// Read the word at `addr`.
    Peek { pid: i32, addr: usize },
    /// Write `word` at `addr`.
    Poke { pid: i32, addr: usize, word: u64 },
    /// Look up the function and the source line of `addr`.
    Resolve { addr: usize },
}

/// What came of a `Request`.
#[derive(Clone, Debug, PartialEq, Eq)]
pub enum Reply {
    /// The target was launched as the process `pid`.
    Spawned(i32),
    /// The process was stopped by the signal.
    Stopped(i32),
    /// The process ended with the exit code.
    Exited(i32),
    /// The process was killed by the signal.
    Signaled(i32),
    /// The registers of the stopped process.
    Regs { rip: usize, rbp: usize },
    /// The word that was read.
    Word(u64),
    /// The request was carried out and has nothing to report.
    Done,
    /// What the debug information says of the address.
    Resolved { function: Option<String>, line: Option<Line> },
    /// The request failed with the error number.
    Failed(i32),
}

/// Why an operation on the traced process was given up.
#[derive(Clone, Copy, Debug, PartialEq, Eq)]
pub enum Fault {
    /// The tracing layer reported the error number.
    Os(i32),
    /// The reply was not one that answers the request.
    Protocol,
    /// The frame base leaves no room for a return address above it.
    Frame(usize),
}

/// The fault that a reply stands for where it does not answer the request.
pub open spec fn fault_of(reply: Reply) -> Fault {
    match reply {
        Reply::Failed(errno) => Fault::Os(errno),
        _ => Fault::Protocol,
    }
}

/// Something to tell the user.
#[derive(Clone, Debug, PartialEq, Eq)]
pub enum Message {
    /// The process `pid` is being killed.
    Killing(i32),
    /// The target could not be started.
    StartFailed,
    /// `continue` was given with no process to continue.
    NothingToContinue,
    /// `backtrace` was given with no process running.
    NothingRunning,
    /// The process ended with the exit code.
    Exited(i32),
    /// The process was killed by the signal.
    Killed(i32),
    /// The process was stopped by the signal.
    Stopped(i32),
    /// Where the process stopped.
    StoppedAt(Line),
    /// A breakpoint was asked for at the address.
    BreakpointSet(usize),
    /// The text after `break` is no address.
    InvalidAddress,
    /// The breakpoint at the address could not be installed.
    BreakpointFailed(usize, Fault),
    /// One frame of the call stack.
    Frame { function: String, line: Option<Line> },
    /// An operation on the process failed.
    TraceFailed(Fault),
    /// The line is no command.
    Unrecognized,
    /// The user pressed the interrupt key.
    Interrupted,
}

} // verus!
