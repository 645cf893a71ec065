//! The controller of one traced process.
//!
//! An `Inferior` stands for a live child process under trace. It does not call
//! the operating system: every operation on the process is a short exchange of
//! `Request`s and `Reply`s. A method such as `cont` or `backtrace` begins an
//! operation and gives its first request; `advance` takes each reply and gives
//! the next request, until the operation ends with an `Outcome`.
//!
//! `advance_of` is the whole transition function, and `advance` computes it.

use crate::breakpoints::{installed_at, position, recorded, well_formed};
use crate::breakpoints::{BreakpointTable, Slot};
use crate::patch::{extract_byte, replace_byte, word_byte, word_with_byte};
use crate::protocol::{fault_of, Fault, Message, Reply, Request, TRAP_BYTE};
use crate::utils::{align_addr_to_word, byte_offset, word_bytes, word_start};
use vstd::prelude::*;

verus! {

/// The state of the process after it was let run.
#[derive(Clone, Copy, Debug, PartialEq, Eq)]
pub enum Status {
    /// The process stopped. Holds the signal that stopped it and the
    /// instruction pointer at which it stopped.
    Stopped(i32, usize),
    /// The process exited normally. Holds the exit code.
    Exited(i32),
    /// The process was killed by a signal. Holds the signal.
    Signaled(i32),
}

/// What a byte is written for.
#[derive(Clone, Copy, Debug, PartialEq, Eq)]
pub enum Purpose {
    /// To install the breakpoints of the table, one after the other, into a
    /// process that has just started.
    InstallAll,
    /// To install one breakpoint into a stopped process.
    InstallOne,
    /// To put the original byte back before stepping over a breakpoint.
    Restore,
    /// To put the trap back after stepping over a breakpoint.
    Reinstall,
}

/// Where an operation on the process stands: which reply is awaited.
#[derive(Clone, Copy, Debug, PartialEq, Eq)]
pub enum Stage {
    /// No operation is under way.
    Idle,
    /// The process was launched; its first stop is awaited.
    Starting,
    /// The byte at `addr` is being replaced by `value`. While `saved` is `None`
    /// the word that holds the byte is being read; then `saved` is the byte
    /// that was there, and the changed word is being written.
    Patching { addr: usize, value: u8, saved: Option<u8>, purpose: Purpose },
    /// The instruction pointer is being set back to the breakpoint at `addr`.
    Rewinding { addr: usize },
    /// The process is told to execute the instruction at `addr`.
    Stepping { addr: usize },
    /// The process executes the instruction at `addr`; its stop is awaited.
    Stepped { addr: usize },
    /// The process is told to run.
    Resuming,
    /// The process runs; its next change of state is awaited.
    Running,
    /// The process was stopped by `signal`; its registers are being read.
    Locating { signal: i32 },
    /// A backtrace begins; the registers are being read.
    Probing,
    /// The frame with frame base `base` is being looked up.
    Naming { base: usize },
    /// The return address of the frame with frame base `base` is being read.
    Returning { base: usize },
    /// The frame base of the caller is being read; the caller continues at
    /// `ret`.
    Ascending { ret: usize },
}

/// How an operation ended.
#[derive(Clone, Copy, Debug, PartialEq, Eq)]
pub enum Outcome {
    /// The process reached its first stop and the table was installed.
    Started,
    /// The process did not reach its first stop. `alive` says whether it may
    /// still exist.
    Unstarted { alive: bool },
    /// The process was let run and changed state.
    Resumed(Status),
    /// The attempt to install one breakpoint is over.
    Placed,
    /// The walk up the call stack is over.
    Walked,
    /// The operation was given up.
    Failed(Fault),
}

/// What the controller wants next.
#[derive(Clone, Debug, PartialEq, Eq)]
pub enum Move {
    /// The tracing layer is to carry out the request.
    Ask(Request),
    /// The operation is over.
    Done(Outcome),
}

/// What one step of an operation gives: something to tell the user, perhaps,
/// and what is wanted next.
#[derive(Clone, Debug, PartialEq, Eq)]
pub struct Progress {
    pub note: Option<Message>,
    pub next: Move,
}

/// A live traced process.
#[derive(Clone, Copy, Debug, PartialEq, Eq)]
pub struct Inferior {
    /// The process id.
    pub pid: i32,
    /// The address of the installed breakpoint at which the process is
    /// stopped, if it is stopped at one.
    pub trap: Option<usize>,
    /// The operation under way.
    pub stage: Stage,
}

/// One step of an operation, as a value: the controller and the table after
/// the step, and what the step gives.
pub struct Advance {
    pub inferior: Inferior,
    pub table: Seq<Slot>,
    pub note: Option<Message>,
    pub next: Move,
}

/// The address of the installed breakpoint whose trap leaves the instruction
/// pointer at `rip`, if there is one.
pub open spec fn trap_before(table: Seq<Slot>, rip: usize) -> Option<usize> {
    if rip >= 1 && installed_at(table, (rip - 1) as usize) is Some {
        Some((rip - 1) as usize)
    } else {
        None
    }
}

impl Inferior {
    /// The controller of the process `pid` just after its launch.
    pub open spec fn launched(pid: i32) -> Inferior {
        Inferior { pid, trap: None, stage: Stage::Starting }
    }

    /// The step that ends the operation with `outcome`.
    pub open spec fn finish_of(self, table: Seq<Slot>, note: Option<Message>, outcome: Outcome) -> Advance {
        Advance {
            inferior: Inferior { stage: Stage::Idle, ..self },
            table,
            note,
            next: Move::Done(outcome),
        }
    }

    /// The step that asks for `request` and awaits its reply in `stage`.
    pub open spec fn ask_of(
        self,
        stage: Stage,
        table: Seq<Slot>,
        note: Option<Message>,
        request: Request,
    ) -> Advance {
        Advance { inferior: Inferior { stage, ..self }, table, note, next: Move::Ask(request) }
    }

    /// The step that begins to replace the byte at `addr` by `value`: it asks
    /// for the word that holds the byte.
    pub open spec fn write_byte_of(
        self,
        addr: usize,
        value: u8,
        purpose: Purpose,
        table: Seq<Slot>,
        note: Option<Message>,
    ) -> Advance {
        self.ask_of(
            Stage::Patching { addr, value, saved: None, purpose },
            table,
            note,
            Request::Peek { pid: self.pid, addr: word_start(addr) },
        )
    }

    /// The step that goes on to install entry `index` of the table, or ends
    /// the start of the process if the table has no such entry.
    pub open spec fn install_of(self, index: int, table: Seq<Slot>, note: Option<Message>) -> Advance {
        if 0 <= index < table.len() {
            self.write_byte_of(table[index].addr, TRAP_BYTE, Purpose::InstallAll, table, note)
        } else {
            self.finish_of(table, note, Outcome::Started)
        }
    }

    /// The step after the byte at `addr` was replaced, where `saved` is the
    /// byte that was there before.
    pub open spec fn patched_of(self, addr: usize, purpose: Purpose, saved: u8, table: Seq<Slot>) -> Advance {
        match purpose {
            Purpose::InstallAll => {
                let table = recorded(table, addr, Some(saved));
                self.install_of(position(table, addr) + 1, table, None)
            },
            Purpose::InstallOne => self.finish_of(
                recorded(table, addr, Some(saved)),
                None,
                Outcome::Placed,
            ),
            Purpose::Restore => self.ask_of(
                Stage::Stepping { addr },
                table,
                None,
                Request::Step { pid: self.pid },
            ),
            Purpose::Reinstall => Inferior { trap: None, ..self }.ask_of(
                Stage::Resuming,
                table,
                None,
                Request::Cont { pid: self.pid },
            ),
        }
    }

    /// The step after the attempt to replace the byte at `addr` failed.
    pub open spec fn unpatched_of(self, addr: usize, purpose: Purpose, fault: Fault, table: Seq<Slot>) -> Advance {
        match purpose {
            Purpose::InstallAll => {
                let table = recorded(table, addr, None);
                self.install_of(
                    position(table, addr) + 1,
                    table,
                    Some(Message::BreakpointFailed(addr, fault)),
                )
            },
            Purpose::InstallOne => self.finish_of(
                recorded(table, addr, None),
                Some(Message::BreakpointFailed(addr, fault)),
                Outcome::Placed,
            ),
            Purpose::Restore => self.finish_of(table, None, Outcome::Failed(fault)),
            Purpose::Reinstall => Inferior { trap: None, ..self }.finish_of(
                recorded(table, addr, None),
                None,
                Outcome::Failed(fault),
            ),
        }
    }

    /// The step that begins to let the process run. Where the process is
    /// stopped at an installed breakpoint, the instruction pointer is first set
    /// back to it.
    pub open spec fn cont_of(self, table: Seq<Slot>) -> Advance {
        match self.trap {
            Some(addr) if installed_at(table, addr) is Some => self.ask_of(
                Stage::Rewinding { addr },
                table,
                None,
                Request::SetRip { pid: self.pid, rip: addr },
            ),
            _ => Inferior { trap: None, ..self }.ask_of(
                Stage::Resuming,
                table,
                None,
                Request::Cont { pid: self.pid },
            ),
        }
    }

    /// The step that ends an operation because `reply` does not answer the
    /// request.
    pub open spec fn give_up_of(self, reply: Reply, table: Seq<Slot>) -> Advance {
        self.finish_of(table, None, Outcome::Failed(fault_of(reply)))
    }

    /// The step that `reply` leads to.
    pub open spec fn advance_of(self, reply: Reply, table: Seq<Slot>) -> Advance {
        match self.stage {
            Stage::Idle => self.finish_of(table, None, Outcome::Failed(Fault::Protocol)),
            Stage::Starting => match reply {
                Reply::Stopped(_) => self.install_of(0, table, None),
                Reply::Exited(_) | Reply::Signaled(_) => self.finish_of(
                    table,
                    None,
                    Outcome::Unstarted { alive: false },
                ),
                _ => self.finish_of(table, None, Outcome::Unstarted { alive: true }),
            },
            Stage::Patching { addr, value, saved: None, purpose } => match reply {
                Reply::Word(word) => self.ask_of(
                    Stage::Patching {
                        addr,
                        value,
                        saved: Some(word_byte(word, byte_offset(addr))),
                        purpose,
                    },
                    table,
                    None,
                    Request::Poke {
                        pid: self.pid,
                        addr: word_start(addr),
                        word: word_with_byte(word, byte_offset(addr), value),
                    },
                ),
                _ => self.unpatched_of(addr, purpose, fault_of(reply), table),
            },
            Stage::Patching { addr, value, saved: Some(saved), purpose } => match reply {
                Reply::Done => self.patched_of(addr, purpose, saved, table),
                _ => self.unpatched_of(addr, purpose, fault_of(reply), table),
            },
            Stage::Rewinding { addr } => match reply {
                Reply::Done => match installed_at(table, addr) {
                    Some(breakpoint) => self.write_byte_of(
                        addr,
                        breakpoint.orig_byte,
                        Purpose::Restore,
                        table,
                        None,
                    ),
                    None => Inferior { trap: None, ..self }.ask_of(
                        Stage::Resuming,
                        table,
                        None,
                        Request::Cont { pid: self.pid },
                    ),
                },
                _ => self.give_up_of(reply, table),
            },
            Stage::Stepping { addr } => match reply {
                Reply::Done => self.ask_of(
                    Stage::Stepped { addr },
                    table,
                    None,
                    Request::Wait { pid: self.pid },
                ),
                _ => self.give_up_of(reply, table),
            },
            Stage::Stepped { addr } => match reply {
                Reply::Stopped(_) => self.write_byte_of(
                    addr,
                    TRAP_BYTE,
                    Purpose::Reinstall,
                    table,
                    None,
                ),
                Reply::Exited(code) => self.finish_of(
                    table,
                    None,
                    Outcome::Resumed(Status::Exited(code)),
                ),
                Reply::Signaled(signal) => self.finish_of(
                    table,
                    None,
                    Outcome::Resumed(Status::Signaled(signal)),
                ),
                _ => self.give_up_of(reply, table),
            },
            Stage::Resuming => match reply {
                Reply::Done => self.ask_of(
                    Stage::Running,
                    table,
                    None,
                    Request::Wait { pid: self.pid },
                ),
                _ => self.give_up_of(reply, table),
            },
            Stage::Running => match reply {
                Reply::Stopped(signal) => self.ask_of(
                    Stage::Locating { signal },
                    table,
                    None,
                    Request::GetRegs { pid: self.pid },
                ),
                Reply::Exited(code) => self.finish_of(
                    table,
                    None,
                    Outcome::Resumed(Status::Exited(code)),
                ),
                Reply::Signaled(signal) => self.finish_of(
                    table,
                    None,
                    Outcome::Resumed(Status::Signaled(signal)),
                ),
                _ => self.give_up_of(reply, table),
            },
            Stage::Locating { signal } => match reply {
                Reply::Regs { rip, rbp } => Inferior { trap: trap_before(table, rip), ..self }.finish_of(
                    table,
                    None,
                    Outcome::Resumed(Status::Stopped(signal, rip)),
                ),
                _ => self.give_up_of(reply, table),
            },
            Stage::Probing => match reply {
                Reply::Regs { rip, rbp } => self.ask_of(
                    Stage::Naming { base: rbp },
                    table,
                    None,
                    Request::Resolve { addr: rip },
                ),
                _ => self.give_up_of(reply, table),
            },
            Stage::Naming { base } => match reply {
                Reply::Resolved { function: Some(function), line } => {
                    let note = Some(Message::Frame { function, line });
                    if base == 0 {
                        self.finish_of(table, note, Outcome::Walked)
                    } else if base + word_bytes() > usize::MAX {
                        self.finish_of(table, note, Outcome::Failed(Fault::Frame(base)))
                    } else {
                        self.ask_of(
                            Stage::Returning { base },
                            table,
                            note,
                            Request::Peek { pid: self.pid, addr: (base + word_bytes()) as usize },
                        )
                    }
                },
                Reply::Resolved { function: None, line } => self.finish_of(
                    table,
                    None,
                    Outcome::Walked,
                ),
                _ => self.give_up_of(reply, table),
            },
            Stage::Returning { base } => match reply {
                Reply::Word(word) => self.ask_of(
                    Stage::Ascending { ret: word as usize },
                    table,
                    None,
                    Request::Peek { pid: self.pid, addr: base },
                ),
                _ => self.give_up_of(reply, table),
            },
            Stage::Ascending { ret } => match reply {
                Reply::Word(word) => self.ask_of(
                    Stage::Naming { base: word as usize },
                    table,
                    None,
                    Request::Resolve { addr: ret },
                ),
                _ => self.give_up_of(reply, table),
            },
        }
    }
}

/// Whether the controller `inferior`, the table `table` and the step
/// `progress` are those of `model`.
pub open spec fn agrees(
    inferior: Inferior,
    table: Seq<Slot>,
    progress: Progress,
    model: Advance,
) -> bool {
    &&& inferior == model.inferior
    &&& table == model.table
    &&& progress.note == model.note
    &&& progress.next == model.next
}

impl Inferior {
    /// Takes charge of the process `pid`, which was just launched, and asks to
    /// wait for its first stop.
    pub fn new(pid: i32) -> (started: (Inferior, Request))
        ensures
            started.0 == Inferior::launched(pid),
            started.1 == (Request::Wait { pid }),
    {
        (Inferior { pid, trap: None, stage: Stage::Starting }, Request::Wait { pid })
    }

    /// The id of the process.
    pub fn pid(&self) -> (pid: i32)
        ensures
            pid == self.pid,
    {
        self.pid
    }

    fn finish(self, note: Option<Message>, outcome: Outcome) -> (step: (Inferior, Progress))
        ensures
            forall|table: Seq<Slot>|
                agrees(step.0, table, step.1, #[trigger] self.finish_of(table, note, outcome)),
    {
        (Inferior { stage: Stage::Idle, ..self }, Progress { note, next: Move::Done(outcome) })
    }

    fn ask(self, stage: Stage, note: Option<Message>, request: Request) -> (step: (
        Inferior,
        Progress,
    ))
        ensures
            forall|table: Seq<Slot>|
                agrees(step.0, table, step.1, #[trigger] self.ask_of(stage, table, note, request)),
    {
        (Inferior { stage, ..self }, Progress { note, next: Move::Ask(request) })
    }

    /// Begins to replace the byte at `addr` by `value`. The tracing layer moves
    /// whole words, so the word that holds the byte is read first.
    fn write_byte(self, addr: usize, value: u8, purpose: Purpose, note: Option<Message>) -> (step:
        (Inferior, Progress))
        ensures
            forall|table: Seq<Slot>|
                agrees(
                    step.0,
                    table,
                    step.1,
                    #[trigger] self.write_byte_of(addr, value, purpose, table, note),
                ),
    {
        let aligned: usize = align_addr_to_word(addr);
        let step = self.ask(
            Stage::Patching { addr, value, saved: None, purpose },
            note,
            Request::Peek { pid: self.pid, addr: aligned },
        );
        proof {
            assert forall|table: Seq<Slot>|
                agrees(
                    step.0,
                    table,
                    step.1,
                    #[trigger] self.write_byte_of(addr, value, purpose, table, note),
                ) by {
                let stage = Stage::Patching { addr, value, saved: None, purpose };
                let request = Request::Peek { pid: self.pid, addr: aligned };
                assert(agrees(step.0, table, step.1, self.ask_of(stage, table, note, request)));
            }
        }
        step
    }

    fn install_from(self, index: usize, table: &BreakpointTable, note: Option<Message>) -> (step: (
        Inferior,
        Progress,
    ))
        ensures
            agrees(step.0, table@, step.1, self.install_of(index as int, table@, note)),
    {
        match table.slot(index) {
            Some(slot) => self.write_byte(slot.addr, TRAP_BYTE, Purpose::InstallAll, note),
            None => self.finish(note, Outcome::Started),
        }
    }

    fn install_after(self, addr: usize, table: &BreakpointTable, note: Option<Message>) -> (step: (
        Inferior,
        Progress,
    ))
        ensures
            agrees(
                step.0,
                table@,
                step.1,
                self.install_of(position(table@, addr) + 1, table@, note),
            ),
    {
        match table.find(addr) {
            Some(index) => self.install_from(index + 1, table, note),
            None => self.finish(note, Outcome::Started),
        }
    }

    fn patched(self, addr: usize, purpose: Purpose, saved: u8, table: &mut BreakpointTable) -> (step:
        (Inferior, Progress))
        ensures
            agrees(
                step.0,
                final(table)@,
                step.1,
                self.patched_of(addr, purpose, saved, old(table)@),
            ),
            well_formed(old(table)@) ==> well_formed(final(table)@),
    {
        match purpose {
            Purpose::InstallAll => {
                table.record(addr, Some(saved));
                self.install_after(addr, table, None)
            },
            Purpose::InstallOne => {
                table.record(addr, Some(saved));
                self.finish(None, Outcome::Placed)
            },
            Purpose::Restore => self.ask(
                Stage::Stepping { addr },
                None,
                Request::Step { pid: self.pid },
            ),
            Purpose::Reinstall => {
                let calm = Inferior { trap: None, ..self };
                calm.ask(Stage::Resuming, None, Request::Cont { pid: self.pid })
            },
        }
    }

    fn unpatched(self, addr: usize, purpose: Purpose, fault: Fault, table: &mut BreakpointTable) -> (step:
        (Inferior, Progress))
        ensures
            agrees(
                step.0,
                final(table)@,
                step.1,
                self.unpatched_of(addr, purpose, fault, old(table)@),
            ),
            well_formed(old(table)@) ==> well_formed(final(table)@),
    {
        match purpose {
            Purpose::InstallAll => {
                table.record(addr, None);
                self.install_after(addr, table, Some(Message::BreakpointFailed(addr, fault)))
            },
            Purpose::InstallOne => {
                table.record(addr, None);
                self.finish(Some(Message::BreakpointFailed(addr, fault)), Outcome::Placed)
            },
            Purpose::Restore => self.finish(None, Outcome::Failed(fault)),
            Purpose::Reinstall => {
                table.record(addr, None);
                let calm = Inferior { trap: None, ..self };
                calm.finish(None, Outcome::Failed(fault))
            },
        }
    }

    fn give_up(self, reply: Reply) -> (step: (Inferior, Progress))
        ensures
            forall|table: Seq<Slot>|
                agrees(step.0, table, step.1, #[trigger] self.give_up_of(reply, table)),
    {
        let fault: Fault = match reply {
            Reply::Failed(errno) => Fault::Os(errno),
            _ => Fault::Protocol,
        };
        let step = self.finish(None, Outcome::Failed(fault));
        proof {
            assert forall|table: Seq<Slot>|
                agrees(step.0, table, step.1, #[trigger] self.give_up_of(reply, table)) by {
                assert(agrees(
                    step.0,
                    table,
                    step.1,
                    self.finish_of(table, None, Outcome::Failed(fault)),
                ));
            }
        }
        step
    }

    fn cont_step(self, table: &BreakpointTable) -> (step: (Inferior, Progress))
        ensures
            agrees(step.0, table@, step.1, self.cont_of(table@)),
    {
        let rewind: Option<usize> = match self.trap {
            Some(addr) => if table.installed(addr).is_some() {
                Some(addr)
            } else {
                None
            },
            None => None,
        };
        match rewind {
            Some(addr) => self.ask(
                Stage::Rewinding { addr },
                None,
                Request::SetRip { pid: self.pid, rip: addr },
            ),
            None => {
                let calm = Inferior { trap: None, ..self };
                calm.ask(Stage::Resuming, None, Request::Cont { pid: self.pid })
            },
        }
    }

    /// Begins to let the process run, and gives the first request.
    ///
    /// Where the process is stopped at an installed breakpoint, the operation
    /// sets the instruction pointer back to the breakpoint, puts the original
    /// byte back, executes that one instruction, puts the trap back and only
    /// then lets the process run. It ends with `Outcome::Resumed` and the new
    /// state of the process.
    pub fn cont(&mut self, table: &BreakpointTable) -> (request: Request)
        ensures
            *final(self) == old(self).cont_of(table@).inferior,
            Move::Ask(request) == old(self).cont_of(table@).next,
    {
        let (next, progress) = self.cont_step(table);
        *self = next;
        match progress.next {
            Move::Ask(request) => request,
            Move::Done(_) => Request::Cont { pid: self.pid },
        }
    }

    /// Asks to wait for the next change of state of the running process.
    pub fn wait(&mut self) -> (request: Request)
        ensures
            *final(self) == (Inferior { stage: Stage::Running, ..*old(self) }),
            request == (Request::Wait { pid: old(self).pid }),
    {
        self.stage = Stage::Running;
        Request::Wait { pid: self.pid }
    }

    /// Ends whatever operation is under way and asks to terminate the process
    /// and to reap it.
    pub fn kill(&mut self) -> (request: Request)
        ensures
            *final(self) == (Inferior { stage: Stage::Idle, ..*old(self) }),
            request == (Request::Kill { pid: old(self).pid }),
    {
        self.stage = Stage::Idle;
        Request::Kill { pid: self.pid }
    }

    /// Begins a walk up the call stack of the stopped process, and gives the
    /// first request. Each frame comes out as a `Message::Frame`; the
    /// operation ends with `Outcome::Walked`.
    pub fn backtrace(&mut self) -> (request: Request)
        ensures
            *final(self) == (Inferior { stage: Stage::Probing, ..*old(self) }),
            request == (Request::GetRegs { pid: old(self).pid }),
    {
        self.stage = Stage::Probing;
        Request::GetRegs { pid: self.pid }
    }

    /// Begins to install a breakpoint at `addr` in the stopped process, and
    /// gives the first request. The operation ends with `Outcome::Placed`.
    pub fn set_breakpoint(&mut self, addr: usize) -> (request: Request)
        ensures
            *final(self) == (Inferior {
                stage: Stage::Patching {
                    addr,
                    value: TRAP_BYTE,
                    saved: None,
                    purpose: Purpose::InstallOne,
                },
                ..*old(self)
            }),
            request == (Request::Peek { pid: old(self).pid, addr: word_start(addr) }),
    {
        let aligned: usize = align_addr_to_word(addr);
        self.stage = Stage::Patching {
            addr,
            value: TRAP_BYTE,
            saved: None,
            purpose: Purpose::InstallOne,
        };
        Request::Peek { pid: self.pid, addr: aligned }
    }

    /// Takes the reply to the last request and gives the next step of the
    /// operation under way.
    pub fn advance(&mut self, reply: Reply, table: &mut BreakpointTable) -> (progress: Progress)
        ensures
            agrees(
                *final(self),
                final(table)@,
                progress,
                old(self).advance_of(reply, old(table)@),
            ),
            well_formed(old(table)@) ==> well_formed(final(table)@),
    {
        let me: Inferior = *self;
        let pid: i32 = me.pid;
        let (next, progress) = match me.stage {
            Stage::Idle => me.finish(None, Outcome::Failed(Fault::Protocol)),
            Stage::Starting => match reply {
                Reply::Stopped(_) => me.install_from(0, table, None),
                Reply::Exited(_) | Reply::Signaled(_) => me.finish(
                    None,
                    Outcome::Unstarted { alive: false },
                ),
                _ => me.finish(None, Outcome::Unstarted { alive: true }),
            },
            Stage::Patching { addr, value, saved: None, purpose } => match reply {
                Reply::Word(word) => {
                    let aligned: usize = align_addr_to_word(addr);
                    let offset: usize = addr - aligned;
                    let saved: u8 = extract_byte(word, offset);
                    let patched: u64 = replace_byte(word, offset, value);
                    me.ask(
                        Stage::Patching { addr, value, saved: Some(saved), purpose },
                        None,
                        Request::Poke { pid, addr: aligned, word: patched },
                    )
                },
                _ => {
                    let fault: Fault = fault(&reply);
                    me.unpatched(addr, purpose, fault, table)
                },
            },
            Stage::Patching { addr, value, saved: Some(saved), purpose } => match reply {
                Reply::Done => me.patched(addr, purpose, saved, table),
                _ => {
                    let fault: Fault = fault(&reply);
                    me.unpatched(addr, purpose, fault, table)
                },
            },
            Stage::Rewinding { addr } => match reply {
                Reply::Done => match table.installed(addr) {
                    Some(breakpoint) => me.write_byte(
                        addr,
                        breakpoint.orig_byte,
                        Purpose::Restore,
                        None,
                    ),
                    None => {
                        let calm = Inferior { trap: None, ..me };
                        calm.ask(Stage::Resuming, None, Request::Cont { pid })
                    },
                },
                _ => me.give_up(reply),
            },
            Stage::Stepping { addr } => match reply {
                Reply::Done => me.ask(Stage::Stepped { addr }, None, Request::Wait { pid }),
                _ => me.give_up(reply),
            },
            Stage::Stepped { addr } => match reply {
                Reply::Stopped(_) => me.write_byte(addr, TRAP_BYTE, Purpose::Reinstall, None),
                Reply::Exited(code) => me.finish(None, Outcome::Resumed(Status::Exited(code))),
                Reply::Signaled(signal) => me.finish(
                    None,
                    Outcome::Resumed(Status::Signaled(signal)),
                ),
                _ => me.give_up(reply),
            },
            Stage::Resuming => match reply {
                Reply::Done => me.ask(Stage::Running, None, Request::Wait { pid }),
                _ => me.give_up(reply),
            },
            Stage::Running => match reply {
                Reply::Stopped(signal) => me.ask(
                    Stage::Locating { signal },
                    None,
                    Request::GetRegs { pid },
                ),
                Reply::Exited(code) => me.finish(None, Outcome::Resumed(Status::Exited(code))),
                Reply::Signaled(signal) => me.finish(
                    None,
                    Outcome::Resumed(Status::Signaled(signal)),
                ),
                _ => me.give_up(reply),
            },
            Stage::Locating { signal } => match reply {
                Reply::Regs { rip, rbp } => {
                    let trap: Option<usize> = if rip >= 1 && table.installed(rip - 1).is_some() {
                        Some(rip - 1)
                    } else {
                        None
                    };
                    let stopped = Inferior { trap, ..me };
                    stopped.finish(None, Outcome::Resumed(Status::Stopped(signal, rip)))
                },
                _ => me.give_up(reply),
            },
            Stage::Probing => match reply {
                Reply::Regs { rip, rbp } => me.ask(
                    Stage::Naming { base: rbp },
                    None,
                    Request::Resolve { addr: rip },
                ),
                _ => me.give_up(reply),
            },
            Stage::Naming { base } => match reply {
                Reply::Resolved { function: Some(function), line } => {
                    let note: Option<Message> = Some(Message::Frame { function, line });
                    let width: usize = (usize::BITS / 8) as usize;
                    if base == 0 {
                        me.finish(note, Outcome::Walked)
                    } else if base > usize::MAX - width {
                        me.finish(note, Outcome::Failed(Fault::Frame(base)))
                    } else {
                        me.ask(
                            Stage::Returning { base },
                            note,
                            Request::Peek { pid, addr: base + width },
                        )
                    }
                },
                Reply::Resolved { function: None, line } => me.finish(None, Outcome::Walked),
                _ => me.give_up(reply),
            },
            Stage::Returning { base } => match reply {
                Reply::Word(word) => me.ask(
                    Stage::Ascending { ret: #[verifier::truncate] (word as usize) },
                    None,
                    Request::Peek { pid, addr: base },
                ),
                _ => me.give_up(reply),
            },
            Stage::Ascending { ret } => match reply {
                Reply::Word(word) => me.ask(
                    Stage::Naming { base: #[verifier::truncate] (word as usize) },
                    None,
                    Request::Resolve { addr: ret },
                ),
                _ => me.give_up(reply),
            },
        };
        *self = next;
        progress
    }
}

/// The fault that `reply` stands for where it does not answer the request.
fn fault(reply: &Reply) -> (fault: Fault)
    ensures
        fault == fault_of(*reply),
{
    match reply {
        Reply::Failed(errno) => Fault::Os(*errno),
        _ => Fault::Protocol,
    }
}

} // verus!
