//! The session: the breakpoint table, at most one traced process, and what
//! each command does to them.
//!
//! A `Debugger` is driven from outside. `get_next_command` turns what the user
//! typed into a command. `run` takes a command, or the reply to the request
//! that it handed out last, and gives a `Turn`: what to tell the user, and
//! whether to ask the user for the next command, to carry out a request, or to
//! leave. `Session::run_of` is the whole transition function, and `run`
//! computes it.

use crate::breakpoints::{all_pending, inserted, installed_at, well_formed};
use crate::breakpoints::{BreakpointTable, Slot};
use crate::debugger_command::{command_of, CommandText, DebuggerCommand};
use crate::inferior::{Advance, Inferior, Move, Outcome, Progress, Purpose, Stage, Status};
use crate::protocol::{Message, Reply, Request, TRAP_BYTE};
use crate::text::{tokenize, tokens_of};
use crate::utils::{address_of, parse_address, word_start};
use vstd::prelude::*;

verus! {

/// A breakpoint in the image of the running process: where it is, and the byte
/// of code that the trap instruction replaced.
#[derive(Clone, Copy, Debug, PartialEq, Eq)]
pub struct Breakpoint {
    pub addr: usize,
    pub orig_byte: u8,
}

/// Why the debug information of the target could not be loaded.
#[derive(Clone, Debug, PartialEq, Eq)]
pub enum DwarfError {
    /// The file could not be opened.
    ErrorOpeningFile,
    /// The file does not hold debug information that can be read.
    DwarfFormatError(String),
}

/// What came from the prompt.
#[derive(Clone, Debug, PartialEq, Eq)]
pub enum Input {
    /// A line of text.
    Line(String),
    /// The user pressed the interrupt key.
    Interrupted,
    /// The input has ended.
    Eof,
}

/// What to make of an `Input`.
#[derive(Clone, Debug, PartialEq, Eq)]
pub enum Fetched {
    /// There is no command yet: tell the user the message, if there is one,
    /// and read again.
    Again(Option<Message>),
    /// The command to run.
    Command(DebuggerCommand),
}

/// What a session is given.
#[derive(Clone, Debug, PartialEq, Eq)]
pub enum Event {
    /// The command that the user gave.
    Command(DebuggerCommand),
    /// The reply to the request that the session handed out last.
    Reply(Reply),
}

/// What a session wants next.
#[derive(Clone, Debug, PartialEq, Eq)]
pub enum Next {
    /// The next command of the user.
    Prompt,
    /// The reply to the request.
    Trace(Request),
    /// Nothing: the session is over.
    Exit,
}

/// What one step of a session gives.
#[derive(Clone, Debug, PartialEq, Eq)]
pub struct Turn {
    pub messages: Vec<Message>,
    pub next: Next,
}

/// What a session is waiting for.
#[derive(Clone, Debug, PartialEq, Eq)]
pub enum Phase {
    /// A command.
    Idle,
    /// The end of the old process, before the target is launched anew with the
    /// arguments.
    Replacing(Vec<String>),
    /// The launch of the target.
    Launching,
    /// The next reply in an operation of the inferior.
    Tracing,
    /// The source line of the place where the process stopped.
    Reporting,
    /// The end of a process that did not start properly.
    Clearing,
    /// The end of the process, before the session ends.
    Leaving,
    /// Nothing: the session is over.
    Finished,
}

/// The state of a session.
pub struct Session {
    /// The path of the program to debug.
    pub target: String,
    /// The breakpoints that were asked for.
    pub table: Seq<Slot>,
    /// The traced process, if there is one.
    pub inferior: Option<Inferior>,
    /// What the session is waiting for.
    pub phase: Phase,
}

/// One step of a session, as a value: the session after the step, and what the
/// step gives.
pub struct Step {
    pub session: Session,
    pub messages: Seq<Message>,
    pub next: Next,
}

/// `note` as a sequence of messages: one message, or none.
pub open spec fn said(note: Option<Message>) -> Seq<Message> {
    match note {
        Some(message) => seq![message],
        None => Seq::empty(),
    }
}

/// The address that the text after `break` names, if it names one: a
/// hexadecimal address, with or without a `*` in front.
pub open spec fn place_of(place: Seq<char>) -> Option<usize> {
    if place.len() > 0 && place[0] == '*' {
        address_of(place.skip(1))
    } else {
        address_of(place)
    }
}

impl Session {
    /// The session at its start: no breakpoints, no process.
    pub open spec fn initial(target: String) -> Session {
        Session { target, table: Seq::empty(), inferior: None, phase: Phase::Idle }
    }

    /// The step that tells the user `messages` and asks for a command.
    pub open spec fn prompt(self, messages: Seq<Message>) -> Step {
        Step { session: Session { phase: Phase::Idle, ..self }, messages, next: Next::Prompt }
    }

    /// The step that tells the user `messages` and asks for `request`, whose
    /// reply is awaited in `phase`.
    pub open spec fn trace(self, phase: Phase, messages: Seq<Message>, request: Request) -> Step {
        Step { session: Session { phase, ..self }, messages, next: Next::Trace(request) }
    }

    /// The step that ends the session.
    pub open spec fn leave(self) -> Step {
        Step {
            session: Session { phase: Phase::Finished, ..self },
            messages: Seq::empty(),
            next: Next::Exit,
        }
    }

    /// The session without its process: nothing is installed any more.
    pub open spec fn bereft(self) -> Session {
        Session { inferior: None, table: all_pending(self.table), ..self }
    }

    /// The step that begins to let the process run.
    pub open spec fn continue_of(self) -> Step {
        match self.inferior {
            Some(inferior) => {
                let begun = inferior.cont_of(self.table);
                match begun.next {
                    Move::Ask(request) => Session { inferior: Some(begun.inferior), ..self }.trace(
                        Phase::Tracing,
                        Seq::empty(),
                        request,
                    ),
                    Move::Done(_) => self.prompt(Seq::empty()),
                }
            },
            None => self.prompt(seq![Message::NothingToContinue]),
        }
    }

    /// The step that asks for a breakpoint at the place that `place` names.
    pub open spec fn break_of(self, place: Seq<char>) -> Step {
        match place_of(place) {
            None => self.prompt(seq![Message::InvalidAddress]),
            Some(addr) => {
                let table = inserted(self.table, addr);
                match self.inferior {
                    Some(inferior) if installed_at(table, addr) is None => Session {
                        table,
                        inferior: Some(
                            Inferior {
                                stage: Stage::Patching {
                                    addr,
                                    value: TRAP_BYTE,
                                    saved: None,
                                    purpose: Purpose::InstallOne,
                                },
                                ..inferior
                            },
                        ),
                        ..self
                    }.trace(
                        Phase::Tracing,
                        seq![Message::BreakpointSet(addr)],
                        Request::Peek { pid: inferior.pid, addr: word_start(addr) },
                    ),
                    _ => Session { table, ..self }.prompt(seq![Message::BreakpointSet(addr)]),
                }
            },
        }
    }

    /// The step that `command` leads to.
    pub open spec fn obey(self, command: DebuggerCommand) -> Step {
        match command {
            DebuggerCommand::Run(args) => match self.inferior {
                Some(inferior) => self.bereft().trace(
                    Phase::Replacing(args),
                    seq![Message::Killing(inferior.pid)],
                    Request::Kill { pid: inferior.pid },
                ),
                None => self.trace(
                    Phase::Launching,
                    Seq::empty(),
                    Request::Spawn { target: self.target, args },
                ),
            },
            DebuggerCommand::Continue => self.continue_of(),
            DebuggerCommand::Quit => match self.inferior {
                Some(inferior) => self.bereft().trace(
                    Phase::Leaving,
                    seq![Message::Killing(inferior.pid)],
                    Request::Kill { pid: inferior.pid },
                ),
                None => self.leave(),
            },
            DebuggerCommand::Backtrace => match self.inferior {
                Some(inferior) => Session {
                    inferior: Some(Inferior { stage: Stage::Probing, ..inferior }),
                    ..self
                }.trace(Phase::Tracing, Seq::empty(), Request::GetRegs { pid: inferior.pid }),
                None => self.prompt(seq![Message::NothingRunning]),
            },
            DebuggerCommand::Breakpoint(place) => self.break_of(place@),
        }
    }

    /// The step that a step of the inferior leads to.
    pub open spec fn settle(self, advance: Advance) -> Step {
        let session = Session { inferior: Some(advance.inferior), table: advance.table, ..self };
        let notes = said(advance.note);
        match advance.next {
            Move::Ask(request) => session.trace(Phase::Tracing, notes, request),
            Move::Done(Outcome::Started) => {
                let begun = session.continue_of();
                Step { messages: notes + begun.messages, ..begun }
            },
            Move::Done(Outcome::Unstarted { alive }) => if alive {
                session.bereft().trace(
                    Phase::Clearing,
                    notes.push(Message::StartFailed),
                    Request::Kill { pid: advance.inferior.pid },
                )
            } else {
                session.bereft().prompt(notes.push(Message::StartFailed))
            },
            Move::Done(Outcome::Resumed(Status::Exited(code))) => session.bereft().prompt(
                notes.push(Message::Exited(code)),
            ),
            Move::Done(Outcome::Resumed(Status::Signaled(signal))) => session.bereft().prompt(
                notes.push(Message::Killed(signal)),
            ),
            Move::Done(Outcome::Resumed(Status::Stopped(signal, rip))) => session.trace(
                Phase::Reporting,
                notes.push(Message::Stopped(signal)),
                Request::Resolve { addr: rip },
            ),
            Move::Done(Outcome::Placed) => session.prompt(notes),
            Move::Done(Outcome::Walked) => session.prompt(notes),
            Move::Done(Outcome::Failed(fault)) => session.prompt(
                notes.push(Message::TraceFailed(fault)),
            ),
        }
    }

    /// The step that `reply` leads to.
    pub open spec fn reply_of(self, reply: Reply) -> Step {
        match self.phase {
            Phase::Idle => self.prompt(Seq::empty()),
            Phase::Replacing(args) => self.trace(
                Phase::Launching,
                Seq::empty(),
                Request::Spawn { target: self.target, args },
            ),
            Phase::Launching => match reply {
                Reply::Spawned(pid) => Session {
                    inferior: Some(Inferior::launched(pid)),
                    ..self
                }.trace(Phase::Tracing, Seq::empty(), Request::Wait { pid }),
                _ => self.prompt(seq![Message::StartFailed]),
            },
            Phase::Tracing => match self.inferior {
                Some(inferior) => self.settle(inferior.advance_of(reply, self.table)),
                None => self.prompt(Seq::empty()),
            },
            Phase::Reporting => match reply {
                Reply::Resolved { function, line: Some(line) } => self.prompt(
                    seq![Message::StoppedAt(line)],
                ),
                _ => self.prompt(Seq::empty()),
            },
            Phase::Clearing => self.prompt(Seq::empty()),
            Phase::Leaving => self.leave(),
            Phase::Finished => self.leave(),
        }
    }

    /// The step that `event` leads to.
    pub open spec fn run_of(self, event: Event) -> Step {
        match event {
            Event::Command(command) => self.obey(command),
            Event::Reply(reply) => self.reply_of(reply),
        }
    }
}

/// What to make of `input`, with the command as text.
pub open spec fn fetched_of(input: Input) -> Result<CommandText, Option<Message>> {
    match input {
        Input::Eof => Ok(CommandText::Quit),
        Input::Interrupted => Err(Some(Message::Interrupted)),
        Input::Line(line) => match command_of(tokens_of(line@)) {
            Some(command) => Ok(command),
            None => if tokens_of(line@).len() == 0 {
                Err(None)
            } else {
                Err(Some(Message::Unrecognized))
            },
        },
    }
}

/// Whether the session `session` and the turn `turn` are those of `step`.
pub open spec fn comes_to(session: Session, turn: Turn, step: Step) -> bool {
    &&& session == step.session
    &&& turn.messages@ == step.messages
    &&& turn.next == step.next
}

/// A debugging session on one target.
pub struct Debugger {
    target: String,
    breakpoints: BreakpointTable,
    inferior: Option<Inferior>,
    phase: Phase,
}

impl View for Debugger {
    type V = Session;

    closed spec fn view(&self) -> Session {
        Session {
            target: self.target,
            table: self.breakpoints@,
            inferior: self.inferior,
            phase: self.phase,
        }
    }
}

/// The messages of `note`: one, or none.
fn notes(note: Option<Message>) -> (messages: Vec<Message>)
    ensures
        messages@ == said(note),
{
    let mut messages: Vec<Message> = Vec::new();
    match note {
        Some(message) => {
            messages.push(message);
            assert(messages@ =~= seq![message]);
        },
        None => {},
    }
    messages
}

/// The address that the text after `break` names, if it names one.
pub fn breakpoint_address(place: &str) -> (addr: Option<usize>)
    ensures
        addr == place_of(place@),
{
    let len: usize = place.unicode_len();
    if len > 0 && place.get_char(0) == '*' {
        let rest: &str = place.substring_char(1, len);
        assert(rest@ =~= place@.skip(1));
        parse_address(rest)
    } else {
        parse_address(place)
    }
}

impl Debugger {
    /// Begins a session on `target`, once its debug information was loaded.
    /// Without debug information there is no session: the error is handed
    /// back.
    pub fn new(target: &str, debug_data: Result<(), DwarfError>) -> (made: Result<
        Debugger,
        DwarfError,
    >)
        ensures
            match debug_data {
                Ok(_) => made matches Ok(debugger) && debugger@.target@ == target@
                    && debugger@.table == Seq::<Slot>::empty() && debugger@.inferior is None
                    && debugger@.phase is Idle,
                Err(error) => made matches Err(e) && e == error,
            },
    {
        match debug_data {
            Ok(_) => Ok(
                Debugger {
                    target: target.to_owned(),
                    breakpoints: BreakpointTable::new(),
                    inferior: None,
                    phase: Phase::Idle,
                },
            ),
            Err(error) => Err(error),
        }
    }

    /// The traced process, if there is one.
    pub fn inferior(&self) -> (inferior: Option<Inferior>)
        ensures
            inferior == self@.inferior,
    {
        self.inferior
    }

    /// The table of breakpoints.
    pub fn breakpoints(&self) -> (table: &BreakpointTable)
        ensures
            table@ == self@.table,
    {
        &self.breakpoints
    }

    /// Makes a command of what came from the prompt.
    ///
    /// The end of the input stands for `quit`. A line without tokens is passed
    /// over in silence; a line that is no command, and an interrupt, are
    /// answered with a message.
    pub fn get_next_command(input: Input) -> (fetched: Fetched)
        ensures
            match fetched_of(input) {
                Ok(text) => fetched matches Fetched::Command(command) && command@ == text,
                Err(note) => fetched == Fetched::Again(note),
            },
    {
        match input {
            Input::Eof => Fetched::Command(DebuggerCommand::Quit),
            Input::Interrupted => Fetched::Again(Some(Message::Interrupted)),
            Input::Line(line) => {
                let tokens: Vec<&str> = tokenize(line.as_str());
                if tokens.len() == 0 {
                    Fetched::Again(None)
                } else {
                    match DebuggerCommand::from_tokens(&tokens) {
                        Some(command) => Fetched::Command(command),
                        None => Fetched::Again(Some(Message::Unrecognized)),
                    }
                }
            },
        }
    }

    fn prompt(&mut self, messages: Vec<Message>) -> (turn: Turn)
        ensures
            comes_to(final(self)@, turn, old(self)@.prompt(messages@)),
    {
        self.phase = Phase::Idle;
        Turn { messages, next: Next::Prompt }
    }

    fn trace(&mut self, phase: Phase, messages: Vec<Message>, request: Request) -> (turn: Turn)
        ensures
            comes_to(final(self)@, turn, old(self)@.trace(phase, messages@, request)),
    {
        self.phase = phase;
        Turn { messages, next: Next::Trace(request) }
    }

    fn leave(&mut self) -> (turn: Turn)
        ensures
            comes_to(final(self)@, turn, old(self)@.leave()),
    {
        self.phase = Phase::Finished;
        Turn { messages: Vec::new(), next: Next::Exit }
    }

    /// Lets go of the traced process, if there is one, and gives the request
    /// that terminates and reaps it. Nothing is installed any more.
    pub fn kill_inferior(&mut self) -> (request: Option<Request>)
        ensures
            match old(self)@.inferior {
                Some(inferior) => request == Some(Request::Kill { pid: inferior.pid })
                    && final(self)@ == old(self)@.bereft(),
                None => request is None && final(self)@ == old(self)@,
            },
            well_formed(old(self)@.table) ==> well_formed(final(self)@.table),
    {
        match self.inferior {
            Some(inferior) => {
                let mut inferior: Inferior = inferior;
                let request: Request = inferior.kill();
                self.inferior = None;
                self.breakpoints.forget();
                Some(request)
            },
            None => None,
        }
    }

    /// Begins to let the traced process run, or says that there is none.
    pub fn continue_inferior(&mut self) -> (turn: Turn)
        ensures
            comes_to(final(self)@, turn, old(self)@.continue_of()),
    {
        match self.inferior {
            Some(inferior) => {
                let mut inferior: Inferior = inferior;
                let request: Request = inferior.cont(&self.breakpoints);
                self.inferior = Some(inferior);
                self.trace(Phase::Tracing, Vec::new(), request)
            },
            None => {
                let mut messages: Vec<Message> = Vec::new();
                messages.push(Message::NothingToContinue);
                assert(messages@ =~= seq![Message::NothingToContinue]);
                self.prompt(messages)
            },
        }
    }

    fn set_break(&mut self, place: &str) -> (turn: Turn)
        ensures
            comes_to(final(self)@, turn, old(self)@.break_of(place@)),
            well_formed(old(self)@.table) ==> well_formed(final(self)@.table),
    {
        let mut messages: Vec<Message> = Vec::new();
        match breakpoint_address(place) {
            None => {
                messages.push(Message::InvalidAddress);
                assert(messages@ =~= seq![Message::InvalidAddress]);
                self.prompt(messages)
            },
            Some(addr) => {
                messages.push(Message::BreakpointSet(addr));
                assert(messages@ =~= seq![Message::BreakpointSet(addr)]);
                self.breakpoints.insert(addr);
                match self.inferior {
                    Some(inferior) => {
                        if self.breakpoints.installed(addr).is_none() {
                            let mut inferior: Inferior = inferior;
                            let request: Request = inferior.set_breakpoint(addr);
                            self.inferior = Some(inferior);
                            self.trace(Phase::Tracing, messages, request)
                        } else {
                            self.prompt(messages)
                        }
                    },
                    None => self.prompt(messages),
                }
            },
        }
    }

    fn obey(&mut self, command: DebuggerCommand) -> (turn: Turn)
        ensures
            comes_to(final(self)@, turn, old(self)@.obey(command)),
            well_formed(old(self)@.table) ==> well_formed(final(self)@.table),
    {
        match command {
            DebuggerCommand::Run(args) => match self.kill_inferior() {
                Some(request) => {
                    let mut messages: Vec<Message> = Vec::new();
                    match request {
                        Request::Kill { pid } => {
                            messages.push(Message::Killing(pid));
                            assert(messages@ =~= seq![Message::Killing(pid)]);
                        },
                        _ => {},
                    }
                    self.trace(Phase::Replacing(args), messages, request)
                },
                None => {
                    let target: String = self.target.clone();
                    self.trace(Phase::Launching, Vec::new(), Request::Spawn { target, args })
                },
            },
            DebuggerCommand::Continue => self.continue_inferior(),
            DebuggerCommand::Quit => match self.kill_inferior() {
                Some(request) => {
                    let mut messages: Vec<Message> = Vec::new();
                    match request {
                        Request::Kill { pid } => {
                            messages.push(Message::Killing(pid));
                            assert(messages@ =~= seq![Message::Killing(pid)]);
                        },
                        _ => {},
                    }
                    self.trace(Phase::Leaving, messages, request)
                },
                None => self.leave(),
            },
            DebuggerCommand::Backtrace => match self.inferior {
                Some(inferior) => {
                    let mut inferior: Inferior = inferior;
                    let request: Request = inferior.backtrace();
                    self.inferior = Some(inferior);
                    self.trace(Phase::Tracing, Vec::new(), request)
                },
                None => {
                    let mut messages: Vec<Message> = Vec::new();
                    messages.push(Message::NothingRunning);
                    assert(messages@ =~= seq![Message::NothingRunning]);
                    self.prompt(messages)
                },
            },
            DebuggerCommand::Breakpoint(place) => self.set_break(place.as_str()),
        }
    }

    fn bereave(&mut self)
        ensures
            final(self)@ == old(self)@.bereft(),
            well_formed(old(self)@.table) ==> well_formed(final(self)@.table),
    {
        self.inferior = None;
        self.breakpoints.forget();
    }

    fn settle(&mut self, progress: Progress, Ghost(advance): Ghost<Advance>) -> (turn: Turn)
        requires
            old(self)@.inferior == Some(advance.inferior),
            old(self)@.table == advance.table,
            progress.note == advance.note,
            progress.next == advance.next,
        ensures
            comes_to(final(self)@, turn, old(self)@.settle(advance)),
            well_formed(old(self)@.table) ==> well_formed(final(self)@.table),
    {
        let pid: i32 = match self.inferior {
            Some(inferior) => inferior.pid,
            None => 0,
        };
        let mut messages: Vec<Message> = notes(progress.note);
        match progress.next {
            Move::Ask(request) => self.trace(Phase::Tracing, messages, request),
            Move::Done(Outcome::Started) => {
                let begun: Turn = self.continue_inferior();
                let ghost first = messages@;
                let mut rest: Vec<Message> = begun.messages;
                messages.append(&mut rest);
                Turn { messages, next: begun.next }
            },
            Move::Done(Outcome::Unstarted { alive }) => {
                messages.push(Message::StartFailed);
                self.bereave();
                if alive {
                    self.trace(Phase::Clearing, messages, Request::Kill { pid })
                } else {
                    self.prompt(messages)
                }
            },
            Move::Done(Outcome::Resumed(Status::Exited(code))) => {
                messages.push(Message::Exited(code));
                self.bereave();
                self.prompt(messages)
            },
            Move::Done(Outcome::Resumed(Status::Signaled(signal))) => {
                messages.push(Message::Killed(signal));
                self.bereave();
                self.prompt(messages)
            },
            Move::Done(Outcome::Resumed(Status::Stopped(signal, rip))) => {
                messages.push(Message::Stopped(signal));
                self.trace(Phase::Reporting, messages, Request::Resolve { addr: rip })
            },
            Move::Done(Outcome::Placed) => self.prompt(messages),
            Move::Done(Outcome::Walked) => self.prompt(messages),
            Move::Done(Outcome::Failed(fault)) => {
                messages.push(Message::TraceFailed(fault));
                self.prompt(messages)
            },
        }
    }

    fn answer(&mut self, reply: Reply) -> (turn: Turn)
        ensures
            comes_to(final(self)@, turn, old(self)@.reply_of(reply)),
            well_formed(old(self)@.table) ==> well_formed(final(self)@.table),
    {
        let mut phase: Phase = Phase::Idle;
        core::mem::swap(&mut self.phase, &mut phase);
        match phase {
            Phase::Idle => self.prompt(Vec::new()),
            Phase::Replacing(args) => {
                let target: String = self.target.clone();
                self.trace(Phase::Launching, Vec::new(), Request::Spawn { target, args })
            },
            Phase::Launching => match reply {
                Reply::Spawned(pid) => {
                    let (inferior, request) = Inferior::new(pid);
                    self.inferior = Some(inferior);
                    self.trace(Phase::Tracing, Vec::new(), request)
                },
                _ => {
                    let mut messages: Vec<Message> = Vec::new();
                    messages.push(Message::StartFailed);
                    assert(messages@ =~= seq![Message::StartFailed]);
                    self.prompt(messages)
                },
            },
            Phase::Tracing => match self.inferior {
                Some(inferior) => {
                    let ghost advance = inferior.advance_of(reply, self.breakpoints@);
                    let mut inferior: Inferior = inferior;
                    let progress: Progress = inferior.advance(reply, &mut self.breakpoints);
                    self.inferior = Some(inferior);
                    self.settle(progress, Ghost(advance))
                },
                None => self.prompt(Vec::new()),
            },
            Phase::Reporting => match reply {
                Reply::Resolved { function, line: Some(line) } => {
                    let mut messages: Vec<Message> = Vec::new();
                    messages.push(Message::StoppedAt(line));
                    assert(messages@ =~= seq![Message::StoppedAt(line)]);
                    self.prompt(messages)
                },
                _ => self.prompt(Vec::new()),
            },
            Phase::Clearing => self.prompt(Vec::new()),
            Phase::Leaving => self.leave(),
            Phase::Finished => self.leave(),
        }
    }

    /// Takes one step of the session.
    ///
    /// A command is carried out as far as the session can without the tracing
    /// layer; a reply takes up the work where the last request left it. The
    /// turn says what to tell the user and what the session waits for next.
    pub fn run(&mut self, event: Event) -> (turn: Turn)
        ensures
            comes_to(final(self)@, turn, old(self)@.run_of(event)),
            well_formed(old(self)@.table) ==> well_formed(final(self)@.table),
    {
        match event {
            Event::Command(command) => self.obey(command),
            Event::Reply(reply) => self.answer(reply),
        }
    }
}

} // verus!
