//! What holds of a session and of the controller of its process, whatever the
//! user types and whatever the process does.
//!
//! The statements here are about the transition functions `Session::run_of`
//! and `Inferior::advance_of`, which `Debugger::run` and `Inferior::advance`
//! compute. Where a statement speaks of the code of the process, it does so
//! over the model of memory in `patch`: a read gives the bytes that are there,
//! and a write leaves the bytes that were written.

use crate::breakpoints::{distinct, inserted, installed_at, listed, recorded, well_formed};
use crate::breakpoints::{lemma_insert_twice, lemma_position, lemma_position_push};
use crate::breakpoints::{lemma_position_by_addresses, lemma_position_of_entry};
use crate::breakpoints::Slot;
use crate::debugger::{place_of, Breakpoint, Event, Next, Phase, Session};
use crate::debugger_command::DebuggerCommand;
use crate::inferior::{Inferior, Move, Outcome, Stage, Status};
use crate::patch::{lemma_word_at, lemma_write_byte, mapped, word_at, word_byte, written};
use crate::protocol::{Line, Message, Reply, Request, TRAP_BYTE};
use crate::utils::{byte_offset, lemma_word_of, word_bytes, word_start};
use vstd::prelude::*;

verus! {

/// A controller at work on a process: the controller, the table, the memory of
/// the process, and what the controller wants next.
pub struct Pass {
    pub inferior: Inferior,
    pub table: Seq<Slot>,
    pub memory: Map<int, u8>,
    pub next: Move,
}

/// Carries out reads and writes of memory for the controller, at most `fuel`
/// of them, for as long as it asks for one: a read is answered with the word
/// that is in memory, a write changes the memory and is answered with `Done`.
pub open spec fn drive(pass: Pass, fuel: nat) -> Pass
    decreases fuel,
{
    if fuel == 0 {
        pass
    } else {
        match pass.next {
            Move::Ask(Request::Peek { pid, addr }) => {
                let step = pass.inferior.advance_of(
                    Reply::Word(word_at(pass.memory, addr as int)),
                    pass.table,
                );
                drive(
                    Pass {
                        inferior: step.inferior,
                        table: step.table,
                        memory: pass.memory,
                        next: step.next,
                    },
                    (fuel - 1) as nat,
                )
            },
            Move::Ask(Request::Poke { pid, addr, word }) => {
                let step = pass.inferior.advance_of(Reply::Done, pass.table);
                drive(
                    Pass {
                        inferior: step.inferior,
                        table: step.table,
                        memory: written(pass.memory, addr as int, word),
                        next: step.next,
                    },
                    (fuel - 1) as nat,
                )
            },
            _ => pass,
        }
    }
}

/// Whether one of the first `count` entries of `table` is for the address `a`.
pub open spec fn among(table: Seq<Slot>, count: int, a: int) -> bool {
    exists|i: int| 0 <= i < count && i < table.len() && (#[trigger] table[i]).addr == a
}

/// Whether `table` and `memory` are what installing the first `count` entries
/// of `before` makes of `before` and `origin`: each of these entries holds the
/// byte that was at its address, the trap is at its address, and nothing else
/// has changed.
pub open spec fn installed_up_to(
    before: Seq<Slot>,
    origin: Map<int, u8>,
    table: Seq<Slot>,
    memory: Map<int, u8>,
    count: int,
) -> bool {
    &&& table.len() == before.len()
    &&& forall|i: int| 0 <= i < table.len() ==> (#[trigger] table[i]).addr == before[i].addr
    &&& forall|i: int|
        0 <= i < count && i < table.len() ==> (#[trigger] table[i]).state == Some(
            Breakpoint { addr: before[i].addr, orig_byte: origin[before[i].addr as int] },
        )
    &&& memory.dom() == origin.dom()
    &&& forall|a: int| #[trigger]
        memory.dom().contains(a) ==> memory[a] == if among(before, count, a) {
            TRAP_BYTE
        } else {
            origin[a]
        }
}

/// Whether the word of every entry of `table` is in `memory`.
pub open spec fn all_mapped(table: Seq<Slot>, memory: Map<int, u8>) -> bool {
    forall|i: int|
        0 <= i < table.len() ==> mapped(
            memory,
            word_start((#[trigger] table[i]).addr) as int,
            word_bytes(),
        )
}

/// The table after the breakpoint of entry `index` was installed over the
/// byte `saved`.
pub open spec fn entry_installed(table: Seq<Slot>, index: int, saved: u8) -> Seq<Slot> {
    recorded(table, table[index].addr, Some(saved))
}

/// Installing one entry of the table takes a read and a write of the word
/// that holds its address. The write puts the trap at the address and changes
/// no other byte; the entry then holds the byte that was there; and the
/// controller goes on to the next entry.
pub proof fn lemma_install_entry(
    inferior: Inferior,
    table: Seq<Slot>,
    memory: Map<int, u8>,
    index: int,
    note: Option<Message>,
)
    requires
        distinct(table),
        0 <= index < table.len(),
        mapped(memory, word_start(table[index].addr) as int, word_bytes()),
    ensures
        ({
            let addr = table[index].addr;
            let start = inferior.install_of(index, table, note);
            let pass = Pass { inferior: start.inferior, table: start.table, memory, next: start.next };
            let marked = entry_installed(table, index, memory[addr as int]);
            let rest = inferior.install_of(index + 1, marked, None);
            &&& memory.dom().contains(addr as int)
            &&& marked == table.update(
                index,
                Slot {
                    addr,
                    state: Some(Breakpoint { addr, orig_byte: memory[addr as int] }),
                },
            )
            &&& forall|fuel: nat| #[trigger]
                drive(pass, fuel + 2) == drive(
                    Pass {
                        inferior: rest.inferior,
                        table: rest.table,
                        memory: memory.insert(addr as int, TRAP_BYTE),
                        next: rest.next,
                    },
                    fuel,
                )
        }),
{
    let addr = table[index].addr;
    let at = word_start(addr);
    let offset = byte_offset(addr);
    lemma_word_of(addr);
    assert(memory.dom().contains(addr as int)) by {
        assert(addr as int == at as int + offset);
    }
    let word = word_at(memory, at as int);
    lemma_word_at(memory, at as int);
    lemma_write_byte(memory, addr, TRAP_BYTE, word);
    let saved = word_byte(word, offset);
    let marked = recorded(table, addr, Some(saved));
    lemma_position_of_entry(table, index);
    lemma_position_by_addresses(table, marked, addr);
    let start = inferior.install_of(index, table, note);
    let pass = Pass { inferior: start.inferior, table: start.table, memory, next: start.next };
    let read = start.inferior.advance_of(Reply::Word(word), table);
    let second = Pass { inferior: read.inferior, table: read.table, memory, next: read.next };
    let done = read.inferior.advance_of(Reply::Done, table);
    let rest = inferior.install_of(index + 1, marked, None);
    assert(done == rest);
    let third = Pass {
        inferior: rest.inferior,
        table: rest.table,
        memory: memory.insert(addr as int, TRAP_BYTE),
        next: rest.next,
    };
    assert forall|fuel: nat| #[trigger] drive(pass, fuel + 2) == drive(third, fuel) by {
        assert(drive(pass, fuel + 2) == drive(second, (fuel + 1) as nat));
        assert(drive(second, (fuel + 1) as nat) == drive(third, fuel));
    }
}

proof fn lemma_among_next(table: Seq<Slot>, index: int, a: int)
    requires
        0 <= index < table.len(),
    ensures
        among(table, index + 1, a) == (among(table, index, a) || table[index].addr == a),
{
    if among(table, index + 1, a) {
        let i = choose|i: int| 0 <= i < index + 1 && i < table.len() && (#[trigger] table[i]).addr == a;
        if i < index {
            assert(among(table, index, a));
        }
    }
    if among(table, index, a) {
        let i = choose|i: int| 0 <= i < index && i < table.len() && (#[trigger] table[i]).addr == a;
        assert(0 <= i < index + 1 && table[i].addr == a);
    }
    if table[index].addr == a {
        assert(0 <= index < index + 1 && table[index].addr == a);
    }
}

proof fn lemma_installed_next(
    before: Seq<Slot>,
    origin: Map<int, u8>,
    table: Seq<Slot>,
    memory: Map<int, u8>,
    index: int,
)
    requires
        distinct(before),
        0 <= index < before.len(),
        installed_up_to(before, origin, table, memory, index),
        memory.dom().contains(before[index].addr as int),
    ensures
        memory[before[index].addr as int] == origin[before[index].addr as int],
        installed_up_to(
            before,
            origin,
            table.update(
                index,
                Slot {
                    addr: before[index].addr,
                    state: Some(
                        Breakpoint {
                            addr: before[index].addr,
                            orig_byte: origin[before[index].addr as int],
                        },
                    ),
                },
            ),
            memory.insert(before[index].addr as int, TRAP_BYTE),
            index + 1,
        ),
{
    let addr = before[index].addr;
    if among(before, index, addr as int) {
        let i = choose|i: int| 0 <= i < index && i < before.len() && (#[trigger] before[i]).addr == addr as int;
        assert(before[i].addr != before[index].addr);
    }
    let after = memory.insert(addr as int, TRAP_BYTE);
    assert(after.dom() =~= origin.dom());
    assert forall|a: int| #[trigger] after.dom().contains(a) implies after[a] == if among(
        before,
        index + 1,
        a,
    ) {
        TRAP_BYTE
    } else {
        origin[a]
    } by {
        lemma_among_next(before, index, a);
        assert(memory.dom().contains(a));
    }
}

proof fn lemma_install_rest(
    inferior: Inferior,
    before: Seq<Slot>,
    origin: Map<int, u8>,
    table: Seq<Slot>,
    memory: Map<int, u8>,
    index: int,
    note: Option<Message>,
)
    requires
        distinct(before),
        all_mapped(before, origin),
        0 <= index <= before.len(),
        installed_up_to(before, origin, table, memory, index),
    ensures
        ({
            let start = inferior.install_of(index, table, note);
            let end = drive(
                Pass { inferior: start.inferior, table: start.table, memory, next: start.next },
                (2 * (before.len() - index)) as nat,
            );
            &&& end.next == Move::Done(Outcome::Started)
            &&& end.inferior == Inferior { stage: Stage::Idle, ..inferior }
            &&& installed_up_to(before, origin, end.table, end.memory, before.len() as int)
        }),
    decreases before.len() - index,
{
    let start = inferior.install_of(index, table, note);
    let pass = Pass { inferior: start.inferior, table: start.table, memory, next: start.next };
    if index < before.len() {
        let addr = table[index].addr;
        assert(addr == before[index].addr);
        assert(distinct(table)) by {
            assert forall|i: int, j: int| 0 <= i < j < table.len() implies (#[trigger] table[i]).addr
                != (#[trigger] table[j]).addr by {
                assert(before[i].addr != before[j].addr);
            }
        }
        assert(mapped(origin, word_start(before[index].addr) as int, word_bytes()));
        assert(mapped(memory, word_start(addr) as int, word_bytes()));
        lemma_install_entry(inferior, table, memory, index, note);
        lemma_installed_next(before, origin, table, memory, index);
        let marked = entry_installed(table, index, memory[addr as int]);
        let after = memory.insert(addr as int, TRAP_BYTE);
        let rest = inferior.install_of(index + 1, marked, None);
        let fuel = (2 * (before.len() - (index + 1))) as nat;
        assert(drive(pass, fuel + 2) == drive(
            Pass { inferior: rest.inferior, table: rest.table, memory: after, next: rest.next },
            fuel,
        ));
        lemma_install_rest(inferior, before, origin, marked, after, index + 1, None);
    } else {
        assert(drive(pass, 0) == pass);
    }
}

/// Every breakpoint of the table is installed before a new process runs for
/// the first time.
///
/// Let a process that was just launched reach its first stop, and let every
/// read and write of its memory succeed. Then the operation ends with
/// `Outcome::Started` after the reads and writes of the installation and no
/// other request. At that point every entry of the table holds the byte that
/// was at its address, the trap byte is at each of these addresses, and the
/// rest of the memory is as it was.
pub proof fn lemma_start_installs_every_breakpoint(
    pid: i32,
    signal: i32,
    table: Seq<Slot>,
    memory: Map<int, u8>,
)
    requires
        well_formed(table),
        all_mapped(table, memory),
    ensures
        ({
            let first = Inferior::launched(pid).advance_of(Reply::Stopped(signal), table);
            let end = drive(
                Pass { inferior: first.inferior, table: first.table, memory, next: first.next },
                (2 * table.len()) as nat,
            );
            &&& end.next == Move::Done(Outcome::Started)
            &&& end.inferior.trap is None
            &&& installed_up_to(table, memory, end.table, end.memory, table.len() as int)
        }),
{
    lemma_install_rest(Inferior::launched(pid), table, memory, table, memory, 0, None);
}

/// When the last breakpoint of the table is dealt with, the new process is
/// let run at once: the step that ends the installation asks for nothing but
/// to continue the process, and leaves the table as the installation made it.
pub proof fn lemma_first_resume_follows_installation(session: Session, live: Inferior, reply: Reply)
    requires
        session.phase is Tracing,
        session.inferior == Some(live),
        live.trap is None,
        live.advance_of(reply, session.table).next == Move::Done(Outcome::Started),
    ensures
        ({
            let end = live.advance_of(reply, session.table);
            let step = session.reply_of(reply);
            &&& step.next == Next::Trace(Request::Cont { pid: live.pid })
            &&& step.session.table == end.table
            &&& step.session.inferior matches Some(inferior) && inferior.pid == live.pid
        }),
{
}

/// While there is no process, `break` with an address only notes the address
/// in the table, as pending if it is new, and asks for nothing.
pub proof fn lemma_break_without_process(session: Session, place: Seq<char>, addr: usize)
    requires
        session.inferior is None,
        place_of(place) == Some(addr),
    ensures
        ({
            let step = session.break_of(place);
            &&& step.next == Next::Prompt
            &&& step.messages == seq![Message::BreakpointSet(addr)]
            &&& step.session.inferior is None
            &&& step.session.table == inserted(session.table, addr)
            &&& listed(step.session.table, addr)
            &&& !listed(session.table, addr) ==> installed_at(step.session.table, addr) is None
        }),
{
    lemma_insert_twice(session.table, addr);
    lemma_position(session.table, addr);
    lemma_position_push(session.table, Slot { addr, state: None }, addr);
}

/// `break` with a text that is no address is answered with a message and
/// changes neither the table nor the process.
pub proof fn lemma_break_malformed(session: Session, place: Seq<char>)
    requires
        place_of(place) is None,
    ensures
        ({
            let step = session.break_of(place);
            &&& step.next == Next::Prompt
            &&& step.messages == seq![Message::InvalidAddress]
            &&& step.session.table == session.table
            &&& step.session.inferior == session.inferior
        }),
{
}

/// With a live process, `break` with a new address installs the breakpoint
/// at once: the word that holds the address is read and written back with the
/// trap in place of the one byte, and the table then holds the breakpoint
/// with the byte that was there.
pub proof fn lemma_break_with_process(
    session: Session,
    live: Inferior,
    memory: Map<int, u8>,
    place: Seq<char>,
    addr: usize,
)
    requires
        session.inferior == Some(live),
        distinct(session.table),
        place_of(place) == Some(addr),
        installed_at(session.table, addr) is None,
        mapped(memory, word_start(addr) as int, word_bytes()),
    ensures
        ({
            let read = session.break_of(place);
            let write = read.session.reply_of(Reply::Word(word_at(memory, word_start(addr) as int)));
            let end = write.session.reply_of(Reply::Done);
            &&& read.next == Next::Trace(Request::Peek { pid: live.pid, addr: word_start(addr) })
            &&& write.next matches Next::Trace(Request::Poke { pid, addr: at, word }) && pid
                == live.pid && at == word_start(addr) && written(memory, at as int, word)
                == memory.insert(addr as int, TRAP_BYTE)
            &&& end.next == Next::Prompt
            &&& installed_at(end.session.table, addr) == Some(
                Breakpoint { addr, orig_byte: memory[addr as int] },
            )
            &&& end.session.inferior matches Some(inferior) && inferior.pid == live.pid
        }),
{
    let table = inserted(session.table, addr);
    lemma_insert_twice(session.table, addr);
    lemma_position(session.table, addr);
    lemma_position_push(session.table, Slot { addr, state: None }, addr);
    lemma_position(table, addr);
    lemma_word_of(addr);
    let word = word_at(memory, word_start(addr) as int);
    lemma_word_at(memory, word_start(addr) as int);
    lemma_write_byte(memory, addr, TRAP_BYTE, word);
    let marked = recorded(table, addr, Some(word_byte(word, byte_offset(addr))));
    lemma_position_by_addresses(table, marked, addr);
}

/// Asking again for a breakpoint that the table has changes nothing: no entry
/// is added, and where the breakpoint is installed nothing is written, so
/// that the saved byte stays the byte of the program.
pub proof fn lemma_break_again(session: Session, place: Seq<char>)
    ensures
        ({
            let once = session.break_of(place);
            let again = once.session.break_of(place);
            &&& again.session.table == once.session.table
            &&& place_of(place) matches Some(addr) ==> ({
                &&& listed(once.session.table, addr)
                &&& installed_at(once.session.table, addr) == installed_at(session.table, addr)
                &&& installed_at(once.session.table, addr) is Some ==> ({
                    &&& again.next == Next::Prompt
                    &&& again.session.inferior == once.session.inferior
                })
            })
        }),
{
    match place_of(place) {
        Some(addr) => {
            lemma_insert_twice(session.table, addr);
            lemma_position(session.table, addr);
            lemma_position_push(
                session.table,
                Slot { addr, state: None },
                addr,
            );
        },
        None => {},
    }
}

/// Whether the session holds a process only where it may: not while it waits
/// for an old process to end, for a new one to be launched, or for nothing
/// at all.
pub open spec fn settled(session: Session) -> bool {
    match session.phase {
        Phase::Idle | Phase::Tracing | Phase::Reporting => true,
        _ => session.inferior is None,
    }
}

/// A session holds one process at most, and loses none.
///
/// Whatever the event: the session asks for a launch only while it holds no
/// process; it ends only while it holds none; and it lets go of a process
/// only with the request to kill and reap it, or on the news that it has
/// exited or was killed.
pub proof fn lemma_one_process(session: Session, event: Event)
    requires
        settled(session),
    ensures
        ({
            let step = session.run_of(event);
            &&& settled(step.session)
            &&& step.next matches Next::Trace(Request::Spawn { .. }) ==> step.session.inferior is None
            &&& step.next is Exit ==> step.session.inferior is None
            &&& (session.inferior is Some && step.session.inferior is None) ==> ({
                ||| step.next == Next::Trace(Request::Kill { pid: session.inferior->0.pid })
                ||| event matches Event::Reply(Reply::Exited(_))
                ||| event matches Event::Reply(Reply::Signaled(_))
            })
        }),
{
}

/// `run` while a process is live kills and reaps that process before it
/// launches the target anew, and the session then holds the new process and
/// no other.
pub proof fn lemma_run_replaces_process(
    session: Session,
    live: Inferior,
    args: Vec<String>,
    reply: Reply,
    pid: i32,
)
    requires
        session.inferior == Some(live),
    ensures
        ({
            let kill = session.obey(DebuggerCommand::Run(args));
            let spawn = kill.session.reply_of(reply);
            let wait = spawn.session.reply_of(Reply::Spawned(pid));
            &&& kill.next == Next::Trace(Request::Kill { pid: live.pid })
            &&& kill.session.inferior is None
            &&& spawn.next == Next::Trace(Request::Spawn { target: session.target, args })
            &&& spawn.session.inferior is None
            &&& wait.next == Next::Trace(Request::Wait { pid })
            &&& wait.session.inferior == Some(Inferior::launched(pid))
        }),
{
}

/// A process that is not stopped at a breakpoint is simply let run, and when
/// it exits the session reports its exit code, once, and holds no process any
/// more.
pub proof fn lemma_resume_reports_exit(session: Session, live: Inferior, code: i32)
    requires
        session.inferior == Some(live),
        live.trap is None,
    ensures
        ({
            let cont = session.continue_of();
            let wait = cont.session.reply_of(Reply::Done);
            let end = wait.session.reply_of(Reply::Exited(code));
            &&& cont.next == Next::Trace(Request::Cont { pid: live.pid })
            &&& cont.messages == Seq::<Message>::empty()
            &&& wait.next == Next::Trace(Request::Wait { pid: live.pid })
            &&& wait.messages == Seq::<Message>::empty()
            &&& end.next == Next::Prompt
            &&& end.messages == seq![Message::Exited(code)]
            &&& end.session.inferior is None
        }),
{
    let cont = session.continue_of();
    let wait = cont.session.reply_of(Reply::Done);
    let end = wait.session.reply_of(Reply::Exited(code));
    assert(end.messages =~= seq![Message::Exited(code)]);
}

/// A process that runs into an installed breakpoint is reported as stopped
/// just behind it: the instruction pointer that is reported is the address of
/// the breakpoint plus the width of the trap, and the controller remembers
/// the breakpoint.
pub proof fn lemma_stop_at_breakpoint(
    inferior: Inferior,
    table: Seq<Slot>,
    signal: i32,
    addr: usize,
    rbp: usize,
)
    requires
        inferior.stage is Running,
        installed_at(table, addr) is Some,
        addr < usize::MAX,
    ensures
        ({
            let regs = inferior.advance_of(Reply::Stopped(signal), table);
            let end = regs.inferior.advance_of(Reply::Regs { rip: (addr + 1) as usize, rbp }, table);
            &&& regs.next == Move::Ask(Request::GetRegs { pid: inferior.pid })
            &&& end.next == Move::Done(
                Outcome::Resumed(Status::Stopped(signal, (addr + 1) as usize)),
            )
            &&& end.inferior.trap == Some(addr)
            &&& end.table == table
        }),
{
}

/// A process that is stopped at an installed breakpoint gets past it, once,
/// and finds it again the next time.
///
/// The requests come in this order: set the instruction pointer back to the
/// breakpoint; read and write the word that holds it, which puts the original
/// byte back and changes no other byte; execute one instruction; wait; read
/// and write the word again, which puts the trap back and changes no other
/// byte; let the process run. `later` is the memory as that one instruction
/// left it.
pub proof fn lemma_resume_from_breakpoint(
    inferior: Inferior,
    table: Seq<Slot>,
    memory: Map<int, u8>,
    later: Map<int, u8>,
    addr: usize,
    signal: i32,
)
    requires
        inferior.trap == Some(addr),
        installed_at(table, addr) is Some,
        mapped(memory, word_start(addr) as int, word_bytes()),
        mapped(later, word_start(addr) as int, word_bytes()),
    ensures
        ({
            let pid = inferior.pid;
            let at = word_start(addr);
            let original = installed_at(table, addr)->0.orig_byte;
            let rewind = inferior.cont_of(table);
            let read = rewind.inferior.advance_of(Reply::Done, table);
            let write = read.inferior.advance_of(Reply::Word(word_at(memory, at as int)), table);
            let step = write.inferior.advance_of(Reply::Done, table);
            let wait = step.inferior.advance_of(Reply::Done, table);
            let read_again = wait.inferior.advance_of(Reply::Stopped(signal), table);
            let write_again = read_again.inferior.advance_of(
                Reply::Word(word_at(later, at as int)),
                table,
            );
            let cont = write_again.inferior.advance_of(Reply::Done, table);
            &&& rewind.next == Move::Ask(Request::SetRip { pid, rip: addr })
            &&& read.next == Move::Ask(Request::Peek { pid, addr: at })
            &&& write.next matches Move::Ask(Request::Poke { pid: p, addr: a, word }) && p == pid
                && a == at && written(memory, at as int, word) == memory.insert(
                addr as int,
                original,
            )
            &&& step.next == Move::Ask(Request::Step { pid })
            &&& wait.next == Move::Ask(Request::Wait { pid })
            &&& read_again.next == Move::Ask(Request::Peek { pid, addr: at })
            &&& write_again.next matches Move::Ask(Request::Poke { pid: p, addr: a, word }) && p
                == pid && a == at && written(later, at as int, word) == later.insert(
                addr as int,
                TRAP_BYTE,
            )
            &&& cont.next == Move::Ask(Request::Cont { pid })
            &&& cont.inferior.trap is None
            &&& cont.table == table
        }),
{
    let at = word_start(addr);
    let original = installed_at(table, addr)->0.orig_byte;
    lemma_word_of(addr);
    lemma_word_at(memory, at as int);
    lemma_write_byte(memory, addr, original, word_at(memory, at as int));
    lemma_word_at(later, at as int);
    lemma_write_byte(later, addr, TRAP_BYTE, word_at(later, at as int));
}

/// A backtrace of a process that is stopped in its outermost frame gives that
/// one frame and reads no memory: the registers are read, the instruction
/// pointer is looked up, and the walk ends.
pub proof fn lemma_backtrace_at_root(
    session: Session,
    live: Inferior,
    rip: usize,
    function: String,
    line: Option<Line>,
)
    requires
        session.inferior == Some(live),
    ensures
        ({
            let regs = session.obey(DebuggerCommand::Backtrace);
            let name = regs.session.reply_of(Reply::Regs { rip, rbp: 0 });
            let end = name.session.reply_of(Reply::Resolved { function: Some(function), line });
            &&& regs.next == Next::Trace(Request::GetRegs { pid: live.pid })
            &&& regs.messages == Seq::<Message>::empty()
            &&& name.next == Next::Trace(Request::Resolve { addr: rip })
            &&& name.messages == Seq::<Message>::empty()
            &&& end.next == Next::Prompt
            &&& end.messages == seq![Message::Frame { function, line }]
        }),
{
    let regs = session.obey(DebuggerCommand::Backtrace);
    let name = regs.session.reply_of(Reply::Regs { rip, rbp: 0 });
    let end = name.session.reply_of(Reply::Resolved { function: Some(function), line });
    assert(name.messages =~= Seq::<Message>::empty());
    assert(end.messages =~= seq![Message::Frame { function, line }]);
}

/// `quit` leaves no process behind: a live process is killed and reaped
/// before the session ends, and the session that has ended holds none.
pub proof fn lemma_quit_leaves_no_process(session: Session, reply: Reply)
    ensures
        ({
            let quit = session.obey(DebuggerCommand::Quit);
            let end = quit.session.reply_of(reply);
            &&& quit.session.inferior is None
            &&& match session.inferior {
                Some(live) => {
                    &&& quit.next == Next::Trace(Request::Kill { pid: live.pid })
                    &&& end.next == Next::Exit
                    &&& end.session.inferior is None
                },
                None => quit.next == Next::Exit,
            }
        }),
{
}

} // verus!
