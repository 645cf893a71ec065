use deet::breakpoints::BreakpointTable;
use deet::debugger::Breakpoint;
use deet::inferior::{Inferior, Move, Outcome, Progress, Purpose, Stage, Status};
use deet::protocol::{Fault, Line, Message, Reply, Request};

fn stopped(pid: i32) -> Inferior {
    Inferior { pid, trap: None, stage: Stage::Idle }
}

fn ask(request: Request) -> Progress {
    Progress { note: None, next: Move::Ask(request) }
}

fn done(outcome: Outcome) -> Progress {
    Progress { note: None, next: Move::Done(outcome) }
}

#[test]
fn wait_asks_for_the_next_change_of_state() {
    let mut inferior = stopped(3);
    assert_eq!(inferior.wait(), Request::Wait { pid: 3 });
    assert_eq!(inferior.stage, Stage::Running);
    let mut table = BreakpointTable::new();
    assert_eq!(
        inferior.advance(Reply::Exited(4), &mut table),
        done(Outcome::Resumed(Status::Exited(4)))
    );
    assert_eq!(inferior.stage, Stage::Idle);
}

#[test]
fn a_stop_is_reported_with_the_instruction_pointer() {
    let mut inferior = stopped(3);
    let mut table = BreakpointTable::new();
    inferior.wait();
    assert_eq!(
        inferior.advance(Reply::Stopped(19), &mut table),
        ask(Request::GetRegs { pid: 3 })
    );
    assert_eq!(
        inferior.advance(Reply::Regs { rip: 0x4242, rbp: 0x7000 }, &mut table),
        done(Outcome::Resumed(Status::Stopped(19, 0x4242)))
    );
    assert_eq!(inferior.trap, None);
}

#[test]
fn a_stop_behind_an_installed_breakpoint_is_remembered() {
    let mut inferior = stopped(3);
    let mut table = BreakpointTable::new();
    table.insert(0x4241);
    table.insert(0x5000);
    table.record(0x4241, Some(0x90));
    inferior.wait();
    inferior.advance(Reply::Stopped(5), &mut table);
    assert_eq!(
        inferior.advance(Reply::Regs { rip: 0x4242, rbp: 0 }, &mut table),
        done(Outcome::Resumed(Status::Stopped(5, 0x4242)))
    );
    assert_eq!(inferior.trap, Some(0x4241));

    inferior.wait();
    inferior.advance(Reply::Stopped(5), &mut table);
    inferior.advance(Reply::Regs { rip: 0x5001, rbp: 0 }, &mut table);
    assert_eq!(inferior.trap, None);

    inferior.wait();
    inferior.advance(Reply::Stopped(5), &mut table);
    inferior.advance(Reply::Regs { rip: 0, rbp: 0 }, &mut table);
    assert_eq!(inferior.trap, None);
}

#[test]
fn cont_lets_the_process_run_when_it_is_at_no_breakpoint() {
    let table = BreakpointTable::new();
    let mut inferior = stopped(8);
    assert_eq!(inferior.cont(&table), Request::Cont { pid: 8 });
    assert_eq!(inferior.stage, Stage::Resuming);

    let mut stale = Inferior { pid: 8, trap: Some(0x10), stage: Stage::Idle };
    assert_eq!(stale.cont(&table), Request::Cont { pid: 8 });
    assert_eq!(stale.trap, None);
}

#[test]
fn cont_sets_the_instruction_pointer_back_to_the_breakpoint() {
    let mut table = BreakpointTable::new();
    table.insert(0x10);
    table.record(0x10, Some(0x90));
    let mut inferior = Inferior { pid: 8, trap: Some(0x10), stage: Stage::Idle };
    assert_eq!(inferior.cont(&table), Request::SetRip { pid: 8, rip: 0x10 });
    assert_eq!(inferior.stage, Stage::Rewinding { addr: 0x10 });
    assert_eq!(
        inferior.advance(Reply::Done, &mut table),
        ask(Request::Peek { pid: 8, addr: 0x10 })
    );
    assert_eq!(
        inferior.stage,
        Stage::Patching { addr: 0x10, value: 0x90, saved: None, purpose: Purpose::Restore }
    );
}

#[test]
fn a_failed_rewind_ends_the_resume_and_keeps_the_breakpoint() {
    let mut table = BreakpointTable::new();
    table.insert(0x10);
    table.record(0x10, Some(0x90));
    let mut inferior = Inferior { pid: 8, trap: Some(0x10), stage: Stage::Idle };
    inferior.cont(&table);
    assert_eq!(
        inferior.advance(Reply::Failed(3), &mut table),
        done(Outcome::Failed(Fault::Os(3)))
    );
    assert_eq!(inferior.trap, Some(0x10));
    assert_eq!(table.installed(0x10), Some(Breakpoint { addr: 0x10, orig_byte: 0x90 }));
}

#[test]
fn set_breakpoint_reads_the_word_and_writes_it_back_with_the_trap() {
    let mut table = BreakpointTable::new();
    table.insert(0x100d);
    let mut inferior = stopped(5);
    assert_eq!(inferior.set_breakpoint(0x100d), Request::Peek { pid: 5, addr: 0x1008 });
    assert_eq!(
        inferior.advance(Reply::Word(0x8877665544332211), &mut table),
        ask(Request::Poke { pid: 5, addr: 0x1008, word: 0x8877cc5544332211 })
    );
    assert_eq!(table.get(0x100d), Some(None));
    assert_eq!(inferior.advance(Reply::Done, &mut table), done(Outcome::Placed));
    assert_eq!(table.get(0x100d), Some(Some(Breakpoint { addr: 0x100d, orig_byte: 0x66 })));
}

#[test]
fn set_breakpoint_that_cannot_write_reports_it() {
    let mut table = BreakpointTable::new();
    table.insert(0x100d);
    let mut inferior = stopped(5);
    inferior.set_breakpoint(0x100d);
    inferior.advance(Reply::Word(0), &mut table);
    assert_eq!(
        inferior.advance(Reply::Failed(14), &mut table),
        Progress {
            note: Some(Message::BreakpointFailed(0x100d, Fault::Os(14))),
            next: Move::Done(Outcome::Placed),
        }
    );
    assert_eq!(table.get(0x100d), Some(None));
}

#[test]
fn the_first_stop_of_a_process_without_breakpoints_ends_the_start() {
    let (mut inferior, request) = Inferior::new(12);
    assert_eq!(request, Request::Wait { pid: 12 });
    let mut table = BreakpointTable::new();
    assert_eq!(inferior.advance(Reply::Stopped(5), &mut table), done(Outcome::Started));
}

#[test]
fn a_process_that_never_stops_is_not_started() {
    let mut table = BreakpointTable::new();
    let (mut inferior, _) = Inferior::new(12);
    assert_eq!(
        inferior.advance(Reply::Signaled(9), &mut table),
        done(Outcome::Unstarted { alive: false })
    );
    let (mut inferior, _) = Inferior::new(12);
    assert_eq!(
        inferior.advance(Reply::Failed(4), &mut table),
        done(Outcome::Unstarted { alive: true })
    );
}

#[test]
fn backtrace_reads_the_registers_first() {
    let mut table = BreakpointTable::new();
    let mut inferior = stopped(2);
    assert_eq!(inferior.backtrace(), Request::GetRegs { pid: 2 });
    assert_eq!(
        inferior.advance(Reply::Regs { rip: 0x40, rbp: 0x7ff0 }, &mut table),
        ask(Request::Resolve { addr: 0x40 })
    );
    let line = Line { file: "a.c".to_string(), number: 3, address: 0x40 };
    assert_eq!(
        inferior.advance(
            Reply::Resolved { function: Some("f".to_string()), line: Some(line.clone()) },
            &mut table
        ),
        Progress {
            note: Some(Message::Frame { function: "f".to_string(), line: Some(line) }),
            next: Move::Ask(Request::Peek { pid: 2, addr: 0x7ff8 }),
        }
    );
    assert_eq!(
        inferior.advance(Reply::Word(0x99), &mut table),
        ask(Request::Peek { pid: 2, addr: 0x7ff0 })
    );
    assert_eq!(
        inferior.advance(Reply::Word(0x8000), &mut table),
        ask(Request::Resolve { addr: 0x99 })
    );
    assert_eq!(
        inferior.advance(Reply::Resolved { function: None, line: None }, &mut table),
        done(Outcome::Walked)
    );
}

#[test]
fn kill_ends_the_operation_under_way() {
    let mut inferior = stopped(2);
    inferior.backtrace();
    assert_eq!(inferior.kill(), Request::Kill { pid: 2 });
    assert_eq!(inferior.stage, Stage::Idle);
    let mut table = BreakpointTable::new();
    assert_eq!(
        inferior.advance(Reply::Done, &mut table),
        done(Outcome::Failed(Fault::Protocol))
    );
}
