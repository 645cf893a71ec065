use deet::debugger::{Breakpoint, Debugger, DwarfError, Event, Fetched, Input, Next};
use deet::debugger_command::DebuggerCommand;
use deet::inferior::Inferior;
use deet::protocol::{Fault, Line, Message, Reply, Request, TRAP_BYTE};
use std::collections::HashMap;

/// A tracing layer that is played from a script: memory is a map of bytes,
/// and each wait gives the next entry of `waits`.
struct Fake {
    memory: HashMap<usize, u8>,
    waits: Vec<(Reply, usize, usize)>,
    rip: usize,
    rbp: usize,
    next_pid: i32,
    spawn_fails: bool,
    functions: HashMap<usize, String>,
    log: Vec<Request>,
    at_first_cont: Option<HashMap<usize, u8>>,
    at_step: Option<HashMap<usize, u8>>,
}

impl Fake {
    fn new() -> Fake {
        Fake {
            memory: HashMap::new(),
            waits: Vec::new(),
            rip: 0,
            rbp: 0,
            next_pid: 100,
            spawn_fails: false,
            functions: HashMap::new(),
            log: Vec::new(),
            at_first_cont: None,
            at_step: None,
        }
    }

    fn fill(&mut self, from: usize, count: usize, byte: u8) {
        for i in 0..count {
            self.memory.insert(from + i, byte);
        }
    }

    fn put_word(&mut self, addr: usize, word: u64) {
        for i in 0..8 {
            self.memory.insert(addr + i, ((word >> (8 * i)) & 0xff) as u8);
        }
    }

    fn word(&self, addr: usize) -> Option<u64> {
        let mut word: u64 = 0;
        for i in 0..8 {
            let byte = *self.memory.get(&(addr + i))?;
            word |= (byte as u64) << (8 * i);
        }
        Some(word)
    }

    fn answer(&mut self, request: &Request) -> Reply {
        self.log.push(request.clone());
        match request {
            Request::Spawn { .. } => {
                if self.spawn_fails {
                    Reply::Failed(2)
                } else {
                    self.next_pid += 1;
                    Reply::Spawned(self.next_pid)
                }
            }
            Request::Wait { .. } => {
                if self.waits.is_empty() {
                    Reply::Failed(10)
                } else {
                    let (reply, rip, rbp) = self.waits.remove(0);
                    self.rip = rip;
                    self.rbp = rbp;
                    reply
                }
            }
            Request::Cont { .. } => {
                if self.at_first_cont.is_none() {
                    self.at_first_cont = Some(self.memory.clone());
                }
                Reply::Done
            }
            Request::Step { .. } => {
                self.at_step = Some(self.memory.clone());
                Reply::Done
            }
            Request::Kill { .. } => Reply::Done,
            Request::GetRegs { .. } => Reply::Regs { rip: self.rip, rbp: self.rbp },
            Request::SetRip { rip, .. } => {
                self.rip = *rip;
                Reply::Done
            }
            Request::Peek { addr, .. } => match self.word(*addr) {
                Some(word) => Reply::Word(word),
                None => Reply::Failed(14),
            },
            Request::Poke { addr, word, .. } => {
                if self.word(*addr).is_some() {
                    self.put_word(*addr, *word);
                    Reply::Done
                } else {
                    Reply::Failed(14)
                }
            }
            Request::Resolve { addr } => Reply::Resolved {
                function: self.functions.get(addr).cloned(),
                line: self.functions.get(addr).map(|_| Line {
                    file: "prog.c".to_string(),
                    number: *addr % 1000,
                    address: *addr,
                }),
            },
        }
    }
}

/// Gives the session a command and carries out its requests until it asks for
/// the next command or ends. Returns the messages and whether it ended.
fn obey(debugger: &mut Debugger, fake: &mut Fake, command: DebuggerCommand) -> (Vec<Message>, bool) {
    let mut said: Vec<Message> = Vec::new();
    let mut turn = debugger.run(Event::Command(command));
    loop {
        said.append(&mut turn.messages);
        match turn.next {
            Next::Prompt => return (said, false),
            Next::Exit => return (said, true),
            Next::Trace(request) => {
                let reply = fake.answer(&request);
                turn = debugger.run(Event::Reply(reply));
            }
        }
    }
}

fn session() -> Debugger {
    Debugger::new("prog", Ok(())).unwrap()
}

fn brk(place: &str) -> DebuggerCommand {
    DebuggerCommand::Breakpoint(place.to_string())
}

fn run() -> DebuggerCommand {
    DebuggerCommand::Run(Vec::new())
}

fn pid_of(debugger: &Debugger) -> i32 {
    debugger.inferior().unwrap().pid()
}

#[test]
fn pending_breakpoints_are_installed_before_the_first_resume() {
    let mut debugger = session();
    let mut fake = Fake::new();
    fake.fill(0x1000, 8, 0x55);
    fake.fill(0x2000, 8, 0x48);
    assert_eq!(obey(&mut debugger, &mut fake, brk("*0x1000")).0, vec![Message::BreakpointSet(0x1000)]);
    assert_eq!(obey(&mut debugger, &mut fake, brk("*0x2000")).0, vec![Message::BreakpointSet(0x2000)]);
    assert_eq!(debugger.breakpoints().get(0x1000), Some(None));
    assert_eq!(debugger.breakpoints().get(0x2000), Some(None));
    assert!(fake.log.is_empty());

    fake.waits = vec![(Reply::Stopped(5), 0x400000, 0), (Reply::Stopped(5), 0x1001, 0x7000)];
    let (said, ended) = obey(&mut debugger, &mut fake, run());
    assert!(!ended);
    assert_eq!(said, vec![Message::Stopped(5)]);

    let image = fake.at_first_cont.clone().unwrap();
    assert_eq!(image[&0x1000], TRAP_BYTE);
    assert_eq!(image[&0x2000], TRAP_BYTE);
    assert_eq!(image[&0x1001], 0x55);
    assert_eq!(image[&0x2001], 0x48);
    assert_eq!(
        debugger.breakpoints().get(0x1000),
        Some(Some(Breakpoint { addr: 0x1000, orig_byte: 0x55 }))
    );
    assert_eq!(
        debugger.breakpoints().get(0x2000),
        Some(Some(Breakpoint { addr: 0x2000, orig_byte: 0x48 }))
    );
    let first_cont = fake.log.iter().position(|r| matches!(r, Request::Cont { .. })).unwrap();
    let pokes: Vec<usize> = fake
        .log
        .iter()
        .enumerate()
        .filter(|(_, r)| matches!(r, Request::Poke { .. }))
        .map(|(i, _)| i)
        .collect();
    assert_eq!(pokes.len(), 2);
    assert!(pokes.iter().all(|i| *i < first_cont));
}

#[test]
fn breakpoint_that_is_no_address_leaves_the_table_alone() {
    let mut debugger = session();
    let mut fake = Fake::new();
    let (said, ended) = obey(&mut debugger, &mut fake, brk("foo"));
    assert_eq!(said, vec![Message::InvalidAddress]);
    assert!(!ended);
    assert_eq!(debugger.breakpoints().len(), 0);
    assert!(fake.log.is_empty());
    let (said, _) = obey(&mut debugger, &mut fake, brk("*"));
    assert_eq!(said, vec![Message::InvalidAddress]);
    assert_eq!(debugger.breakpoints().len(), 0);
}

#[test]
fn run_to_a_clean_exit_reports_it_once_and_forgets_the_process() {
    let mut debugger = session();
    let mut fake = Fake::new();
    fake.waits = vec![(Reply::Stopped(5), 0x400000, 0), (Reply::Exited(0), 0, 0)];
    let (said, ended) = obey(&mut debugger, &mut fake, run());
    assert_eq!(said, vec![Message::Exited(0)]);
    assert!(!ended);
    assert_eq!(debugger.inferior(), None);
    assert_eq!(
        fake.log,
        vec![
            Request::Spawn { target: "prog".to_string(), args: vec![] },
            Request::Wait { pid: 101 },
            Request::Cont { pid: 101 },
            Request::Wait { pid: 101 },
        ]
    );
}

#[test]
fn resume_reports_the_real_exit_code() {
    let mut debugger = session();
    let mut fake = Fake::new();
    fake.waits = vec![
        (Reply::Stopped(5), 0x400000, 0),
        (Reply::Stopped(19), 0x400010, 0x7000),
        (Reply::Exited(42), 0, 0),
    ];
    let (said, _) = obey(&mut debugger, &mut fake, run());
    assert_eq!(said, vec![Message::Stopped(19)]);
    assert!(debugger.inferior().is_some());
    let (said, _) = obey(&mut debugger, &mut fake, DebuggerCommand::Continue);
    assert_eq!(said, vec![Message::Exited(42)]);
    assert_eq!(debugger.inferior(), None);
}

#[test]
fn death_by_signal_is_reported_and_the_process_forgotten() {
    let mut debugger = session();
    let mut fake = Fake::new();
    fake.waits = vec![(Reply::Stopped(5), 0x400000, 0), (Reply::Signaled(11), 0, 0)];
    let (said, _) = obey(&mut debugger, &mut fake, run());
    assert_eq!(said, vec![Message::Killed(11)]);
    assert_eq!(debugger.inferior(), None);
}

#[test]
fn asking_twice_for_a_breakpoint_keeps_one_entry_and_the_saved_byte() {
    let mut debugger = session();
    let mut fake = Fake::new();
    fake.fill(0x3000, 16, 0x90);
    obey(&mut debugger, &mut fake, brk("0x3004"));
    obey(&mut debugger, &mut fake, brk("0x3004"));
    assert_eq!(debugger.breakpoints().len(), 1);
    assert_eq!(debugger.breakpoints().get(0x3004), Some(None));

    fake.waits = vec![(Reply::Stopped(5), 0x400000, 0), (Reply::Stopped(19), 0x400010, 0x7000)];
    obey(&mut debugger, &mut fake, run());
    let installed = Some(Some(Breakpoint { addr: 0x3004, orig_byte: 0x90 }));
    assert_eq!(debugger.breakpoints().get(0x3004), installed);
    let writes = fake.log.iter().filter(|r| matches!(r, Request::Poke { .. })).count();

    let (said, _) = obey(&mut debugger, &mut fake, brk("*0x3004"));
    assert_eq!(said, vec![Message::BreakpointSet(0x3004)]);
    assert_eq!(debugger.breakpoints().len(), 1);
    assert_eq!(debugger.breakpoints().get(0x3004), installed);
    assert_eq!(fake.log.iter().filter(|r| matches!(r, Request::Poke { .. })).count(), writes);
    assert_eq!(fake.memory[&0x3004], TRAP_BYTE);
}

#[test]
fn breakpoint_with_a_live_process_is_installed_at_once() {
    let mut debugger = session();
    let mut fake = Fake::new();
    fake.put_word(0x5000, 0x1122334455667788);
    fake.waits = vec![(Reply::Stopped(5), 0x400000, 0), (Reply::Stopped(19), 0x400010, 0x7000)];
    obey(&mut debugger, &mut fake, run());
    let (said, _) = obey(&mut debugger, &mut fake, brk("*0x5003"));
    assert_eq!(said, vec![Message::BreakpointSet(0x5003)]);
    assert_eq!(
        debugger.breakpoints().get(0x5003),
        Some(Some(Breakpoint { addr: 0x5003, orig_byte: 0x55 }))
    );
    assert_eq!(fake.word(0x5000), Some(0x11223344cc667788));
    let tail: Vec<Request> = fake.log[fake.log.len() - 2..].to_vec();
    let pid = pid_of(&debugger);
    assert_eq!(
        tail,
        vec![
            Request::Peek { pid, addr: 0x5000 },
            Request::Poke { pid, addr: 0x5000, word: 0x11223344cc667788 },
        ]
    );
}

#[test]
fn breakpoint_in_unmapped_memory_is_reported_and_stays_pending() {
    let mut debugger = session();
    let mut fake = Fake::new();
    fake.fill(0x1000, 8, 0x55);
    obey(&mut debugger, &mut fake, brk("*0x9000"));
    obey(&mut debugger, &mut fake, brk("*0x1000"));
    fake.waits = vec![(Reply::Stopped(5), 0x400000, 0), (Reply::Stopped(19), 0x400010, 0x7000)];
    let (said, _) = obey(&mut debugger, &mut fake, run());
    assert_eq!(
        said,
        vec![Message::BreakpointFailed(0x9000, Fault::Os(14)), Message::Stopped(19)]
    );
    assert_eq!(debugger.breakpoints().get(0x9000), Some(None));
    assert_eq!(
        debugger.breakpoints().get(0x1000),
        Some(Some(Breakpoint { addr: 0x1000, orig_byte: 0x55 }))
    );
    let (said, _) = obey(&mut debugger, &mut fake, brk("*0x9100"));
    assert_eq!(
        said,
        vec![Message::BreakpointSet(0x9100), Message::BreakpointFailed(0x9100, Fault::Os(14))]
    );
    assert_eq!(debugger.breakpoints().get(0x9100), Some(None));
    assert!(debugger.inferior().is_some());
}

#[test]
fn two_runs_leave_one_process_and_kill_the_first_before_the_second_starts() {
    let mut debugger = session();
    let mut fake = Fake::new();
    fake.waits = vec![
        (Reply::Stopped(5), 0x400000, 0),
        (Reply::Stopped(19), 0x400010, 0x7000),
        (Reply::Stopped(5), 0x400000, 0),
        (Reply::Stopped(19), 0x400010, 0x7000),
    ];
    obey(&mut debugger, &mut fake, run());
    let first = pid_of(&debugger);
    let (said, _) = obey(&mut debugger, &mut fake, DebuggerCommand::Run(vec!["again".to_string()]));
    assert_eq!(said, vec![Message::Killing(first), Message::Stopped(19)]);
    let second = pid_of(&debugger);
    assert_ne!(first, second);
    let kill = fake.log.iter().position(|r| *r == Request::Kill { pid: first }).unwrap();
    let spawns: Vec<usize> = fake
        .log
        .iter()
        .enumerate()
        .filter(|(_, r)| matches!(r, Request::Spawn { .. }))
        .map(|(i, _)| i)
        .collect();
    assert_eq!(spawns.len(), 2);
    assert!(spawns[0] < kill && kill < spawns[1]);
    assert_eq!(
        fake.log[spawns[1]],
        Request::Spawn { target: "prog".to_string(), args: vec!["again".to_string()] }
    );
    assert_eq!(fake.log.iter().filter(|r| matches!(r, Request::Kill { .. })).count(), 1);
}

#[test]
fn a_new_run_installs_the_table_again() {
    let mut debugger = session();
    let mut fake = Fake::new();
    fake.fill(0x1000, 8, 0x55);
    obey(&mut debugger, &mut fake, brk("*0x1000"));
    fake.waits = vec![(Reply::Stopped(5), 0x400000, 0), (Reply::Exited(0), 0, 0)];
    obey(&mut debugger, &mut fake, run());
    assert_eq!(debugger.breakpoints().get(0x1000), Some(None));
    fake.fill(0x1000, 8, 0x66);
    fake.waits = vec![(Reply::Stopped(5), 0x400000, 0), (Reply::Stopped(19), 0x400010, 0x7000)];
    obey(&mut debugger, &mut fake, run());
    assert_eq!(
        debugger.breakpoints().get(0x1000),
        Some(Some(Breakpoint { addr: 0x1000, orig_byte: 0x66 }))
    );
    assert_eq!(fake.memory[&0x1000], TRAP_BYTE);
}

#[test]
fn stop_at_a_breakpoint_is_reported_behind_it_and_resume_gets_past_it_once() {
    let mut debugger = session();
    let mut fake = Fake::new();
    fake.put_word(0x1000, 0x0000000000e58948);
    fake.functions.insert(0x1003, "main".to_string());
    obey(&mut debugger, &mut fake, brk("*0x1002"));
    fake.waits = vec![
        (Reply::Stopped(5), 0x400000, 0),
        (Reply::Stopped(5), 0x1003, 0x7000),
        (Reply::Stopped(5), 0x1005, 0x7000),
        (Reply::Exited(0), 0, 0),
    ];
    let (said, _) = obey(&mut debugger, &mut fake, run());
    assert_eq!(
        said,
        vec![
            Message::Stopped(5),
            Message::StoppedAt(Line { file: "prog.c".to_string(), number: 0x1003 % 1000, address: 0x1003 }),
        ]
    );
    let pid = pid_of(&debugger);
    assert_eq!(debugger.inferior().unwrap().trap, Some(0x1002));
    assert_eq!(fake.memory[&0x1002], TRAP_BYTE);

    let before = fake.log.len();
    let (said, _) = obey(&mut debugger, &mut fake, DebuggerCommand::Continue);
    assert_eq!(said, vec![Message::Exited(0)]);
    assert_eq!(
        fake.log[before..].to_vec(),
        vec![
            Request::SetRip { pid, rip: 0x1002 },
            Request::Peek { pid, addr: 0x1000 },
            Request::Poke { pid, addr: 0x1000, word: 0x0000000000e58948 },
            Request::Step { pid },
            Request::Wait { pid },
            Request::Peek { pid, addr: 0x1000 },
            Request::Poke { pid, addr: 0x1000, word: 0x0000000000cc8948 },
            Request::Cont { pid },
            Request::Wait { pid },
        ]
    );
    assert_eq!(fake.at_step.clone().unwrap()[&0x1002], 0xe5);
    assert_eq!(fake.memory[&0x1002], TRAP_BYTE);
}

#[test]
fn a_stop_that_is_no_breakpoint_is_reported_as_it_is() {
    let mut debugger = session();
    let mut fake = Fake::new();
    fake.fill(0x1000, 8, 0x55);
    obey(&mut debugger, &mut fake, brk("*0x1000"));
    fake.waits = vec![
        (Reply::Stopped(5), 0x400000, 0),
        (Reply::Stopped(2), 0x1234, 0x7000),
        (Reply::Exited(1), 0, 0),
    ];
    let (said, _) = obey(&mut debugger, &mut fake, run());
    assert_eq!(said, vec![Message::Stopped(2)]);
    assert_eq!(debugger.inferior().unwrap().trap, None);
    let pid = pid_of(&debugger);
    let before = fake.log.len();
    obey(&mut debugger, &mut fake, DebuggerCommand::Continue);
    assert_eq!(fake.log[before..].to_vec(), vec![Request::Cont { pid }, Request::Wait { pid }]);
}

#[test]
fn backtrace_at_the_root_frame_gives_one_frame_and_reads_no_memory() {
    let mut debugger = session();
    let mut fake = Fake::new();
    fake.functions.insert(0x400010, "_start".to_string());
    fake.waits = vec![(Reply::Stopped(5), 0x400000, 0), (Reply::Stopped(19), 0x400010, 0)];
    obey(&mut debugger, &mut fake, run());
    let pid = pid_of(&debugger);
    let before = fake.log.len();
    let (said, ended) = obey(&mut debugger, &mut fake, DebuggerCommand::Backtrace);
    assert!(!ended);
    assert_eq!(
        said,
        vec![Message::Frame {
            function: "_start".to_string(),
            line: Some(Line { file: "prog.c".to_string(), number: 0x400010 % 1000, address: 0x400010 }),
        }]
    );
    assert_eq!(
        fake.log[before..].to_vec(),
        vec![Request::GetRegs { pid }, Request::Resolve { addr: 0x400010 }]
    );
}

#[test]
fn backtrace_follows_the_saved_frame_bases_up_to_an_unknown_function() {
    let mut debugger = session();
    let mut fake = Fake::new();
    fake.functions.insert(0x401000, "leaf".to_string());
    fake.functions.insert(0x402000, "main".to_string());
    fake.put_word(0x7000, 0x7100);
    fake.put_word(0x7008, 0x402000);
    fake.put_word(0x7100, 0x7200);
    fake.put_word(0x7108, 0x500000);
    fake.waits = vec![(Reply::Stopped(5), 0x400000, 0), (Reply::Stopped(19), 0x401000, 0x7000)];
    obey(&mut debugger, &mut fake, run());
    let pid = pid_of(&debugger);
    let before = fake.log.len();
    let (said, _) = obey(&mut debugger, &mut fake, DebuggerCommand::Backtrace);
    let names: Vec<String> = said
        .iter()
        .map(|m| match m {
            Message::Frame { function, .. } => function.clone(),
            other => panic!("not a frame: {:?}", other),
        })
        .collect();
    assert_eq!(names, vec!["leaf".to_string(), "main".to_string()]);
    assert_eq!(
        fake.log[before..].to_vec(),
        vec![
            Request::GetRegs { pid },
            Request::Resolve { addr: 0x401000 },
            Request::Peek { pid, addr: 0x7008 },
            Request::Peek { pid, addr: 0x7000 },
            Request::Resolve { addr: 0x402000 },
            Request::Peek { pid, addr: 0x7108 },
            Request::Peek { pid, addr: 0x7100 },
            Request::Resolve { addr: 0x500000 },
        ]
    );
}

#[test]
fn backtrace_that_cannot_read_a_frame_fails_and_the_session_goes_on() {
    let mut debugger = session();
    let mut fake = Fake::new();
    fake.functions.insert(0x401000, "leaf".to_string());
    fake.waits = vec![
        (Reply::Stopped(5), 0x400000, 0),
        (Reply::Stopped(19), 0x401000, 0x8000),
        (Reply::Exited(0), 0, 0),
    ];
    obey(&mut debugger, &mut fake, run());
    let (said, ended) = obey(&mut debugger, &mut fake, DebuggerCommand::Backtrace);
    assert!(!ended);
    assert_eq!(said.len(), 2);
    assert!(matches!(said[0], Message::Frame { .. }));
    assert_eq!(said[1], Message::TraceFailed(Fault::Os(14)));
    assert!(debugger.inferior().is_some());
    let (said, _) = obey(&mut debugger, &mut fake, DebuggerCommand::Continue);
    assert_eq!(said, vec![Message::Exited(0)]);
}

#[test]
fn backtrace_with_a_frame_base_at_the_top_of_memory_fails() {
    let mut debugger = session();
    let mut fake = Fake::new();
    fake.functions.insert(0x401000, "leaf".to_string());
    fake.waits = vec![(Reply::Stopped(5), 0x400000, 0), (Reply::Stopped(19), 0x401000, usize::MAX - 3)];
    obey(&mut debugger, &mut fake, run());
    let (said, _) = obey(&mut debugger, &mut fake, DebuggerCommand::Backtrace);
    assert_eq!(said.len(), 2);
    assert_eq!(said[1], Message::TraceFailed(Fault::Frame(usize::MAX - 3)));
}

#[test]
fn quit_kills_the_live_process_before_it_ends() {
    let mut debugger = session();
    let mut fake = Fake::new();
    fake.waits = vec![(Reply::Stopped(5), 0x400000, 0), (Reply::Stopped(19), 0x400010, 0x7000)];
    obey(&mut debugger, &mut fake, run());
    let pid = pid_of(&debugger);
    let (said, ended) = obey(&mut debugger, &mut fake, DebuggerCommand::Quit);
    assert!(ended);
    assert_eq!(said, vec![Message::Killing(pid)]);
    assert_eq!(fake.log.last(), Some(&Request::Kill { pid }));
    assert_eq!(debugger.inferior(), None);
}

#[test]
fn quit_without_a_process_ends_at_once() {
    let mut debugger = session();
    let mut fake = Fake::new();
    let (said, ended) = obey(&mut debugger, &mut fake, DebuggerCommand::Quit);
    assert!(ended);
    assert!(said.is_empty());
    assert!(fake.log.is_empty());
}

#[test]
fn commands_that_need_a_process_say_so_without_one() {
    let mut debugger = session();
    let mut fake = Fake::new();
    assert_eq!(
        obey(&mut debugger, &mut fake, DebuggerCommand::Continue).0,
        vec![Message::NothingToContinue]
    );
    assert_eq!(
        obey(&mut debugger, &mut fake, DebuggerCommand::Backtrace).0,
        vec![Message::NothingRunning]
    );
    assert!(fake.log.is_empty());
}

#[test]
fn a_target_that_cannot_be_launched_is_reported() {
    let mut debugger = session();
    let mut fake = Fake::new();
    fake.spawn_fails = true;
    let (said, ended) = obey(&mut debugger, &mut fake, run());
    assert_eq!(said, vec![Message::StartFailed]);
    assert!(!ended);
    assert_eq!(debugger.inferior(), None);
}

#[test]
fn a_process_that_is_gone_before_its_first_stop_is_a_failed_start() {
    let mut debugger = session();
    let mut fake = Fake::new();
    fake.waits = vec![(Reply::Exited(127), 0, 0)];
    let (said, _) = obey(&mut debugger, &mut fake, run());
    assert_eq!(said, vec![Message::StartFailed]);
    assert_eq!(debugger.inferior(), None);
    assert!(!fake.log.iter().any(|r| matches!(r, Request::Kill { .. })));
}

#[test]
fn a_first_wait_that_fails_kills_the_process() {
    let mut debugger = session();
    let mut fake = Fake::new();
    let (said, _) = obey(&mut debugger, &mut fake, run());
    assert_eq!(said, vec![Message::StartFailed]);
    assert_eq!(debugger.inferior(), None);
    assert_eq!(fake.log.last(), Some(&Request::Kill { pid: 101 }));
}

#[test]
fn a_failed_resume_is_reported_and_keeps_the_process() {
    let mut debugger = session();
    let mut fake = Fake::new();
    fake.waits = vec![(Reply::Stopped(5), 0x400000, 0), (Reply::Stopped(19), 0x400010, 0x7000)];
    obey(&mut debugger, &mut fake, run());
    let (said, ended) = obey(&mut debugger, &mut fake, DebuggerCommand::Continue);
    assert_eq!(said, vec![Message::TraceFailed(Fault::Os(10))]);
    assert!(!ended);
    assert!(debugger.inferior().is_some());
}

#[test]
fn no_session_without_debug_information() {
    assert_eq!(
        Debugger::new("prog", Err(DwarfError::ErrorOpeningFile)).err(),
        Some(DwarfError::ErrorOpeningFile)
    );
    assert_eq!(
        Debugger::new("prog", Err(DwarfError::DwarfFormatError("bad".to_string()))).err(),
        Some(DwarfError::DwarfFormatError("bad".to_string()))
    );
    let debugger = Debugger::new("prog", Ok(())).ok().unwrap();
    assert_eq!(debugger.inferior(), None);
    assert_eq!(debugger.breakpoints().len(), 0);
}

#[test]
fn input_becomes_commands() {
    assert_eq!(Debugger::get_next_command(Input::Eof), Fetched::Command(DebuggerCommand::Quit));
    assert_eq!(
        Debugger::get_next_command(Input::Interrupted),
        Fetched::Again(Some(Message::Interrupted))
    );
    assert_eq!(Debugger::get_next_command(Input::Line(String::new())), Fetched::Again(None));
    assert_eq!(
        Debugger::get_next_command(Input::Line("  \t ".to_string())),
        Fetched::Again(None)
    );
    assert_eq!(
        Debugger::get_next_command(Input::Line("frobnicate now".to_string())),
        Fetched::Again(Some(Message::Unrecognized))
    );
    assert_eq!(
        Debugger::get_next_command(Input::Line("  run  one two ".to_string())),
        Fetched::Command(DebuggerCommand::Run(vec!["one".to_string(), "two".to_string()]))
    );
    assert_eq!(
        Debugger::get_next_command(Input::Line("b *0x10".to_string())),
        Fetched::Command(DebuggerCommand::Breakpoint("*0x10".to_string()))
    );
    assert_eq!(
        Debugger::get_next_command(Input::Line("break".to_string())),
        Fetched::Again(Some(Message::Unrecognized))
    );
}

#[test]
fn kill_inferior_without_a_process_does_nothing() {
    let mut debugger = session();
    assert_eq!(debugger.kill_inferior(), None);
    let mut fake = Fake::new();
    fake.waits = vec![(Reply::Stopped(5), 0x400000, 0), (Reply::Stopped(19), 0x400010, 0x7000)];
    obey(&mut debugger, &mut fake, run());
    let pid = pid_of(&debugger);
    assert_eq!(debugger.kill_inferior(), Some(Request::Kill { pid }));
    assert_eq!(debugger.inferior(), None);
    assert_eq!(debugger.kill_inferior(), None);
}

#[test]
fn a_new_controller_waits_for_the_first_stop() {
    let (inferior, request) = Inferior::new(7);
    assert_eq!(inferior.pid(), 7);
    assert_eq!(inferior.trap, None);
    assert_eq!(request, Request::Wait { pid: 7 });
}

#[test]
fn a_reply_that_does_not_answer_the_request_ends_the_operation() {
    let mut debugger = session();
    let mut fake = Fake::new();
    fake.waits = vec![(Reply::Stopped(5), 0x400000, 0), (Reply::Stopped(19), 0x400010, 0x7000)];
    obey(&mut debugger, &mut fake, run());
    let turn = debugger.run(Event::Command(DebuggerCommand::Continue));
    assert_eq!(turn.next, Next::Trace(Request::Cont { pid: pid_of(&debugger) }));
    let turn = debugger.run(Event::Reply(Reply::Word(7)));
    assert_eq!(turn.messages, vec![Message::TraceFailed(Fault::Protocol)]);
    assert_eq!(turn.next, Next::Prompt);
    assert!(debugger.inferior().is_some());
}

#[test]
fn a_reply_that_nothing_waits_for_is_passed_over() {
    let mut debugger = session();
    let turn = debugger.run(Event::Reply(Reply::Done));
    assert!(turn.messages.is_empty());
    assert_eq!(turn.next, Next::Prompt);
    assert_eq!(debugger.inferior(), None);
    assert_eq!(debugger.breakpoints().len(), 0);
}

#[test]
fn a_command_amid_an_operation_takes_its_place() {
    let mut debugger = session();
    let mut fake = Fake::new();
    fake.fill(0x1000, 8, 0x55);
    fake.waits = vec![(Reply::Stopped(5), 0x400000, 0), (Reply::Stopped(19), 0x400010, 0x7000)];
    obey(&mut debugger, &mut fake, run());
    let pid = pid_of(&debugger);
    let turn = debugger.run(Event::Command(DebuggerCommand::Backtrace));
    assert_eq!(turn.next, Next::Trace(Request::GetRegs { pid }));
    let turn = debugger.run(Event::Command(brk("*0x1000")));
    assert_eq!(turn.messages, vec![Message::BreakpointSet(0x1000)]);
    assert_eq!(turn.next, Next::Trace(Request::Peek { pid, addr: 0x1000 }));
    let turn = debugger.run(Event::Reply(Reply::Word(0x5555555555555555)));
    assert_eq!(
        turn.next,
        Next::Trace(Request::Poke { pid, addr: 0x1000, word: 0x55555555555555cc })
    );
    let turn = debugger.run(Event::Reply(Reply::Done));
    assert_eq!(turn.next, Next::Prompt);
    assert_eq!(
        debugger.breakpoints().get(0x1000),
        Some(Some(Breakpoint { addr: 0x1000, orig_byte: 0x55 }))
    );
}

#[test]
fn a_process_that_exits_in_the_single_step_is_reported_and_forgotten() {
    let mut debugger = session();
    let mut fake = Fake::new();
    fake.fill(0x1000, 8, 0x55);
    obey(&mut debugger, &mut fake, brk("*0x1000"));
    fake.waits = vec![
        (Reply::Stopped(5), 0x400000, 0),
        (Reply::Stopped(5), 0x1001, 0x7000),
        (Reply::Exited(9), 0, 0),
    ];
    obey(&mut debugger, &mut fake, run());
    let (said, _) = obey(&mut debugger, &mut fake, DebuggerCommand::Continue);
    assert_eq!(said, vec![Message::Exited(9)]);
    assert_eq!(debugger.inferior(), None);
    assert_eq!(debugger.breakpoints().get(0x1000), Some(None));
    assert!(matches!(fake.log[fake.log.len() - 2], Request::Step { .. }));
}

#[test]
fn a_trap_that_cannot_be_put_back_leaves_the_breakpoint_pending() {
    let mut debugger = session();
    let mut fake = Fake::new();
    fake.fill(0x1000, 8, 0x55);
    obey(&mut debugger, &mut fake, brk("*0x1000"));
    fake.waits = vec![(Reply::Stopped(5), 0x400000, 0), (Reply::Stopped(5), 0x1001, 0x7000)];
    obey(&mut debugger, &mut fake, run());
    let pid = pid_of(&debugger);

    let mut turn = debugger.run(Event::Command(DebuggerCommand::Continue));
    let mut asked = Vec::new();
    loop {
        let request = match turn.next {
            Next::Trace(request) => request,
            _ => break,
        };
        asked.push(request.clone());
        let reply = match (&request, asked.len()) {
            (Request::Wait { .. }, _) => Reply::Stopped(5),
            (Request::Peek { .. }, 6) => Reply::Failed(5),
            _ => fake.answer(&request),
        };
        turn = debugger.run(Event::Reply(reply));
    }
    assert_eq!(asked.len(), 6);
    assert_eq!(asked[5], Request::Peek { pid, addr: 0x1000 });
    assert_eq!(turn.messages, vec![Message::TraceFailed(Fault::Os(5))]);
    assert_eq!(debugger.breakpoints().get(0x1000), Some(None));
    assert_eq!(debugger.inferior().unwrap().trap, None);
    assert_eq!(fake.memory[&0x1000], 0x55);
}

#[test]
fn a_stop_whose_line_is_unknown_is_reported_without_a_place() {
    let mut debugger = session();
    let mut fake = Fake::new();
    fake.waits = vec![(Reply::Stopped(5), 0x400000, 0), (Reply::Stopped(11), 0x1234, 0x7000)];
    let (said, _) = obey(&mut debugger, &mut fake, run());
    assert_eq!(said, vec![Message::Stopped(11)]);
    assert_eq!(fake.log.last(), Some(&Request::Resolve { addr: 0x1234 }));
}

#[test]
fn the_arguments_of_run_reach_the_launch() {
    let mut debugger = session();
    let mut fake = Fake::new();
    fake.spawn_fails = true;
    let args = vec!["-v".to_string(), "in put".to_string()];
    obey(&mut debugger, &mut fake, DebuggerCommand::Run(args.clone()));
    assert_eq!(fake.log, vec![Request::Spawn { target: "prog".to_string(), args }]);
}
