use deet::protocol::{Fault, Line, Message};
use deet::report::{decimal, fault_text, hexadecimal, line_text, signal_text, text_with};

fn place() -> Line {
    Line { file: "src/main.c".to_string(), number: 42, address: 0x401136 }
}

#[test]
fn numbers_are_written_in_decimal() {
    assert_eq!(decimal(0), "0");
    assert_eq!(decimal(7), "7");
    assert_eq!(decimal(10), "10");
    assert_eq!(decimal(255), "255");
    assert_eq!(decimal(-1), "-1");
    assert_eq!(decimal(-120), "-120");
    assert_eq!(decimal(i64::MAX), i64::MAX.to_string());
    assert_eq!(decimal(i64::MIN), i64::MIN.to_string());
    for n in [9, 11, 99, 100, 101, 12345, 1000000, -99, -100] {
        assert_eq!(decimal(n), n.to_string());
    }
}

#[test]
fn addresses_are_written_in_hexadecimal() {
    assert_eq!(hexadecimal(0), "0x0");
    assert_eq!(hexadecimal(9), "0x9");
    assert_eq!(hexadecimal(10), "0xa");
    assert_eq!(hexadecimal(16), "0x10");
    assert_eq!(hexadecimal(0x401136), "0x401136");
    assert_eq!(hexadecimal(0xdeadbeef), "0xdeadbeef");
    assert_eq!(hexadecimal(usize::MAX), format!("{:#x}", usize::MAX));
    for n in [15usize, 17, 255, 256, 4095, 4096, 0xabcdef] {
        assert_eq!(hexadecimal(n), format!("{:#x}", n));
    }
}

#[test]
fn places_are_written_as_file_and_line() {
    assert_eq!(line_text(&place()), "src/main.c:42");
    assert_eq!(
        line_text(&Line { file: String::new(), number: 0, address: 0 }),
        ":0"
    );
    assert_eq!(
        line_text(&Line { file: "f".to_string(), number: usize::MAX, address: 0 }),
        format!("f:{}", usize::MAX)
    );
}

#[test]
fn signals_are_written_by_name_or_by_number() {
    assert_eq!(signal_text(5, Some("SIGTRAP".to_string())), "SIGTRAP");
    assert_eq!(signal_text(64, None), "64");
    assert_eq!(signal_text(-3, None), "-3");
}

#[test]
fn faults_are_written_by_kind() {
    assert_eq!(fault_text(Fault::Os(14), "EFAULT"), "EFAULT");
    assert_eq!(fault_text(Fault::Protocol, "EFAULT"), "unexpected reply");
    assert_eq!(
        fault_text(Fault::Frame(0xfff8), ""),
        "no return address above frame base 0xfff8"
    );
}

#[test]
fn messages_read_as_the_debugger_speaks() {
    assert_eq!(text_with(&Message::Killing(4711), ""), "Killing inferior 4711");
    assert_eq!(text_with(&Message::StartFailed, ""), "Error starting subprocess");
    assert_eq!(text_with(&Message::NothingToContinue, ""), "No inferior to continue");
    assert_eq!(text_with(&Message::NothingRunning, ""), "No inferior running");
    assert_eq!(text_with(&Message::Exited(0), ""), "Inferior exited with code 0");
    assert_eq!(text_with(&Message::Exited(137), "x"), "Inferior exited with code 137");
    assert_eq!(
        text_with(&Message::Killed(9), "SIGKILL"),
        "Inferior was killed by signal SIGKILL"
    );
    assert_eq!(
        text_with(&Message::Stopped(5), "SIGTRAP"),
        "Inferior stopped due to signal SIGTRAP"
    );
    assert_eq!(text_with(&Message::StoppedAt(place()), ""), "Stopped at src/main.c:42");
    assert_eq!(
        text_with(&Message::BreakpointSet(0x401136), ""),
        "Set breakpoint at address 0x401136"
    );
    assert_eq!(text_with(&Message::InvalidAddress, ""), "Invalid address");
    assert_eq!(
        text_with(&Message::BreakpointFailed(0x10, Fault::Os(14)), "EFAULT"),
        "Error setting breakpoint: EFAULT"
    );
    assert_eq!(
        text_with(&Message::Frame { function: "main".to_string(), line: Some(place()) }, ""),
        "main (src/main.c:42)"
    );
    assert_eq!(
        text_with(&Message::Frame { function: "main".to_string(), line: None }, ""),
        "main (?)"
    );
    assert_eq!(text_with(&Message::TraceFailed(Fault::Os(3)), "ESRCH"), "Error: ESRCH");
    assert_eq!(text_with(&Message::Unrecognized, ""), "Unrecognized command.");
    assert_eq!(text_with(&Message::Interrupted, ""), "Type \"quit\" to exit");
}

#[test]
fn messages_without_names_need_none() {
    assert_eq!(Message::Exited(3).text(), "Inferior exited with code 3");
    assert_eq!(Message::NothingRunning.text(), "No inferior running");
    assert_eq!(Message::StoppedAt(place()).text(), "Stopped at src/main.c:42");
    assert_eq!(Message::TraceFailed(Fault::Protocol).text(), "Error: unexpected reply");
    assert_eq!(
        Message::BreakpointFailed(1, Fault::Frame(16)).text(),
        "Error setting breakpoint: no return address above frame base 0x10"
    );
}

#[test]
fn signals_get_the_names_of_this_machine() {
    let trap = nix::sys::signal::Signal::SIGTRAP;
    let kill = nix::sys::signal::Signal::SIGKILL;
    assert_eq!(
        Message::Stopped(trap as i32).text(),
        format!("Inferior stopped due to signal {}", trap)
    );
    assert_eq!(
        Message::Killed(kill as i32).text(),
        format!("Inferior was killed by signal {}", kill)
    );
    assert_eq!(Message::Stopped(5).text(), "Inferior stopped due to signal SIGTRAP");
    assert_eq!(Message::Killed(9).text(), "Inferior was killed by signal SIGKILL");
    assert_eq!(Message::Stopped(100000).text(), "Inferior stopped due to signal 100000");
}

#[test]
fn error_numbers_get_the_names_of_this_machine() {
    let fault = nix::errno::Errno::EFAULT;
    assert_eq!(
        Message::TraceFailed(Fault::Os(fault as i32)).text(),
        format!("Error: {:?}", fault)
    );
    assert_eq!(Message::TraceFailed(Fault::Os(14)).text(), "Error: EFAULT");
    assert_eq!(
        Message::BreakpointFailed(0x10, Fault::Os(5)).text(),
        "Error setting breakpoint: EIO"
    );
}
