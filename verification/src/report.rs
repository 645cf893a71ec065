//! The words in which a session speaks to the user.

use crate::protocol::{Fault, Line, Message};
use vstd::prelude::*;
use vstd::string::StringExecFns;

verus! {

/// The character that writes the digit `d`, for digits up to fifteen.
pub open spec fn digit_char(d: int) -> char {
    if d == 0 {
        '0'
    } else if d == 1 {
        '1'
    } else if d == 2 {
        '2'
    } else if d == 3 {
        '3'
    } else if d == 4 {
        '4'
    } else if d == 5 {
        '5'
    } else if d == 6 {
        '6'
    } else if d == 7 {
        '7'
    } else if d == 8 {
        '8'
    } else if d == 9 {
        '9'
    } else if d == 10 {
        'a'
    } else if d == 11 {
        'b'
    } else if d == 12 {
        'c'
    } else if d == 13 {
        'd'
    } else if d == 14 {
        'e'
    } else {
        'f'
    }
}

/// The decimal digits of `n`, without leading zeros.
pub open spec fn decimal_digits(n: nat) -> Seq<char>
    decreases n,
{
    if n < 10 {
        seq![digit_char(n as int)]
    } else {
        decimal_digits(n / 10).push(digit_char((n % 10) as int))
    }
}

/// The hexadecimal digits of `n`, without leading zeros.
pub open spec fn hexadecimal_digits(n: nat) -> Seq<char>
    decreases n,
{
    if n < 16 {
        seq![digit_char(n as int)]
    } else {
        hexadecimal_digits(n / 16).push(digit_char((n % 16) as int))
    }
}

/// `n` in decimal, with a minus sign if it is negative.
pub open spec fn decimal_of(n: int) -> Seq<char> {
    if n < 0 {
        seq!['-'] + decimal_digits((-n) as nat)
    } else {
        decimal_digits(n as nat)
    }
}

/// `n` in hexadecimal, with `0x` in front.
pub open spec fn hexadecimal_of(n: nat) -> Seq<char> {
    seq!['0', 'x'] + hexadecimal_digits(n)
}

fn digit(d: u64) -> (text: &'static str)
    requires
        d < 16,
    ensures
        text@ == seq![digit_char(d as int)],
{
    proof {
        reveal_strlit("0");
        reveal_strlit("1");
        reveal_strlit("2");
        reveal_strlit("3");
        reveal_strlit("4");
        reveal_strlit("5");
        reveal_strlit("6");
        reveal_strlit("7");
        reveal_strlit("8");
        reveal_strlit("9");
        reveal_strlit("a");
        reveal_strlit("b");
        reveal_strlit("c");
        reveal_strlit("d");
        reveal_strlit("e");
        reveal_strlit("f");
    }
    let text: &'static str = if d == 0 {
        "0"
    } else if d == 1 {
        "1"
    } else if d == 2 {
        "2"
    } else if d == 3 {
        "3"
    } else if d == 4 {
        "4"
    } else if d == 5 {
        "5"
    } else if d == 6 {
        "6"
    } else if d == 7 {
        "7"
    } else if d == 8 {
        "8"
    } else if d == 9 {
        "9"
    } else if d == 10 {
        "a"
    } else if d == 11 {
        "b"
    } else if d == 12 {
        "c"
    } else if d == 13 {
        "d"
    } else if d == 14 {
        "e"
    } else {
        "f"
    };
    assert(text@ =~= seq![digit_char(d as int)]);
    text
}

fn decimal_number(n: u64) -> (text: String)
    ensures
        text@ == decimal_digits(n as nat),
    decreases n,
{
    if n < 10 {
        String::from_str(digit(n))
    } else {
        let mut text: String = decimal_number(n / 10);
        text.append(digit(n % 10));
        text
    }
}

fn hexadecimal_number(n: u64) -> (text: String)
    ensures
        text@ == hexadecimal_digits(n as nat),
    decreases n,
{
    if n < 16 {
        String::from_str(digit(n))
    } else {
        let mut text: String = hexadecimal_number(n / 16);
        text.append(digit(n % 16));
        text
    }
}

/// Writes `n` in decimal.
pub fn decimal(n: i64) -> (text: String)
    ensures
        text@ == decimal_of(n as int),
{
    if n < 0 {
        proof {
            reveal_strlit("-");
        }
        let size: u64 = if n == i64::MIN {
            (i64::MAX as u64) + 1
        } else {
            (-n) as u64
        };
        let mut text: String = String::from_str("-");
        text.append(decimal_number(size).as_str());
        assert(text@ =~= seq!['-'] + decimal_digits((-n) as nat));
        text
    } else {
        decimal_number(n as u64)
    }
}

/// Writes `n` in hexadecimal, with `0x` in front.
pub fn hexadecimal(n: usize) -> (text: String)
    ensures
        text@ == hexadecimal_of(n as nat),
{
    proof {
        reveal_strlit("0x");
    }
    let mut text: String = String::from_str("0x");
    text.append(hexadecimal_number(n as u64).as_str());
    assert(text@ =~= seq!['0', 'x'] + hexadecimal_digits(n as nat));
    text
}

/// The place `line` as text: the file, a colon, and the number of the line.
pub open spec fn line_text_of(line: Line) -> Seq<char> {
    line.file@ + seq![':'] + decimal_of(line.number as int)
}

/// The signal `signal` as text: its name, where it has one, else its number.
pub open spec fn signal_text_of(signal: i32, name: Option<Seq<char>>) -> Seq<char> {
    match name {
        Some(name) => name,
        None => decimal_of(signal as int),
    }
}

/// The fault `fault` as text, where `name` is the name of the error number.
pub open spec fn fault_text_of(fault: Fault, name: Seq<char>) -> Seq<char> {
    match fault {
        Fault::Os(_) => name,
        Fault::Protocol => "unexpected reply"@,
        Fault::Frame(base) => "no return address above frame base "@ + hexadecimal_of(
            base as nat,
        ),
    }
}

/// The message `message` as text. `name` is the text of the signal or of the
/// fault, for the messages that hold one.
pub open spec fn text_of(message: Message, name: Seq<char>) -> Seq<char> {
    match message {
        Message::Killing(pid) => "Killing inferior "@ + decimal_of(pid as int),
        Message::StartFailed => "Error starting subprocess"@,
        Message::NothingToContinue => "No inferior to continue"@,
        Message::NothingRunning => "No inferior running"@,
        Message::Exited(code) => "Inferior exited with code "@ + decimal_of(code as int),
        Message::Killed(_) => "Inferior was killed by signal "@ + name,
        Message::Stopped(_) => "Inferior stopped due to signal "@ + name,
        Message::StoppedAt(line) => "Stopped at "@ + line_text_of(line),
        Message::BreakpointSet(addr) => "Set breakpoint at address "@ + hexadecimal_of(
            addr as nat,
        ),
        Message::InvalidAddress => "Invalid address"@,
        Message::BreakpointFailed(_, _) => "Error setting breakpoint: "@ + name,
        Message::Frame { function, line } => function@ + " ("@ + (match line {
            Some(line) => line_text_of(line),
            None => "?"@,
        }) + ")"@,
        Message::TraceFailed(_) => "Error: "@ + name,
        Message::Unrecognized => "Unrecognized command."@,
        Message::Interrupted => "Type \"quit\" to exit"@,
    }
}

/// The name of the signal `signal` on this machine, if it has one.
///
/// Calls `nix::sys::signal::Signal::try_from` and, where that gives a signal,
/// `Signal::as_str`. Which number stands for which signal depends on the
/// operating system, so the contract claims nothing of the result.
#[verifier::external_body]
fn signal_name(signal: i32) -> (name: Option<String>) {
    match nix::sys::signal::Signal::try_from(signal) {
        Ok(known) => Some(known.as_str().to_string()),
        Err(_) => None,
    }
}

/// The name of the error number `errno` on this machine.
///
/// Calls `nix::errno::Errno::from_raw` and formats the result with `{:?}`,
/// which gives the name of the variant. Which number stands for which error
/// depends on the operating system, so the contract claims nothing of the
/// result.
#[verifier::external_body]
fn errno_name(errno: i32) -> (name: String) {
    format!("{:?}", nix::errno::Errno::from_raw(errno))
}

/// Writes the place `line`.
pub fn line_text(line: &Line) -> (text: String)
    ensures
        text@ == line_text_of(*line),
{
    proof {
        reveal_strlit(":");
    }
    let number: i64 = if line.number <= i64::MAX as usize {
        line.number as i64
    } else {
        i64::MAX
    };
    let mut text: String = line.file.clone();
    text.append(":");
    if line.number <= i64::MAX as usize {
        text.append(decimal(number).as_str());
    } else {
        text.append(decimal_number(line.number as u64).as_str());
    }
    assert(text@ =~= line_text_of(*line));
    text
}

/// Writes the signal `signal`, by the name `name` if there is one.
pub fn signal_text(signal: i32, name: Option<String>) -> (text: String)
    ensures
        text@ == signal_text_of(
            signal,
            match name {
                Some(name) => Some(name@),
                None => None,
            },
        ),
{
    match name {
        Some(name) => name,
        None => decimal(signal as i64),
    }
}

/// Writes the fault `fault`, where `name` is the name of the error number.
pub fn fault_text(fault: Fault, name: &str) -> (text: String)
    ensures
        text@ == fault_text_of(fault, name@),
{
    match fault {
        Fault::Os(_) => String::from_str(name),
        Fault::Protocol => String::from_str("unexpected reply"),
        Fault::Frame(base) => {
            let mut text: String = String::from_str("no return address above frame base ");
            text.append(hexadecimal(base).as_str());
            text
        },
    }
}

/// Writes `message`, with `name` as the text of its signal or fault.
pub fn text_with(message: &Message, name: &str) -> (text: String)
    ensures
        text@ == text_of(*message, name@),
{
    match message {
        Message::Killing(pid) => {
            let mut text: String = String::from_str("Killing inferior ");
            text.append(decimal(*pid as i64).as_str());
            text
        },
        Message::StartFailed => String::from_str("Error starting subprocess"),
        Message::NothingToContinue => String::from_str("No inferior to continue"),
        Message::NothingRunning => String::from_str("No inferior running"),
        Message::Exited(code) => {
            let mut text: String = String::from_str("Inferior exited with code ");
            text.append(decimal(*code as i64).as_str());
            text
        },
        Message::Killed(_) => {
            let mut text: String = String::from_str("Inferior was killed by signal ");
            text.append(name);
            text
        },
        Message::Stopped(_) => {
            let mut text: String = String::from_str("Inferior stopped due to signal ");
            text.append(name);
            text
        },
        Message::StoppedAt(line) => {
            let mut text: String = String::from_str("Stopped at ");
            text.append(line_text(line).as_str());
            text
        },
        Message::BreakpointSet(addr) => {
            let mut text: String = String::from_str("Set breakpoint at address ");
            text.append(hexadecimal(*addr).as_str());
            text
        },
        Message::InvalidAddress => String::from_str("Invalid address"),
        Message::BreakpointFailed(_, _) => {
            let mut text: String = String::from_str("Error setting breakpoint: ");
            text.append(name);
            text
        },
        Message::Frame { function, line } => {
            let mut text: String = function.clone();
            text.append(" (");
            match line {
                Some(line) => text.append(line_text(line).as_str()),
                None => text.append("?"),
            }
            text.append(")");
            text
        },
        Message::TraceFailed(_) => {
            let mut text: String = String::from_str("Error: ");
            text.append(name);
            text
        },
        Message::Unrecognized => String::from_str("Unrecognized command."),
        Message::Interrupted => String::from_str("Type \"quit\" to exit"),
    }
}

/// Whether `text` is the message `message` as text, under some name for its
/// signal or for its error number.
pub open spec fn is_text_of(message: Message, text: Seq<char>) -> bool {
    match message {
        Message::Killed(signal) => exists|name: Option<Seq<char>>|
            text == text_of(message, #[trigger] signal_text_of(signal, name)),
        Message::Stopped(signal) => exists|name: Option<Seq<char>>|
            text == text_of(message, #[trigger] signal_text_of(signal, name)),
        Message::BreakpointFailed(_, fault) => exists|name: Seq<char>|
            text == text_of(message, #[trigger] fault_text_of(fault, name)),
        Message::TraceFailed(fault) => exists|name: Seq<char>|
            text == text_of(message, #[trigger] fault_text_of(fault, name)),
        _ => text == text_of(message, Seq::empty()),
    }
}

impl Message {
    /// The message as text, to be shown to the user.
    ///
    /// A signal is written by the name that it has on this machine, or by its
    /// number if it has none; an error number is written by its name on this
    /// machine.
    pub fn text(&self) -> (text: String)
        ensures
            is_text_of(*self, text@),
    {
        match self {
            Message::Killed(signal) | Message::Stopped(signal) => {
                let name: Option<String> = signal_name(*signal);
                let ghost given: Option<Seq<char>> = if name is Some {
                    Some(name->0@)
                } else {
                    None
                };
                let shown: String = signal_text(*signal, name);
                let text: String = text_with(self, shown.as_str());
                assert(text@ == text_of(*self, signal_text_of(*signal, given)));
                text
            },
            Message::BreakpointFailed(_, fault) | Message::TraceFailed(fault) => {
                let name: String = match fault {
                    Fault::Os(errno) => errno_name(*errno),
                    _ => String::new(),
                };
                let shown: String = fault_text(*fault, name.as_str());
                let text: String = text_with(self, shown.as_str());
                assert(text@ == text_of(*self, fault_text_of(*fault, name@)));
                text
            },
            _ => text_with(self, ""),
        }
    }
}

} // verus!
