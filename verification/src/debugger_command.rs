//! The commands of the debugger's prompt.

use crate::text::{same_text, texts, token_texts};
use vstd::prelude::*;

verus! {

/// A command, as typed at the prompt.
#[derive(Clone, Debug, PartialEq, Eq)]
pub enum DebuggerCommand {
    /// End the session.
    Quit,
    /// Let the process run on.
    Continue,
    /// Start the target anew, with these arguments.
    Run(Vec<String>),
    /// Show the call stack of the process.
    Backtrace,
    /// Break at the place that the text names.
    Breakpoint(String),
}

/// What a `DebuggerCommand` says, with its strings as sequences of characters.
pub enum CommandText {
    Quit,
    Continue,
    Run(Seq<Seq<char>>),
    Backtrace,
    Breakpoint(Seq<char>),
}

impl View for DebuggerCommand {
    type V = CommandText;

    open spec fn view(&self) -> CommandText {
        match *self {
            DebuggerCommand::Quit => CommandText::Quit,
            DebuggerCommand::Continue => CommandText::Continue,
            DebuggerCommand::Run(args) => CommandText::Run(texts(args@)),
            DebuggerCommand::Backtrace => CommandText::Backtrace,
            DebuggerCommand::Breakpoint(target) => CommandText::Breakpoint(target@),
        }
    }
}

/// Whether `w` is one of the names of `quit`.
pub open spec fn is_quit_word(w: Seq<char>) -> bool {
    w == "q"@ || w == "quit"@
}

/// Whether `w` is one of the names of `run`.
pub open spec fn is_run_word(w: Seq<char>) -> bool {
    w == "r"@ || w == "run"@
}

/// Whether `w` is one of the names of `continue`.
pub open spec fn is_continue_word(w: Seq<char>) -> bool {
    w == "c"@ || w == "cont"@ || w == "continue"@
}

/// Whether `w` is one of the names of `backtrace`.
pub open spec fn is_backtrace_word(w: Seq<char>) -> bool {
    w == "bt"@ || w == "back"@ || w == "backtrace"@
}

/// Whether `w` is one of the names of `break`.
pub open spec fn is_break_word(w: Seq<char>) -> bool {
    w == "b"@ || w == "break"@ || w == "breakpoint"@
}

/// The command that a line's tokens spell, if they spell one.
///
/// The first token names the command. `run` takes the remaining tokens as the
/// arguments of the program; `break` takes exactly one more token, the place to
/// break at; the other commands ignore what follows.
pub open spec fn command_of(tokens: Seq<Seq<char>>) -> Option<CommandText> {
    if tokens.len() == 0 {
        None
    } else if is_quit_word(tokens[0]) {
        Some(CommandText::Quit)
    } else if is_run_word(tokens[0]) {
        Some(CommandText::Run(tokens.skip(1)))
    } else if is_continue_word(tokens[0]) {
        Some(CommandText::Continue)
    } else if is_backtrace_word(tokens[0]) {
        Some(CommandText::Backtrace)
    } else if is_break_word(tokens[0]) && tokens.len() == 2 {
        Some(CommandText::Breakpoint(tokens[1]))
    } else {
        None
    }
}

impl DebuggerCommand {
    /// Reads a command from the tokens of a line.
    pub fn from_tokens(tokens: &Vec<&str>) -> (command: Option<DebuggerCommand>)
        ensures
            match command {
                Some(c) => command_of(token_texts(tokens@)) == Some(c@),
                None => command_of(token_texts(tokens@)) is None,
            },
    {
        if tokens.len() == 0 {
            return None;
        }
        let ghost words = token_texts(tokens@);
        let first: &str = tokens[0];
        assert(words[0] == first@);
        if same_text(first, "q") || same_text(first, "quit") {
            Some(DebuggerCommand::Quit)
        } else if same_text(first, "r") || same_text(first, "run") {
            let mut args: Vec<String> = Vec::new();
            let mut i: usize = 1;
            while i < tokens.len()
                invariant
                    1 <= i <= tokens.len(),
                    words == token_texts(tokens@),
                    args@.len() == i - 1,
                    forall|j: int| 0 <= j < args@.len() ==> (#[trigger] args@[j])@ == words[j + 1],
                decreases tokens.len() - i,
            {
                let token: &str = tokens[i];
                let owned: String = token.to_owned();
                assert(owned@ == words[i as int]);
                args.push(owned);
                i = i + 1;
            }
            assert(texts(args@) =~= words.skip(1));
            Some(DebuggerCommand::Run(args))
        } else if same_text(first, "c") || same_text(first, "cont") || same_text(
            first,
            "continue",
        ) {
            Some(DebuggerCommand::Continue)
        } else if same_text(first, "bt") || same_text(first, "back") || same_text(
            first,
            "backtrace",
        ) {
            Some(DebuggerCommand::Backtrace)
        } else if same_text(first, "b") || same_text(first, "break") || same_text(
            first,
            "breakpoint",
        ) {
            if tokens.len() == 2 {
                assert(words[1] == tokens[1]@);
                let place: &str = tokens[1];
                Some(DebuggerCommand::Breakpoint(place.to_owned()))
            } else {
                None
            }
        } else {
            None
        }
    }
}

} // verus!
