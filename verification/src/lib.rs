//! The core of a small debugger for native processes, proved with Verus, and
//! a few smaller pieces beside it.
//!
//! The debugger is a session (`debugger`) that owns a table of breakpoints
//! (`breakpoints`) and the controller of at most one traced process
//! (`inferior`). Neither touches a process: they hand out requests and take
//! replies (`protocol`), and the program around the library carries the
//! requests out. `guarantees` states what holds of every session, `patch`
//! changes single bytes of machine words, `utils` aligns and parses
//! addresses, `debugger_command` reads commands, and `report` puts into words
//! what a session has to say.
//!
//! Beside it: `rdiff` compares two texts line by line over a `grid`,
//! `linked_list` is a singly linked list, `hangman` holds the rules of a
//! word-guessing game, and `text` splits and trims strings.

pub mod breakpoints;
pub mod debugger;
pub mod debugger_command;
pub mod grid;
pub mod guarantees;
pub mod hangman;
pub mod inferior;
pub mod linked_list;
pub mod patch;
pub mod protocol;
pub mod rdiff;
pub mod report;
pub mod text;
pub mod utils;
