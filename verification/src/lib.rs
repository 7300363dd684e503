//! Process-control core of a small native-code debugger for x86-64 Linux,
//! together with a few self-contained data structures and algorithms.
//!
//! # The debugger
//!
//! The debugger launches nothing by itself: the embedding program spawns the
//! target under trace and hands its process id over. From there on this crate
//! waits for the target, patches and restores breakpoint traps, drives the
//! resume protocol and walks the frame-pointer chain.
//!
//! - [`word`]: arithmetic on the machine words through which target memory is
//!   read and written.
//! - [`tracee`]: the operations a traced process offers, and the replacement
//!   of one byte built on them.
//! - [`inferior`]: the traced process itself, reached through `ptrace`.
//! - [`breakpoint`]: the table of breakpoints and how its entries get into
//!   the target.
//! - [`engine`]: the resume protocol.
//! - [`unwind`]: the call stack.
//! - [`dwarf_data`]: the symbol tables.
//! - [`point`] and [`debugger_command`]: what the user types.
//! - [`debugger`]: the session that ties them together.
//! - [`status`]: the results that travel back up.
//!
//! # The rest
//!
//! - [`linked_list`]: a singly linked list.
//! - [`warmup`]: exercises on vectors.
//! - [`grid`] and [`rdiff`]: line-by-line comparison of texts.
//! - [`rwc`]: counting lines, words and characters.
//! - [`hangman`]: the word-guessing game.
//! - [`balancer`]: the decisions of an HTTP load balancer.
//! - [`text`] and [`chance`]: helpers for texts and random choices.

pub mod balancer;
pub mod breakpoint;
pub mod chance;
pub mod debugger;
pub mod debugger_command;
pub mod dwarf_data;
pub mod engine;
pub mod grid;
pub mod hangman;
pub mod inferior;
pub mod linked_list;
pub mod point;
pub mod rdiff;
pub mod rwc;
pub mod status;
pub mod text;
pub mod tracee;
pub mod unwind;
pub mod warmup;
pub mod word;
