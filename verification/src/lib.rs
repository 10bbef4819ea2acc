//! A task manager that keeps each task as a text file in the working
//! directory.
//!
//! The library holds what is decided about commands, tasks and files:
//! reading the command line, reading an `add` command into a task and
//! writing the text of its file, and the task filter, which tells which
//! files of a directory listing are due or upcoming on a given day. It
//! touches neither the disk nor the terminal: directory listings and file
//! contents come in as values, reports go out as lines of text.

pub mod add;
pub mod command;
pub mod date;
pub mod filter;
pub mod text;
