//! A small interactive command shell, split into three verified parts:
//! a line editor driven one key event at a time, a parser that turns a
//! submitted line into a list of commands, and a dispatcher that decides
//! what each command should do.  Terminal rendering, process spawning and
//! the other outward-facing work live with the callers of this crate.

pub mod cli;
pub mod errors;
pub mod keys;
pub mod parse;
pub mod run;
pub mod text;
pub mod ui;
