//! Resolving window titles to the processes behind them, and ending those
//! processes.
//!
//! A [`registry::TitleRegistry`] holds the titles that were asked for, each
//! with a slot for a process id. The resolver fills the slots from the
//! window manager's client list, and the terminator walks the registry and
//! ends every process that was found.

pub mod clients;
pub mod decimal;
pub mod errors;
pub mod json;
pub mod notices;
pub mod registry;
pub mod resolver;
pub mod terminator;
