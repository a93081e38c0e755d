//! Change the active video input of display monitors over DDC/CI.
//!
//! The library holds the decisions: how input sources are named and parsed,
//! how command-line arguments select monitors, which input a toggle picks,
//! and in which order the hardware is asked to read, write and settle.
//! The hardware itself is driven by the caller, which answers each
//! [`Request`] of a [`Cli`] run with a [`Reply`].
pub mod cli;
pub mod command;
pub mod decimal;
pub mod error;
pub mod input_source;
pub mod monitor;
pub mod text;

pub use cli::{Cli, Progress, Reply, Request, Waiting};
pub use command::{Command, split_assignment};
pub use error::Error;
pub use input_source::{InputSource, InputSourceRaw};
pub use monitor::Monitor;
