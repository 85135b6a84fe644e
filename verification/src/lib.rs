//! Schema-driven command-line parsing for resource-constrained targets.
//!
//! A command schema describes flags, options, positional arguments and an
//! optional nested subcommand. The parsing engine runs a small state machine
//! over an already tokenized line and yields either a typed command value or
//! one precise error.

pub mod arguments;
pub mod command;
pub mod derive;
pub mod machine;
pub mod parse;
pub mod schema;
pub mod service;
pub mod states;
pub mod theorems;
pub mod utils;

pub use crate::derive::derive_command;
pub use crate::machine::create_option_name_arm;
pub use crate::parse::derive_from_raw;
pub use crate::utils::trim_start;
