//! Command-line options declared in a schema and handed to `getopts`.
//!
//! A schema names the options of a program. This library checks the leading
//! marker argument, registers the schema's entries (and a built-in help flag)
//! with a `getopts::Options`, parses the remaining arguments, and reports every
//! failure as a [`error::SetupError`].

pub mod engine;
pub mod error;
pub mod schema;
pub mod setup;

pub use crate::setup::getopt_setup;
