//! The command line's subcommands.
pub mod commands;
