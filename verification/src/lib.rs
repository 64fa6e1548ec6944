//! Pulse: the data model, `/proc` parsers, CPU accounting, view projection and
//! interface state machine of a Linux observability console, with their
//! contracts proved by Verus.
pub mod text;
pub mod common;
pub mod system;
pub mod tui;
pub mod cli;
