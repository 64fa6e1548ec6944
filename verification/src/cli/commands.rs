//! The subcommands of the `pulse` program.
use vstd::prelude::*;

verus! {

/// What `pulse` does besides opening the interface.
#[derive(Debug, Clone, Copy, PartialEq, Eq, Structural)]
pub enum Commands {
    /// Print a one-shot summary of CPU, memory and uptime.
    Status,
    /// Print the busiest processes, refreshed each second.
    Top,
}

} // verus!
