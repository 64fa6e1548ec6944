//! Collection of process and system metrics from `/proc` text, and the
//! accounting built on it.
pub mod collector;
pub mod process;
pub mod cpu;
pub mod memory;
pub mod model;
pub mod state;
pub mod snapshot;
pub mod engine;
pub mod view;
