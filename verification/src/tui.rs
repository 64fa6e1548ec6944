//! The interface's state, its projection of processes into rows, and its
//! reaction to input.
pub mod projection;
pub mod app;
pub mod input;
pub mod control;
pub mod display;
