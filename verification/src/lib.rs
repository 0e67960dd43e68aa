//! Session-status dashboard core: event-sourced state detection for
//! interactive assistant sessions running in a terminal multiplexer.
//!
//! The library holds the verified logic only: log-record parsing, state
//! resolution, the content-diff activity tracker, selection handling and the
//! text-level pieces of the renderer.  All I/O (the multiplexer process,
//! the terminal, the file system) lives outside, in thin adapters that hand
//! plain values in and out.

pub mod cli;
pub mod events;
pub mod hooks;
pub mod input;
pub mod resolve;
pub mod resume;
pub mod state;
pub mod text;
pub mod tmux;
pub mod view;
