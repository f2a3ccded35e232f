//! The interactive session: its state, and how a key changes it.

pub mod appstate;
pub mod event_handler;
pub mod renderer;
pub mod session;
