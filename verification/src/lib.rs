//! Session and authorization control plane of an SSH chat lounge.
//!
//! The crate holds the rules of the lounge: who may log in, what a typed
//! line means, how the shared indexes change when somebody joins, leaves,
//! is banned or when the authorization file is reloaded, and what each
//! client gets to see.  Transport, terminal drawing and file access are the
//! caller's business; the library is handed plain values and answers with
//! plain values.

pub mod authfile;
pub mod command;
pub mod entity;
pub mod error;
pub mod history;
pub mod invariants;
pub mod keymap;
pub mod keys;
pub mod laws;
pub mod lookup;
pub mod message;
pub mod model;
pub mod roster;
pub mod seqs;
pub mod server;
pub mod terminal_handle;
pub mod text;
pub mod ui;

pub use command::Command;
pub use server::{AppServer, Client};
