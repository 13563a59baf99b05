//! disbot: terminal sessions that run under tmux, reached from a browser and from a chat.
//!
//! This library holds what disbot decides and computes: which commands tmux is given, what its
//! answers mean, which sessions are known, who is listened to, and what is said. It performs no
//! input and no output itself. Where the next step depends on how the last one went, a value of the
//! library says what is to be done, and takes in how it went.

pub mod api;
pub mod clock;
pub mod command;
pub mod config;
pub mod error;
pub mod forward;
pub mod home;
pub mod number;
pub mod output;
pub mod registry;
pub mod screen;
pub mod session;
pub mod sync;
pub mod text;
pub mod tg;
pub mod tmux;
pub mod ws;
