//! A proxy in front of several Ollama backends: users with tokens, fair queues with VIP users, and
//! routing by model with limits per backend.

pub mod appstate;
pub mod auth;
pub mod backend;
pub mod clock;
pub mod delivery;
pub mod digest;
pub mod dispatcher;
pub mod headers;
pub mod health;
pub mod json;
pub mod laws;
pub mod logbuffer;
pub mod models;
pub mod protocol;
pub mod seqs;
pub mod strmap;
pub mod tags;
pub mod text;
pub mod tui;

pub use appstate::AppState;
pub use auth::UserRegistry;
pub use logbuffer::{LogBuffer, LogBufferWriter};
pub use protocol::{
    consumed_len, decode, encode, BackendSnapshot, DashboardCmd, DashboardSnapshot,
};
