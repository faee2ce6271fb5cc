//! An authenticated reverse proxy for Ollama, but for its input and output.

pub mod admin;
pub mod auth;
pub mod config;
pub mod connection_id;
pub mod error;
pub mod ids;
pub mod json;
pub mod langfuse;
pub mod metrics;
pub mod ollama;
pub mod processors;
pub mod proxy;
pub mod registry;
pub mod seqs;
pub mod state;
pub mod text;
pub mod time;
