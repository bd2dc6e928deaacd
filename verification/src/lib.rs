//! Decision logic of the Chronicle transcription worker.

pub mod admin;
pub mod api_client;
pub mod collector;
pub mod config;
pub mod decode;
pub mod error;
pub mod event_loop;
pub mod ids;
pub mod job;
pub mod lanes;
pub mod operators;
pub mod outputs;
pub mod pipeline;
pub mod posting;
pub mod retry;
pub mod session_runner;
pub mod text;
pub mod time;
pub mod whisper;
pub mod worker;
pub mod ws;

pub use config::Config;
pub use error::WorkerError;
