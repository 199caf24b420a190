//! vava: the verified core of a small coding agent.

pub mod text;
pub mod deepseek_error;
pub mod stream;
pub mod message;
pub mod event;
pub mod error;
pub mod response;
pub mod translate;
pub mod json;
pub mod agent;
pub mod model;
pub mod request;
pub mod tool;
pub mod harness;
pub mod paths;
pub mod tools;
pub mod prompt;
pub mod persistence;
pub mod cli;
pub mod desktop;
pub mod tui;
