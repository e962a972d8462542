//! Verified core of an agent orchestration toolkit: memory search,
//! markdown memory files, session logs and team tools.

pub mod agents;
pub mod chat;
pub mod cli;
pub mod error;
pub mod grouping;
pub mod json;
pub mod logs;
pub mod memory;
pub mod numbers;
pub mod overlay;
pub mod session;
pub mod schema;
pub mod sorting;
pub mod text;
pub mod tool;
pub mod transport;
pub mod types;
pub mod web;
