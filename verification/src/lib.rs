//! Logic of a bridge that gives a chat client projects, memory, plans, files
//! and commands on this machine.
pub mod audit;
pub mod config;
pub mod digest;
pub mod encoding;
pub mod error;
pub mod ids;
pub mod json;
pub mod platform;
pub mod project;
pub mod request_context;
pub mod runtime_environment;
pub mod sandbox;
pub mod search;
pub mod server;
pub mod storage;
pub mod table;
pub mod text;
pub mod text_laws;
