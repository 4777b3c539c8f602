//! Agent execution core: the verified logic of an LLM coding agent.
//!
//! The crate models the four coupled subsystems of the agent runtime as
//! functions on plain values with exact contracts: the streaming tool-call
//! parser, the sentinel-based command executor, the tool dispatcher, and the
//! dual-persona agent loop.  Process, terminal and network plumbing live
//! outside the library and exchange plain values with it.

pub mod agent;
pub mod autodebug;
pub mod dispatch;
pub mod executor;
pub mod gateway;
pub mod numfmt;
pub mod parser;
pub mod parser_laws;
pub mod paths;
pub mod profile;
pub mod protocol;
pub mod session;
pub mod shell;
pub mod syntax;
pub mod text;
