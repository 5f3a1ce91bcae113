//! The verified core of an MCP bridge to a Ghidra server.
//!
//! The server describes its endpoints, and [`schema`] turns the description into
//! MCP tools. Access is granted by OAuth 2.0: [`pkce`] checks the proof key of a
//! public client, and [`store`] runs the storage of codes and tokens, of which
//! [`database`] and [`shared`] state what it does to a database.

pub mod clock;
pub mod database;
pub mod json;
pub mod names;
pub mod pkce;
pub mod schema;
pub mod shared;
pub mod store;
mod text;
