//! Language-server support: symbol records, the workspace-symbol request,
//! and the decisions of the server's message loop.

pub mod context;
pub mod handlers;
pub mod server;
