//! JSON-RPC: the answer to each request, and finding the request in what
//! arrived over the wire.

pub mod handler;
pub mod server;
