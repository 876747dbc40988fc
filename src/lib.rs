//! Verified core of a forwarding HTTP gateway: HTML URL rewriting, proxy-path
//! resolution, the session gate, header filtering and error mapping.
pub mod gateway;
pub mod headers;
pub mod resolve;
pub mod rewrite;
pub mod text;
