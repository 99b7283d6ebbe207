//! A reverse-proxy forwarding engine: header sanitation, forward URI
//! composition, upgrade negotiation and error mapping, verified with Verus.
pub mod config;
pub mod headers;
pub mod proxy;
pub mod text;
pub mod uri;
