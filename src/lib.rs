//! A reverse HTTP proxy's decision logic: admission control, virtual-host
//! and path routing, certificate selection, header hygiene, connection
//! lifecycle and supervision outcomes.
pub mod admission;
pub mod names;
pub mod error;
pub mod routing;
pub mod certs;
pub mod connection;
pub mod headers;
pub mod forwarded;
pub mod handler;
pub mod globals;
pub mod supervisor;
pub mod proxy;
