//! The verified core of a relay that carries game traffic for clients
//! behind WebSocket and WebTransport connections: the wire formats, the
//! command language, the private address network and the small services
//! the relay answers itself.

pub mod codec;
pub mod addr;
mod random;
pub mod text;
pub mod net;
pub mod service;
pub mod commands;
pub mod dnsproxy;
pub mod settings;
pub mod connectproxy;
pub mod vpn;
pub mod session;
