//! A publish-subscribe server core: the topic and peer registries, the
//! wire format of the server's messages, and the decisions the server
//! takes on each message, all verified with Verus.

pub mod config;
pub mod discovery;
pub mod message;
pub mod router;
pub mod server;
pub mod util;
pub mod websocket;
