//! ConnectRPC over Tauri IPC: the decisions of the transport, verified.
//!
//! The webview is the client and Rust hosts the services. Everything that the
//! transport decides stands here, with a contract: how the IPC envelopes are
//! written and read, how a synthetic HTTP request is built, which calls are in
//! flight, and which frames a response becomes. What awaits, spawns or talks to
//! a webview is left to the code around this crate.

pub mod body;
pub mod call;
pub mod codec;
pub mod deferred;
pub mod headers;
pub mod message;
pub mod plugin;
pub mod protobuf;
pub mod pump;
pub mod registry;
pub mod scheme;
pub mod testing;
pub mod wire;

pub use deferred::DeferredDispatcher;
pub use plugin::PLUGIN_NAME;
pub use registry::CallId;
pub use scheme::SCHEME;
