//! A networked key/value store: length-prefixed wire protocol, request
//! codec, storage-engine interface, and the per-connection dispatch logic.
//!
//! The verified core is everything that does not touch a socket: the frame
//! layer (`wire`), the payload codec (`codec`), the protocol data types
//! (`protocol`), the engine capability contract and an in-memory engine
//! (`engine`), the server-side dispatch (`server`), and the client-side
//! request building and response interpretation (`client`). Socket I/O,
//! thread management and argument parsing live outside the library and hand
//! it plain byte vectors.

pub mod client;
pub mod codec;
pub mod engine;
pub mod error;
pub mod protocol;
pub mod server;
pub mod wire;

pub use engine::KvsEngine;
pub use engine::MemStore;
pub use error::KvsError;
pub use protocol::Request;
pub use protocol::Response;
pub use server::KvsServer;
