//! The engine of a gateway multiplexer: one upstream session per shard, shared
//! by many local clients that each see a session of their own.
//!
//! The engine decides and computes; sockets, tasks and channels are its
//! caller's. What comes from upstream is taken in by [`shard::ShardState`],
//! which keeps the shard's READY and its guilds and says which frames go out
//! to the clients. What a client sends is judged by
//! [`session::ClientSession`]. What a client is sent is numbered by
//! [`forward::Forwarder`] and made ready for the socket by
//! [`writer::FrameWriter`], which compresses on the client's zlib stream where
//! the client asked for it.

pub mod compress;
pub mod config;
pub mod decimal;
pub mod event;
pub mod forward;
pub mod guilds;
pub mod protocol;
pub mod ready;
pub mod router;
pub mod scan;
pub mod session;
pub mod shard;
pub mod writer;
