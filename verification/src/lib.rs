//! Core logic of a topic-oriented messaging fabric: the binary frame codec
//! and per-stream state machine, the segmented append-only message log with
//! its memory-mapped index, the broker's topic plane (pub/sub fan-out and
//! request/reply correlation), and the client-side keep-alive machinery.

pub mod batching;
pub mod builder;
pub mod client;
pub mod dispatch;
pub mod codec;
pub mod errors;
pub mod frame;
pub mod index;
pub mod keep_alive;
pub mod log;
pub mod pubsub;
pub mod reqrep;
pub mod topic_name;
