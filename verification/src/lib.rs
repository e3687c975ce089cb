//! A dynamic-batching request scheduler for a sharded text-generation
//! backend: an admission gate bounding concurrent requests, an ordered
//! queue of admitted requests, a single-dispatcher batching loop with
//! opportunistic in-flight batch extension, and fan-out of per-token
//! generations to per-request streams.

pub mod channel;
pub mod dispatch;
pub mod entry;
pub mod infer;
pub mod queue;
pub mod request;
pub mod response;
pub mod stream;

pub use infer::Infer;
pub use stream::InferError;
