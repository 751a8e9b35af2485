//! The Blossom lane: hash-addressed blobs over a Link stream.
//!
//! * `wire` is the request and response codec.
//! * `serve` answers requests from a blob store.
//! * `fetch` reads a URL, its source and a response.
pub mod fetch;
pub mod serve;
pub mod wire;
