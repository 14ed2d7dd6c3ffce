//! The decisions of a node-local S3 read/write accelerator: where a chunk lives,
//! how a body is cut onto the chunk grid, what may be staged, who fills the cache,
//! and what a request is answered.
//!
//! Everything here computes on plain values and on the byte buffers of the `bytes`
//! crate. Sockets, clocks, locks and storage belong to the program around it.

pub mod answer;
pub mod blob;
pub mod chunk;
pub mod clock;
pub mod cluster;
pub mod deliver;
pub mod fill;
pub mod headers;
pub mod metrics;
pub mod names;
pub mod peer;
pub mod place;
pub mod preflight;
pub mod procfs;
pub mod proxy;
pub mod read;
pub mod scatter;
pub mod scrape;
pub mod series;
pub mod staging;
pub mod table;
pub mod target;
pub mod text;
pub mod write;
