//! Counting distinct source addresses per destination port: a frame
//! classifier, the bounded tables it fills, the sampler that drains them and
//! the windowed aggregator behind the query surface.

pub mod addr;
pub mod proto;
pub mod text;
pub mod table;
pub mod headers;
pub mod classifier;
pub mod structs;
pub mod sampler;
pub mod api;
pub mod args;
