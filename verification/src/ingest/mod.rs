//! Compact blocks: their parts, their validation, and the streams made of them.

pub mod commitment;
pub mod dataset;
pub mod follow;
pub mod ironwood;
pub mod laws;
pub mod pipeline;
pub mod proto;
