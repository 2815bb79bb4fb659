//! Backgrounds larger than memory: a pyramid of tiled images, cut into chunks
//! that are decoded, uploaded and evicted on demand.

pub mod cache;
pub mod grid;
pub mod lru;
pub mod pyramid;
pub mod tiff;
pub mod worker;
