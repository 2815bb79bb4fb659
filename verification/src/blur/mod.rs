//! Backdrop blur: what is captured behind each frosted window, when it is
//! refreshed, and what is kept between frames.

pub mod backdrop;
pub mod backoff;
pub mod cache;
pub mod cadence;
pub mod extent;
pub mod fingerprint;
pub mod mask;
pub mod passes;
pub mod plan;
pub mod scratch;
pub mod window;
