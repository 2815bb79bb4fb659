//! Decision logic of an infinite-canvas Wayland compositor: what each frame is
//! composed of, when its caches are refreshed, and how window, output and
//! focus state change.

pub mod blur;
pub mod capture;
pub mod chrome;
pub mod elements;
pub mod frame;
pub mod geometry;
pub mod help;
pub mod names;
pub mod outline;
pub mod region;
pub mod snap;
pub mod stage;
pub mod state;
pub mod text;
pub mod tiles;
