//! Window, output and focus state.

pub mod activation;
pub mod cursor;
pub mod edge_pan;
pub mod fit;
pub mod focus;
pub mod interaction;
pub mod invariants;
pub mod layers;
pub mod lock;
pub mod membership;
pub mod mode;
pub mod output;
pub mod persistence;
pub mod pinned;
pub mod redraw;
pub mod reload;
pub mod render_cache;
