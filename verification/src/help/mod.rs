//! The keyboard-shortcut overlay: what its rows say, how they are laid out in
//! columns, and where they are drawn on the card.

pub mod card;
pub mod describe;
pub mod overlay;
pub mod rows;
