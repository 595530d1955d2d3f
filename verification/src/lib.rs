//! Building blocks for scoring keyboard layouts on a 30-key grid: position
//! geometry, a symbol codec, integer cost tables and a pin-aware shuffle.

pub mod codec;
pub mod keyboard;
pub mod language;
pub mod layout;
pub mod position;
pub mod shuffle;
pub mod tables;
pub mod text;
pub mod utility;
