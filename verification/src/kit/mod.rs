//! OrbitKit: ready-made components (button, input, card, layout), themes
//! and small string and number utilities.
pub mod components;
pub mod theme;
pub mod utils;
