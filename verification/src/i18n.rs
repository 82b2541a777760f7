//! Texts in the player's language.
pub mod lookup;
