//! Combat statistics for a damage meter.
pub mod bytes;
pub mod combat;
pub mod entity;
pub mod geometry;
pub mod i18n;
pub mod keys;
pub mod lookup_laws;
pub mod monitors;
pub mod overlay;
pub mod replay;
pub mod replay_laws;
pub mod row_laws;
pub mod session;
pub mod sums;
pub mod tallies;
pub mod text;
pub mod text_laws;
pub mod update;
pub mod window_laws;
