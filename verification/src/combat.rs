//! Damage bookkeeping.
pub mod boss_fights;
pub mod calculator_laws;
pub mod choice_laws;
pub mod data_storage;
pub mod details_laws;
pub mod dps_calculator;
pub mod entry_laws;
pub mod game_data;
pub mod job_cache;
pub mod meter;
pub mod meter_laws;
pub mod name_laws;
pub mod names;
pub mod overview;
pub mod overview_laws;
pub mod packet_log;
pub mod ping_tracker;
pub mod reading_laws;
pub mod record_laws;
pub mod storage_laws;
pub mod storage_model;
pub mod stored_laws;
pub mod target_details;
pub mod target_selection;
