//! What the meter deals in.
pub mod damage_packet;
pub mod details_context;
pub mod dps_data;
pub mod fight_record;
pub mod job_class;
pub mod personal_data;
pub mod special_damage;
pub mod summon_resolver;
pub mod target_info;
pub mod target_laws;
