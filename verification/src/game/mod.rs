//! Game-specific data: Steam client files, Apex Legends, EA Desktop and PUBG.

pub mod apex;
pub mod ea;
pub mod ea_logs;
pub mod ea_profiles;
pub mod ea_users;
pub mod pubg;
pub mod steam;
