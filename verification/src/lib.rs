//! Windows helper toolkit: Steam VDF documents, Apex configuration files,
//! `netsh` port-proxy rules, registry command builders and the text handling
//! they share, with their behaviour stated as Verus contracts.

pub mod text;
pub mod numeric;
pub mod path;
pub mod port_forwarding;
pub mod registry;
pub mod vdf;
pub mod game;
pub mod utils;
