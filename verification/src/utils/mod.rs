//! Small helpers shared by the rest of the crate: IPv4 text checks, digit
//! tests on strings, the `\0`-separated Steam user-config fields, options of
//! the command runner and the byte-size standards.

pub mod ascii;
pub mod command;
pub mod hex;
pub mod net;
pub mod output;
pub mod string;
pub mod time;
pub mod unit_conversion;

pub use ascii::Str;
pub use command::{CommandRun, RunCommandOptions};
pub use net::check_ipv4_by_string;
