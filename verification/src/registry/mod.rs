//! Windows registry helpers: the Windows Update pause limit, the folders
//! shown under "This PC", export commands for backups, and Steam's keys.

pub mod backups;
pub mod common_folders;
pub mod steam;

use crate::text::{i64_to_string, int_to_dec, push_str};
use crate::utils::command::{CommandRun, RunCommandOptions};
use vstd::prelude::*;

verus! {

broadcast use vstd::string::group_string_axioms;

/// The `reg add` command that sets `FlightSettingsMaxPauseDays`.
pub open spec fn pause_days_cmd(days: int) -> Seq<char> {
    "reg add \"HKLM\\SOFTWARE\\Microsoft\\WindowsUpdate\\UX\\Settings\" /v FlightSettingsMaxPauseDays /t reg_dword /d "@
        + int_to_dec(days) + " /f"@
}

/// The run that sets how many days Windows Update may be paused (hidden,
/// not elevated, echoed); days outside `0..=365` are refused.
pub fn modify_windows_update_flight_settings_max_pause_days(days: i32) -> (r: Result<CommandRun, String>)
    ensures
        0 <= days <= 365 ==> (r matches Ok(c) && c.command@ == pause_days_cmd(days as int) && c.options.hide_window
            && !c.options.use_admin && c.options.print_command),
        !(0 <= days <= 365) ==> (r matches Err(e) && e@ == "暂停天数超出范围(0..=365): "@ + int_to_dec(days as int)),
{
    let d = i64_to_string(days as i64);
    if !(0 <= days && days <= 365) {
        let mut m = String::new();
        push_str(&mut m, "暂停天数超出范围(0..=365): ");
        push_str(&mut m, d.as_str());
        return Err(m);
    }
    let mut c = String::new();
    push_str(&mut c, "reg add \"HKLM\\SOFTWARE\\Microsoft\\WindowsUpdate\\UX\\Settings\" /v FlightSettingsMaxPauseDays /t reg_dword /d ");
    push_str(&mut c, d.as_str());
    push_str(&mut c, " /f");
    Ok(CommandRun { command: c, options: RunCommandOptions::new(true, false, true) })
}

} // verus!
