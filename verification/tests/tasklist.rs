use windows_tool::game::apex::{apex_listed_in_tasklist, apex_process_names};
use windows_tool::game::ea_logs::{ea_listed_in_tasklist, ea_process_names, str_ascii_lower};
use windows_tool::game::steam::steam_listed_in_tasklist;

#[test]
fn steam_match_is_case_sensitive() {
    assert!(steam_listed_in_tasklist("\"steam.exe\",\"1234\",\"Console\""));
    assert!(!steam_listed_in_tasklist("\"Steam.exe\",\"1234\""));
    assert!(!steam_listed_in_tasklist("INFO: No tasks are running which match the specified criteria."));
}

#[test]
fn apex_match_lowercases_the_output() {
    assert_eq!(apex_process_names(), vec!["r5apex.exe", "r5apex_dx12.exe"]);
    assert!(apex_listed_in_tasklist("\"R5Apex.EXE\",\"99\"", "r5apex.exe"));
    assert!(!apex_listed_in_tasklist("\"r5apex.exe\"", "R5apex.exe"));
    assert!(!apex_listed_in_tasklist("nothing", "r5apex.exe"));
}

#[test]
fn ea_match_lowercases_both() {
    assert_eq!(ea_process_names(), vec!["EADesktop.exe", "EALauncher.exe", "EABackgroundAgent.exe", "EASteamProxy.exe"]);
    assert!(ea_listed_in_tasklist("\"EADESKTOP.EXE\",\"5\"", "EADesktop.exe"));
    assert!(!ea_listed_in_tasklist("\"EALauncher.exe\"", "EADesktop.exe"));
    assert_eq!(str_ascii_lower("AbÇ-Z"), "abÇ-z");
}
