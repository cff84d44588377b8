use windows_tool::registry::backups::{elevated_export_script, explorer_registry_key, ps_single_quoted_segment, reg_export_args};
use windows_tool::registry::common_folders::{
    folder_path, hide_folder, is_known_common_folder_key, known_common_folder_keys, policy_state, show, FolderSwitch,
};
use windows_tool::registry::modify_windows_update_flight_settings_max_pause_days;
use windows_tool::registry::steam::{
    get_active_user_steam_local_config_path_by_registry, get_steam_libraryfolders_config_path_by_registry,
    get_steam_local_config_vdf_path_by_user_id,
};

#[test]
fn pause_days_command() {
    let run = modify_windows_update_flight_settings_max_pause_days(35).unwrap();
    assert_eq!(
        run.command,
        "reg add \"HKLM\\SOFTWARE\\Microsoft\\WindowsUpdate\\UX\\Settings\" /v FlightSettingsMaxPauseDays /t reg_dword /d 35 /f"
    );
    assert!(run.options.hide_window && !run.options.use_admin && run.options.print_command);
    assert_eq!(
        modify_windows_update_flight_settings_max_pause_days(366).unwrap_err(),
        "暂停天数超出范围(0..=365): 366"
    );
    assert_eq!(
        modify_windows_update_flight_settings_max_pause_days(-1).unwrap_err(),
        "暂停天数超出范围(0..=365): -1"
    );
    assert!(modify_windows_update_flight_settings_max_pause_days(0).is_ok());
    assert!(modify_windows_update_flight_settings_max_pause_days(365).is_ok());
}

#[test]
fn common_folders() {
    let keys = known_common_folder_keys();
    assert_eq!(keys.len(), 7);
    assert!(keys.contains(&"DOCUMENTS"));
    assert!(is_known_common_folder_key("3D_OBJECTS"));
    assert!(!is_known_common_folder_key("documents"));
    assert_eq!(
        folder_path("DESKTOP").unwrap(),
        "SOFTWARE\\Microsoft\\Windows\\CurrentVersion\\Explorer\\FolderDescriptions\\{B4BFCC3A-DB2C-424C-B029-7FE99A87C641}\\PropertyBag"
    );
    assert_eq!(folder_path("X").unwrap_err(), "未知常用文件夹 key: X");
    let obj = "SOFTWARE\\Microsoft\\Windows\\CurrentVersion\\Explorer\\MyComputer\\NameSpace\\{0DB7E03F-FC29-4DC6-9020-FF41B59E513A}";
    assert_eq!(show("3D_OBJECTS").unwrap(), FolderSwitch::CreateKey(obj));
    assert_eq!(hide_folder("3D_OBJECTS").unwrap(), FolderSwitch::DeleteKey(obj));
    match hide_folder("MUSIC").unwrap() {
        FolderSwitch::SetPolicy(k, p) => {
            assert!(k.contains("a0c69a99-21c8-4671-8703-7934162fcf1d"));
            assert_eq!(p, "Hide");
        },
        other => panic!("unexpected {:?}", other),
    }
    assert_eq!(show("nope").unwrap_err(), "未知常用文件夹 key: nope");
}

#[test]
fn policy_values() {
    assert!(policy_state("Show"));
    assert!(!policy_state("Hide\0\0"));
    assert!(!policy_state("  hIDE "));
    assert!(policy_state("garbled"));
    assert!(policy_state(""));
}

#[test]
fn export_commands() {
    assert_eq!(ps_single_quoted_segment("it's"), "'it''s'");
    assert_eq!(ps_single_quoted_segment(""), "''");
    assert_eq!(reg_export_args("K", "F"), vec!["EXPORT", "K", "F", "/y"]);
    assert_eq!(explorer_registry_key(), "HKLM\\SOFTWARE\\Microsoft\\Windows\\CurrentVersion\\Explorer");
    assert_eq!(
        elevated_export_script("HKLM\\X", "C:\\a'b.reg"),
        "$p = Start-Process -FilePath reg.exe -Verb RunAs -ArgumentList @('EXPORT', 'HKLM\\X', 'C:\\a''b.reg', '/y') -Wait -PassThru; if ($null -eq $p -or $null -eq $p.ExitCode) { exit 1 }; exit $p.ExitCode"
    );
}

#[test]
fn steam_paths() {
    assert_eq!(
        get_active_user_steam_local_config_path_by_registry("c:/program files (x86)/steam", 123),
        "c:/program files (x86)/steam\\userdata\\123\\config\\localconfig.vdf"
    );
    assert_eq!(
        get_steam_local_config_vdf_path_by_user_id("C:\\Steam\\", 9),
        "C:\\Steam\\userdata\\9\\config\\localconfig.vdf"
    );
    assert_eq!(
        get_steam_libraryfolders_config_path_by_registry("C:\\Steam"),
        "C:\\Steam\\steamapps\\libraryfolders.vdf"
    );
}
