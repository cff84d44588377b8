use windows_tool::game::ea::EaDesktopUser;
use windows_tool::game::ea_logs::{
    ea_desktop_user, ea_ini_id_from_file_name, normalize_ea_avatar_url, nuchash_from_line, nuchash_to_config_id,
    persona_from_get_profile_line, replace_all, user_ini_after_setuser, user_ini_id_from_line,
};

#[test]
fn nuchash_lines() {
    assert_eq!(nuchash_from_line("x setUserId nuchash=[ ABcd12 ] y"), Some("abcd12".to_string()));
    assert_eq!(nuchash_from_line("nuchash=[xyz]"), None);
    assert_eq!(nuchash_from_line("nuchash=[  ]"), None);
    assert_eq!(nuchash_from_line("nuchash=[abc"), None);
    assert_eq!(nuchash_from_line("no hash here"), None);
}

#[test]
fn ini_ids_in_lines() {
    assert_eq!(user_ini_id_from_line("open user_12.txt then user_345.ini"), Some("345".to_string()));
    assert_eq!(user_ini_id_from_line("user_.ini user_x.ini"), None);
    assert_eq!(user_ini_id_from_line("C:\\EA\\user_1000.ini"), Some("1000".to_string()));
}

#[test]
fn personas() {
    assert_eq!(
        persona_from_get_profile_line("GetProfileResponse: Persona=\"Hero\" Id=1"),
        Some("Hero".to_string())
    );
    assert_eq!(persona_from_get_profile_line("Persona=\"Hero\""), None);
    assert_eq!(persona_from_get_profile_line("GetProfileResponse Persona=\"\""), None);
    assert_eq!(persona_from_get_profile_line("GetProfileResponse Persona=\"open"), None);
}

#[test]
fn setuser_pairing() {
    let lines: Vec<String> = vec![
        "setUserId nuchash=[AA]".to_string(),
        "load user_1.ini".to_string(),
        "Unable to open file user_2.ini".to_string(),
        "setUserId nuchash=[bb]".to_string(),
        "user_3.ini".to_string(),
        "setUserId nuchash=[aa]".to_string(),
        "user_4.ini".to_string(),
    ];
    assert_eq!(user_ini_after_setuser(&lines, 0, 7), Some("2".to_string()));
    assert_eq!(user_ini_after_setuser(&lines, 3, 5), Some("3".to_string()));
    assert_eq!(user_ini_after_setuser(&lines, 3, 2), None);
    assert_eq!(user_ini_after_setuser(&lines, 0, 9), None);
    let pairs = nuchash_to_config_id(&lines);
    assert_eq!(
        pairs,
        vec![("aa".to_string(), "4".to_string()), ("bb".to_string(), "3".to_string())]
    );
}

#[test]
fn avatar_urls() {
    assert_eq!(
        normalize_ea_avatar_url("https://x/userAvatar/40x40/1.jpg?s=128X128"),
        "https://x/userAvatar/208x208/1.jpg?s=208x208"
    );
    assert_eq!(normalize_ea_avatar_url(""), "");
    assert_eq!(replace_all("aaa", "aa", "b"), "ba");
    assert_eq!(replace_all("abc", "x", "y"), "abc");
}

#[test]
fn users_from_ini() {
    let lines = vec![
        ("USER.EADisplayName".to_string(), "".to_string()),
        ("user.nickname".to_string(), "Nick".to_string()),
        ("user.avatarurl".to_string(), "https://a/40X40".to_string()),
        ("user.userid".to_string(), "999".to_string()),
    ];
    let u: EaDesktopUser = ea_desktop_user("1000", &lines, "C:\\user_1000.ini", "ab", None, None);
    assert_eq!(u.name, "Nick");
    assert_eq!(u.avatar, "https://a/208x208");
    assert_eq!(u.user_userid, "999");
    assert_eq!(u.id, "1000");
    let v = ea_desktop_user("7", &vec![], "p", "", Some("Persona"), Some("u"));
    assert_eq!((v.name.as_str(), v.avatar.as_str(), v.user_userid.as_str()), ("Persona", "u", ""));
    let w = ea_desktop_user("7", &vec![], "p", "", None, None);
    assert_eq!(w.name, "EA 7");
}

#[test]
fn ini_file_names() {
    assert_eq!(ea_ini_id_from_file_name("user_123.ini"), Some("123".to_string()));
    assert_eq!(ea_ini_id_from_file_name("user_.ini"), None);
    assert_eq!(ea_ini_id_from_file_name("user_12a.ini"), None);
    assert_eq!(ea_ini_id_from_file_name("settings.ini"), None);
}

#[test]
fn distinct_ini_files_give_distinct_ids() {
    let names = ["user_7.ini", "user_07.ini", "user_70.ini", "user_7.ini.bak", "xuser_7.ini"];
    let ids: Vec<Option<String>> = names.iter().map(|n| ea_ini_id_from_file_name(n)).collect();
    assert_eq!(ids[0], Some("7".to_string()));
    assert_eq!(ids[1], Some("07".to_string()));
    assert_eq!(ids[2], Some("70".to_string()));
    assert_eq!(ids[3], None);
    assert_eq!(ids[4], None);
    assert_ne!(ids[0], ids[1]);
    assert_ne!(ids[0], ids[2]);
}
